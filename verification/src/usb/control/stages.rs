//! Control transfers that are awaited, a stage at a time.
//!
//! A [`ControlRunner`] names the next stage of a control read or write, and is told
//! what came of it. Whoever runs tasks makes the stages, and waits for them.

use vstd::prelude::*;

use crate::program::{Exchange, Program};
use crate::usb::control;
use crate::usb::control::{Setup, MAX_NAK_RETRIES};
use crate::usb::dwc2::{ControlEndpoint, Reply, Transfer, TransferError, UsbHistory, UsbProgram};

verus! {

/// A stage of a control transfer.
#[derive(Clone, Copy, Debug, PartialEq, Eq, Structural)]
pub enum Stage {
    /// The SETUP packet.
    Setup,
    /// The data of a read.
    DataIn,
    /// The data of a write.
    DataOut,
    /// The empty packet that ends a write.
    StatusIn,
    /// The empty packet that ends a read.
    StatusOut,
}

/// Which way the data goes.
#[derive(Clone, Copy, Debug, PartialEq, Eq, Structural)]
pub enum Direction {
    Read,
    Write,
}

/// What a stage, or the whole, comes to: the bytes that came in, or why not.
pub type Moved = Result<usize, TransferError>;

/// A program over stages.
pub type StageProgram = Program<Stage, Moved, Moved>;

/// The stage that follows, unless the transfer is done.
pub open spec fn following(direction: Direction, stage: Stage) -> Option<Stage> {
    match (direction, stage) {
        (Direction::Read, Stage::Setup) => Some(Stage::DataIn),
        (Direction::Read, Stage::DataIn) => Some(Stage::StatusOut),
        (Direction::Write, Stage::Setup) => Some(Stage::DataOut),
        (Direction::Write, Stage::DataOut) => Some(Stage::StatusIn),
        _ => None,
    }
}

/// How many stages follow.
pub open spec fn stages_after(direction: Direction, stage: Stage) -> nat {
    match (direction, stage) {
        (_, Stage::Setup) => 2,
        (Direction::Read, Stage::DataIn) => 1,
        (Direction::Write, Stage::DataOut) => 1,
        _ => 0,
    }
}

/// The bytes that have come in once a stage has moved `count`.
pub open spec fn received_by(stage: Stage, received: usize, count: usize) -> usize {
    if stage == Stage::DataIn {
        count
    } else {
        received
    }
}

/// From a stage on, with so many tries for it: each is made until it is not answered
/// with NAK, and the first that fails is the end.
pub open spec fn from_stage(
    direction: Direction,
    stage: Stage,
    received: usize,
    tries: nat,
) -> StageProgram
    decreases stages_after(direction, stage), tries,
{
    if tries == 0 {
        Program::Return(Err(TransferError::NakTimeout))
    } else {
        Program::Request(
            stage,
            |moved: Moved|
                match moved {
                    Err(error) => if error == TransferError::Nak {
                        from_stage(direction, stage, received, (tries - 1) as nat)
                    } else {
                        Program::Return(Err(error))
                    },
                    Ok(count) => match following(direction, stage) {
                        Some(next) => from_stage(
                            direction,
                            next,
                            received_by(stage, received, count),
                            MAX_NAK_RETRIES as nat,
                        ),
                        None => Program::Return(Ok(received_by(stage, received, count))),
                    },
                },
        )
    }
}

/// A whole control transfer.
pub open spec fn transfer(direction: Direction) -> StageProgram {
    from_stage(direction, Stage::Setup, 0, MAX_NAK_RETRIES as nat)
}

/// What is to be done next.
#[derive(Clone, Copy, Debug, PartialEq, Eq)]
pub enum Next {
    /// Make this stage, and tell what came of it.
    Run(Stage),
    /// The transfer is over.
    Over(Moved),
}

/// Goes through the stages of a control transfer.
pub struct ControlRunner {
    direction: Direction,
    stage: Stage,
    received: usize,
    tries: u32,
    over: Option<Moved>,
}

impl ControlRunner {
    /// What is left to do.
    pub closed spec fn program(&self) -> StageProgram {
        match self.over {
            Some(moved) => Program::Return(moved),
            None => from_stage(self.direction, self.stage, self.received, self.tries as nat),
        }
    }

    /// A stage that is to be made has a try left.
    pub closed spec fn wf(&self) -> bool {
        self.over is None ==> 0 < self.tries <= MAX_NAK_RETRIES
    }

    /// A transfer that has not begun.
    pub fn new(direction: Direction) -> (runner: Self)
        ensures
            runner.wf(),
            runner.program() == transfer(direction),
    {
        ControlRunner {
            direction,
            stage: Stage::Setup,
            received: 0,
            tries: MAX_NAK_RETRIES,
            over: None,
        }
    }

    /// What is to be done next.
    pub fn next(&self) -> (next: Next)
        requires
            self.wf(),
        ensures
            match next {
                Next::Run(stage) => self.program() is Request && self.program()->Request_0 == stage,
                Next::Over(moved) => self.program() == Program::<Stage, Moved, Moved>::Return(
                    moved,
                ),
            },
    {
        match self.over {
            Some(moved) => Next::Over(moved),
            None => Next::Run(self.stage),
        }
    }

    /// Takes note of what came of a stage.
    pub fn tell(&mut self, moved: Moved)
        requires
            old(self).wf(),
            old(self).program() is Request,
        ensures
            final(self).wf(),
            final(self).program() == (old(self).program()->Request_1)(moved),
    {
        proof {
            reveal_with_fuel(from_stage, 2);
        }
        match moved {
            Err(error) => {
                if error == TransferError::Nak {
                    if self.tries == 1 {
                        self.over = Some(Err(TransferError::NakTimeout));
                    } else {
                        self.tries = self.tries - 1;
                    }
                } else {
                    self.over = Some(Err(error));
                }
            },
            Ok(count) => {
                if self.stage == Stage::DataIn {
                    self.received = count;
                }
                let next: Option<Stage> = match (self.direction, self.stage) {
                    (Direction::Read, Stage::Setup) => Some(Stage::DataIn),
                    (Direction::Read, Stage::DataIn) => Some(Stage::StatusOut),
                    (Direction::Write, Stage::Setup) => Some(Stage::DataOut),
                    (Direction::Write, Stage::DataOut) => Some(Stage::StatusIn),
                    _ => None,
                };
                match next {
                    Some(stage) => {
                        self.stage = stage;
                        self.tries = MAX_NAK_RETRIES;
                    },
                    None => {
                        self.over = Some(Ok(self.received));
                    },
                }
            },
        }
    }
}

/// The stage that a transfer makes.
pub open spec fn stage_of(transfer: Transfer) -> Option<Stage> {
    match transfer {
        Transfer::Setup(..) => Some(Stage::Setup),
        Transfer::DataIn(..) => Some(Stage::DataIn),
        Transfer::DataOut(..) => Some(Stage::DataOut),
        Transfer::StatusIn(..) => Some(Stage::StatusIn),
        Transfer::StatusOut(..) => Some(Stage::StatusOut),
        _ => None,
    }
}

/// What came of a stage, of the reply to its transfer.
pub open spec fn moved_by(reply: Reply) -> Moved {
    match reply {
        Reply::Unit(Ok(())) => Ok(0),
        Reply::Unit(Err(error)) => Err(error),
        Reply::Bytes(Ok(bytes)) => Ok(bytes.len() as usize),
        Reply::Bytes(Err(error)) => Err(error),
        _ => Ok(0),
    }
}

/// The stages that some transfers made, with what came of them.
pub open spec fn stages_of(transfers: UsbHistory) -> Seq<Exchange<Stage, Moved>> {
    transfers.map_values(
        |made: Exchange<Transfer, Reply>|
            Exchange {
                request: match stage_of(made.request) {
                    Some(stage) => stage,
                    None => Stage::Setup,
                },
                answer: moved_by(made.answer),
            },
    )
}

/// Where a control transfer is, told by transfers and told by stages, is the same: both
/// are about to make the same stage, or both are over and came to the same.
pub open spec fn same_place<T>(
    polled: UsbProgram<T>,
    awaited: StageProgram,
    outcome: spec_fn(T) -> Moved,
) -> bool {
    match polled {
        Program::Return(value) => awaited == StageProgram::Return(outcome(value)),
        Program::Request(transfer, next) => awaited is Request && stage_of(transfer) == Some(
            awaited->Request_0,
        ),
        Program::Stuck => true,
    }
}

/// And whatever each stage comes to, it stays so.
pub open spec fn in_step<T>(
    polled: UsbProgram<T>,
    awaited: StageProgram,
    outcome: spec_fn(T) -> Moved,
) -> bool
    decreases polled,
{
    &&& same_place(polled, awaited, outcome)
    &&& match polled {
        Program::Request(transfer, next) => forall|reply: Reply|
            in_step(#[trigger] next(reply), (awaited->Request_1)(moved_by(reply)), outcome),
        _ => true,
    }
}

/// What is in step stays at the same place.
proof fn lemma_in_step<T>(
    polled: UsbProgram<T>,
    awaited: StageProgram,
    outcome: spec_fn(T) -> Moved,
    made: UsbHistory,
)
    requires
        in_step(polled, awaited, outcome),
    ensures
        same_place(polled.after(made), awaited.after(stages_of(made)), outcome),
    decreases made.len(),
{
    if made.len() > 0 {
        match polled {
            Program::Request(transfer, next) => {
                if made[0].request == transfer {
                    let reply = made[0].answer;
                    let on = (awaited->Request_1)(moved_by(reply));
                    assert(in_step(next(reply), on, outcome));
                    lemma_in_step(next(reply), on, outcome, made.skip(1));
                    assert(stages_of(made).skip(1) =~= stages_of(made.skip(1)));
                }
            },
            _ => {},
        }
    }
}

/// A stage that is tried until it is not answered with NAK, and what follows.
broadcast proof fn lemma_stage_in_step<T>(
    transfer: Transfer,
    tries: nat,
    rest: spec_fn(Result<(), TransferError>) -> UsbProgram<T>,
    direction: Direction,
    stage: Stage,
    received: usize,
    outcome: spec_fn(T) -> Moved,
)
    requires
        stage_of(transfer) == Some(stage),
        stage != Stage::DataIn,
        forall|error: TransferError| #[trigger]
            in_step(rest(Err(error)), StageProgram::Return(Err(error)), outcome),
        in_step(
            rest(Ok(())),
            match following(direction, stage) {
                Some(next) => from_stage(direction, next, received, MAX_NAK_RETRIES as nat),
                None => StageProgram::Return(Ok(received)),
            },
            outcome,
        ),
    ensures
        #[trigger] in_step(
            control::stage_program(transfer, tries).bind(rest),
            from_stage(direction, stage, received, tries),
            outcome,
        ),
    decreases tries,
{
    let inner = control::stage_program(transfer, tries)->Request_1;
    let polled = control::stage_program(transfer, tries).bind(rest);
    let awaited = from_stage(direction, stage, received, tries);
    if tries == 0 {
        assert(polled == rest(Err(TransferError::NakTimeout)));
    } else {
        lemma_stage_in_step(
            transfer,
            (tries - 1) as nat,
            rest,
            direction,
            stage,
            received,
            outcome,
        );
        let next = polled->Request_1;
        assert forall|reply: Reply|
            in_step(#[trigger] next(reply), (awaited->Request_1)(moved_by(reply)), outcome) by {
            assert(next(reply) == inner(reply).bind(rest));
            match reply {
                Reply::Unit(Ok(nothing)) => {
                    assert(nothing == ());
                    assert(next(reply) == rest(Ok(())));
                },
                Reply::Unit(Err(error)) => {
                    if error != TransferError::Nak {
                        assert(next(reply) == rest(Err(error)));
                        assert(in_step(
                            rest(Err(error)),
                            StageProgram::Return(Err(error)),
                            outcome,
                        ));
                    }
                },
                _ => {},
            }
        }
    }
}

/// The last stage of a write.
broadcast proof fn lemma_end_in_step(transfer: Transfer, tries: nat, received: usize)
    requires
        stage_of(transfer) == Some(Stage::StatusIn),
        received == 0,
    ensures
        #[trigger] in_step(
            control::stage_program(transfer, tries),
            from_stage(Direction::Write, Stage::StatusIn, received, tries),
            write_outcome(),
        ),
    decreases tries,
{
    let polled = control::stage_program(transfer, tries);
    let awaited = from_stage(Direction::Write, Stage::StatusIn, received, tries);
    if tries > 0 {
        lemma_end_in_step(transfer, (tries - 1) as nat, received);
        let next = polled->Request_1;
        assert forall|reply: Reply|
            in_step(
                #[trigger] next(reply),
                (awaited->Request_1)(moved_by(reply)),
                write_outcome(),
            ) by {
            match reply {
                Reply::Unit(Ok(nothing)) => {
                    assert(nothing == ());
                },
                _ => {},
            }
        }
    }
}

broadcast group group_in_step {
    lemma_stage_in_step,
    lemma_data_in_step,
    lemma_end_in_step,
}

/// The data stage of a read, and what follows.
broadcast proof fn lemma_data_in_step(
    endpoint: ControlEndpoint,
    buf: Seq<u8>,
    tries: nat,
    rest: spec_fn(control::Read) -> UsbProgram<control::Read>,
    received: usize,
    outcome: spec_fn(control::Read) -> Moved,
)
    requires
        forall|error: TransferError| #[trigger]
            in_step(rest((Err(error), buf)), StageProgram::Return(Err(error)), outcome),
        forall|count: usize, read: Seq<u8>| #[trigger]
            in_step(
                rest((Ok(count), read)),
                from_stage(Direction::Read, Stage::StatusOut, count, MAX_NAK_RETRIES as nat),
                outcome,
            ),
    ensures
        #[trigger] in_step(
            control::data_program(endpoint, buf, tries).bind(rest),
            from_stage(Direction::Read, Stage::DataIn, received, tries),
            outcome,
        ),
    decreases tries,
{
    let inner = control::data_program(endpoint, buf, tries)->Request_1;
    let polled = control::data_program(endpoint, buf, tries).bind(rest);
    let awaited = from_stage(Direction::Read, Stage::DataIn, received, tries);
    if tries == 0 {
        assert(polled == rest((Err(TransferError::NakTimeout), buf)));
    } else {
        lemma_data_in_step(endpoint, buf, (tries - 1) as nat, rest, received, outcome);
        let next = polled->Request_1;
        assert forall|reply: Reply|
            in_step(#[trigger] next(reply), (awaited->Request_1)(moved_by(reply)), outcome) by {
            assert(next(reply) == inner(reply).bind(rest));
            match reply {
                Reply::Bytes(Ok(bytes)) => {
                    let count = bytes.len() as usize;
                    let read = bytes + buf.skip(bytes.len() as int);
                    assert(next(reply) == rest((Ok(count), read)));
                    assert(in_step(
                        rest((Ok(count), read)),
                        from_stage(
                            Direction::Read,
                            Stage::StatusOut,
                            count,
                            MAX_NAK_RETRIES as nat,
                        ),
                        outcome,
                    ));
                },
                Reply::Bytes(Err(error)) => {
                    if error != TransferError::Nak {
                        assert(next(reply) == rest((Err(error), buf)));
                        assert(in_step(
                            rest((Err(error), buf)),
                            StageProgram::Return(Err(error)),
                            outcome,
                        ));
                    }
                },
                _ => {},
            }
        }
    }
}

/// What a read came to, without its buffer.
pub open spec fn read_outcome() -> spec_fn(control::Read) -> Moved {
    |read: control::Read| read.0
}

/// What a write came to; nothing came in.
pub open spec fn write_outcome() -> spec_fn(Result<(), TransferError>) -> Moved {
    |written: Result<(), TransferError>|
        match written {
            Ok(()) => Ok(0),
            Err(error) => Err(error),
        }
}

/// A control read that is awaited is the twin of one that is polled, stage for stage: on
/// the same answers it makes the same stages, gives up at the same one, and comes to the
/// same.
pub proof fn law_read_stage_for_stage(
    endpoint: ControlEndpoint,
    setup: Setup,
    buf: Seq<u8>,
    made: UsbHistory,
)
    ensures
        same_place(
            control::control_in_program(endpoint, setup, buf).after(made),
            transfer(Direction::Read).after(stages_of(made)),
            read_outcome(),
        ),
{
    broadcast use group_in_step;

    let polled = control::control_in_program(endpoint, setup, buf);
    assert(in_step(polled, transfer(Direction::Read), read_outcome()));
    lemma_in_step(polled, transfer(Direction::Read), read_outcome(), made);
}

/// So is a control write.
pub proof fn law_write_stage_for_stage(
    endpoint: ControlEndpoint,
    setup: Setup,
    data: Seq<u8>,
    made: UsbHistory,
)
    ensures
        same_place(
            control::control_out_program(endpoint, setup, data).after(made),
            transfer(Direction::Write).after(stages_of(made)),
            write_outcome(),
        ),
{
    broadcast use group_in_step;

    let polled = control::control_out_program(endpoint, setup, data);
    assert(in_step(polled, transfer(Direction::Write), write_outcome()));
    lemma_in_step(polled, transfer(Direction::Write), write_outcome(), made);
}

} // verus!

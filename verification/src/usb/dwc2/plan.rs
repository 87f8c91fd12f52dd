//! What a transaction through a translator does, apart from how it waits.
//!
//! A channel that is polled and one that is awaited go by the same plan: they hand the
//! same packets over, collect them in the same microframes, and make the same of every
//! halt. They differ in how a microframe is waited for, and in what is done about a halt
//! that does not come.

use vstd::prelude::*;

use crate::program;
use crate::program::Program;
use crate::usb::dwc2;
use crate::usb::dwc2::asynch;
use crate::usb::dwc2::asynch::{Errand, Finding, Job, TaskProgram, Verdict};
use crate::usb::dwc2::hardware;
use crate::usb::dwc2::hardware::{Answer, Field, HwProgram};
use crate::usb::dwc2::{
    ControlEndpoint, DataPid, EndpointType, Halt, Outcome, Transaction, TransferError,
    CSPLIT_RETRY_DELAY_US, HCINT_ACK, HCINT_NAK, HCINT_NYET, MAX_CSPLIT_POLLS,
};

verus! {

/// A plan.
pub enum Plan {
    /// Start a packet, wait for the channel to halt, and go by its interrupts.
    Launch { packet: Transaction, complete: bool, odd: Option<bool>, next: spec_fn(u32) -> Plan },
    /// Be in a microframe, then go on.
    BeIn(u8, Box<Plan>),
    /// Wait as long as a translator is given between two tries, then go on.
    Gap(Box<Plan>),
    /// Look which microframe it is, and go by that.
    Choose(spec_fn(u8) -> Plan),
    /// Make out what a halt means, and go by that.
    Conclude { hcint: u32, requested: usize, meaning: spec_fn(Verdict) -> Plan },
    /// It is over.
    Done(Verdict),
}

/// Start a packet and wait for the channel to halt, polling it.
pub open spec fn launched(
    channel: u8,
    endpoint: ControlEndpoint,
    packet: Transaction,
    complete: bool,
    odd: Option<bool>,
    rest: spec_fn(u32) -> HwProgram<Outcome>,
) -> HwProgram<Outcome> {
    dwc2::start_program(channel, endpoint, packet, complete, odd).bind(
        |started: ()| dwc2::halted(channel, rest),
    )
}

/// How a plan is carried out by polling; `last` are the interrupts at the last halt.
pub open spec fn polled(
    channel: u8,
    endpoint: ControlEndpoint,
    plan: Plan,
    last: u32,
) -> HwProgram<Outcome>
    decreases plan,
{
    match plan {
        Plan::Launch { packet, complete, odd, next } => launched(
            channel,
            endpoint,
            packet,
            complete,
            odd,
            |hcint: u32| polled(channel, endpoint, next(hcint), hcint),
        ),
        Plan::BeIn(frame, rest) => dwc2::frame_program(frame).bind(
            |waited: ()| polled(channel, endpoint, *rest, last),
        ),
        Plan::Gap(rest) => hardware::delay(
            CSPLIT_RETRY_DELAY_US,
            polled(channel, endpoint, *rest, last),
        ),
        Plan::Choose(next) => hardware::read(
            Field::FrameNumber,
            |number: u32| polled(channel, endpoint, next(dwc2::microframe_of(number)), last),
        ),
        Plan::Conclude { hcint, requested, meaning } => dwc2::interpret_program(
            channel,
            hcint,
            requested,
        ).bind(|verdict: Verdict| polled(channel, endpoint, meaning(verdict), hcint)),
        Plan::Done(verdict) => Program::Return((verdict, last)),
    }
}

/// How a plan is carried out by awaiting.
pub open spec fn awaited(plan: Plan) -> TaskProgram<Verdict>
    decreases plan,
{
    match plan {
        Plan::Launch { packet, complete, odd, next } => asynch::launch(
            packet,
            complete,
            odd,
            |hcint: u32| awaited(next(hcint)),
        ),
        Plan::BeIn(frame, rest) => asynch::be_in(frame, awaited(*rest)),
        Plan::Gap(rest) => asynch::look(
            |now: u8|
                asynch::be_in(
                    dwc2::frames_on(now, asynch::CSPLIT_RETRY_MICROFRAMES as int),
                    awaited(*rest),
                ),
        ),
        Plan::Choose(next) => asynch::look(|now: u8| awaited(next(now))),
        Plan::Conclude { hcint, requested, meaning } => Program::Request(
            Errand::Interpret { hcint, requested },
            |finding: Finding|
                match finding {
                    Finding::Moved(verdict) => awaited(meaning(asynch::bounded(verdict, requested))),
                    _ => Program::Stuck,
                },
        ),
        Plan::Done(verdict) => Program::Return(verdict),
    }
}

/// Collect a packet from the translator, from a try on, then go by what came of it.
pub open spec fn collect_plan(
    packet: Transaction,
    attempt: u32,
    rest: spec_fn(Verdict) -> Plan,
) -> Plan
    decreases MAX_CSPLIT_POLLS - attempt,
{
    Plan::Launch {
        packet,
        complete: true,
        odd: None,
        next: |hcint: u32|
            if dwc2::not_yet(hcint) && attempt + 1 < MAX_CSPLIT_POLLS {
                Plan::Gap(Box::new(collect_plan(packet, (attempt + 1) as u32, rest)))
            } else {
                Plan::Conclude { hcint, requested: packet.transfer_size as usize, meaning: rest }
            },
    }
}

/// Move a packet through a translator, then go by what came of it.
pub open spec fn split_plan(packet: Transaction, rest: spec_fn(Verdict) -> Plan) -> Plan {
    Plan::Launch {
        packet,
        complete: false,
        odd: None,
        next: |hcint: u32|
            if hcint & HCINT_ACK == 0 {
                Plan::Conclude { hcint, requested: packet.transfer_size as usize, meaning: rest }
            } else {
                collect_plan(packet, 0, rest)
            },
    }
}

/// Collect a periodic packet, in one microframe after another, then go by what came of
/// it.
pub open spec fn periodic_collect_plan(
    packet: Transaction,
    frame: u8,
    tries: u8,
    rest: spec_fn(Verdict) -> Plan,
) -> Plan
    decreases tries,
{
    Plan::BeIn(
        frame,
        Box::new(
            Plan::Launch {
                packet,
                complete: true,
                odd: Some(frame % 2 == 1),
                next: |hcint: u32|
                    if dwc2::settled(hcint) {
                        Plan::Conclude {
                            hcint,
                            requested: packet.transfer_size as usize,
                            meaning: rest,
                        }
                    } else if hcint & (HCINT_NYET | HCINT_ACK) != 0 {
                        if tries == 0 {
                            rest(Err(TransferError::Nak))
                        } else {
                            periodic_collect_plan(
                                packet,
                                dwc2::frames_on(frame, 1),
                                (tries - 1) as u8,
                                rest,
                            )
                        }
                    } else if hcint & HCINT_NAK != 0 {
                        rest(Err(TransferError::Nak))
                    } else {
                        Plan::Conclude {
                            hcint,
                            requested: packet.transfer_size as usize,
                            meaning: rest,
                        }
                    },
            },
        ),
    )
}

/// Hand a periodic packet over in a microframe, collect it, then go by what came of it.
pub open spec fn periodic_start_plan(
    packet: Transaction,
    frame: u8,
    rest: spec_fn(Verdict) -> Plan,
) -> Plan {
    Plan::BeIn(
        frame,
        Box::new(
            Plan::Launch {
                packet,
                complete: false,
                odd: Some(frame % 2 == 1),
                next: |hcint: u32|
                    if hcint & HCINT_ACK == 0 {
                        Plan::Conclude {
                            hcint,
                            requested: packet.transfer_size as usize,
                            meaning: rest,
                        }
                    } else {
                        periodic_collect_plan(
                            packet,
                            dwc2::frames_on(frame, 2),
                            if frame != 5 {
                                3u8
                            } else {
                                2u8
                            },
                            rest,
                        )
                    },
            },
        ),
    )
}

/// Move a periodic packet through a translator, in step with the microframes, then go by
/// what came of it.
pub open spec fn periodic_split_plan(packet: Transaction, rest: spec_fn(Verdict) -> Plan) -> Plan {
    Plan::Choose(
        |now: u8| periodic_start_plan(packet, dwc2::start_split_frame(now), rest),
    )
}

/// What polling makes of what came of a packet is what the plan says.
spec fn goes_on(
    channel: u8,
    endpoint: ControlEndpoint,
    plan: spec_fn(Verdict) -> Plan,
    rest: spec_fn(Outcome) -> HwProgram<Outcome>,
) -> bool {
    &&& forall|outcome: Outcome| #[trigger]
        rest(outcome) == polled(channel, endpoint, plan(outcome.0), outcome.1)
    &&& forall|error: TransferError| #[trigger] plan(Err(error)) == Plan::Done(Err(error))
}

/// A launch, and what follows it.
proof fn lemma_launched_bind(
    channel: u8,
    endpoint: ControlEndpoint,
    packet: Transaction,
    complete: bool,
    odd: Option<bool>,
    first: spec_fn(u32) -> HwProgram<Outcome>,
    plan: spec_fn(Verdict) -> Plan,
    end: spec_fn(Outcome) -> HwProgram<Outcome>,
    rest: spec_fn(u32) -> HwProgram<Outcome>,
)
    requires
        goes_on(channel, endpoint, plan, end),
        forall|hcint: u32| #[trigger] rest(hcint) == first(hcint).bind(end),
    ensures
        launched(channel, endpoint, packet, complete, odd, first).bind(end) == launched(
            channel,
            endpoint,
            packet,
            complete,
            odd,
            rest,
        ),
{
    let halts = dwc2::halt_program(channel);
    let one = |halt: Halt|
        match halt.0 {
            Ok(hcint) => first(hcint),
            Err(error) => Program::Return((Err(error), halt.1)),
        };
    let two = |halt: Halt|
        match halt.0 {
            Ok(hcint) => rest(hcint),
            Err(error) => Program::Return((Err(error), halt.1)),
        };
    assert(dwc2::halted(channel, first) == halts.bind(one)) by {
        broadcast use program::lemma_bind_same;

    }
    assert(dwc2::halted(channel, rest) == halts.bind(two)) by {
        broadcast use program::lemma_bind_same;

    }
    assert forall|halt: Halt| #[trigger] two(halt) == one(halt).bind(end) by {
        match halt.0 {
            Ok(hcint) => {
                assert(rest(hcint) == first(hcint).bind(end));
            },
            Err(error) => {
                let outcome: Outcome = (Err(error), halt.1);
                assert(end(outcome) == polled(channel, endpoint, plan(outcome.0), outcome.1));
                assert(plan(Err(error)) == Plan::Done(Err(error)));
            },
        }
    }
    program::lemma_bind_bind(halts, one, end, two);
    let start = dwc2::start_program(channel, endpoint, packet, complete, odd);
    let before = |started: ()| dwc2::halted(channel, first);
    let after = |started: ()| dwc2::halted(channel, rest);
    program::lemma_bind_bind(start, before, end, after);
}

/// What a halt means, and what follows from that.
proof fn lemma_conclude_bind(
    channel: u8,
    endpoint: ControlEndpoint,
    hcint: u32,
    requested: usize,
    plan: spec_fn(Verdict) -> Plan,
    end: spec_fn(Outcome) -> HwProgram<Outcome>,
    last: u32,
)
    requires
        goes_on(channel, endpoint, plan, end),
    ensures
        dwc2::conclude(channel, hcint, requested).bind(end) == polled(
            channel,
            endpoint,
            Plan::Conclude { hcint, requested, meaning: plan },
            last,
        ),
{
    let meant = dwc2::interpret_program(channel, hcint, requested);
    let noted = |verdict: Verdict| HwProgram::<Outcome>::Return((verdict, hcint));
    let rest = |verdict: Verdict| polled(channel, endpoint, plan(verdict), hcint);
    assert(dwc2::conclude(channel, hcint, requested) == meant.bind(noted)) by {
        broadcast use program::lemma_bind_same;

    }
    assert forall|verdict: Verdict| #[trigger] rest(verdict) == noted(verdict).bind(end) by {
        let outcome: Outcome = (verdict, hcint);
        assert(end(outcome) == polled(channel, endpoint, plan(outcome.0), outcome.1));
        assert(noted(verdict).bind(end) == end(outcome));
    }
    program::lemma_bind_bind(meant, noted, end, rest);
    assert(polled(
        channel,
        endpoint,
        Plan::Conclude { hcint, requested, meaning: plan },
        last,
    ) == meant.bind(rest)) by {
        broadcast use program::lemma_bind_same;

    }
}

/// Collecting a packet by polling.
proof fn lemma_collect(
    channel: u8,
    endpoint: ControlEndpoint,
    packet: Transaction,
    attempt: u32,
    plan: spec_fn(Verdict) -> Plan,
    end: spec_fn(Outcome) -> HwProgram<Outcome>,
    last: u32,
)
    requires
        goes_on(channel, endpoint, plan, end),
        attempt < MAX_CSPLIT_POLLS,
    ensures
        dwc2::complete_program(channel, endpoint, packet, attempt).bind(end) == polled(
            channel,
            endpoint,
            if attempt > 0 {
                Plan::Gap(Box::new(collect_plan(packet, attempt, plan)))
            } else {
                collect_plan(packet, attempt, plan)
            },
            last,
        ),
    decreases MAX_CSPLIT_POLLS - attempt,
{
    let size = packet.transfer_size as usize;
    let first = |hcint: u32|
        if dwc2::not_yet(hcint) && attempt + 1 < MAX_CSPLIT_POLLS {
            dwc2::complete_program(channel, endpoint, packet, (attempt + 1) as u32)
        } else {
            dwc2::conclude(channel, hcint, size)
        };
    let whole = collect_plan(packet, attempt, plan);
    let next = whole->Launch_next;
    let rest = |hcint: u32| polled(channel, endpoint, next(hcint), hcint);
    assert forall|hcint: u32| #[trigger] rest(hcint) == first(hcint).bind(end) by {
        if dwc2::not_yet(hcint) && attempt + 1 < MAX_CSPLIT_POLLS {
            lemma_collect(channel, endpoint, packet, (attempt + 1) as u32, plan, end, hcint);
        } else {
            lemma_conclude_bind(channel, endpoint, hcint, size, plan, end, hcint);
        }
    }
    let go = launched(channel, endpoint, packet, true, None, first);
    lemma_launched_bind(channel, endpoint, packet, true, None, first, plan, end, rest);
    assert(polled(channel, endpoint, whole, last) == go.bind(end)) by {
        broadcast use program::lemma_bind_same;

    }
    let complete = dwc2::complete_program(channel, endpoint, packet, attempt);
    if attempt == 0 {
        assert(complete == go) by {
            broadcast use {program::lemma_bind_same, lemma_halted_same};

        }
    } else {
        assert(complete == hardware::delay(CSPLIT_RETRY_DELAY_US, go)) by {
            broadcast use {program::lemma_bind_same, lemma_halted_same};

        }
        lemma_delay_bind(CSPLIT_RETRY_DELAY_US, go, end);
    }
}

broadcast proof fn lemma_halted_same(
    channel: u8,
    rest: spec_fn(u32) -> HwProgram<Outcome>,
    other: spec_fn(u32) -> HwProgram<Outcome>,
)
    requires
        forall|hcint: u32| #[trigger] rest(hcint) == other(hcint),
    ensures
        #![trigger dwc2::halted(channel, rest), dwc2::halted(channel, other)]
        dwc2::halted(channel, rest) == dwc2::halted(channel, other),
{
    assert(rest =~= other);
}

proof fn lemma_delay_bind(
    micros: u64,
    rest: HwProgram<Outcome>,
    end: spec_fn(Outcome) -> HwProgram<Outcome>,
)
    ensures
        hardware::delay(micros, rest).bind(end) == hardware::delay(micros, rest.bind(end)),
{
    let one = hardware::delay(micros, rest).bind(end)->Request_1;
    let two = hardware::delay(micros, rest.bind(end))->Request_1;
    assert forall|answer: Answer| #[trigger] one(answer) == two(answer) by {}
    assert(one =~= two);
}

/// Moving a packet by polling.
proof fn lemma_split(
    channel: u8,
    endpoint: ControlEndpoint,
    packet: Transaction,
    plan: spec_fn(Verdict) -> Plan,
    end: spec_fn(Outcome) -> HwProgram<Outcome>,
    last: u32,
)
    requires
        goes_on(channel, endpoint, plan, end),
    ensures
        dwc2::split_program(channel, endpoint, packet).bind(end) == polled(
            channel,
            endpoint,
            split_plan(packet, plan),
            last,
        ),
{
    let size = packet.transfer_size as usize;
    let first = |hcint: u32|
        if hcint & HCINT_ACK == 0 {
            dwc2::conclude(channel, hcint, size)
        } else {
            dwc2::complete_program(channel, endpoint, packet, 0)
        };
    let whole = split_plan(packet, plan);
    let next = whole->Launch_next;
    let rest = |hcint: u32| polled(channel, endpoint, next(hcint), hcint);
    assert forall|hcint: u32| #[trigger] rest(hcint) == first(hcint).bind(end) by {
        if hcint & HCINT_ACK == 0 {
            lemma_conclude_bind(channel, endpoint, hcint, size, plan, end, hcint);
        } else {
            lemma_collect(channel, endpoint, packet, 0, plan, end, hcint);
        }
    }
    let go = launched(channel, endpoint, packet, false, None, first);
    lemma_launched_bind(channel, endpoint, packet, false, None, first, plan, end, rest);
    assert(polled(channel, endpoint, whole, last) == go.bind(end)) by {
        broadcast use program::lemma_bind_same;

    }
    assert(dwc2::split_program(channel, endpoint, packet) == go) by {
        broadcast use {program::lemma_bind_same, lemma_halted_same};

    }
}

/// Waiting for a microframe by polling, and what follows.
proof fn lemma_frame_bind(
    channel: u8,
    endpoint: ControlEndpoint,
    frame: u8,
    first: HwProgram<Outcome>,
    end: spec_fn(Outcome) -> HwProgram<Outcome>,
    rest: Plan,
    last: u32,
)
    requires
        first.bind(end) == polled(channel, endpoint, rest, last),
    ensures
        dwc2::frame_program(frame).bind(|waited: ()| first).bind(end) == polled(
            channel,
            endpoint,
            Plan::BeIn(frame, Box::new(rest)),
            last,
        ),
{
    let wait = dwc2::frame_program(frame);
    let before = |waited: ()| first;
    let after = |waited: ()| first.bind(end);
    program::lemma_bind_bind(wait, before, end, after);
    assert(polled(channel, endpoint, Plan::BeIn(frame, Box::new(rest)), last) == wait.bind(after))
        by {
        broadcast use program::lemma_bind_same;

    }
}

/// Collecting a periodic packet by polling.
proof fn lemma_periodic_collect(
    channel: u8,
    endpoint: ControlEndpoint,
    packet: Transaction,
    frame: u8,
    tries: u8,
    plan: spec_fn(Verdict) -> Plan,
    end: spec_fn(Outcome) -> HwProgram<Outcome>,
    last: u32,
)
    requires
        goes_on(channel, endpoint, plan, end),
    ensures
        dwc2::periodic_complete_program(channel, endpoint, packet, frame, tries).bind(end)
            == polled(channel, endpoint, periodic_collect_plan(packet, frame, tries, plan), last),
    decreases tries,
{
    let size = packet.transfer_size as usize;
    let odd = Some(frame % 2 == 1);
    let first = |hcint: u32|
        if dwc2::settled(hcint) {
            dwc2::conclude(channel, hcint, size)
        } else if hcint & (HCINT_NYET | HCINT_ACK) != 0 {
            if tries == 0 {
                Program::Return((Err(TransferError::Nak), hcint))
            } else {
                dwc2::periodic_complete_program(
                    channel,
                    endpoint,
                    packet,
                    dwc2::frames_on(frame, 1),
                    (tries - 1) as u8,
                )
            }
        } else if hcint & HCINT_NAK != 0 {
            Program::Return((Err(TransferError::Nak), hcint))
        } else {
            dwc2::conclude(channel, hcint, size)
        };
    let whole = periodic_collect_plan(packet, frame, tries, plan);
    let inner = *whole->BeIn_1;
    let next = inner->Launch_next;
    let rest = |hcint: u32| polled(channel, endpoint, next(hcint), hcint);
    assert forall|hcint: u32| #[trigger] rest(hcint) == first(hcint).bind(end) by {
        let refused: Outcome = (Err(TransferError::Nak), hcint);
        assert(end(refused) == polled(channel, endpoint, plan(refused.0), refused.1));
        lemma_conclude_bind(channel, endpoint, hcint, size, plan, end, hcint);
        if tries > 0 {
            lemma_periodic_collect(
                channel,
                endpoint,
                packet,
                dwc2::frames_on(frame, 1),
                (tries - 1) as u8,
                plan,
                end,
                hcint,
            );
        }
    }
    let go = launched(channel, endpoint, packet, true, odd, first);
    lemma_launched_bind(channel, endpoint, packet, true, odd, first, plan, end, rest);
    assert(polled(channel, endpoint, inner, last) == go.bind(end)) by {
        broadcast use program::lemma_bind_same;

    }
    lemma_frame_bind(channel, endpoint, frame, go, end, inner, last);
    assert(dwc2::periodic_complete_program(channel, endpoint, packet, frame, tries)
        == dwc2::frame_program(frame).bind(|waited: ()| go)) by {
        broadcast use {program::lemma_bind_same, lemma_halted_same};

    }
}

/// Looking which microframe it is, and what follows.
proof fn lemma_read_bind(
    field: Field,
    first: spec_fn(u32) -> HwProgram<Outcome>,
    end: spec_fn(Outcome) -> HwProgram<Outcome>,
    rest: spec_fn(u32) -> HwProgram<Outcome>,
)
    requires
        forall|value: u32| #[trigger] rest(value) == first(value).bind(end),
    ensures
        hardware::read(field, first).bind(end) == hardware::read(field, rest),
{
    let inner = hardware::read(field, first)->Request_1;
    let one = hardware::read(field, first).bind(end)->Request_1;
    let two = hardware::read(field, rest)->Request_1;
    assert forall|answer: Answer| #[trigger] one(answer) == two(answer) by {
        assert(one(answer) == inner(answer).bind(end));
        match answer {
            Answer::Word(value) => {
                assert(rest(value) == first(value).bind(end));
            },
            _ => {},
        }
    }
    assert(one =~= two);
}

/// What a read is followed by counts only by what it makes of each value.
broadcast proof fn lemma_read_same(
    field: Field,
    rest: spec_fn(u32) -> HwProgram<Outcome>,
    other: spec_fn(u32) -> HwProgram<Outcome>,
)
    requires
        forall|value: u32| #[trigger] rest(value) == other(value),
    ensures
        #![trigger hardware::read(field, rest), hardware::read(field, other)]
        hardware::read(field, rest) == hardware::read(field, other),
{
    assert(rest =~= other);
}

/// Handing a periodic packet over in a microframe, by polling.
spec fn periodic_start_program(
    channel: u8,
    endpoint: ControlEndpoint,
    packet: Transaction,
    frame: u8,
) -> HwProgram<Outcome> {
    let go = launched(
        channel,
        endpoint,
        packet,
        false,
        Some(frame % 2 == 1),
        |hcint: u32|
            if hcint & HCINT_ACK == 0 {
                dwc2::conclude(channel, hcint, packet.transfer_size as usize)
            } else {
                dwc2::periodic_complete_program(
                    channel,
                    endpoint,
                    packet,
                    dwc2::frames_on(frame, 2),
                    if frame != 5 {
                        3u8
                    } else {
                        2u8
                    },
                )
            },
    );
    dwc2::frame_program(frame).bind(|waited: ()| go)
}

proof fn lemma_periodic_start(
    channel: u8,
    endpoint: ControlEndpoint,
    packet: Transaction,
    frame: u8,
    plan: spec_fn(Verdict) -> Plan,
    end: spec_fn(Outcome) -> HwProgram<Outcome>,
    last: u32,
)
    requires
        goes_on(channel, endpoint, plan, end),
    ensures
        periodic_start_program(channel, endpoint, packet, frame).bind(end) == polled(
            channel,
            endpoint,
            periodic_start_plan(packet, frame, plan),
            last,
        ),
{
    let size = packet.transfer_size as usize;
    let odd = Some(frame % 2 == 1);
    let collected = dwc2::frames_on(frame, 2);
    let tries = if frame != 5 {
        3u8
    } else {
        2u8
    };
    let first = |hcint: u32|
        if hcint & HCINT_ACK == 0 {
            dwc2::conclude(channel, hcint, size)
        } else {
            dwc2::periodic_complete_program(channel, endpoint, packet, collected, tries)
        };
    let whole = periodic_start_plan(packet, frame, plan);
    let inner = *whole->BeIn_1;
    let next = inner->Launch_next;
    let rest = |hcint: u32| polled(channel, endpoint, next(hcint), hcint);
    assert forall|hcint: u32| #[trigger] rest(hcint) == first(hcint).bind(end) by {
        lemma_conclude_bind(channel, endpoint, hcint, size, plan, end, hcint);
        lemma_periodic_collect(channel, endpoint, packet, collected, tries, plan, end, hcint);
    }
    let go = launched(channel, endpoint, packet, false, odd, first);
    lemma_launched_bind(channel, endpoint, packet, false, odd, first, plan, end, rest);
    assert(polled(channel, endpoint, inner, last) == go.bind(end)) by {
        broadcast use program::lemma_bind_same;

    }
    lemma_frame_bind(channel, endpoint, frame, go, end, inner, last);
    assert(periodic_start_program(channel, endpoint, packet, frame) == dwc2::frame_program(
        frame,
    ).bind(|waited: ()| go)) by {
        broadcast use {program::lemma_bind_same, lemma_halted_same};

    }
}

/// Moving a periodic packet by polling.
proof fn lemma_periodic_split(
    channel: u8,
    endpoint: ControlEndpoint,
    packet: Transaction,
    plan: spec_fn(Verdict) -> Plan,
    end: spec_fn(Outcome) -> HwProgram<Outcome>,
    last: u32,
)
    requires
        goes_on(channel, endpoint, plan, end),
    ensures
        dwc2::periodic_split_program(channel, endpoint, packet).bind(end) == polled(
            channel,
            endpoint,
            periodic_split_plan(packet, plan),
            last,
        ),
{
    let first = |number: u32|
        periodic_start_program(
            channel,
            endpoint,
            packet,
            dwc2::start_split_frame(dwc2::microframe_of(number)),
        );
    let whole = periodic_split_plan(packet, plan);
    let next = whole->Choose_0;
    let rest = |number: u32|
        polled(channel, endpoint, next(dwc2::microframe_of(number)), last);
    assert forall|number: u32| #[trigger] rest(number) == first(number).bind(end) by {
        let frame = dwc2::start_split_frame(dwc2::microframe_of(number));
        lemma_periodic_start(channel, endpoint, packet, frame, plan, end, last);
    }
    lemma_read_bind(Field::FrameNumber, first, end, rest);
    assert(polled(channel, endpoint, whole, last) == hardware::read(Field::FrameNumber, rest)) by {
        broadcast use lemma_read_same;

    }
    assert(dwc2::periodic_split_program(channel, endpoint, packet) == hardware::read(
        Field::FrameNumber,
        first,
    )) by {
        broadcast use {program::lemma_bind_same, lemma_halted_same, lemma_read_same};

    }
}

/// Move the rest of a transaction through a translator, a packet at a time: until a short
/// packet, or the end.
pub open spec fn packets_plan(
    endpoint: ControlEndpoint,
    txn: Transaction,
    offset: u32,
    pid: DataPid,
) -> Plan
    decreases txn.transfer_size - offset,
{
    let packet = dwc2::packet_at(endpoint, txn, offset, pid);
    let rest = |verdict: Verdict|
        match verdict {
            Err(error) => Plan::Done(Err(error)),
            Ok(count) => {
                let reached = dwc2::reached_by(offset, count);
                if count < packet.transfer_size || reached >= txn.transfer_size || reached
                    <= offset {
                    Plan::Done(Ok(reached as usize))
                } else {
                    packets_plan(endpoint, txn, reached, pid.following())
                }
            },
        };
    if txn.endpoint_type == EndpointType::Interrupt {
        periodic_split_plan(packet, rest)
    } else {
        split_plan(packet, rest)
    }
}

/// What the plan makes of what came of a packet.
spec fn after_packet(
    endpoint: ControlEndpoint,
    txn: Transaction,
    offset: u32,
    pid: DataPid,
) -> spec_fn(Verdict) -> Plan {
    let packet = dwc2::packet_at(endpoint, txn, offset, pid);
    |verdict: Verdict|
        match verdict {
            Err(error) => Plan::Done(Err(error)),
            Ok(count) => {
                let reached = dwc2::reached_by(offset, count);
                if count < packet.transfer_size || reached >= txn.transfer_size || reached
                    <= offset {
                    Plan::Done(Ok(reached as usize))
                } else {
                    packets_plan(endpoint, txn, reached, pid.following())
                }
            },
        }
}

proof fn lemma_packets_plan(
    endpoint: ControlEndpoint,
    txn: Transaction,
    offset: u32,
    pid: DataPid,
)
    ensures
        packets_plan(endpoint, txn, offset, pid) == {
            let packet = dwc2::packet_at(endpoint, txn, offset, pid);
            let rest = after_packet(endpoint, txn, offset, pid);
            if txn.endpoint_type == EndpointType::Interrupt {
                periodic_split_plan(packet, rest)
            } else {
                split_plan(packet, rest)
            }
        },
{
    broadcast use {lemma_split_plan_same, lemma_periodic_split_plan_same};

}

broadcast proof fn lemma_split_plan_same(
    packet: Transaction,
    rest: spec_fn(Verdict) -> Plan,
    other: spec_fn(Verdict) -> Plan,
)
    requires
        forall|verdict: Verdict| #[trigger] rest(verdict) == other(verdict),
    ensures
        #![trigger split_plan(packet, rest), split_plan(packet, other)]
        split_plan(packet, rest) == split_plan(packet, other),
{
    assert(rest =~= other);
}

broadcast proof fn lemma_periodic_split_plan_same(
    packet: Transaction,
    rest: spec_fn(Verdict) -> Plan,
    other: spec_fn(Verdict) -> Plan,
)
    requires
        forall|verdict: Verdict| #[trigger] rest(verdict) == other(verdict),
    ensures
        #![trigger periodic_split_plan(packet, rest), periodic_split_plan(packet, other)]
        periodic_split_plan(packet, rest) == periodic_split_plan(packet, other),
{
    assert(rest =~= other);
}

/// Moving the rest of a transaction by polling.
proof fn lemma_packets(
    channel: u8,
    endpoint: ControlEndpoint,
    txn: Transaction,
    offset: u32,
    pid: DataPid,
    last: u32,
)
    ensures
        dwc2::packets_program(channel, endpoint, txn, offset, pid) == polled(
            channel,
            endpoint,
            packets_plan(endpoint, txn, offset, pid),
            last,
        ),
    decreases txn.transfer_size - offset,
{
    let packet = dwc2::packet_at(endpoint, txn, offset, pid);
    let plan = after_packet(endpoint, txn, offset, pid);
    let end = |outcome: Outcome|
        match outcome.0 {
            Err(error) => HwProgram::<Outcome>::Return((Err(error), outcome.1)),
            Ok(count) => {
                let reached = dwc2::reached_by(offset, count);
                if count < packet.transfer_size || reached >= txn.transfer_size || reached
                    <= offset {
                    HwProgram::<Outcome>::Return((Ok(reached as usize), outcome.1))
                } else {
                    dwc2::packets_program(channel, endpoint, txn, reached, pid.following())
                }
            },
        };
    assert(goes_on(channel, endpoint, plan, end)) by {
        assert forall|outcome: Outcome| #[trigger]
            end(outcome) == polled(channel, endpoint, plan(outcome.0), outcome.1) by {
            match outcome.0 {
                Err(error) => {},
                Ok(count) => {
                    let reached = dwc2::reached_by(offset, count);
                    if !(count < packet.transfer_size || reached >= txn.transfer_size || reached
                        <= offset) {
                        lemma_packets(
                            channel,
                            endpoint,
                            txn,
                            reached,
                            pid.following(),
                            outcome.1,
                        );
                    }
                },
            }
        }
    }
    lemma_packets_plan(endpoint, txn, offset, pid);
    let one = if txn.endpoint_type == EndpointType::Interrupt {
        dwc2::periodic_split_program(channel, endpoint, packet)
    } else {
        dwc2::split_program(channel, endpoint, packet)
    };
    assert(dwc2::packets_program(channel, endpoint, txn, offset, pid) == one.bind(end)) by {
        broadcast use program::lemma_bind_same;

    }
    if txn.endpoint_type == EndpointType::Interrupt {
        lemma_periodic_split(channel, endpoint, packet, plan, end, last);
    } else {
        lemma_split(channel, endpoint, packet, plan, end, last);
    }
}

/// What awaiting makes of what came of a packet is what the plan says.
spec fn follows(
    plan: spec_fn(Verdict) -> Plan,
    end: spec_fn(Verdict) -> TaskProgram<Verdict>,
) -> bool {
    forall|verdict: Verdict| #[trigger] end(verdict) == awaited(plan(verdict))
}

/// A launch that is awaited, and what follows it.
proof fn lemma_launch_bind(
    packet: Transaction,
    complete: bool,
    odd: Option<bool>,
    first: spec_fn(u32) -> TaskProgram<Verdict>,
    end: spec_fn(Verdict) -> TaskProgram<Verdict>,
    rest: spec_fn(u32) -> TaskProgram<Verdict>,
)
    requires
        forall|hcint: u32| #[trigger] rest(hcint) == first(hcint).bind(end),
    ensures
        asynch::launch(packet, complete, odd, first).bind(end) == asynch::launch(
            packet,
            complete,
            odd,
            rest,
        ),
{
    let inner = asynch::launch(packet, complete, odd, first)->Request_1;
    let one = asynch::launch(packet, complete, odd, first).bind(end)->Request_1;
    let two = asynch::launch(packet, complete, odd, rest)->Request_1;
    assert forall|finding: Finding| #[trigger] one(finding) == two(finding) by {
        assert(one(finding) == inner(finding).bind(end));
        match finding {
            Finding::Halted(hcint) => {
                assert(rest(hcint) == first(hcint).bind(end));
            },
            _ => {},
        }
    }
    assert(one =~= two);
}

/// A look at the microframe, and what follows.
proof fn lemma_look_bind(
    first: spec_fn(u8) -> TaskProgram<Verdict>,
    end: spec_fn(Verdict) -> TaskProgram<Verdict>,
    rest: spec_fn(u8) -> TaskProgram<Verdict>,
)
    requires
        forall|now: u8| #[trigger] rest(now) == first(now).bind(end),
    ensures
        asynch::look(first).bind(end) == asynch::look(rest),
{
    let inner = asynch::look(first)->Request_1;
    let one = asynch::look(first).bind(end)->Request_1;
    let two = asynch::look(rest)->Request_1;
    assert forall|finding: Finding| #[trigger] one(finding) == two(finding) by {
        assert(one(finding) == inner(finding).bind(end));
        match finding {
            Finding::Microframe(frame) => {
                let now = (frame % 8) as u8;
                assert(rest(now) == first(now).bind(end));
            },
            _ => {},
        }
    }
    assert(one =~= two);
}

/// What a look is followed by counts only by what it makes of each microframe.
broadcast proof fn lemma_look_same(
    rest: spec_fn(u8) -> TaskProgram<Verdict>,
    other: spec_fn(u8) -> TaskProgram<Verdict>,
)
    requires
        forall|now: u8| #[trigger] rest(now) == other(now),
    ensures
        #![trigger asynch::look(rest), asynch::look(other)]
        asynch::look(rest) == asynch::look(other),
{
    assert(rest =~= other);
}

/// What a launch is followed by counts only by what it makes of each halt.
broadcast proof fn lemma_launch_same(
    packet: Transaction,
    complete: bool,
    odd: Option<bool>,
    rest: spec_fn(u32) -> TaskProgram<Verdict>,
    other: spec_fn(u32) -> TaskProgram<Verdict>,
)
    requires
        forall|hcint: u32| #[trigger] rest(hcint) == other(hcint),
    ensures
        #![trigger asynch::launch(packet, complete, odd, rest), asynch::launch(packet, complete, odd, other)]
        asynch::launch(packet, complete, odd, rest) == asynch::launch(
            packet,
            complete,
            odd,
            other,
        ),
{
    assert(rest =~= other);
}

/// Waiting for a microframe, and what follows.
proof fn lemma_be_in_bind(
    frame: u8,
    first: TaskProgram<Verdict>,
    end: spec_fn(Verdict) -> TaskProgram<Verdict>,
)
    ensures
        asynch::be_in(frame, first).bind(end) == asynch::be_in(frame, first.bind(end)),
{
    let before = |now: u8|
        if now == frame {
            first
        } else {
            asynch::wait_for(frame, first)
        };
    let after = |now: u8|
        if now == frame {
            first.bind(end)
        } else {
            asynch::wait_for(frame, first.bind(end))
        };
    let inner = asynch::wait_for(frame, first)->Request_1;
    let one = asynch::wait_for(frame, first).bind(end)->Request_1;
    let two = asynch::wait_for(frame, first.bind(end))->Request_1;
    assert forall|finding: Finding| #[trigger] one(finding) == two(finding) by {
        assert(one(finding) == inner(finding).bind(end));
    }
    assert(one =~= two);
    assert forall|now: u8| #[trigger] after(now) == before(now).bind(end) by {}
    lemma_look_bind(before, end, after);
    assert(asynch::be_in(frame, first) == asynch::look(before)) by {
        broadcast use lemma_look_same;

    }
    assert(asynch::be_in(frame, first.bind(end)) == asynch::look(after)) by {
        broadcast use lemma_look_same;

    }
}

/// What a halt means, and what follows from that.
proof fn lemma_interpret_bind(
    packet: Transaction,
    hcint: u32,
    plan: spec_fn(Verdict) -> Plan,
    end: spec_fn(Verdict) -> TaskProgram<Verdict>,
)
    requires
        follows(plan, end),
    ensures
        asynch::interpret(packet, hcint).bind(end) == awaited(
            Plan::Conclude { hcint, requested: packet.transfer_size as usize, meaning: plan },
        ),
{
    let requested = packet.transfer_size as usize;
    let inner = asynch::interpret(packet, hcint)->Request_1;
    let one = asynch::interpret(packet, hcint).bind(end)->Request_1;
    let two = awaited(Plan::Conclude { hcint, requested, meaning: plan })->Request_1;
    assert forall|finding: Finding| #[trigger] one(finding) == two(finding) by {
        assert(one(finding) == inner(finding).bind(end));
        match finding {
            Finding::Moved(verdict) => {
                let bounded = asynch::bounded(verdict, requested);
                assert(end(bounded) == awaited(plan(bounded)));
                assert(inner(finding) == TaskProgram::<Verdict>::Return(bounded));
            },
            _ => {},
        }
    }
    assert(one =~= two);
}

/// Collecting a packet by awaiting.
proof fn lemma_collect_awaited(
    packet: Transaction,
    attempt: u32,
    plan: spec_fn(Verdict) -> Plan,
    end: spec_fn(Verdict) -> TaskProgram<Verdict>,
)
    requires
        follows(plan, end),
        attempt < MAX_CSPLIT_POLLS,
    ensures
        asynch::job_program(packet, Job::Collect(attempt)).bind(end) == awaited(
            collect_plan(packet, attempt, plan),
        ),
    decreases MAX_CSPLIT_POLLS - attempt,
{
    let again = asynch::job_program(packet, Job::Collect((attempt + 1) as u32));
    let waited = |now: u8|
        asynch::be_in(
            dwc2::frames_on(now, asynch::CSPLIT_RETRY_MICROFRAMES as int),
            again,
        );
    let first = |hcint: u32|
        if dwc2::not_yet(hcint) && attempt + 1 < MAX_CSPLIT_POLLS {
            asynch::look(waited)
        } else {
            asynch::interpret(packet, hcint)
        };
    let whole = collect_plan(packet, attempt, plan);
    let next = whole->Launch_next;
    let rest = |hcint: u32| awaited(next(hcint));
    assert forall|hcint: u32| #[trigger] rest(hcint) == first(hcint).bind(end) by {
        if dwc2::not_yet(hcint) && attempt + 1 < MAX_CSPLIT_POLLS {
            lemma_collect_awaited(packet, (attempt + 1) as u32, plan, end);
            let bound = |now: u8|
                asynch::be_in(
                    dwc2::frames_on(now, asynch::CSPLIT_RETRY_MICROFRAMES as int),
                    again.bind(end),
                );
            assert forall|now: u8| #[trigger] bound(now) == waited(now).bind(end) by {
                lemma_be_in_bind(
                    dwc2::frames_on(now, asynch::CSPLIT_RETRY_MICROFRAMES as int),
                    again,
                    end,
                );
            }
            lemma_look_bind(waited, end, bound);
            assert(rest(hcint) == asynch::look(bound)) by {
                broadcast use lemma_look_same;

            }
        } else {
            lemma_interpret_bind(packet, hcint, plan, end);
        }
    }
    lemma_launch_bind(packet, true, None, first, end, rest);
    assert(awaited(whole) == asynch::launch(packet, true, None, rest)) by {
        broadcast use lemma_launch_same;

    }
    assert(asynch::job_program(packet, Job::Collect(attempt)) == asynch::launch(
        packet,
        true,
        None,
        first,
    )) by {
        broadcast use {lemma_launch_same, lemma_look_same};

    }
}

/// Moving a packet by awaiting.
proof fn lemma_split_awaited(
    packet: Transaction,
    plan: spec_fn(Verdict) -> Plan,
    end: spec_fn(Verdict) -> TaskProgram<Verdict>,
)
    requires
        follows(plan, end),
    ensures
        asynch::job_program(packet, Job::Split).bind(end) == awaited(split_plan(packet, plan)),
{
    let first = |hcint: u32|
        if hcint & HCINT_ACK == 0 {
            asynch::interpret(packet, hcint)
        } else {
            asynch::job_program(packet, Job::Collect(0))
        };
    let whole = split_plan(packet, plan);
    let next = whole->Launch_next;
    let rest = |hcint: u32| awaited(next(hcint));
    assert forall|hcint: u32| #[trigger] rest(hcint) == first(hcint).bind(end) by {
        if hcint & HCINT_ACK == 0 {
            lemma_interpret_bind(packet, hcint, plan, end);
        } else {
            lemma_collect_awaited(packet, 0, plan, end);
        }
    }
    lemma_launch_bind(packet, false, None, first, end, rest);
    assert(awaited(whole) == asynch::launch(packet, false, None, rest)) by {
        broadcast use lemma_launch_same;

    }
    assert(asynch::job_program(packet, Job::Split) == asynch::launch(packet, false, None, first))
        by {
        broadcast use lemma_launch_same;

    }
}

/// Collecting a periodic packet by awaiting.
proof fn lemma_periodic_collect_awaited(
    packet: Transaction,
    frame: u8,
    tries: u8,
    plan: spec_fn(Verdict) -> Plan,
    end: spec_fn(Verdict) -> TaskProgram<Verdict>,
)
    requires
        follows(plan, end),
    ensures
        asynch::be_in(
            frame,
            asynch::job_program(packet, Job::PeriodicCollect(frame, tries)),
        ).bind(end) == awaited(periodic_collect_plan(packet, frame, tries, plan)),
    decreases tries,
{
    let job = Job::PeriodicCollect(frame, tries);
    let odd = asynch::parity(job);
    let on = dwc2::frames_on(frame, 1);
    let first = |hcint: u32|
        if dwc2::settled(hcint) {
            asynch::interpret(packet, hcint)
        } else if hcint & (HCINT_NYET | HCINT_ACK) != 0 {
            if tries == 0 {
                TaskProgram::<Verdict>::Return(Err(TransferError::Nak))
            } else {
                asynch::be_in(
                    on,
                    asynch::job_program(packet, Job::PeriodicCollect(on, (tries - 1) as u8)),
                )
            }
        } else if hcint & HCINT_NAK != 0 {
            TaskProgram::<Verdict>::Return(Err(TransferError::Nak))
        } else {
            asynch::interpret(packet, hcint)
        };
    let whole = periodic_collect_plan(packet, frame, tries, plan);
    let inner = *whole->BeIn_1;
    let next = inner->Launch_next;
    let rest = |hcint: u32| awaited(next(hcint));
    assert forall|hcint: u32| #[trigger] rest(hcint) == first(hcint).bind(end) by {
        let refused: Verdict = Err(TransferError::Nak);
        assert(end(refused) == awaited(plan(refused)));
        lemma_interpret_bind(packet, hcint, plan, end);
        if tries > 0 {
            lemma_periodic_collect_awaited(packet, on, (tries - 1) as u8, plan, end);
        }
    }
    lemma_launch_bind(packet, true, odd, first, end, rest);
    lemma_be_in_bind(frame, asynch::job_program(packet, job), end);
    assert(awaited(inner) == asynch::launch(packet, true, odd, rest)) by {
        broadcast use lemma_launch_same;

    }
    assert(asynch::job_program(packet, job) == asynch::launch(packet, true, odd, first)) by {
        broadcast use lemma_launch_same;

    }
}

/// Handing a periodic packet over in a microframe, and collecting it, by awaiting.
proof fn lemma_periodic_start_awaited(
    packet: Transaction,
    frame: u8,
    plan: spec_fn(Verdict) -> Plan,
    end: spec_fn(Verdict) -> TaskProgram<Verdict>,
)
    requires
        follows(plan, end),
    ensures
        asynch::be_in(frame, asynch::job_program(packet, Job::PeriodicSplit(frame))).bind(end)
            == awaited(periodic_start_plan(packet, frame, plan)),
{
    let job = Job::PeriodicSplit(frame);
    let odd = asynch::parity(job);
    let collected = dwc2::frames_on(frame, 2);
    let tries = if frame != 5 {
        3u8
    } else {
        2u8
    };
    let first = |hcint: u32|
        if hcint & HCINT_ACK == 0 {
            asynch::interpret(packet, hcint)
        } else {
            asynch::be_in(
                collected,
                asynch::job_program(packet, Job::PeriodicCollect(collected, tries)),
            )
        };
    let whole = periodic_start_plan(packet, frame, plan);
    let inner = *whole->BeIn_1;
    let next = inner->Launch_next;
    let rest = |hcint: u32| awaited(next(hcint));
    assert forall|hcint: u32| #[trigger] rest(hcint) == first(hcint).bind(end) by {
        lemma_interpret_bind(packet, hcint, plan, end);
        lemma_periodic_collect_awaited(packet, collected, tries, plan, end);
    }
    lemma_launch_bind(packet, false, odd, first, end, rest);
    lemma_be_in_bind(frame, asynch::job_program(packet, job), end);
    assert(awaited(inner) == asynch::launch(packet, false, odd, rest)) by {
        broadcast use lemma_launch_same;

    }
    assert(asynch::job_program(packet, job) == asynch::launch(packet, false, odd, first)) by {
        broadcast use lemma_launch_same;

    }
}

/// Moving a packet of either kind by awaiting.
proof fn lemma_packet_awaited(
    packet: Transaction,
    plan: spec_fn(Verdict) -> Plan,
    end: spec_fn(Verdict) -> TaskProgram<Verdict>,
)
    requires
        follows(plan, end),
    ensures
        asynch::packet_program(packet).bind(end) == awaited(
            if packet.endpoint_type == EndpointType::Interrupt {
                periodic_split_plan(packet, plan)
            } else {
                split_plan(packet, plan)
            },
        ),
{
    if packet.endpoint_type == EndpointType::Interrupt {
        let first = |now: u8|
            {
                let frame = dwc2::start_split_frame(now);
                asynch::be_in(frame, asynch::job_program(packet, Job::PeriodicSplit(frame)))
            };
        let whole = periodic_split_plan(packet, plan);
        let next = whole->Choose_0;
        let rest = |now: u8| awaited(next(now));
        assert forall|now: u8| #[trigger] rest(now) == first(now).bind(end) by {
            lemma_periodic_start_awaited(packet, dwc2::start_split_frame(now), plan, end);
        }
        lemma_look_bind(first, end, rest);
        assert(awaited(whole) == asynch::look(rest)) by {
            let one = awaited(whole)->Request_1;
            let two = asynch::look(rest)->Request_1;
            assert forall|finding: Finding| #[trigger] one(finding) == two(finding) by {}
            assert(one =~= two);
        }
        assert(asynch::packet_program(packet) == asynch::look(first)) by {
            let one = asynch::packet_program(packet)->Request_1;
            let two = asynch::look(first)->Request_1;
            assert forall|finding: Finding| #[trigger] one(finding) == two(finding) by {}
            assert(one =~= two);
        }
    } else {
        lemma_split_awaited(packet, plan, end);
    }
}

/// Moving the rest of a transaction by awaiting.
proof fn lemma_packets_awaited(
    endpoint: ControlEndpoint,
    txn: Transaction,
    offset: u32,
    pid: DataPid,
)
    ensures
        asynch::packets_program(endpoint, txn, offset, pid) == awaited(
            packets_plan(endpoint, txn, offset, pid),
        ),
    decreases txn.transfer_size - offset,
{
    let packet = dwc2::packet_at(endpoint, txn, offset, pid);
    let plan = after_packet(endpoint, txn, offset, pid);
    let end = |verdict: Verdict| asynch::after_packet(endpoint, txn, offset, pid, verdict);
    assert(follows(plan, end)) by {
        assert forall|verdict: Verdict| #[trigger] end(verdict) == awaited(plan(verdict)) by {
            match verdict {
                Err(error) => {},
                Ok(count) => {
                    let reached = dwc2::reached_by(offset, count);
                    if !(count < packet.transfer_size || reached >= txn.transfer_size || reached
                        <= offset) {
                        lemma_packets_awaited(endpoint, txn, reached, pid.following());
                    }
                },
            }
        }
    }
    lemma_packets_plan(endpoint, txn, offset, pid);
    lemma_packet_awaited(packet, plan, end);
    assert(asynch::packets_program(endpoint, txn, offset, pid) == asynch::packet_program(
        packet,
    ).bind(end)) by {
        broadcast use program::lemma_bind_same;

    }
}

/// Transactions through a translator that are awaited are the twins of those that are
/// polled: both go by the same plan, which says what packets are handed over and when,
/// what is made of every halt, how often and in which microframes a packet is collected,
/// and where the next packet begins and with which PID.
pub proof fn law_same_plan(channel: u8, endpoint: ControlEndpoint, txn: Transaction)
    requires
        endpoint.split is Some,
    ensures
        dwc2::transaction_program(channel, endpoint, txn) == polled(
            channel,
            endpoint,
            packets_plan(endpoint, txn, 0, txn.pid),
            0,
        ),
        asynch::task_program(endpoint, txn) == awaited(packets_plan(endpoint, txn, 0, txn.pid)),
{
    lemma_packets(channel, endpoint, txn, 0, txn.pid, 0);
    lemma_packets_awaited(endpoint, txn, 0, txn.pid);
}

} // verus!

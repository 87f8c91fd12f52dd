//! How a transfer leaves its channel: halted, and ready for the next.
//!
//! A channel that was started is running until it is seen to have halted, or is stopped.
//! To start a channel that is still running, or to stop one that has halted, wedges it.

use vstd::prelude::*;

use crate::program::Program;
use crate::usb::dwc2;
use crate::usb::dwc2::hardware;
use crate::usb::dwc2::hardware::{Answer, Change, Field, HwHistory, HwProgram, Op};
use crate::usb::dwc2::{
    ControlEndpoint, DataPid, Outcome, Transaction, HCINT_CHH, MAX_CSPLIT_POLLS,
};

verus! {

/// Something that may be done to a channel that is running, or that is not.
pub open spec fn fitting(channel: u8, running: bool, op: Op) -> bool {
    match op {
        Op::Apply(Change::Start { channel: of, character }) => of == channel ==> !running,
        Op::Apply(Change::Disable { channel: of }) => of == channel ==> running,
        _ => true,
    }
}

/// Whether a channel is running after something was done and answered.
pub open spec fn running_after(channel: u8, running: bool, op: Op, answer: Answer) -> bool {
    match op {
        Op::Apply(Change::Start { channel: of, character }) => of == channel || running,
        Op::Apply(Change::Disable { channel: of }) => of != channel && running,
        Op::Read(Field::Interrupts(of)) => running && !(of == channel && (answer matches Answer::Word(
            hcint,
        ) && hcint & HCINT_CHH != 0)),
        _ => running,
    }
}

/// Whatever the answers, a program does to the channel only what may be done to it, and
/// takes it from the one state to the other.
pub open spec fn orderly<T>(program: HwProgram<T>, channel: u8, from: bool, to: bool) -> bool
    decreases program,
{
    match program {
        Program::Return(value) => from == to,
        Program::Request(op, next) => fitting(channel, from, op) && forall|answer: Answer|
            orderly(
                #[trigger] next(answer),
                channel,
                running_after(channel, from, op, answer),
                to,
            ),
        Program::Stuck => true,
    }
}

/// What was done to a channel was what may be done to it.
pub open spec fn was_orderly(history: HwHistory, channel: u8, running: bool) -> bool
    decreases history.len(),
{
    history.len() > 0 ==> {
        &&& fitting(channel, running, history[0].request)
        &&& was_orderly(
            history.skip(1),
            channel,
            running_after(channel, running, history[0].request, history[0].answer),
        )
    }
}

/// Whether the channel is running in the end.
pub open spec fn left_running(history: HwHistory, channel: u8, running: bool) -> bool
    decreases history.len(),
{
    if history.len() == 0 {
        running
    } else {
        left_running(
            history.skip(1),
            channel,
            running_after(channel, running, history[0].request, history[0].answer),
        )
    }
}

/// A program that is orderly was orderly when it ran.
pub proof fn law_orderly_runs<T>(
    program: HwProgram<T>,
    channel: u8,
    from: bool,
    to: bool,
    start: HwHistory,
    end: HwHistory,
    value: T,
)
    requires
        orderly(program, channel, from, to),
        program.ran(start, end, value),
    ensures
        was_orderly(end.skip(start.len() as int), channel, from),
        left_running(end.skip(start.len() as int), channel, from) == to,
{
    lemma_orderly_after(program, channel, from, to, end.skip(start.len() as int), value);
}

proof fn lemma_orderly_after<T>(
    program: HwProgram<T>,
    channel: u8,
    from: bool,
    to: bool,
    history: HwHistory,
    value: T,
)
    requires
        orderly(program, channel, from, to),
        program.after(history) == HwProgram::<T>::Return(value),
    ensures
        was_orderly(history, channel, from),
        left_running(history, channel, from) == to,
    decreases history.len(),
{
    if history.len() > 0 {
        match program {
            Program::Request(op, next) => {
                let answer = history[0].answer;
                assert(orderly(
                    next(answer),
                    channel,
                    running_after(channel, from, op, answer),
                    to,
                ));
                lemma_orderly_after(
                    next(answer),
                    channel,
                    running_after(channel, from, op, answer),
                    to,
                    history.skip(1),
                    value,
                );
            },
            _ => {},
        }
    }
}

broadcast proof fn lemma_return<T>(channel: u8, running: bool, value: T)
    ensures
        #[trigger] orderly(HwProgram::<T>::Return(value), channel, running, running),
{
}

broadcast proof fn lemma_apply<T>(
    channel: u8,
    from: bool,
    to: bool,
    change: Change,
    rest: HwProgram<T>,
)
    requires
        fitting(channel, from, Op::Apply(change)),
        orderly(rest, channel, running_after(channel, from, Op::Apply(change), Answer::Done), to),
    ensures
        #[trigger] orderly(hardware::apply(change, rest), channel, from, to),
{
}

broadcast proof fn lemma_read<T>(
    channel: u8,
    from: bool,
    to: bool,
    field: Field,
    rest: spec_fn(u32) -> HwProgram<T>,
)
    requires
        !(field is Interrupts),
        forall|value: u32| orderly(#[trigger] rest(value), channel, from, to),
    ensures
        #[trigger] orderly(hardware::read(field, rest), channel, from, to),
{
    let next = hardware::read(field, rest)->Request_1;
    let op = hardware::read(field, rest)->Request_0;
    assert forall|answer: Answer| orderly(
        #[trigger] next(answer),
        channel,
        running_after(channel, from, op, answer),
        to,
    ) by {
        match answer {
            Answer::Word(value) => {
                assert(orderly(rest(value), channel, from, to));
            },
            _ => {},
        }
    }
}

broadcast proof fn lemma_now<T>(
    channel: u8,
    from: bool,
    to: bool,
    rest: spec_fn(u64) -> HwProgram<T>,
)
    requires
        forall|value: u64| orderly(#[trigger] rest(value), channel, from, to),
    ensures
        #[trigger] orderly(hardware::now(rest), channel, from, to),
{
    let next = hardware::now(rest)->Request_1;
    let op = hardware::now(rest)->Request_0;
    assert forall|answer: Answer| orderly(
        #[trigger] next(answer),
        channel,
        running_after(channel, from, op, answer),
        to,
    ) by {
        match answer {
            Answer::Time(value) => {
                assert(orderly(rest(value), channel, from, to));
            },
            _ => {},
        }
    }
}

broadcast proof fn lemma_stage<T>(
    channel: u8,
    from: bool,
    to: bool,
    data: Seq<u8>,
    rest: spec_fn(u32) -> HwProgram<T>,
)
    requires
        forall|value: u32| orderly(#[trigger] rest(value), channel, from, to),
    ensures
        #[trigger] orderly(hardware::stage(data, rest), channel, from, to),
{
    let next = hardware::stage(data, rest)->Request_1;
    let op = hardware::stage(data, rest)->Request_0;
    assert forall|answer: Answer| orderly(
        #[trigger] next(answer),
        channel,
        running_after(channel, from, op, answer),
        to,
    ) by {
        match answer {
            Answer::Word(value) => {
                assert(orderly(rest(value), channel, from, to));
            },
            _ => {},
        }
    }
}

broadcast proof fn lemma_landing<T>(
    channel: u8,
    from: bool,
    to: bool,
    len: usize,
    rest: spec_fn(u32) -> HwProgram<T>,
)
    requires
        forall|value: u32| orderly(#[trigger] rest(value), channel, from, to),
    ensures
        #[trigger] orderly(hardware::landing(len, rest), channel, from, to),
{
    let next = hardware::landing(len, rest)->Request_1;
    let op = hardware::landing(len, rest)->Request_0;
    assert forall|answer: Answer| orderly(
        #[trigger] next(answer),
        channel,
        running_after(channel, from, op, answer),
        to,
    ) by {
        match answer {
            Answer::Word(value) => {
                assert(orderly(rest(value), channel, from, to));
            },
            _ => {},
        }
    }
}

broadcast proof fn lemma_fetch<T>(
    channel: u8,
    from: bool,
    to: bool,
    len: usize,
    rest: spec_fn(Seq<u8>) -> HwProgram<T>,
)
    requires
        forall|value: Seq<u8>| orderly(#[trigger] rest(value), channel, from, to),
    ensures
        #[trigger] orderly(hardware::fetch(len, rest), channel, from, to),
{
    let next = hardware::fetch(len, rest)->Request_1;
    let op = hardware::fetch(len, rest)->Request_0;
    assert forall|answer: Answer| orderly(
        #[trigger] next(answer),
        channel,
        running_after(channel, from, op, answer),
        to,
    ) by {
        match answer {
            Answer::Bytes(value) => {
                assert(orderly(rest(value), channel, from, to));
            },
            _ => {},
        }
    }
}

/// A look at the channel's interrupts may show that it has halted.
broadcast proof fn lemma_look<T>(
    channel: u8,
    from: bool,
    to: bool,
    rest: spec_fn(u32) -> HwProgram<T>,
)
    requires
        forall|hcint: u32|
            orderly(#[trigger] rest(hcint), channel, from && hcint & HCINT_CHH == 0, to),
    ensures
        #[trigger] orderly(hardware::read(Field::Interrupts(channel), rest), channel, from, to),
{
    let next = hardware::read(Field::Interrupts(channel), rest)->Request_1;
    let op = Op::Read(Field::Interrupts(channel));
    assert forall|answer: Answer| orderly(
        #[trigger] next(answer),
        channel,
        running_after(channel, from, op, answer),
        to,
    ) by {
        match answer {
            Answer::Word(value) => {
                assert(orderly(rest(value), channel, from && value & HCINT_CHH == 0, to));
            },
            _ => {},
        }
    }
}

broadcast proof fn lemma_delay<T>(
    channel: u8,
    from: bool,
    to: bool,
    micros: u64,
    rest: HwProgram<T>,
)
    requires
        orderly(rest, channel, from, to),
    ensures
        #[trigger] orderly(hardware::delay(micros, rest), channel, from, to),
{
}

/// Two programs in turn.
proof fn lemma_bind<S, T>(
    channel: u8,
    from: bool,
    middle: bool,
    to: bool,
    part: HwProgram<S>,
    rest: spec_fn(S) -> HwProgram<T>,
)
    requires
        orderly(part, channel, from, middle),
        forall|value: S| orderly(#[trigger] rest(value), channel, middle, to),
    ensures
        orderly(part.bind(rest), channel, from, to),
    decreases part,
{
    match part {
        Program::Return(value) => {
            assert(part.bind(rest) == rest(value));
            assert(orderly(rest(value), channel, middle, to));
        },
        Program::Request(op, next) => {
            let bound = part.bind(rest)->Request_1;
            assert forall|answer: Answer| orderly(
                #[trigger] bound(answer),
                channel,
                running_after(channel, from, op, answer),
                to,
            ) by {
                lemma_bind(
                    channel,
                    running_after(channel, from, op, answer),
                    middle,
                    to,
                    next(answer),
                    rest,
                );
                assert(bound(answer) == next(answer).bind(rest));
            }
        },
        Program::Stuck => {},
    }
}

/// Two programs in turn, the first of which takes a channel that is running to one that
/// has halted.
broadcast proof fn lemma_bind_halting<S, T>(
    channel: u8,
    part: HwProgram<S>,
    rest: spec_fn(S) -> HwProgram<T>,
)
    requires
        orderly(part, channel, true, false),
        forall|value: S| orderly(#[trigger] rest(value), channel, false, false),
    ensures
        #[trigger] orderly(part.bind(rest), channel, true, false),
{
    lemma_bind(channel, true, false, false, part, rest);
}

/// Two programs in turn, the first of which starts the channel or leaves it as it is.
broadcast proof fn lemma_bind_starting<S, T>(
    channel: u8,
    part: HwProgram<S>,
    rest: spec_fn(S) -> HwProgram<T>,
)
    requires
        ({
            ||| orderly(part, channel, false, true) && forall|value: S|
                orderly(#[trigger] rest(value), channel, true, false)
            ||| orderly(part, channel, false, false) && forall|value: S|
                orderly(#[trigger] rest(value), channel, false, false)
        }),
    ensures
        #[trigger] orderly(part.bind(rest), channel, false, false),
{
    if orderly(part, channel, false, true) && forall|value: S|
        orderly(#[trigger] rest(value), channel, true, false) {
        lemma_bind(channel, false, true, false, part, rest);
    } else {
        lemma_bind(channel, false, false, false, part, rest);
    }
}

broadcast group group_steps {
    lemma_return,
    lemma_apply,
    lemma_read,
    lemma_now,
    lemma_stage,
    lemma_landing,
    lemma_fetch,
    lemma_look,
    lemma_delay,
    lemma_bind_halting,
    lemma_bind_starting,
}

broadcast proof fn lemma_start(
    channel: u8,
    endpoint: ControlEndpoint,
    txn: Transaction,
    complete: bool,
    odd_frame: Option<bool>,
)
    ensures
        #[trigger] orderly(
            dwc2::start_program(channel, endpoint, txn, complete, odd_frame),
            channel,
            false,
            true,
        ),
{
    broadcast use group_steps;

}

proof fn lemma_abort_poll(channel: u8, start: u64, spins: nat)
    ensures
        orderly(dwc2::abort_poll(channel, start, spins), channel, false, false),
    decreases spins,
{
    broadcast use group_steps;

    if spins > 0 {
        lemma_abort_poll(channel, start, (spins - 1) as nat);
    }
}

/// A channel that is stopped is not running any more.
pub proof fn law_abort_stops(channel: u8)
    ensures
        orderly(dwc2::abort_program(channel), channel, true, false),
{
    broadcast use group_steps;

    assert forall|from: u64| orderly(
        #[trigger] dwc2::abort_poll(channel, from, dwc2::MAX_SPINS as nat),
        channel,
        false,
        false,
    ) by {
        lemma_abort_poll(channel, from, dwc2::MAX_SPINS as nat);
    }
}

proof fn lemma_halt_poll(channel: u8, start: u64, spins: nat)
    ensures
        orderly(dwc2::halt_poll(channel, start, spins), channel, true, false),
    decreases spins,
{
    broadcast use group_steps;

    law_abort_stops(channel);
    if spins > 0 {
        lemma_halt_poll(channel, start, (spins - 1) as nat);
    }
}

proof fn lemma_halt(channel: u8)
    ensures
        orderly(dwc2::halt_program(channel), channel, true, false),
{
    broadcast use group_steps;

    assert forall|start: u64| orderly(
        #[trigger] dwc2::halt_poll(channel, start, dwc2::MAX_SPINS as nat),
        channel,
        true,
        false,
    ) by {
        lemma_halt_poll(channel, start, dwc2::MAX_SPINS as nat);
    }
}

broadcast proof fn lemma_halted(channel: u8, rest: spec_fn(u32) -> HwProgram<Outcome>)
    requires
        forall|hcint: u32| orderly(#[trigger] rest(hcint), channel, false, false),
    ensures
        #[trigger] orderly(dwc2::halted(channel, rest), channel, true, false),
{
    broadcast use group_steps;

    lemma_halt(channel);
}

broadcast proof fn lemma_conclude(channel: u8, hcint: u32, requested: usize)
    ensures
        #[trigger] orderly(dwc2::conclude(channel, hcint, requested), channel, false, false),
{
    broadcast use group_steps;

    assert(orderly(dwc2::interpret_program(channel, hcint, requested), channel, false, false));
}

broadcast group group_pieces {
    lemma_start,
    lemma_halted,
    lemma_conclude,
    lemma_frame,
}

proof fn lemma_complete(channel: u8, endpoint: ControlEndpoint, packet: Transaction, attempt: u32)
    ensures
        orderly(dwc2::complete_program(channel, endpoint, packet, attempt), channel, false, false),
    decreases MAX_CSPLIT_POLLS - attempt,
{
    broadcast use {group_steps, group_pieces};

    if attempt + 1 < MAX_CSPLIT_POLLS {
        lemma_complete(channel, endpoint, packet, (attempt + 1) as u32);
    }
}

proof fn lemma_split(channel: u8, endpoint: ControlEndpoint, packet: Transaction)
    ensures
        orderly(dwc2::split_program(channel, endpoint, packet), channel, false, false),
{
    broadcast use {group_steps, group_pieces};

    lemma_complete(channel, endpoint, packet, 0);
}

proof fn lemma_frame_poll(channel: u8, frame: u8, start: u64, spins: nat)
    ensures
        orderly(dwc2::frame_poll(frame, start, spins), channel, false, false),
    decreases spins,
{
    broadcast use group_steps;

    if spins > 0 {
        lemma_frame_poll(channel, frame, start, (spins - 1) as nat);
    }
}

broadcast proof fn lemma_frame(channel: u8, frame: u8)
    ensures
        #[trigger] orderly(dwc2::frame_program(frame), channel, false, false),
{
    broadcast use group_steps;

    assert forall|start: u64| orderly(
        #[trigger] dwc2::frame_poll(frame, start, dwc2::MAX_SPINS as nat),
        channel,
        false,
        false,
    ) by {
        lemma_frame_poll(channel, frame, start, dwc2::MAX_SPINS as nat);
    }
}

proof fn lemma_periodic_complete(
    channel: u8,
    endpoint: ControlEndpoint,
    packet: Transaction,
    frame: u8,
    tries: u8,
)
    ensures
        orderly(
            dwc2::periodic_complete_program(channel, endpoint, packet, frame, tries),
            channel,
            false,
            false,
        ),
    decreases tries,
{
    broadcast use {group_steps, group_pieces};

    if tries > 0 {
        lemma_periodic_complete(
            channel,
            endpoint,
            packet,
            dwc2::frames_on(frame, 1),
            (tries - 1) as u8,
        );
    }
}

proof fn lemma_periodic_split(channel: u8, endpoint: ControlEndpoint, packet: Transaction)
    ensures
        orderly(
            dwc2::periodic_split_program(channel, endpoint, packet),
            channel,
            false,
            false,
        ),
{
    broadcast use {group_steps, group_pieces};

    assert forall|frame: u8, tries: u8| orderly(
        #[trigger] dwc2::periodic_complete_program(channel, endpoint, packet, frame, tries),
        channel,
        false,
        false,
    ) by {
        lemma_periodic_complete(channel, endpoint, packet, frame, tries);
    }
}

proof fn lemma_packets(
    channel: u8,
    endpoint: ControlEndpoint,
    txn: Transaction,
    offset: u32,
    pid: DataPid,
)
    ensures
        orderly(
            dwc2::packets_program(channel, endpoint, txn, offset, pid),
            channel,
            false,
            false,
        ),
    decreases txn.transfer_size - offset,
{
    broadcast use {group_steps, group_pieces};

    let packet = dwc2::packet_at(endpoint, txn, offset, pid);
    lemma_periodic_split(channel, endpoint, packet);
    lemma_split(channel, endpoint, packet);
    assert forall|count: usize|
        offset < #[trigger] dwc2::reached_by(offset, count) < txn.transfer_size implies orderly(
        dwc2::packets_program(
            channel,
            endpoint,
            txn,
            dwc2::reached_by(offset, count),
            pid.following(),
        ),
        channel,
        false,
        false,
    ) by {
        lemma_packets(
            channel,
            endpoint,
            txn,
            dwc2::reached_by(offset, count),
            pid.following(),
        );
    }
}

/// However a transaction ends, it starts its channel only when the channel is not
/// running, stops it only when it is, and leaves it halted.
pub proof fn law_transaction_is_orderly(channel: u8, endpoint: ControlEndpoint, txn: Transaction)
    ensures
        orderly(dwc2::transaction_program(channel, endpoint, txn), channel, false, false),
{
    broadcast use {group_steps, group_pieces};

    assert(orderly(dwc2::channel_program(channel), channel, true, false));
    lemma_packets(channel, endpoint, txn, 0, txn.pid);
}

/// The same of every transfer that a channel can be asked for.
pub proof fn law_transfers_are_orderly(
    channel: u8,
    endpoint: ControlEndpoint,
    endpoint_number: u8,
    data_toggle: bool,
    data: Seq<u8>,
    len: usize,
    direction_in: bool,
)
    ensures
        orderly(dwc2::setup_program(channel, endpoint, data), channel, false, false),
        orderly(dwc2::data_out_program(channel, endpoint, data), channel, false, false),
        orderly(dwc2::data_in_program(channel, endpoint, len), channel, false, false),
        orderly(dwc2::status_program(channel, endpoint, direction_in), channel, false, false),
        orderly(
            dwc2::interrupt_program(channel, endpoint, endpoint_number, data_toggle, len),
            channel,
            false,
            false,
        ),
        orderly(
            dwc2::bulk_out_program(channel, endpoint, endpoint_number, data_toggle, data),
            channel,
            false,
            false,
        ),
        orderly(
            dwc2::bulk_in_program(channel, endpoint, endpoint_number, data_toggle, len),
            channel,
            false,
            false,
        ),
{
    broadcast use {group_steps, group_pieces};

    assert forall|txn: Transaction| orderly(
        #[trigger] dwc2::transaction_program(channel, endpoint, txn),
        channel,
        false,
        false,
    ) by {
        law_transaction_is_orderly(channel, endpoint, txn);
    }
    assert forall|txn: Transaction| orderly(
        #[trigger] dwc2::plain_program(channel, endpoint, txn),
        channel,
        false,
        false,
    ) by {
    }
    assert forall|txn: Transaction| orderly(
        #[trigger] dwc2::inward_program(channel, endpoint, txn, len),
        channel,
        false,
        false,
    ) by {
    }
    assert(orderly(dwc2::next_toggle_program(channel), channel, false, false));
}

} // verus!

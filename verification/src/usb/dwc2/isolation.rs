//! What a transfer leaves alone: every channel but its own, and everything that the
//! channels have in common.

use vstd::prelude::*;

use crate::program;
use crate::program::Program;
use crate::usb::dwc2;
use crate::usb::dwc2::hardware;
use crate::usb::dwc2::hardware::{Answer, Change, Field, HwProgram, Op};
use crate::usb::dwc2::{
    ControlEndpoint, DataPid, Outcome, Transaction, MAX_CSPLIT_POLLS,
};

verus! {

/// The channel whose register a write changes, if it is that of a channel.
pub open spec fn channel_of(change: Change) -> Option<u8> {
    match change {
        Change::ChannelMask { channel, unmasked } => Some(channel),
        Change::AckInterrupts { channel, bits } => Some(channel),
        Change::InterruptMask { channel, bits } => Some(channel),
        Change::Split { channel, split } => Some(channel),
        Change::DmaAddress { channel, bus_address } => Some(channel),
        Change::TransferSize { channel, size } => Some(channel),
        Change::Start { channel, character } => Some(channel),
        Change::Disable { channel } => Some(channel),
        _ => None,
    }
}

/// Something that the owner of a channel may do: look at the frame number and at the
/// channel's own registers, change the channel's own registers, wait, and move data.
pub open spec fn own(channel: u8, op: Op) -> bool {
    match op {
        Op::Read(field) => match field {
            Field::FrameNumber => true,
            Field::Interrupts(of) => of == channel,
            Field::BytesLeft(of) => of == channel,
            Field::NextPid(of) => of == channel,
            _ => false,
        },
        Op::Apply(change) => channel_of(change) == Some(channel),
        _ => true,
    }
}

/// Does nothing but what the owner of a channel may do.
pub open spec fn keeps_to<T>(program: HwProgram<T>, channel: u8) -> bool {
    program.every(|op: Op| own(channel, op))
}

broadcast proof fn lemma_return<T>(channel: u8, value: T)
    ensures
        #[trigger] keeps_to(Program::Return(value), channel),
{
}

broadcast proof fn lemma_apply<T>(channel: u8, change: Change, rest: HwProgram<T>)
    requires
        channel_of(change) == Some(channel),
        keeps_to(rest, channel),
    ensures
        #[trigger] keeps_to(hardware::apply(change, rest), channel),
{
}

broadcast proof fn lemma_read<T>(channel: u8, field: Field, rest: spec_fn(u32) -> HwProgram<T>)
    requires
        own(channel, Op::Read(field)),
        forall|value: u32| keeps_to(#[trigger] rest(value), channel),
    ensures
        #[trigger] keeps_to(hardware::read(field, rest), channel),
{
    let program = hardware::read(field, rest);
    let next = program->Request_1;
    assert forall|answer: Answer| (#[trigger] next(answer)).every(|op: Op| own(channel, op)) by {
        match answer {
            Answer::Word(value) => {
                assert(keeps_to(rest(value), channel));
            },
            _ => {},
        }
    }
}

broadcast proof fn lemma_now<T>(channel: u8, rest: spec_fn(u64) -> HwProgram<T>)
    requires
        forall|value: u64| keeps_to(#[trigger] rest(value), channel),
    ensures
        #[trigger] keeps_to(hardware::now(rest), channel),
{
    let program = hardware::now(rest);
    let next = program->Request_1;
    assert forall|answer: Answer| (#[trigger] next(answer)).every(|op: Op| own(channel, op)) by {
        match answer {
            Answer::Time(value) => {
                assert(keeps_to(rest(value), channel));
            },
            _ => {},
        }
    }
}

broadcast proof fn lemma_delay<T>(channel: u8, micros: u64, rest: HwProgram<T>)
    requires
        keeps_to(rest, channel),
    ensures
        #[trigger] keeps_to(hardware::delay(micros, rest), channel),
{
}

broadcast proof fn lemma_stage<T>(channel: u8, data: Seq<u8>, rest: spec_fn(u32) -> HwProgram<T>)
    requires
        forall|value: u32| keeps_to(#[trigger] rest(value), channel),
    ensures
        #[trigger] keeps_to(hardware::stage(data, rest), channel),
{
    let program = hardware::stage(data, rest);
    let next = program->Request_1;
    assert forall|answer: Answer| (#[trigger] next(answer)).every(|op: Op| own(channel, op)) by {
        match answer {
            Answer::Word(value) => {
                assert(keeps_to(rest(value), channel));
            },
            _ => {},
        }
    }
}

broadcast proof fn lemma_landing<T>(channel: u8, len: usize, rest: spec_fn(u32) -> HwProgram<T>)
    requires
        forall|value: u32| keeps_to(#[trigger] rest(value), channel),
    ensures
        #[trigger] keeps_to(hardware::landing(len, rest), channel),
{
    let program = hardware::landing(len, rest);
    let next = program->Request_1;
    assert forall|answer: Answer| (#[trigger] next(answer)).every(|op: Op| own(channel, op)) by {
        match answer {
            Answer::Word(value) => {
                assert(keeps_to(rest(value), channel));
            },
            _ => {},
        }
    }
}

broadcast proof fn lemma_fetch<T>(channel: u8, len: usize, rest: spec_fn(Seq<u8>) -> HwProgram<T>)
    requires
        forall|value: Seq<u8>| keeps_to(#[trigger] rest(value), channel),
    ensures
        #[trigger] keeps_to(hardware::fetch(len, rest), channel),
{
    let program = hardware::fetch(len, rest);
    let next = program->Request_1;
    assert forall|answer: Answer| (#[trigger] next(answer)).every(|op: Op| own(channel, op)) by {
        match answer {
            Answer::Bytes(value) => {
                assert(keeps_to(rest(value), channel));
            },
            _ => {},
        }
    }
}

broadcast proof fn lemma_bind<S, T>(
    channel: u8,
    part: HwProgram<S>,
    rest: spec_fn(S) -> HwProgram<T>,
)
    requires
        keeps_to(part, channel),
        forall|value: S| keeps_to(#[trigger] rest(value), channel),
    ensures
        #[trigger] keeps_to(part.bind(rest), channel),
{
    program::lemma_every_bind(part, rest, |op: Op| own(channel, op));
}

broadcast group group_own {
    lemma_return,
    lemma_apply,
    lemma_read,
    lemma_now,
    lemma_delay,
    lemma_stage,
    lemma_landing,
    lemma_fetch,
    lemma_bind,
}

broadcast proof fn lemma_start(
    channel: u8,
    endpoint: ControlEndpoint,
    txn: Transaction,
    complete: bool,
    odd_frame: Option<bool>,
)
    ensures
        #[trigger] keeps_to(
            dwc2::start_program(channel, endpoint, txn, complete, odd_frame),
            channel,
        ),
{
    broadcast use group_own;

}

proof fn lemma_abort_poll(channel: u8, start: u64, spins: nat)
    ensures
        keeps_to(dwc2::abort_poll(channel, start, spins), channel),
    decreases spins,
{
    broadcast use group_own;

    if spins > 0 {
        lemma_abort_poll(channel, start, (spins - 1) as nat);
    }
}

proof fn lemma_halt_poll(channel: u8, start: u64, spins: nat)
    ensures
        keeps_to(dwc2::halt_poll(channel, start, spins), channel),
    decreases spins,
{
    broadcast use group_own;

    assert forall|from: u64| keeps_to(#[trigger] dwc2::abort_poll(channel, from, dwc2::MAX_SPINS as nat), channel) by {
        lemma_abort_poll(channel, from, dwc2::MAX_SPINS as nat);
    }
    assert(keeps_to(dwc2::abort_program(channel), channel));
    if spins > 0 {
        lemma_halt_poll(channel, start, (spins - 1) as nat);
    }
}

proof fn lemma_halt(channel: u8)
    ensures
        keeps_to(dwc2::halt_program(channel), channel),
{
    broadcast use group_own;

    assert forall|start: u64| keeps_to(
        #[trigger] dwc2::halt_poll(channel, start, dwc2::MAX_SPINS as nat),
        channel,
    ) by {
        lemma_halt_poll(channel, start, dwc2::MAX_SPINS as nat);
    }
}

broadcast proof fn lemma_halted(channel: u8, rest: spec_fn(u32) -> HwProgram<Outcome>)
    requires
        forall|hcint: u32| keeps_to(#[trigger] rest(hcint), channel),
    ensures
        #[trigger] keeps_to(dwc2::halted(channel, rest), channel),
{
    broadcast use group_own;

    lemma_halt(channel);
}

broadcast proof fn lemma_conclude(channel: u8, hcint: u32, requested: usize)
    ensures
        #[trigger] keeps_to(dwc2::conclude(channel, hcint, requested), channel),
{
    broadcast use group_own;

    assert(keeps_to(dwc2::interpret_program(channel, hcint, requested), channel));
}

broadcast group group_pieces {
    lemma_start,
    lemma_halted,
    lemma_conclude,
    lemma_frame,
}

proof fn lemma_channel(channel: u8)
    ensures
        keeps_to(dwc2::channel_program(channel), channel),
{
    broadcast use {group_own, group_pieces};

}

proof fn lemma_complete(channel: u8, endpoint: ControlEndpoint, packet: Transaction, attempt: u32)
    ensures
        keeps_to(dwc2::complete_program(channel, endpoint, packet, attempt), channel),
    decreases MAX_CSPLIT_POLLS - attempt,
{
    broadcast use {group_own, group_pieces};

    if attempt + 1 < MAX_CSPLIT_POLLS {
        lemma_complete(channel, endpoint, packet, (attempt + 1) as u32);
    }
}

proof fn lemma_split(channel: u8, endpoint: ControlEndpoint, packet: Transaction)
    ensures
        keeps_to(dwc2::split_program(channel, endpoint, packet), channel),
{
    broadcast use {group_own, group_pieces};

    lemma_complete(channel, endpoint, packet, 0);
}

proof fn lemma_frame_poll(channel: u8, frame: u8, start: u64, spins: nat)
    ensures
        keeps_to(dwc2::frame_poll(frame, start, spins), channel),
    decreases spins,
{
    broadcast use group_own;

    if spins > 0 {
        lemma_frame_poll(channel, frame, start, (spins - 1) as nat);
    }
}

broadcast proof fn lemma_frame(channel: u8, frame: u8)
    ensures
        #[trigger] keeps_to(dwc2::frame_program(frame), channel),
{
    broadcast use group_own;

    assert forall|start: u64| keeps_to(
        #[trigger] dwc2::frame_poll(frame, start, dwc2::MAX_SPINS as nat),
        channel,
    ) by {
        lemma_frame_poll(channel, frame, start, dwc2::MAX_SPINS as nat);
    }
}

proof fn lemma_periodic_complete(
    channel: u8,
    endpoint: ControlEndpoint,
    packet: Transaction,
    frame: u8,
    tries: u8,
)
    ensures
        keeps_to(
            dwc2::periodic_complete_program(channel, endpoint, packet, frame, tries),
            channel,
        ),
    decreases tries,
{
    broadcast use {group_own, group_pieces};

    if tries > 0 {
        lemma_periodic_complete(
            channel,
            endpoint,
            packet,
            dwc2::frames_on(frame, 1),
            (tries - 1) as u8,
        );
    }
}

proof fn lemma_periodic_split(channel: u8, endpoint: ControlEndpoint, packet: Transaction)
    ensures
        keeps_to(dwc2::periodic_split_program(channel, endpoint, packet), channel),
{
    broadcast use {group_own, group_pieces};

    assert forall|frame: u8, tries: u8| keeps_to(
        #[trigger] dwc2::periodic_complete_program(channel, endpoint, packet, frame, tries),
        channel,
    ) by {
        lemma_periodic_complete(channel, endpoint, packet, frame, tries);
    }
}

proof fn lemma_packets(
    channel: u8,
    endpoint: ControlEndpoint,
    txn: Transaction,
    offset: u32,
    pid: DataPid,
)
    ensures
        keeps_to(dwc2::packets_program(channel, endpoint, txn, offset, pid), channel),
    decreases txn.transfer_size - offset,
{
    broadcast use {group_own, group_pieces};

    let packet = dwc2::packet_at(endpoint, txn, offset, pid);
    lemma_periodic_split(channel, endpoint, packet);
    lemma_split(channel, endpoint, packet);
    assert forall|count: usize|
        offset < #[trigger] dwc2::reached_by(offset, count) < txn.transfer_size implies keeps_to(
        dwc2::packets_program(
            channel,
            endpoint,
            txn,
            dwc2::reached_by(offset, count),
            pid.following(),
        ),
        channel,
    ) by {
        lemma_packets(
            channel,
            endpoint,
            txn,
            dwc2::reached_by(offset, count),
            pid.following(),
        );
    }
}

/// A transaction, however it ends, changes no register but those of its own channel,
/// and looks at none but those and the frame number: transfers on different channels
/// do not get in each other's way.
pub proof fn law_own_channel(channel: u8, endpoint: ControlEndpoint, txn: Transaction)
    ensures
        keeps_to(dwc2::transaction_program(channel, endpoint, txn), channel),
{
    broadcast use {group_own, group_pieces};

    lemma_channel(channel);
    lemma_packets(channel, endpoint, txn, 0, txn.pid);
}

/// The same of every transfer that a channel can be asked for.
pub proof fn law_transfers_keep_to_their_channel(
    channel: u8,
    endpoint: ControlEndpoint,
    endpoint_number: u8,
    data_toggle: bool,
    data: Seq<u8>,
    len: usize,
    direction_in: bool,
)
    ensures
        keeps_to(dwc2::setup_program(channel, endpoint, data), channel),
        keeps_to(dwc2::data_out_program(channel, endpoint, data), channel),
        keeps_to(dwc2::data_in_program(channel, endpoint, len), channel),
        keeps_to(dwc2::status_program(channel, endpoint, direction_in), channel),
        keeps_to(
            dwc2::interrupt_program(channel, endpoint, endpoint_number, data_toggle, len),
            channel,
        ),
        keeps_to(
            dwc2::bulk_out_program(channel, endpoint, endpoint_number, data_toggle, data),
            channel,
        ),
        keeps_to(
            dwc2::bulk_in_program(channel, endpoint, endpoint_number, data_toggle, len),
            channel,
        ),
{
    broadcast use {group_own, group_pieces};

    assert forall|txn: Transaction| keeps_to(
        #[trigger] dwc2::transaction_program(channel, endpoint, txn),
        channel,
    ) by {
        law_own_channel(channel, endpoint, txn);
    }
    assert forall|txn: Transaction| keeps_to(
        #[trigger] dwc2::plain_program(channel, endpoint, txn),
        channel,
    ) by {
    }
    assert forall|txn: Transaction| keeps_to(
        #[trigger] dwc2::inward_program(channel, endpoint, txn, len),
        channel,
    ) by {
    }
    assert(keeps_to(dwc2::next_toggle_program(channel), channel));
}

} // verus!

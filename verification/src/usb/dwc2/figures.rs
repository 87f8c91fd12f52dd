//! The figures that a transfer is made of: packets, frames, toggles, and what the controller
//! is told of each transaction.

use vstd::prelude::*;

use crate::program::Program;
use crate::usb::dwc2;
use crate::usb::dwc2::hardware::{
    Answer, Change, CharacterFields, Field, Op, SizeFields, SplitFields,
};
use crate::usb::dwc2::{ControlEndpoint, DataPid, EndpointType, Transaction, TransferError};

verus! {

/// A transfer takes so many packets: enough for all of its bytes, and not one more; an empty
/// one takes one.
pub open spec fn is_packet_count(packets: int, bytes: int, size: int) -> bool {
    if bytes == 0 {
        packets == 1
    } else {
        packets * size >= bytes && (packets - 1) * size < bytes
    }
}

/// The packets that the controller is told of are as many as the bytes need.
pub proof fn law_packets(bytes: u32, max_packet_size: u16)
    requires
        max_packet_size > 0,
    ensures
        is_packet_count(
            dwc2::packets_for(bytes, max_packet_size),
            bytes as int,
            max_packet_size as int,
        ),
{
    if bytes > 0 {
        let size = max_packet_size as int;
        let n = (bytes - 1) / size;
        vstd::arithmetic::div_mod::lemma_fundamental_div_mod(bytes - 1, size);
        vstd::arithmetic::div_mod::lemma_mod_bound(bytes - 1, size);
        assert(size * n == n * size) by (nonlinear_arith);
        assert((n + 1) * size == n * size + size) by (nonlinear_arith);
    }
}

/// What is asked for of a bulk transfer that comes in are whole packets, as many as there is
/// room for.
pub proof fn law_whole_packets(len: u32, max_packet_size: u16)
    requires
        max_packet_size > 0,
    ensures
        dwc2::whole_packets(len, max_packet_size) <= len,
        len < dwc2::whole_packets(len, max_packet_size) + max_packet_size,
        dwc2::whole_packets(len, max_packet_size) as int % max_packet_size as int == 0,
{
    let size = max_packet_size as int;
    let bytes = len as int;
    vstd::arithmetic::div_mod::lemma_fundamental_div_mod(bytes, size);
    vstd::arithmetic::div_mod::lemma_mod_bound(bytes, size);
    assert(bytes - bytes % size == (bytes / size) * size) by (nonlinear_arith)
        requires
            bytes == size * (bytes / size) + bytes % size,
    ;
    vstd::arithmetic::div_mod::lemma_mod_multiples_basic(bytes / size, size);
}

/// A packet of a transfer through a translator is as long as a packet can be, or what is
/// left of the transfer, whichever is less; it is where the transfer has got to in memory;
/// and in all else it is as the transfer.
pub proof fn law_packet_at(endpoint: ControlEndpoint, txn: Transaction, offset: u32, pid: DataPid)
    requires
        endpoint.max_packet_size > 0,
        offset <= txn.transfer_size,
        txn.dma_address + offset <= u32::MAX,
    ensures
        ({
            let packet = dwc2::packet_at(endpoint, txn, offset, pid);
            &&& packet.transfer_size <= endpoint.max_packet_size
            &&& offset + packet.transfer_size <= txn.transfer_size
            &&& packet.transfer_size == endpoint.max_packet_size || offset + packet.transfer_size
                == txn.transfer_size
            &&& packet.dma_address == txn.dma_address + offset
            &&& packet.pid == pid
            &&& packet.endpoint_number == txn.endpoint_number
            &&& packet.endpoint_type == txn.endpoint_type
            &&& packet.direction_in == txn.direction_in
        }),
{
}

/// What is left is what was asked for without what was moved; a controller that says that
/// more is left than was asked for has moved nothing.
pub proof fn law_moved(requested: usize, left: u32)
    ensures
        left <= requested ==> dwc2::moved(requested, left) + left == requested,
        left > requested ==> dwc2::moved(requested, left) == 0,
{
}

/// The time since a start that is not later.
pub proof fn law_elapsed(now: u64, start: u64)
    requires
        start <= now,
    ensures
        dwc2::elapsed(now, start) == now - start,
{
}

/// On the bus, memory is in a window of a gigabyte that begins at three.
pub proof fn law_bus_window(physical_address: u32)
    ensures
        dwc2::vc_bus_address(physical_address) == 0xC000_0000 + physical_address % 0x4000_0000,
{
    crate::vchiq::law_bus_window(physical_address);
}

/// Where in a frame a split begins: in the microframe after this one, unless that is the
/// seventh, in which none may begin; then in the one after that. Frames go round.
pub proof fn law_split_begins(number: u32)
    ensures
        ({
            let frame = dwc2::start_split_frame(dwc2::microframe_of(number));
            let next = (number + 1) % 8;
            &&& frame < 8
            &&& frame != 6
            &&& next != 6 ==> frame == next
            &&& next == 6 ==> frame == (number + 2) % 8
        }),
{
}

/// Each kind of packet, and each kind of endpoint, has its own number for the controller;
/// the toggle picks the even kind of packet or the odd one, and the kinds alternate.
pub proof fn law_kinds(toggle: bool)
    ensures
        DataPid::Data0.encoding() == 0,
        DataPid::Data1.encoding() == 2,
        DataPid::Setup.encoding() == 3,
        EndpointType::Control.encoding() == 0,
        EndpointType::Bulk.encoding() == 2,
        EndpointType::Interrupt.encoding() == 3,
        dwc2::pid_of(toggle).encoding() == if toggle { 2int } else { 0 },
        dwc2::pid_of(toggle).following() == dwc2::pid_of(!toggle),
{
}

/// What a halt without a completed transfer is told as: the first of these that the
/// controller gives as a reason, in this order.
pub proof fn law_reasons(hcint: u32)
    ensures
        ({
            let stall = hcint / 8 % 2 == 1;
            let transaction = hcint / 128 % 2 == 1;
            let babble = hcint / 256 % 2 == 1;
            let overrun = hcint / 512 % 2 == 1;
            let toggle = hcint / 1024 % 2 == 1;
            let nak = hcint / 16 % 2 == 1;
            let not_yet = hcint / 64 % 2 == 1;
            dwc2::halt_error(hcint) == if stall {
                TransferError::Stall
            } else if transaction {
                TransferError::TransactionError
            } else if babble {
                TransferError::Babble
            } else if overrun {
                TransferError::FrameOverrun
            } else if toggle {
                TransferError::DataToggleError
            } else if nak || not_yet {
                TransferError::Nak
            } else {
                TransferError::Halted
            }
        }),
{
    assert((hcint & 0x8 != 0) == (hcint / 8 % 2 == 1) && (hcint & 0x80 != 0) == (hcint / 128 % 2
        == 1) && (hcint & 0x100 != 0) == (hcint / 256 % 2 == 1) && (hcint & 0x200 != 0) == (hcint
        / 512 % 2 == 1) && (hcint & 0x400 != 0) == (hcint / 1024 % 2 == 1) && (hcint & (0x10u32
        | 0x40u32) != 0) == (hcint / 16 % 2 == 1 || hcint / 64 % 2 == 1)) by (bit_vector);
}

proof fn lemma_halted(hcint: u32)
    ensures
        hcint & 0x002 != 0 <==> hcint / 2 % 2 == 1,
{
    assert((hcint & 0x002 != 0) == (hcint / 2 % 2 == 1)) by (bit_vector);
}

/// A channel that has not halted, as bit 1 of its interrupts says, is looked at again as long
/// as no more than fifty milliseconds have passed; then it is disabled, and given up.
pub proof fn law_halt_wait(channel: u8, start: u64, now: u64, spins: nat, hcint: u32)
    requires
        start <= now,
        spins > 0,
    ensures
        ({
            let program = dwc2::halt_poll(channel, start, spins);
            let two = seq![Answer::Word(hcint), Answer::Time(now)];
            let halted = hcint / 2 % 2 == 1;
            &&& program matches Program::Request(op, next) && op == Op::Read(
                Field::Interrupts(channel),
            )
            &&& halted ==> program.asked(seq![Answer::Word(hcint)]) == seq![
                Op::Read(Field::Interrupts(channel)),
                Op::Apply(Change::AckInterrupts { channel, bits: 0xffff_ffff }),
            ]
            &&& !halted && now - start <= 50_000 ==> program.asked(two) == seq![
                Op::Read(Field::Interrupts(channel)),
                Op::Now,
                Op::Read(Field::Interrupts(channel)),
            ]
            &&& !halted && now - start > 50_000 ==> program.asked(two) == seq![
                Op::Read(Field::Interrupts(channel)),
                Op::Now,
                Op::Apply(Change::Disable { channel }),
            ]
        }),
{
    lemma_halted(hcint);
    reveal_with_fuel(Program::asked, 4);
    reveal_with_fuel(Program::bind, 2);
    reveal_with_fuel(dwc2::halt_poll, 3);
    let two = seq![Answer::Word(hcint), Answer::Time(now)];
    assert(two.skip(1) =~= seq![Answer::Time(now)]);
    assert(two.skip(1).skip(1).len() == 0);
    assert(seq![Answer::Word(hcint)].skip(1).len() == 0);
}

/// What a translator's answers mean. A split is settled once it has stalled, failed, babbled
/// or completed; until then a NAK or a NYET means that the answer is not there yet.
pub proof fn law_split_answers(hcint: u32)
    ensures
        dwc2::settled(hcint) <==> hcint % 2 == 1 || hcint / 8 % 2 == 1 || hcint / 128 % 2 == 1
            || hcint / 256 % 2 == 1,
        dwc2::not_yet(hcint) <==> !dwc2::settled(hcint) && (hcint / 16 % 2 == 1 || hcint / 64 % 2
            == 1),
{
    assert((hcint & (0x8u32 | 0x80u32 | 0x100u32 | 0x1u32) != 0) == (hcint % 2 == 1 || hcint / 8
        % 2 == 1 || hcint / 128 % 2 == 1 || hcint / 256 % 2 == 1) && (hcint & (0x40u32 | 0x10u32)
        != 0) == (hcint / 16 % 2 == 1 || hcint / 64 % 2 == 1)) by (bit_vector);
}

/// What the controller is told of a transaction, in this order: that its old interrupts are
/// of no interest, and that a halt is the one that is; the translator that it goes through,
/// if any; where in memory it is, as it is on the bus; how many bytes and packets it is, and
/// of which kind the first packet is; and then, to start it, the endpoint that it is with.
pub open spec fn orders(
    channel: u8,
    endpoint: ControlEndpoint,
    txn: Transaction,
    complete: bool,
    packets: u16,
) -> Seq<Op> {
    seq![
        Op::Apply(Change::AckInterrupts { channel, bits: 0xffff_ffff }),
        Op::Apply(Change::InterruptMask { channel, bits: 2 }),
        Op::Apply(
            Change::Split {
                channel,
                split: match endpoint.split {
                    Some(target) => Some(
                        SplitFields {
                            hub_address: target.hub_address,
                            port: target.port,
                            position: 3,
                            complete,
                        },
                    ),
                    None => None,
                },
            },
        ),
        Op::Apply(
            Change::DmaAddress {
                channel,
                bus_address: (0xC000_0000 + txn.dma_address % 0x4000_0000) as u32,
            },
        ),
        Op::Apply(
            Change::TransferSize {
                channel,
                size: SizeFields {
                    bytes: txn.transfer_size,
                    packets,
                    pid: match txn.pid {
                        DataPid::Data0 => 0,
                        DataPid::Data1 => 2,
                        DataPid::Setup => 3,
                    },
                },
            },
        ),
    ]
}

/// The endpoint that a transaction is with.
pub open spec fn with_endpoint(
    channel: u8,
    endpoint: ControlEndpoint,
    txn: Transaction,
    odd_frame: bool,
) -> Op {
    Op::Apply(
        Change::Start {
            channel,
            character: CharacterFields {
                max_packet_size: endpoint.max_packet_size,
                endpoint_number: txn.endpoint_number,
                direction_in: txn.direction_in,
                low_speed: endpoint.low_speed,
                endpoint_type: match txn.endpoint_type {
                    EndpointType::Control => 0,
                    EndpointType::Bulk => 2,
                    EndpointType::Interrupt => 3,
                },
                multi_count: 1,
                device_address: endpoint.address,
                odd_frame,
            },
        },
    )
}

/// A transaction is started by those orders, with the packets that its bytes need. One that
/// goes to the device itself is started in the frame that it then is, and is told whether
/// that is an odd one; through a translator the frame makes no difference, or is given.
pub proof fn law_start(
    channel: u8,
    endpoint: ControlEndpoint,
    txn: Transaction,
    complete: bool,
    given_frame: Option<bool>,
    number: u32,
)
    requires
        endpoint.max_packet_size > 0,
        dwc2::packets_for(txn.transfer_size, endpoint.max_packet_size) <= u16::MAX,
    ensures
        exists|packets: u16|
            {
                let program = dwc2::start_program(channel, endpoint, txn, complete, given_frame);
                let five = seq![
                    Answer::Done,
                    Answer::Done,
                    Answer::Done,
                    Answer::Done,
                    Answer::Done,
                ];
                &&& is_packet_count(
                    packets as int,
                    txn.transfer_size as int,
                    endpoint.max_packet_size as int,
                )
                &&& given_frame is Some || endpoint.split is Some ==> program.asked(five) == (
                #[trigger] orders(channel, endpoint, txn, complete, packets)).push(
                    with_endpoint(channel, endpoint, txn, given_frame == Some(true)),
                )
                &&& given_frame is None && endpoint.split is None ==> program.asked(
                    five.push(Answer::Word(number)),
                ) == orders(channel, endpoint, txn, complete, packets).push(
                    Op::Read(Field::FrameNumber),
                ).push(with_endpoint(channel, endpoint, txn, number % 2 == 1))
            },
{
    law_packets(txn.transfer_size, endpoint.max_packet_size);
    law_bus_window(txn.dma_address);
    let packets = dwc2::packets_for(txn.transfer_size, endpoint.max_packet_size) as u16;
    assert(dwc2::packets_for(txn.transfer_size, endpoint.max_packet_size) >= 1) by {
        if txn.transfer_size > 0 {
            vstd::arithmetic::div_mod::lemma_div_pos_is_pos(
                txn.transfer_size - 1,
                dwc2::packet_size(endpoint.max_packet_size) as int,
            );
        }
    }
    let program = dwc2::start_program(channel, endpoint, txn, complete, given_frame);
    let five = seq![Answer::Done, Answer::Done, Answer::Done, Answer::Done, Answer::Done];
    let six = five.push(Answer::Word(number));
    reveal_with_fuel(Program::asked, 8);
    assert(five.skip(1).skip(1).skip(1).skip(1).skip(1).len() == 0);
    assert(six.skip(1).skip(1).skip(1).skip(1).skip(1)[0] == Answer::Word(number));
    assert(six.skip(1).skip(1).skip(1).skip(1).skip(1).skip(1).len() == 0);
    let told = orders(channel, endpoint, txn, complete, packets);
    assert(given_frame is Some || endpoint.split is Some ==> program.asked(five) =~= told.push(
        with_endpoint(channel, endpoint, txn, given_frame == Some(true)),
    ));
    assert(given_frame is None && endpoint.split is None ==> program.asked(six) =~= told.push(
        Op::Read(Field::FrameNumber),
    ).push(with_endpoint(channel, endpoint, txn, number % 2 == 1)));
}

/// A channel that is being disabled is looked at again until it has halted, as long as no more
/// than ten milliseconds have passed; its interrupts are acknowledged either way.
pub proof fn law_abort_wait(channel: u8, start: u64, now: u64, spins: nat, hcint: u32)
    requires
        start <= now,
        spins > 0,
    ensures
        ({
            let program = dwc2::abort_poll(channel, start, spins);
            let look = Op::Read(Field::Interrupts(channel));
            let acknowledge = Op::Apply(Change::AckInterrupts { channel, bits: 0xffff_ffff });
            let one = seq![Answer::Word(hcint)];
            let two = seq![Answer::Word(hcint), Answer::Time(now)];
            let halted = hcint / 2 % 2 == 1;
            &&& halted ==> program.asked(one) == seq![look, acknowledge]
            &&& !halted && now - start <= 10_000 ==> program.asked(two) == seq![look, Op::Now, look]
            &&& !halted && now - start > 10_000 ==> program.asked(two) == seq![
                look,
                Op::Now,
                acknowledge,
            ]
        }),
        dwc2::abort_program(channel).asked(seq![Answer::Done, Answer::Time(start)]) == seq![
            Op::Apply(Change::Disable { channel }),
            Op::Now,
            Op::Read(Field::Interrupts(channel)),
        ],
{
    law_halt_wait(channel, start, now, spins, hcint);
    lemma_halted(hcint);
    reveal_with_fuel(Program::asked, 4);
    reveal_with_fuel(dwc2::abort_poll, 3);
    let one = seq![Answer::Word(hcint)];
    let two = seq![Answer::Word(hcint), Answer::Time(now)];
    let begin = seq![Answer::Done, Answer::Time(start)];
    assert(one.skip(1).len() == 0);
    assert(two.skip(1)[0] == Answer::Time(now));
    assert(two.skip(1).skip(1).len() == 0);
    assert(begin.skip(1)[0] == Answer::Time(start));
    assert(begin.skip(1).skip(1).len() == 0);
}

/// A microframe is waited for until the controller is in it, or more than two milliseconds
/// have passed.
pub proof fn law_frame_wait(frame: u8, start: u64, now: u64, spins: nat, number: u32)
    requires
        start <= now,
        spins > 0,
    ensures
        ({
            let program = dwc2::frame_poll(frame, start, spins);
            let look = Op::Read(Field::FrameNumber);
            let one = seq![Answer::Word(number)];
            let two = seq![Answer::Word(number), Answer::Time(now)];
            let over = Program::<Op, Answer, ()>::Return(());
            let there = number % 8 == frame;
            &&& there ==> program.asked(one) == seq![look] && program.given(one) == over
            &&& !there && now - start <= 2_000 ==> program.asked(two) == seq![look, Op::Now, look]
            &&& !there && now - start > 2_000 ==> program.asked(two) == seq![look, Op::Now]
                && program.given(two) == over
        }),
{
    law_elapsed(now, start);
    reveal_with_fuel(Program::asked, 4);
    reveal_with_fuel(Program::given, 4);
    reveal_with_fuel(dwc2::frame_poll, 3);
    let one = seq![Answer::Word(number)];
    let two = seq![Answer::Word(number), Answer::Time(now)];
    assert(one.skip(1).len() == 0);
    assert(two.skip(1)[0] == Answer::Time(now));
    assert(two.skip(1).skip(1).len() == 0);
}

} // verus!

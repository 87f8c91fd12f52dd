//! The course of a transaction that is awaited: which packets are launched, and when, for
//! what the channel halts with.

use vstd::prelude::*;

use crate::program::Program;
use crate::usb::dwc2;
use crate::usb::dwc2::asynch;
use crate::usb::dwc2::asynch::{Errand, Finding, TaskProgram, Verdict};
use crate::usb::dwc2::{
    figures, hardware, ControlEndpoint, DataPid, EndpointType, Transaction, TransferError,
};

verus! {

/// No more than was asked for.
pub open spec fn at_most(verdict: Verdict, bytes: u32) -> Verdict {
    match verdict {
        Ok(count) => if count <= bytes {
            Ok(count)
        } else {
            Ok(bytes as usize)
        },
        Err(error) => Err(error),
    }
}

/// A transaction with a device that is reached directly is one launch, and what is made of
/// its halt. A periodic one is launched in the microframe after the one that it is, and told
/// whether that is an odd one.
pub proof fn law_whole(
    endpoint: ControlEndpoint,
    txn: Transaction,
    now: u8,
    hcint: u32,
    verdict: Verdict,
)
    requires
        endpoint.split is None,
        now < 8,
    ensures
        ({
            let program = asynch::task_program(endpoint, txn);
            let next = (now + 1) as int % 8;
            let end = seq![Finding::Halted(hcint), Finding::Moved(verdict)];
            let interpret = Errand::Interpret { hcint, requested: txn.transfer_size as usize };
            let result = TaskProgram::<Verdict>::Return(at_most(verdict, txn.transfer_size));
            let frames = seq![Finding::Microframe(now), Finding::Microframe(next as u8)];
            let periodic = txn.endpoint_type == EndpointType::Interrupt;
            &&& !periodic ==> program.asked(end) == seq![
                Errand::Launch { packet: txn, complete: false, odd: None },
                interpret,
            ] && program.given(end) == result
            &&& periodic ==> program.asked(frames + end) == seq![
                Errand::Look,
                Errand::Look,
                Errand::Launch { packet: txn, complete: false, odd: Some(next % 2 == 1) },
                interpret,
            ] && program.given(frames + end) == result
        }),
{
    reveal_with_fuel(Program::asked, 6);
    reveal_with_fuel(Program::given, 6);
    reveal_with_fuel(asynch::job_program, 2);
    let end = seq![Finding::Halted(hcint), Finding::Moved(verdict)];
    assert(end.skip(1) =~= seq![Finding::Moved(verdict)]);
    assert(end.skip(1).skip(1).len() == 0);
    let next = dwc2::frames_on(now, 1);
    let all = seq![Finding::Microframe(now), Finding::Microframe(next)] + end;
    assert(all.skip(1)[0] == Finding::Microframe(next));
    assert(all.skip(1).skip(1) =~= end);
}

/// A packet that is handed to a translator and then collected: if the translator has taken
/// it, as bit 5 of the interrupts says, it is launched once more, to complete it; if that is
/// settled, it is made out. A packet that the translator has not taken is made out at once.
pub proof fn law_split_packet(packet: Transaction, taken: u32, done: u32, verdict: Verdict)
    requires
        packet.endpoint_type != EndpointType::Interrupt,
        dwc2::settled(done),
    ensures
        ({
            let program = asynch::packet_program(packet);
            let hand = Errand::Launch { packet, complete: false, odd: None };
            let collect = Errand::Launch { packet, complete: true, odd: None };
            let requested = packet.transfer_size as usize;
            let result = TaskProgram::<Verdict>::Return(at_most(verdict, packet.transfer_size));
            let one = seq![Finding::Halted(taken), Finding::Moved(verdict)];
            let two = seq![Finding::Halted(taken), Finding::Halted(done), Finding::Moved(verdict)];
            &&& taken / 32 % 2 == 0 ==> program.asked(one) == seq![
                hand,
                Errand::Interpret { hcint: taken, requested },
            ] && program.given(one) == result
            &&& taken / 32 % 2 == 1 ==> program.asked(two) == seq![
                hand,
                collect,
                Errand::Interpret { hcint: done, requested },
            ] && program.given(two) == result
        }),
{
    lemma_taken(taken);
    reveal_with_fuel(Program::asked, 5);
    reveal_with_fuel(Program::given, 5);
    reveal_with_fuel(asynch::job_program, 3);
    let one = seq![Finding::Halted(taken), Finding::Moved(verdict)];
    let two = seq![Finding::Halted(taken), Finding::Halted(done), Finding::Moved(verdict)];
    assert(one.skip(1) =~= seq![Finding::Moved(verdict)]);
    assert(one.skip(1).skip(1).len() == 0);
    assert(two.skip(1) =~= seq![Finding::Halted(done), Finding::Moved(verdict)]);
    assert(two.skip(1).skip(1) =~= seq![Finding::Moved(verdict)]);
    assert(two.skip(1).skip(1).skip(1).len() == 0);
}

proof fn lemma_taken(hcint: u32)
    ensures
        hcint & 0x020 != 0 <==> hcint / 32 % 2 == 1,
        hcint & (0x040u32 | 0x020u32) != 0 <==> hcint / 32 % 2 == 1 || hcint / 64 % 2 == 1,
{
    assert((hcint & 0x020 != 0) == (hcint / 32 % 2 == 1) && (hcint & (0x040u32 | 0x020u32) != 0)
        == (hcint / 32 % 2 == 1 || hcint / 64 % 2 == 1)) by (bit_vector);
}

/// A periodic packet is handed to a translator in the microframe in which one may begin, and
/// collected two microframes later; if the translator is not done then, it is collected
/// again in the microframe after that. Each launch is told whether its microframe is odd.
pub proof fn law_periodic_packet(
    packet: Transaction,
    now: u8,
    taken: u32,
    early: u32,
    done: u32,
    verdict: Verdict,
)
    requires
        packet.endpoint_type == EndpointType::Interrupt,
        now < 8,
        taken / 32 % 2 == 1,
        !dwc2::settled(early),
        early / 64 % 2 == 1,
        dwc2::settled(done),
    ensures
        ({
            let program = asynch::packet_program(packet);
            let begin: int = if (now + 1) as int % 8 == 6 { 7 } else { (now + 1) as int % 8 };
            let first = (begin + 2) % 8;
            let second = (begin + 3) % 8;
            let launch = |complete: bool, frame: int|
                Errand::Launch { packet, complete, odd: Some(frame % 2 == 1) };
            program.asked(
                seq![
                    Finding::Microframe(now),
                    Finding::Microframe(begin as u8),
                    Finding::Halted(taken),
                    Finding::Microframe(first as u8),
                    Finding::Halted(early),
                    Finding::Microframe(second as u8),
                    Finding::Halted(done),
                ],
            ) == seq![
                Errand::Look,
                Errand::Look,
                launch(false, begin),
                Errand::Look,
                launch(true, first),
                Errand::Look,
                launch(true, second),
                Errand::Interpret { hcint: done, requested: packet.transfer_size as usize },
            ]
        }),
{
    lemma_taken(taken);
    lemma_taken(early);
    let begin = dwc2::start_split_frame(now);
    let first = dwc2::frames_on(begin, 2);
    let second = dwc2::frames_on(first, 1);
    let a = seq![
        Finding::Microframe(now),
        Finding::Microframe(begin),
        Finding::Halted(taken),
        Finding::Microframe(first),
        Finding::Halted(early),
        Finding::Microframe(second),
        Finding::Halted(done),
    ];
    let tail = seq![
        Finding::Halted(taken),
        Finding::Microframe(first),
        Finding::Halted(early),
        Finding::Microframe(second),
        Finding::Halted(done),
    ];
    assert(a.skip(1)[0] == Finding::Microframe(begin));
    assert(a.skip(1).skip(1) =~= tail);
    lemma_handed(packet, begin, taken, early, done);
    reveal_with_fuel(Program::asked, 3);
    let program = asynch::packet_program(packet);
    let rest = asynch::job_program(packet, asynch::Job::PeriodicSplit(begin));
    assert(program.asked(a) =~= seq![Errand::Look, Errand::Look] + rest.asked(tail));
}

proof fn lemma_handed(packet: Transaction, begin: u8, taken: u32, early: u32, done: u32)
    requires
        begin < 8,
        taken & 0x020 != 0,
        !dwc2::settled(early),
        early & (0x040u32 | 0x020u32) != 0,
        dwc2::settled(done),
    ensures
        ({
            let first = dwc2::frames_on(begin, 2);
            let second = dwc2::frames_on(first, 1);
            let launch = |complete: bool, frame: u8|
                Errand::Launch { packet, complete, odd: Some(frame % 2 == 1) };
            asynch::job_program(packet, asynch::Job::PeriodicSplit(begin)).asked(
                seq![
                    Finding::Halted(taken),
                    Finding::Microframe(first),
                    Finding::Halted(early),
                    Finding::Microframe(second),
                    Finding::Halted(done),
                ],
            ) == seq![
                launch(false, begin),
                Errand::Look,
                launch(true, first),
                Errand::Look,
                launch(true, second),
                Errand::Interpret { hcint: done, requested: packet.transfer_size as usize },
            ]
        }),
{
    let first = dwc2::frames_on(begin, 2);
    let second = dwc2::frames_on(first, 1);
    let a = seq![
        Finding::Halted(taken),
        Finding::Microframe(first),
        Finding::Halted(early),
        Finding::Microframe(second),
        Finding::Halted(done),
    ];
    reveal_with_fuel(Program::asked, 7);
    reveal_with_fuel(asynch::job_program, 4);
    assert(a.skip(1)[0] == Finding::Microframe(first));
    assert(a.skip(1).skip(1)[0] == Finding::Halted(early));
    assert(a.skip(1).skip(1).skip(1)[0] == Finding::Microframe(second));
    assert(a.skip(1).skip(1).skip(1).skip(1)[0] == Finding::Halted(done));
    assert(a.skip(1).skip(1).skip(1).skip(1).skip(1).len() == 0);
}

/// After a whole packet that is not the last, the next one begins where it ended, with the
/// other kind; after a short packet, or the last, the transaction is over, and comes to what
/// has been moved.
pub proof fn law_next_packet(
    endpoint: ControlEndpoint,
    txn: Transaction,
    offset: u32,
    pid: DataPid,
    count: usize,
)
    requires
        endpoint.max_packet_size > 0,
        offset < txn.transfer_size,
        txn.dma_address + txn.transfer_size <= u32::MAX,
        count <= endpoint.max_packet_size,
        offset + count <= txn.transfer_size,
    ensures
        ({
            let program = asynch::after_packet(endpoint, txn, offset, pid, Ok(count));
            let reached = (offset + count) as u32;
            let next = dwc2::packet_at(endpoint, txn, reached, pid.following());
            let more = count == endpoint.max_packet_size && reached < txn.transfer_size;
            &&& !more ==> program == TaskProgram::<Verdict>::Return(Ok(reached as usize))
            &&& more && txn.endpoint_type != EndpointType::Interrupt ==> (program matches
                Program::Request(errand, rest) && errand == (Errand::Launch {
                packet: next,
                complete: false,
                odd: None,
            }))
            &&& more ==> next.dma_address == txn.dma_address + reached && next.pid
                == pid.following() && next.transfer_size <= endpoint.max_packet_size
        }),
{
    let packet = dwc2::packet_at(endpoint, txn, offset, pid);
    figures::law_packet_at(endpoint, txn, offset, pid);
    let reached = (offset + count) as u32;
    if count == endpoint.max_packet_size && reached < txn.transfer_size {
        figures::law_packet_at(endpoint, txn, reached, pid.following());
        let next = dwc2::packet_at(endpoint, txn, reached, pid.following());
        reveal_with_fuel(asynch::after_packet, 2);
        reveal_with_fuel(asynch::packets_program, 2);
        reveal_with_fuel(asynch::from_packet, 2);
        let program = asynch::after_packet(endpoint, txn, offset, pid, Ok(count));
        assert(program == asynch::packets_program(endpoint, txn, reached, pid.following()));
        reveal_with_fuel(Program::bind, 2);
    }
}

/// A packet that a translator has taken but is not done with is collected again five
/// microframes after it was found not to be done, as long as that has not been eight times;
/// then it is made out as it is.
pub proof fn law_collected_again(packet: Transaction, attempt: u32, early: u32, now: u8)
    requires
        attempt < 8,
        now < 8,
        dwc2::not_yet(early),
    ensures
        ({
            let program = asynch::job_program(packet, asynch::Job::Collect(attempt));
            let collect = Errand::Launch { packet, complete: true, odd: None };
            let then = (now + 5) as int % 8;
            let answers = seq![
                Finding::Halted(early),
                Finding::Microframe(now),
                Finding::Microframe(then as u8),
            ];
            &&& attempt < 7 ==> program.asked(answers) == seq![
                collect,
                Errand::Look,
                Errand::Look,
                collect,
            ] && program.given(answers) == asynch::job_program(
                packet,
                asynch::Job::Collect((attempt + 1) as u32),
            )
            &&& attempt == 7 ==> program.asked(seq![Finding::Halted(early)]) == seq![
                collect,
                Errand::Interpret { hcint: early, requested: packet.transfer_size as usize },
            ]
        }),
{
    let then = dwc2::frames_on(now, 5);
    let answers = seq![
        Finding::Halted(early),
        Finding::Microframe(now),
        Finding::Microframe(then),
    ];
    let one = seq![Finding::Halted(early)];
    reveal_with_fuel(Program::asked, 5);
    reveal_with_fuel(Program::given, 5);
    reveal_with_fuel(asynch::job_program, 3);
    assert(one.skip(1).len() == 0);
    assert(answers.skip(1)[0] == Finding::Microframe(now));
    assert(answers.skip(1).skip(1)[0] == Finding::Microframe(then));
    assert(answers.skip(1).skip(1).skip(1).len() == 0);
}

/// A periodic packet is collected at most four times, and three if it was handed over in
/// microframe five; when there is no further try, or the device has nothing, there is nothing
/// to be had this time.
pub proof fn law_periodic_tries(packet: Transaction, frame: u8, tries: u8, early: u32)
    requires
        frame < 8,
        !dwc2::settled(early),
    ensures
        ({
            let program = asynch::job_program(packet, asynch::Job::PeriodicCollect(frame, tries));
            let one = seq![Finding::Halted(early)];
            let waiting = early / 64 % 2 == 1 || early / 32 % 2 == 1;
            let nothing = TaskProgram::<Verdict>::Return(Err(TransferError::Nak));
            &&& waiting && tries == 0 ==> program.given(one) == nothing
            &&& !waiting && early / 16 % 2 == 1 ==> program.given(one) == nothing
            &&& waiting && tries > 0 ==> program.asked(one) == seq![
                Errand::Launch { packet, complete: true, odd: Some(frame % 2 == 1) },
                Errand::Look,
            ]
        }),
        asynch::first_collect(frame) == asynch::Job::PeriodicCollect(
            ((frame + 2) as int % 8) as u8,
            if frame == 5 {
                2
            } else {
                3
            },
        ),
{
    lemma_taken(early);
    assert((early & 0x010 != 0) == (early / 16 % 2 == 1)) by (bit_vector);
    let one = seq![Finding::Halted(early)];
    reveal_with_fuel(Program::asked, 3);
    reveal_with_fuel(Program::given, 3);
    reveal_with_fuel(asynch::job_program, 2);
    assert(one.skip(1).len() == 0);
}

/// The transactions that are awaited. One of an interrupt endpoint asks for data; the kind of
/// its packet is one if the toggle is set, and zero if not. So is that of a bulk endpoint's,
/// which goes either way. A control transaction is with endpoint zero.
pub proof fn law_transactions(
    endpoint_number: u8,
    inward: bool,
    toggle: bool,
    pid: DataPid,
    size: u32,
    address: u32,
)
    ensures
        ({
            let kind = if toggle {
                DataPid::Data1
            } else {
                DataPid::Data0
            };
            let interrupt = dwc2::interrupt_txn(endpoint_number, toggle, size, address);
            let bulk = dwc2::bulk_txn(endpoint_number, inward, toggle, size, address);
            let control = dwc2::control_txn(inward, pid, size, address);
            let moves = |txn: Transaction, number: u8, kind: DataPid, inward: bool|
                txn.endpoint_number == number && txn.pid == kind && txn.direction_in == inward
                    && txn.transfer_size == size && txn.dma_address == address;
            &&& interrupt.endpoint_type == EndpointType::Interrupt
            &&& moves(interrupt, endpoint_number, kind, true)
            &&& bulk.endpoint_type == EndpointType::Bulk
            &&& moves(bulk, endpoint_number, kind, inward)
            &&& control.endpoint_type == EndpointType::Control
            &&& moves(control, 0, pid, inward)
        }),
{
}

/// What a transaction has moved in is taken, but no more than there is room for; of one that
/// failed nothing is.
pub proof fn law_collected(
    count: usize,
    room: usize,
    bytes: Seq<u8>,
    error: TransferError,
)
    ensures
        ({
            let program = dwc2::collect_program(Ok(count), room);
            let one = seq![hardware::Answer::Bytes(bytes)];
            let taken = if count <= room {
                count
            } else {
                room
            };
            &&& program.asked(one) == seq![hardware::Op::Fetch(taken)]
            &&& program.given(one) == hardware::HwProgram::<
                Result<Seq<u8>, TransferError>,
            >::Return(Ok(bytes))
            &&& dwc2::collect_program(Err(error), room) == hardware::HwProgram::<
                Result<Seq<u8>, TransferError>,
            >::Return(Err(error))
        }),
{
    reveal_with_fuel(Program::asked, 3);
    reveal_with_fuel(Program::given, 3);
    let one = seq![hardware::Answer::Bytes(bytes)];
    assert(one.skip(1).len() == 0);
}

/// While it is polled for, a packet is collected again after six hundred and twenty-five
/// microseconds, and the first time at once.
pub proof fn law_collected_again_after(
    channel: u8,
    endpoint: ControlEndpoint,
    packet: Transaction,
    attempt: u32,
)
    requires
        attempt < 8,
    ensures
        ({
            let program = dwc2::complete_program(channel, endpoint, packet, attempt);
            let first = hardware::Op::Apply(
                hardware::Change::AckInterrupts { channel, bits: 0xffff_ffff },
            );
            program.starts_with(
                if attempt > 0 {
                    seq![hardware::Op::Delay(625), first]
                } else {
                    seq![first]
                },
            )
        }),
{
    reveal_with_fuel(Program::starts_with, 3);
    reveal_with_fuel(Program::bind, 2);
    reveal_with_fuel(dwc2::complete_program, 2);
    let first = hardware::Op::Apply(
        hardware::Change::AckInterrupts { channel, bits: 0xffff_ffff },
    );
    assert(seq![hardware::Op::Delay(625), first].skip(1) =~= seq![first]);
    assert(seq![first].skip(1).len() == 0);
}

/// A pause of so many microframes is made in hops of at most seven, each counted from the
/// microframe that it then is; together they are the whole of it.
pub proof fn law_pause(microframes: u32, now: u8)
    requires
        microframes > 0,
        now < 8,
    ensures
        asynch::pause_program(0) == TaskProgram::<()>::Return(()),
        ({
            let program = asynch::pause_program(microframes);
            let hop = if microframes < 7 {
                microframes as int
            } else {
                7
            };
            let answers = seq![
                Finding::Microframe(now),
                Finding::Microframe(((now + hop) % 8) as u8),
            ];
            &&& program.asked(answers).take(2) == seq![Errand::Look, Errand::Look]
            &&& program.given(answers) == asynch::pause_program((microframes - hop) as u32)
        }),
{
    let program = asynch::pause_program(microframes);
    let hop = asynch::hop_of(microframes);
    let then = dwc2::frames_on(now, hop as int);
    let answers = seq![Finding::Microframe(now), Finding::Microframe(then)];
    reveal_with_fuel(Program::asked, 3);
    reveal_with_fuel(Program::given, 3);
    reveal_with_fuel(asynch::pause_program, 2);
    assert(answers.skip(1)[0] == Finding::Microframe(then));
    assert(answers.skip(1).skip(1).len() == 0);
    assert(program.asked(answers).take(2) =~= seq![Errand::Look, Errand::Look]);
}

} // verus!

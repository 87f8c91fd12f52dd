//! Where in the shared memory each step of the protocol reads and writes, and in which order.

use vstd::prelude::*;

use crate::program;
use crate::program::Program;
use crate::vchiq;
use crate::vchiq::memory::{Answer, Op, ShmProgram};
use crate::vchiq::{Error, Event, Link, ServiceId, ServiceState};

verus! {

/// The whole of the shared memory has addresses.
pub open spec fn fits(link: Link) -> bool {
    link.base + 0x20_0000 <= u32::MAX
}

/// A field of the firmware's state block, which is 32 bytes behind the start of the memory.
pub open spec fn theirs(link: Link, field: int) -> u32 {
    (link.base + 32 + field) as u32
}

/// A field of this side's state block, which is behind the firmware's.
pub open spec fn ours(link: Link, field: int) -> u32 {
    (link.base + 404 + field) as u32
}

/// What is known of a slot: two halves for each, behind both state blocks.
pub open spec fn known_of(link: Link, slot: int) -> u32 {
    (link.base + 776 + 4 * slot) as u32
}

pub(crate) proof fn lemma_fields(link: Link, field: u32)
    requires
        fits(link),
        field <= 0x1000,
    ensures
        link.remote(field) == theirs(link, field as int),
        link.local(field) == ours(link, field as int),
{
    reveal(vchiq::block_field);
}

/// What signalling asks, with the answer that says whether the firmware sleeps.
pub open spec fn signalled(link: Link, event: int, armed: u32) -> (Seq<Answer>, Seq<Op>) {
    (
        seq![Answer::Done, Answer::Done, Answer::Word(armed)] + if armed != 0 {
            seq![Answer::Done]
        } else {
            Seq::empty()
        },
        seq![
            Op::Write(theirs(link, event + 4), 1),
            Op::Barrier,
            Op::Read(theirs(link, event)),
        ] + if armed != 0 {
            seq![Op::Doorbell]
        } else {
            Seq::empty()
        },
    )
}

/// An event of the firmware is fired, where the firmware can see it before it is looked at
/// whether it sleeps; if it does, and only then, the doorbell rings.
pub proof fn law_signal(link: Link, event: u32, armed: u32)
    requires
        fits(link),
        event <= 0x100,
    ensures
        vchiq::signal_program(link, event).asked(signalled(link, event as int, armed).0)
            == signalled(link, event as int, armed).1,
        vchiq::signal_program(link, event).given(signalled(link, event as int, armed).0)
            == ShmProgram::<()>::Return(()),
{
    lemma_fields(link, event);
    lemma_fields(link, (event + 4) as u32);
    let a = signalled(link, event as int, armed).0;
    reveal_with_fuel(Program::asked, 5);
    reveal_with_fuel(Program::given, 5);
    assert(a.skip(1)[0] == Answer::Done);
    assert(a.skip(1).skip(1)[0] == Answer::Word(armed));
    if armed != 0 {
        assert(a.skip(1).skip(1).skip(1)[0] == Answer::Done);
        assert(a.skip(1).skip(1).skip(1).skip(1).len() == 0);
    } else {
        assert(a.skip(1).skip(1).skip(1).len() == 0);
    }
    assert(vchiq::signal_program(link, event).asked(a) =~= signalled(link, event as int, armed).1);
}

/// A reference to a slot that has been read is dropped in the second half of what is known
/// of the slot. Once as many are dropped as there were, which the first half tells, the slot
/// goes back to the firmware: into the next place of its queue, which goes round, and then
/// the queue's length is written, and the firmware is told.
pub proof fn law_release(link: Link, slot: u32, uses: u16, dropped: u16, recycle: u32, armed: u32)
    requires
        fits(link),
        slot < 128,
        dropped < u16::MAX,
        recycle < u32::MAX,
    ensures
        ({
            let program = vchiq::release_program(link, slot);
            let info = known_of(link, slot as int);
            let three = seq![Answer::Half(uses), Answer::Half(dropped), Answer::Done];
            let first = seq![
                Op::ReadHalf(info),
                Op::ReadHalf((info + 2) as u32),
                Op::WriteHalf((info + 2) as u32, (dropped + 1) as u16),
            ];
            let back = three + (seq![
                Answer::Word(recycle),
                Answer::Done,
                Answer::Done,
                Answer::Done,
            ] + signalled(link, 32, armed).0);
            &&& dropped + 1 != uses ==> program.asked(three) == first && program.given(three)
                == ShmProgram::<Link>::Return(link)
            &&& dropped + 1 == uses ==> program.asked(back) == first + (seq![
                Op::Read(theirs(link, 44)),
                Op::Write(theirs(link, 72 + 4 * (recycle % 64)), slot),
                Op::Write(theirs(link, 44), (recycle + 1) as u32),
                Op::Barrier,
            ] + signalled(link, 32, armed).1)
        }),
{
    let program = vchiq::release_program(link, slot);
    let info = known_of(link, slot as int);
    lemma_fields(link, 44);
    lemma_fields(link, (72 + recycle % 64 * 4) as u32);
    law_signal(link, 32, armed);
    assert(slot.wrapping_mul(4) == 4 * slot);
    assert(link.base.wrapping_add(776).wrapping_add(slot.wrapping_mul(4)) == info);
    let three = seq![Answer::Half(uses), Answer::Half(dropped), Answer::Done];
    assert(three.skip(1)[0] == Answer::Half(dropped));
    assert(three.skip(1).skip(1)[0] == Answer::Done);
    assert(three.skip(1).skip(1).skip(1).len() == 0);
    if dropped + 1 != uses {
        reveal_with_fuel(Program::asked, 5);
        reveal_with_fuel(Program::given, 5);
        assert(program.asked(three) =~= seq![
            Op::ReadHalf(info),
            Op::ReadHalf((info + 2) as u32),
            Op::WriteHalf((info + 2) as u32, (dropped + 1) as u16),
        ]);
    } else {
        let signal = vchiq::signal_program(link, 32);
        let last = |signalled: ()|
            ShmProgram::<Link>::Return(
                Link {
                    stats: vchiq::Stats {
                        slots_recycled: link.stats.slots_recycled.wrapping_add(1),
                        ..link.stats
                    },
                    ..link
                },
            );
        let s = signalled(link, 32, armed);
        program::lemma_given_in_turn(signal, last, s.0, Seq::empty(), ());
        assert(s.0 + Seq::<Answer>::empty() =~= s.0);
        assert(s.1 + Seq::<Op>::empty() =~= s.1);
        let four = seq![Answer::Word(recycle), Answer::Done, Answer::Done, Answer::Done];
        let back = three + (four + s.0);
        reveal_with_fuel(Program::asked, 9);
        assert(back.skip(1)[0] == Answer::Half(dropped));
        assert(back.skip(1).skip(1)[0] == Answer::Done);
        assert(back.skip(1).skip(1).skip(1)[0] == Answer::Word(recycle));
        assert(back.skip(1).skip(1).skip(1).skip(1)[0] == Answer::Done);
        assert(back.skip(1).skip(1).skip(1).skip(1).skip(1)[0] == Answer::Done);
        assert(back.skip(1).skip(1).skip(1).skip(1).skip(1).skip(1)[0] == Answer::Done);
        assert(back.skip(1).skip(1).skip(1).skip(1).skip(1).skip(1).skip(1) =~= s.0);
        assert(program.asked(back) =~= seq![
            Op::ReadHalf(info),
            Op::ReadHalf((info + 2) as u32),
            Op::WriteHalf((info + 2) as u32, (dropped + 1) as u16),
        ] + (seq![
            Op::Read(theirs(link, 44)),
            Op::Write(theirs(link, 72 + 4 * (recycle % 64)), slot),
            Op::Write(theirs(link, 44), (recycle + 1) as u32),
            Op::Barrier,
        ] + s.1));
    }
}

/// The slot to read next is the one that the firmware's queue names at the place that has
/// been read up to, in slots; the queue goes round. It gets one reference.
pub proof fn law_enter(link: Link, slot: u32, done: Answer)
    requires
        fits(link),
        link.rx_data == 0,
        slot < 128,
    ensures
        ({
            let program = vchiq::enter_program(link);
            let answers = seq![Answer::Word(slot), done];
            &&& program.asked(answers) == seq![
                Op::Read(theirs(link, 72 + 4 * (link.rx_pos / 4096 % 64))),
                Op::Write(known_of(link, slot as int), 1),
            ]
            &&& program.given(answers) matches Program::Return(entered)
            &&& entered.rx_slot == slot
            &&& entered.rx_data == link.base + 4096 * slot
            &&& entered.rx_pos == link.rx_pos
        }),
{
    lemma_fields(link, (72 + link.rx_pos / 4096 % 64 * 4) as u32);
    crate::vchiq::layout::law_slots(link.base, slot);
    reveal_with_fuel(Program::asked, 3);
    reveal_with_fuel(Program::given, 3);
    let answers = seq![Answer::Word(slot), done];
    assert(answers.skip(1) =~= seq![done]);
    assert(answers.skip(1).skip(1).len() == 0);
    assert(slot.wrapping_mul(4) == 4 * slot);
    assert(link.base.wrapping_add(776).wrapping_add(slot.wrapping_mul(4)) == known_of(
        link,
        slot as int,
    ));
}

/// A message is moved past by its header and its data, up to the next multiple of eight; as
/// long as that is in the same slot, nothing else changes.
pub proof fn law_advance(link: Link, size: u32)
    requires
        link.rx_pos % 8 == 0,
        size <= 4088,
        link.rx_pos + 4096 <= u32::MAX,
    ensures
        ({
            let past = link.rx_pos + 8 + size + (8 - size % 8) % 8;
            past % 4096 != 0 ==> vchiq::advance_program(link, size) == ShmProgram::<Link>::Return(
                Link { rx_pos: past as u32, ..link },
            )
        }),
        vchiq::stride_of(size) == 8 + size + (8 - size % 8) % 8,
{
    reveal(vchiq::stride_of);
}

/// The bytes of a message's data.
pub open spec fn data_at(world: spec_fn(Op) -> Answer, address: u32, count: nat) -> Seq<u8> {
    Seq::new(
        count,
        |i: int|
            match world(Op::ReadByte(address.wrapping_add(i as u32))) {
                Answer::Byte(byte) => byte,
                _ => 0,
            },
    )
}

/// Memory answers every read of a byte with a byte.
pub open spec fn is_memory(world: spec_fn(Op) -> Answer) -> bool {
    forall|address: u32| (#[trigger] world(Op::ReadByte(address))) is Byte
}

proof fn lemma_copied(address: u32, count: nat, taken: Seq<u8>, world: spec_fn(Op) -> Answer)
    requires
        is_memory(world),
        taken.len() <= count,
        taken == data_at(world, address, taken.len()),
    ensures
        vchiq::copy_program(address, count, taken).returns_in(world) == Some(
            data_at(world, address, count),
        ),
    decreases count - taken.len(),
{
    if taken.len() < count {
        let answer = world(Op::ReadByte(address.wrapping_add(taken.len() as u32)));
        let more = taken.push(answer->Byte_0);
        assert(more =~= data_at(world, address, more.len()));
        lemma_copied(address, count, more, world);
    }
}

/// A message of an open service is told with its whole length, and as much of its data as
/// there is room for is copied out, from its first byte on. Neither the other services nor
/// the transfers change.
pub proof fn law_message_arrives(
    link: Link,
    id: u32,
    size: u32,
    data: u32,
    room: usize,
    world: spec_fn(Op) -> Answer,
)
    requires
        is_memory(world),
        link.wf(),
        id / 0x100_0000 == 5,
        id % 4096 < 4,
        link.services[id as int % 4096].state == ServiceState::Open,
    ensures
        ({
            let count: nat = if size <= room { size as nat } else { room as nat };
            &&& vchiq::act_program(link, id, size, data, room).returns_in(world) matches Some(heard)
            &&& heard.1 == data_at(world, data, count)
            &&& heard.2 == Ok::<Option<Event>, Error>(
                Some(
                    Event::Message {
                        service: ServiceId::at((id % 4096) as u16),
                        len: size as usize,
                    },
                ),
            )
            &&& heard.0.services == link.services
            &&& heard.0.bulk_tx == link.bulk_tx
            &&& heard.0.bulk_rx == link.bulk_rx
            &&& heard.0.rx_pos == link.rx_pos
        }),
{
    crate::vchiq::layout::law_message_word_read(id);
    let count: nat = if size <= room {
        size as nat
    } else {
        room as nat
    };
    assert(data_at(world, data, 0) =~= Seq::<u8>::empty());
    lemma_copied(data, count, Seq::empty(), world);
    let copy = vchiq::copy_program(data, count, Seq::empty());
    let rest = |bytes: Seq<u8>|
        ShmProgram::<vchiq::Heard>::Return(
            (
                Link {
                    stats: vchiq::Stats {
                        data_received: link.stats.data_received.wrapping_add(1),
                        ..link.stats
                    },
                    ..link
                },
                bytes,
                Ok(
                    Some(
                        Event::Message {
                            service: ServiceId::at((id % 4096) as u16),
                            len: size as usize,
                        },
                    ),
                ),
            ),
        );
    program::lemma_returns_in_turn(copy, rest, world);
    assert(vchiq::act_program(link, id, size, data, room) == copy.bind(rest));
}

/// What is heard of the firmware's own messages: that it has connected; that it has opened a
/// service that was asked for, and behind which of its ports; and a bulk request of its own,
/// which is a fault.
pub proof fn law_firmware_messages(link: Link, id: u32, size: u32, data: u32, room: usize)
    requires
        link.wf(),
    ensures
        ({
            let kind = id / 0x100_0000;
            let source = id / 4096 % 4096;
            let port = id as int % 4096;
            let program = vchiq::act_program(link, id, size, data, room);
            &&& kind == 1 ==> (program matches Program::Return(heard) && heard.0 == (Link {
                connected: true,
                ..link
            }) && heard.2 == Ok::<Option<Event>, Error>(Some(Event::Connected)))
            &&& kind == 3 && port < 4 && link.services[port].state == ServiceState::Opening ==> (
            program matches Program::Return(heard) && heard.0.services[port].state
                == ServiceState::Open && heard.0.services[port].remote_port == source
                && heard.0.services == link.services.update(port, heard.0.services[port])
                && heard.2 == Ok::<Option<Event>, Error>(
                Some(Event::ServiceOpened(ServiceId::at(port as u16))),
            ))
            &&& kind == 3 && !(port < 4 && link.services[port].state == ServiceState::Opening)
                ==> program == ShmProgram::<vchiq::Heard>::Return(
                (link, Seq::empty(), Ok(None)),
            )
            &&& kind == 6 || kind == 7 ==> program == ShmProgram::<vchiq::Heard>::Return(
                (link, Seq::empty(), Err(Error::Protocol)),
            )
        }),
{
    crate::vchiq::layout::law_message_word_read(id);
}

/// A service that the firmware closes is closed on this side too: the firmware is answered
/// in kind, from the port to the service that it was, with no data. One that had not opened
/// yet is told as closed, and its port stays taken until whoever waits for it has noticed.
pub proof fn law_firmware_closes(link: Link, id: u32, size: u32, data: u32, room: usize)
    requires
        link.wf(),
        id / 0x100_0000 == 4,
        id % 4096 < 4,
    ensures
        ({
            let port = id as int % 4096;
            let source = id / 4096 % 4096;
            let program = vchiq::act_program(link, id, size, data, room);
            let state = link.services[port].state;
            let told = Ok::<Option<Event>, Error>(
                Some(Event::ServiceClosed(ServiceId::at(port as u16))),
            );
            &&& state == ServiceState::Open ==> exists|
                closing: Link,
                rest: spec_fn((Link, Result<(), Error>)) -> ShmProgram<vchiq::Heard>,
            |
                program == #[trigger] vchiq::send_program(
                    closing,
                    (0x400_0000 + port * 4096 + source) as u32,
                    Seq::empty(),
                ).bind(rest) && closing.services[port].state == ServiceState::Closed
            &&& state != ServiceState::Open ==> (program matches Program::Return(heard) && heard.2
                == told && heard.0.services[port].state == if state == ServiceState::Opening {
                ServiceState::Closed
            } else {
                ServiceState::Free
            })
        }),
{
    crate::vchiq::layout::law_message_word_read(id);
    let port = (id % 4096) as u16;
    let source = (id / 4096 % 4096) as u16;
    crate::vchiq::layout::law_message_word(4, port as u32, source as u32);
    let closing = vchiq::in_state(link, port as int, ServiceState::Closed);
    let event = Ok::<Option<Event>, Error>(Some(Event::ServiceClosed(ServiceId::at(port))));
    let rest = |acknowledged: (Link, Result<(), Error>)|
        match acknowledged.1 {
            Ok(()) => vchiq::heard(
                vchiq::in_state(acknowledged.0, port as int, ServiceState::Free),
                event,
            ),
            Err(error) => vchiq::heard(acknowledged.0, Err(error)),
        };
    if link.services[port as int].state == ServiceState::Open {
        assert(vchiq::act_program(link, id, size, data, room) == vchiq::send_program(
            closing,
            (0x400_0000 + port * 4096 + source) as u32,
            Seq::empty(),
        ).bind(rest));
    }
}

/// What a message that is sent comes to in memory: its data behind the eight bytes of its
/// header, byte by byte; then the header, its first word and its length; and behind a
/// barrier how far this side has written, with which the firmware sees it.
pub proof fn law_message_placed(link: Link, header: u32, id: u32, data: Seq<u8>, armed: u32)
    requires
        fits(link),
        data.len() <= 4088,
        header + 4096 <= u32::MAX,
    ensures
        ({
            let program = vchiq::place_program(link, header, id, data);
            let bytes = Seq::new(data.len(), |i: int| Answer::Done);
            let s = signalled(link, 16, armed);
            let five = seq![Answer::Done, Answer::Done, Answer::Done, Answer::Done, Answer::Done];
            program.asked(bytes + (five + s.0)) == Seq::new(
                data.len(),
                |i: int| Op::WriteByte((header + 8 + i) as u32, data[i]),
            ) + (seq![
                Op::Write(header, id),
                Op::Write((header + 4) as u32, data.len() as u32),
                Op::Barrier,
                Op::Write(ours(link, 28), link.tx_pos),
                Op::Barrier,
            ] + s.1)
        }),
{
    let s = signalled(link, 16, armed);
    law_signal(link, 16, armed);
    lemma_fields(link, 28);
    lemma_payload((header + 8) as u32, data, 0);
    let bytes = Seq::new(data.len(), |i: int| Answer::Done);
    let five = seq![Answer::Done, Answer::Done, Answer::Done, Answer::Done, Answer::Done];
    let payload = vchiq::payload_program((header + 8) as u32, data, 0);
    let end = |signalled: ()|
        ShmProgram::<(Link, Result<(), Error>)>::Return((vchiq::sent(link), Ok(())));
    program::lemma_given_in_turn(vchiq::signal_program(link, 16), end, s.0, Seq::empty(), ());
    assert(s.0 + Seq::<Answer>::empty() =~= s.0);
    assert(s.1 + Seq::<Op>::empty() =~= s.1);
    let tail = vchiq::signal_program(link, 16).bind(end);
    let rest = |written: ()|
        crate::vchiq::memory::write(
            header,
            id,
            crate::vchiq::memory::write(
                header.wrapping_add(4),
                data.len() as u32,
                crate::vchiq::memory::act(
                    Op::Barrier,
                    crate::vchiq::memory::write(
                        link.local(28),
                        link.tx_pos,
                        crate::vchiq::memory::act(Op::Barrier, tail),
                    ),
                ),
            ),
        );
    let more = five + s.0;
    lemma_five(rest(()), tail, header, id, data.len() as u32, link, s.0);
    program::lemma_given_in_turn(payload, rest, bytes, more, ());
    assert(vchiq::place_program(link, header, id, data) == payload.bind(rest));
}

proof fn lemma_five(
    program: ShmProgram<(Link, Result<(), Error>)>,
    tail: ShmProgram<(Link, Result<(), Error>)>,
    header: u32,
    id: u32,
    len: u32,
    link: Link,
    last: Seq<Answer>,
)
    requires
        header + 4 <= u32::MAX,
        program == crate::vchiq::memory::write(
            header,
            id,
            crate::vchiq::memory::write(
                header.wrapping_add(4),
                len,
                crate::vchiq::memory::act(
                    Op::Barrier,
                    crate::vchiq::memory::write(
                        link.local(28),
                        link.tx_pos,
                        crate::vchiq::memory::act(Op::Barrier, tail),
                    ),
                ),
            ),
        ),
    ensures
        program.asked(
            seq![Answer::Done, Answer::Done, Answer::Done, Answer::Done, Answer::Done] + last,
        ) == seq![
            Op::Write(header, id),
            Op::Write((header + 4) as u32, len),
            Op::Barrier,
            Op::Write(link.local(28), link.tx_pos),
            Op::Barrier,
        ] + tail.asked(last),
{
    let a = seq![Answer::Done, Answer::Done, Answer::Done, Answer::Done, Answer::Done] + last;
    reveal_with_fuel(Program::asked, 6);
    assert(a.skip(1).skip(1).skip(1).skip(1).skip(1) =~= last);
    assert(program.asked(a) =~= seq![
        Op::Write(header, id),
        Op::Write((header + 4) as u32, len),
        Op::Barrier,
        Op::Write(link.local(28), link.tx_pos),
        Op::Barrier,
    ] + tail.asked(last));
}

proof fn lemma_payload(address: u32, data: Seq<u8>, at: int)
    requires
        0 <= at <= data.len(),
        address + data.len() <= u32::MAX,
    ensures
        ({
            let program = vchiq::payload_program(address, data, at);
            let answers = Seq::new((data.len() - at) as nat, |i: int| Answer::Done);
            &&& program.given(answers) == ShmProgram::<()>::Return(())
            &&& program.asked(answers) == Seq::new(
                (data.len() - at) as nat,
                |i: int| Op::WriteByte((address + at + i) as u32, data[at + i]),
            )
        }),
    decreases data.len() - at,
{
    let program = vchiq::payload_program(address, data, at);
    let answers = Seq::new((data.len() - at) as nat, |i: int| Answer::Done);
    let ops = Seq::new(
        (data.len() - at) as nat,
        |i: int| Op::WriteByte((address + at + i) as u32, data[at + i]),
    );
    if at < data.len() {
        lemma_payload(address, data, at + 1);
        let fewer = Seq::new((data.len() - at - 1) as nat, |i: int| Answer::Done);
        assert(answers.skip(1) =~= fewer);
        assert(program.asked(answers) =~= ops);
    } else {
        assert(program.asked(answers) =~= ops);
    }
}

/// A handshake goes on until the firmware has connected, or its deadline has passed: if
/// nothing has been heard, the firmware is listened to again as long as there is time, and
/// then it has timed out.
pub proof fn law_handshake(link: Link, deadline: u64, spins: nat, recycle: u32, now: u64)
    requires
        fits(link),
        spins > 0,
    ensures
        ({
            let program = vchiq::await_connection(link, deadline, spins);
            let answers = seq![
                Answer::Word(recycle),
                Answer::Word(link.rx_pos),
                Answer::Time(now),
            ];
            let heard = seq![Op::Read(ours(link, 44)), Op::Read(theirs(link, 28)), Op::Now];
            let waiting = Link { available: recycle, ..link };
            &&& link.connected ==> program == ShmProgram::<(Link, Result<(), Error>)>::Return(
                (link, Ok(())),
            )
            &&& !link.connected && now > deadline ==> program.asked(answers) == heard
                && program.given(answers) == ShmProgram::<(Link, Result<(), Error>)>::Return(
                (waiting, Err(Error::Timeout)),
            )
            &&& !link.connected && now <= deadline ==> program.asked(answers) == heard.push(
                Op::Read(ours(link, 44)),
            )
        }),
{
    lemma_fields(link, 44);
    lemma_fields(link, 28);
    let waiting = Link { available: recycle, ..link };
    lemma_fields(waiting, 44);
    lemma_fields(waiting, 28);
    reveal_with_fuel(Program::asked, 6);
    reveal_with_fuel(Program::given, 5);
    reveal_with_fuel(Program::bind, 4);
    reveal_with_fuel(vchiq::await_connection, 3);
    reveal_with_fuel(vchiq::listen_program, 2);
    let answers = seq![Answer::Word(recycle), Answer::Word(link.rx_pos), Answer::Time(now)];
    assert(answers.skip(1)[0] == Answer::Word(link.rx_pos));
    assert(answers.skip(1).skip(1)[0] == Answer::Time(now));
    assert(answers.skip(1).skip(1).skip(1).len() == 0);
    if !link.connected {
        let program = vchiq::await_connection(link, deadline, spins);
        let heard = seq![Op::Read(ours(link, 44)), Op::Read(theirs(link, 28)), Op::Now];
        if now <= deadline {
            assert(program.asked(answers) =~= heard.push(Op::Read(ours(link, 44))));
        } else {
            assert(program.asked(answers) =~= heard);
        }
    }
}

/// If what is left of a slot is not enough for a message, it becomes padding: a message with
/// nothing in its first word, as long as what is left without its header. Then the next slot
/// is taken from this side's queue, which goes round, and the message is at its start.
pub proof fn law_padding(link: Link, space: u32, slot: u32)
    requires
        fits(link),
        link.tx_pos % 8 == 0,
        link.tx_pos % 4096 != 0,
        space <= 4096,
        space > 4096 - link.tx_pos % 4096,
        link.tx_pos + 8192 <= u32::MAX,
        link.tx_data + 4096 <= u32::MAX,
        (link.tx_pos / 4096 + 1) != link.available,
        slot < 128,
    ensures
        ({
            let program = vchiq::reserve_program(link, space);
            let answers = seq![Answer::Done, Answer::Done, Answer::Word(slot)];
            let header = link.tx_data + link.tx_pos % 4096;
            let next = link.tx_pos / 4096 + 1;
            &&& program.asked(answers) == seq![
                Op::Write(header as u32, 0),
                Op::Write((header + 4) as u32, (4096 - link.tx_pos % 4096 - 8) as u32),
                Op::Read(ours(link, 72 + 4 * (next % 64))),
            ]
            &&& program.given(answers) matches Program::Return(reserved)
            &&& reserved.1 == Ok::<u32, Error>((link.base + 4096 * slot) as u32)
            &&& reserved.0.tx_data == link.base + 4096 * slot
            &&& reserved.0.tx_pos == 4096 * next + space
        }),
{
    crate::vchiq::layout::law_message_word(0, 0, 0);
    crate::vchiq::layout::law_slots(link.base, slot);
    let next = (link.tx_pos / 4096 + 1) as u32;
    lemma_fields(link, (72 + next % 64 * 4) as u32);
    let left = (4096 - link.tx_pos % 4096) as u32;
    let moved = link.tx_pos.wrapping_add(left);
    assert(moved == 4096 * next);
    assert(moved / 4096 == next && moved % 4096 == 0);
    let answers = seq![Answer::Done, Answer::Done, Answer::Word(slot)];
    reveal_with_fuel(Program::asked, 5);
    reveal_with_fuel(Program::given, 5);
    assert(answers.skip(1)[0] == Answer::Done);
    assert(answers.skip(1).skip(1)[0] == Answer::Word(slot));
    assert(answers.skip(1).skip(1).skip(1).len() == 0);
}

/// A message that fits into what is left of a slot begins where the last one ended.
pub proof fn law_room_in_slot(link: Link, space: u32)
    requires
        link.tx_pos % 4096 != 0,
        space <= 4096 - link.tx_pos % 4096,
        link.tx_pos + 4096 <= u32::MAX,
        link.tx_data + 4096 <= u32::MAX,
    ensures
        vchiq::reserve_program(link, space) matches Program::Return(reserved) && reserved.1 == Ok::<
            u32,
            Error,
        >((link.tx_data + link.tx_pos % 4096) as u32) && reserved.0 == (Link {
            tx_pos: (link.tx_pos + space) as u32,
            ..link
        }),
{
}

/// What is counted: a transfer in the direction that it is asked for in, a message that is
/// received, and one that means nothing to this side, with its kind. Nothing else is.
pub proof fn law_counted(link: Link, bulk: vchiq::Bulk, id: u32, size: u32, data: u32, room: usize)
    requires
        link.stats.bulk_receives < u32::MAX,
        link.stats.bulk_transmits < u32::MAX,
        link.stats.messages_received < u32::MAX,
        link.stats.messages_skipped < u32::MAX,
    ensures
        vchiq::with_bulk(link, bulk, true) == (Link {
            bulk_rx: link.bulk_rx.push(bulk),
            stats: vchiq::Stats {
                bulk_receives: (link.stats.bulk_receives + 1) as u32,
                ..link.stats
            },
            ..link
        }),
        vchiq::with_bulk(link, bulk, false) == (Link {
            bulk_tx: link.bulk_tx.push(bulk),
            stats: vchiq::Stats {
                bulk_transmits: (link.stats.bulk_transmits + 1) as u32,
                ..link.stats
            },
            ..link
        }),
        vchiq::received(link).stats == (vchiq::Stats {
            messages_received: (link.stats.messages_received + 1) as u32,
            ..link.stats
        }),
        ({
            let kind = vchiq::kind_of(id);
            kind != 1 && !(3 <= kind <= 9) ==> vchiq::act_program(link, id, size, data, room)
                == ShmProgram::<vchiq::Heard>::Return(
                (
                    Link {
                        stats: vchiq::Stats {
                            messages_skipped: (link.stats.messages_skipped + 1) as u32,
                            last_skipped_type: kind,
                            ..link.stats
                        },
                        ..link
                    },
                    Seq::empty(),
                    Ok(None),
                ),
            )
        }),
{
}

/// A message that could not be acted on is not passed over: the place that is read from stays.
pub proof fn law_stays_at_fault(link: Link, taken: Seq<u8>, error: Error, size: u32)
    ensures
        vchiq::past_program((link, taken, Err(error)), size) == ShmProgram::<vchiq::Heard>::Return(
            (link, taken, Err(error)),
        ),
{
}

} // verus!

//! What is in the shared memory while a message is written, and what is read of it
//! then.
//!
//! A program over shared memory is followed here on memory that nobody else writes
//! meanwhile: a read gives what was written last.

use vstd::prelude::*;

use crate::bytes;
use crate::program::Program;
use crate::vchiq;
use crate::vchiq::memory;
use crate::vchiq::memory::{Answer, Op, ShmProgram};
use crate::vchiq::messages;
use crate::vchiq::{
    Error, Event, Heard, Link, ServiceId, ServiceState, Stats, FIRED, FRAGMENTS_OFFSET, HEADER_SIZE,
    MAX_MESSAGE_SIZE, MAX_SERVICES, MAX_SLOTS_PER_SIDE, MSG_DATA, MSG_PADDING, RECYCLE, SLOTS_OFFSET,
    SLOT_QUEUE, SLOT_QUEUE_RECYCLE, SLOT_SIZE, TRIGGER, TX_POS,
};

verus! {

/// The byte at each address.
pub type Ram = spec_fn(u32) -> u8;

/// The word at an address.
pub open spec fn word_at(ram: Ram, address: u32) -> u32 {
    bytes::le32(
        ram(address),
        ram(address.wrapping_add(1)),
        ram(address.wrapping_add(2)),
        ram(address.wrapping_add(3)),
    )
}

/// The half at an address.
pub open spec fn half_at(ram: Ram, address: u32) -> u16 {
    bytes::le16(ram(address), ram(address.wrapping_add(1)))
}

/// Bytes put over the memory from an address on.
pub open spec fn with_bytes(ram: Ram, address: u32, put: Seq<u8>) -> Ram {
    |at: u32|
        {
            let index = at.wrapping_sub(address) as int;
            if index < put.len() {
                put[index]
            } else {
                ram(at)
            }
        }
}

/// The memory after something was asked of the platform.
pub open spec fn effect(ram: Ram, op: Op) -> Ram {
    match op {
        Op::Write(address, value) => with_bytes(ram, address, bytes::le32_bytes(value)),
        Op::WriteHalf(address, value) => with_bytes(ram, address, bytes::le16_bytes(value)),
        Op::WriteByte(address, value) => with_bytes(ram, address, seq![value]),
        _ => ram,
    }
}

/// What the memory answers.
pub open spec fn reply(ram: Ram, op: Op) -> Answer {
    match op {
        Op::Read(address) => Answer::Word(word_at(ram, address)),
        Op::ReadHalf(address) => Answer::Half(half_at(ram, address)),
        Op::ReadByte(address) => Answer::Byte(ram(address)),
        _ => Answer::Done,
    }
}

/// What a program that only reads and writes memory returns.
pub open spec fn outcome<T>(program: ShmProgram<T>, ram: Ram) -> Option<T>
    decreases program,
{
    match program {
        Program::Return(value) => Some(value),
        Program::Request(op, next) => outcome(next(reply(ram, op)), effect(ram, op)),
        Program::Stuck => None,
    }
}

/// The memory that it leaves behind.
pub open spec fn left<T>(program: ShmProgram<T>, ram: Ram) -> Ram
    decreases program,
{
    match program {
        Program::Request(op, next) => left(next(reply(ram, op)), effect(ram, op)),
        _ => ram,
    }
}

/// The memory is as `holds` says, from before the program's first step to after its
/// last.
pub open spec fn throughout<T>(
    program: ShmProgram<T>,
    ram: Ram,
    holds: spec_fn(Ram) -> bool,
) -> bool
    decreases program,
{
    &&& holds(ram)
    &&& match program {
        Program::Request(op, next) => throughout(next(reply(ram, op)), effect(ram, op), holds),
        _ => true,
    }
}

pub(crate) broadcast proof fn lemma_act<T>(op: Op, rest: ShmProgram<T>, ram: Ram)
    ensures
        #[trigger] outcome(memory::act(op, rest), ram) == outcome(rest, effect(ram, op)),
        left(memory::act(op, rest), ram) == left(rest, effect(ram, op)),
{
}

pub(crate) broadcast proof fn lemma_act_left<T>(op: Op, rest: ShmProgram<T>, ram: Ram)
    ensures
        #[trigger] left(memory::act(op, rest), ram) == left(rest, effect(ram, op)),
{
}

pub(crate) broadcast proof fn lemma_act_throughout<T>(
    op: Op,
    rest: ShmProgram<T>,
    ram: Ram,
    holds: spec_fn(Ram) -> bool,
)
    ensures
        #[trigger] throughout(memory::act(op, rest), ram, holds) == (holds(ram) && throughout(
            rest,
            effect(ram, op),
            holds,
        )),
{
}

pub(crate) broadcast proof fn lemma_read<T>(
    address: u32,
    rest: spec_fn(u32) -> ShmProgram<T>,
    ram: Ram,
)
    ensures
        #[trigger] outcome(memory::read(address, rest), ram) == outcome(
            rest(word_at(ram, address)),
            ram,
        ),
{
}

pub(crate) broadcast proof fn lemma_read_left<T>(
    address: u32,
    rest: spec_fn(u32) -> ShmProgram<T>,
    ram: Ram,
)
    ensures
        #[trigger] left(memory::read(address, rest), ram) == left(
            rest(word_at(ram, address)),
            ram,
        ),
{
}

pub(crate) broadcast proof fn lemma_read_throughout<T>(
    address: u32,
    rest: spec_fn(u32) -> ShmProgram<T>,
    ram: Ram,
    holds: spec_fn(Ram) -> bool,
)
    ensures
        #[trigger] throughout(memory::read(address, rest), ram, holds) == (holds(ram)
            && throughout(rest(word_at(ram, address)), ram, holds)),
{
}

/// Two programs in turn.
pub(crate) proof fn lemma_bind<S, T>(
    program: ShmProgram<S>,
    rest: spec_fn(S) -> ShmProgram<T>,
    ram: Ram,
    holds: spec_fn(Ram) -> bool,
)
    ensures
        outcome(program, ram) matches Some(value) ==> {
            &&& outcome(program.bind(rest), ram) == outcome(rest(value), left(program, ram))
            &&& left(program.bind(rest), ram) == left(rest(value), left(program, ram))
            &&& throughout(program.bind(rest), ram, holds) == (throughout(program, ram, holds)
                && throughout(rest(value), left(program, ram), holds))
        },
    decreases program,
{
    match program {
        Program::Return(value) => {
            assert(program.bind(rest) == rest(value));
            assert(throughout(rest(value), ram, holds) ==> holds(ram));
        },
        Program::Request(op, next) => {
            let bound = program.bind(rest)->Request_1;
            let answer = reply(ram, op);
            lemma_bind(next(answer), rest, effect(ram, op), holds);
            assert(bound(answer) == next(answer).bind(rest));
        },
        Program::Stuck => {},
    }
}

/// What two programs in turn return.
broadcast proof fn lemma_bind_outcome<S, T>(
    program: ShmProgram<S>,
    rest: spec_fn(S) -> ShmProgram<T>,
    ram: Ram,
)
    ensures
        outcome(program, ram) matches Some(value) ==> #[trigger] outcome(program.bind(rest), ram)
            == outcome(rest(value), left(program, ram)),
{
    lemma_bind(program, rest, ram, |now: Ram| true);
}

/// Bytes put somewhere else leave a word as it was.
pub(crate) proof fn lemma_word_kept(ram: Ram, base: u32, place: int, put: Seq<u8>, word: int)
    requires
        0 <= place <= 0x10_0000,
        0 <= word <= 0x10_0000,
        put.len() <= 0x10_0000,
        word + 4 <= place || place + put.len() <= word,
    ensures
        word_at(
            with_bytes(ram, base.wrapping_add(place as u32), put),
            base.wrapping_add(word as u32),
        ) == word_at(ram, base.wrapping_add(word as u32)),
{
    let from = base.wrapping_add(place as u32);
    let at = base.wrapping_add(word as u32);
    assert(at.wrapping_sub(from) >= put.len());
    assert(at.wrapping_add(1).wrapping_sub(from) >= put.len());
    assert(at.wrapping_add(2).wrapping_sub(from) >= put.len());
    assert(at.wrapping_add(3).wrapping_sub(from) >= put.len());
}

/// A word that was written is read.
proof fn lemma_word_put(ram: Ram, address: u32, value: u32)
    ensures
        word_at(with_bytes(ram, address, bytes::le32_bytes(value)), address) == value,
{
    bytes::law_le32(value);
    assert(address.wrapping_sub(address) == 0);
    assert(address.wrapping_add(1).wrapping_sub(address) == 1);
    assert(address.wrapping_add(2).wrapping_sub(address) == 2);
    assert(address.wrapping_add(3).wrapping_sub(address) == 3);
}

/// Bytes put somewhere else leave a byte as it was.
pub(crate) proof fn lemma_byte_kept(ram: Ram, base: u32, place: int, put: Seq<u8>, byte: int)
    requires
        0 <= place <= 0x10_0000,
        0 <= byte <= 0x10_0000,
        put.len() <= 0x10_0000,
        byte < place || place + put.len() <= byte,
    ensures
        with_bytes(ram, base.wrapping_add(place as u32), put)(base.wrapping_add(byte as u32))
            == ram(base.wrapping_add(byte as u32)),
{
    let from = base.wrapping_add(place as u32);
    let at = base.wrapping_add(byte as u32);
    assert(at.wrapping_sub(from) >= put.len());
}

/// A message is in the memory: its header, and its data behind it.
pub open spec fn holds_message(ram: Ram, header: u32, id: u32, data: Seq<u8>) -> bool {
    &&& word_at(ram, header) == id
    &&& word_at(ram, header.wrapping_add(4)) == data.len()
    &&& forall|i: int|
        0 <= i < data.len() ==> #[trigger] ram(header.wrapping_add((HEADER_SIZE + i) as u32))
            == data[i]
}

/// Where messages are, as bytes behind the start of the shared memory.
pub open spec fn in_the_slots(place: int, len: nat) -> bool {
    &&& SLOT_SIZE <= place
    &&& place + HEADER_SIZE + len <= FRAGMENTS_OFFSET
}

/// The data of a message, written from a byte on.
proof fn lemma_payload(
    base: u32,
    place: int,
    data: Seq<u8>,
    at: int,
    ram: Ram,
    holds: spec_fn(Ram) -> bool,
    word: int,
)
    requires
        in_the_slots(place, data.len()),
        0 <= at <= data.len(),
        0 <= word,
        word + 4 <= SLOT_SIZE,
        forall|other: Ram|
            word_at(other, base.wrapping_add(word as u32)) == word_at(
                ram,
                base.wrapping_add(word as u32),
            ) ==> #[trigger] holds(other),
    ensures
        ({
            let address = base.wrapping_add(place as u32).wrapping_add(HEADER_SIZE);
            let program = vchiq::payload_program(address, data, at);
            let after = left(program, ram);
            &&& outcome(program, ram) == Some(())
            &&& throughout(program, ram, holds)
            &&& word_at(after, base.wrapping_add(word as u32)) == word_at(
                ram,
                base.wrapping_add(word as u32),
            )
            &&& forall|i: int|
                at <= i < data.len() ==> #[trigger] after(
                    base.wrapping_add((place + HEADER_SIZE + i) as u32),
                ) == data[i]
            &&& forall|i: int|
                0 <= i < place + HEADER_SIZE + at ==> #[trigger] after(
                    base.wrapping_add(i as u32),
                ) == ram(base.wrapping_add(i as u32))
        }),
    decreases data.len() - at,
{
    broadcast use {lemma_act, lemma_act_left, lemma_act_throughout};

    let address = base.wrapping_add(place as u32).wrapping_add(HEADER_SIZE);
    assert(holds(ram));
    if at < data.len() {
        let op = Op::WriteByte(address.wrapping_add(at as u32), data[at]);
        let next = effect(ram, op);
        let here = place + HEADER_SIZE + at;
        assert(address.wrapping_add(at as u32) == base.wrapping_add(here as u32));
        lemma_word_kept(ram, base, here, seq![data[at]], word);
        lemma_payload(base, place, data, at + 1, next, holds, word);
        assert(next(base.wrapping_add(here as u32)) == data[at]) by {
            let from = base.wrapping_add(here as u32);
            assert(from.wrapping_sub(from) == 0);
        }
        let after = left(vchiq::payload_program(address, data, at), ram);
        assert forall|i: int| 0 <= i < here implies #[trigger] after(base.wrapping_add(i as u32))
            == ram(base.wrapping_add(i as u32)) by {
            lemma_byte_kept(ram, base, here, seq![data[at]], i);
        }
        assert forall|i: int| at <= i < data.len() implies #[trigger] after(
            base.wrapping_add((place + HEADER_SIZE + i) as u32),
        ) == data[i] by {
            if i == at {
                assert(after(base.wrapping_add(here as u32)) == next(
                    base.wrapping_add(here as u32),
                ));
            }
        }
    }
}

/// A word put in front of the slots leaves a message as it was.
proof fn lemma_message_kept(
    ram: Ram,
    base: u32,
    place: int,
    id: u32,
    data: Seq<u8>,
    word: int,
    value: u32,
)
    requires
        in_the_slots(place, data.len()),
        holds_message(ram, base.wrapping_add(place as u32), id, data),
        0 <= word,
        word + 4 <= SLOT_SIZE,
    ensures
        holds_message(
            with_bytes(ram, base.wrapping_add(word as u32), bytes::le32_bytes(value)),
            base.wrapping_add(place as u32),
            id,
            data,
        ),
{
    let put = bytes::le32_bytes(value);
    let header = base.wrapping_add(place as u32);
    let after = with_bytes(ram, base.wrapping_add(word as u32), put);
    lemma_word_kept(ram, base, word, put, place);
    lemma_word_kept(ram, base, word, put, place + 4);
    assert(header.wrapping_add(4) == base.wrapping_add((place + 4) as u32));
    assert forall|i: int| 0 <= i < data.len() implies #[trigger] after(
        header.wrapping_add((HEADER_SIZE + i) as u32),
    ) == data[i] by {
        lemma_byte_kept(ram, base, word, put, place + HEADER_SIZE + i);
        assert(header.wrapping_add((HEADER_SIZE + i) as u32) == base.wrapping_add(
            (place + HEADER_SIZE + i) as u32,
        ));
    }
}

/// What the firmware can see while a message is written: the position that was there
/// before, or the whole message.
pub open spec fn old_or_whole(
    link: Link,
    before: Ram,
    header: u32,
    id: u32,
    data: Seq<u8>,
) -> spec_fn(Ram) -> bool {
    |now: Ram|
        {
            ||| word_at(now, link.local(TX_POS)) == word_at(before, link.local(TX_POS))
            ||| holds_message(now, header, id, data)
        }
}

proof fn lemma_place(link: Link, place: int, id: u32, data: Seq<u8>, before: Ram, ram: Ram)
    requires
        in_the_slots(place, data.len()),
        word_at(ram, link.local(TX_POS)) == word_at(before, link.local(TX_POS)),
    ensures
        ({
            let header = link.base.wrapping_add(place as u32);
            let program = vchiq::place_program(link, header, id, data);
            &&& outcome(program, ram) == Some((vchiq::sent(link), Ok::<(), Error>(())))
            &&& holds_message(left(program, ram), header, id, data)
            &&& word_at(left(program, ram), link.local(TX_POS)) == link.tx_pos
            &&& throughout(program, ram, old_or_whole(link, before, header, id, data))
        }),
{
    broadcast use {
        lemma_act,
        lemma_act_left,
        lemma_act_throughout,
        lemma_read,
        lemma_read_left,
        lemma_read_throughout,
    };

    reveal(vchiq::block_field);
    let base = link.base;
    let header = base.wrapping_add(place as u32);
    let holds = old_or_whole(link, before, header, id, data);
    let word: int = 432;
    assert(link.local(TX_POS) == base.wrapping_add(word as u32));
    let payload = vchiq::payload_program(header.wrapping_add(HEADER_SIZE), data, 0);
    lemma_payload(base, place, data, 0, ram, holds, word);
    let filled = left(payload, ram);

    let named = with_bytes(filled, header, bytes::le32_bytes(id));
    lemma_word_put(filled, header, id);
    lemma_word_kept(filled, base, place, bytes::le32_bytes(id), word);
    assert(holds(named));

    let size = data.len() as u32;
    let sized = with_bytes(named, header.wrapping_add(4), bytes::le32_bytes(size));
    assert(header.wrapping_add(4) == base.wrapping_add((place + 4) as u32));
    lemma_word_put(named, header.wrapping_add(4), size);
    lemma_word_kept(named, base, place + 4, bytes::le32_bytes(size), word);
    lemma_word_kept(named, base, place + 4, bytes::le32_bytes(size), place);
    assert forall|i: int| 0 <= i < data.len() implies #[trigger] sized(
        header.wrapping_add((HEADER_SIZE + i) as u32),
    ) == data[i] by {
        let byte = place + HEADER_SIZE + i;
        lemma_byte_kept(filled, base, place, bytes::le32_bytes(id), byte);
        lemma_byte_kept(named, base, place + 4, bytes::le32_bytes(size), byte);
        assert(header.wrapping_add((HEADER_SIZE + i) as u32) == base.wrapping_add(byte as u32));
        assert(filled(base.wrapping_add(byte as u32)) == data[i]);
    }
    assert(holds_message(sized, header, id, data));
    assert(holds(sized));

    let shown = with_bytes(sized, link.local(TX_POS), bytes::le32_bytes(link.tx_pos));
    lemma_word_put(sized, link.local(TX_POS), link.tx_pos);
    lemma_message_kept(sized, base, place, id, data, word, link.tx_pos);
    assert(holds(shown));

    let event: int = 52;
    assert(link.remote((TRIGGER + FIRED) as u32) == base.wrapping_add(event as u32));
    let fired = with_bytes(
        shown,
        link.remote((TRIGGER + FIRED) as u32),
        bytes::le32_bytes(1),
    );
    lemma_message_kept(shown, base, place, id, data, event, 1);
    lemma_word_kept(shown, base, event, bytes::le32_bytes(1), word);
    assert(holds(fired));

    let signal = vchiq::signal_program(link, TRIGGER);
    assert(outcome(signal, shown) == Some(()));
    assert(left(signal, shown) == fired);
    assert(throughout(signal, shown, holds));
    let end = |signalled: ()|
        Program::<Op, Answer, (Link, Result<(), Error>)>::Return(
            (vchiq::sent(link), Ok::<(), Error>(())),
        );
    lemma_bind(signal, end, shown, holds);
    let rest = |written: ()|
        memory::write(
            header,
            id,
            memory::write(
                header.wrapping_add(4),
                size,
                memory::act(
                    Op::Barrier,
                    memory::write(
                        link.local(TX_POS),
                        link.tx_pos,
                        memory::act(Op::Barrier, signal.bind(end)),
                    ),
                ),
            ),
        );
    lemma_bind(payload, rest, ram, holds);
    assert(vchiq::place_program(link, header, id, data) == payload.bind(rest));
}

/// The slot being written is one of those for messages, unless the next message starts
/// another.
pub open spec fn slot_known(link: Link) -> bool {
    link.tx_pos % SLOT_SIZE == 0 || exists|pad: int|
        #[trigger] in_the_slots(pad, 0) && link.tx_data.wrapping_add(link.tx_pos % SLOT_SIZE)
            == link.base.wrapping_add(pad as u32)
}

proof fn lemma_reserve(link: Link, space: u32, ram: Ram, holds: spec_fn(Ram) -> bool)
    requires
        link.wf(),
        space % 8 == 0,
        0 < space <= SLOT_SIZE,
        slot_known(link),
        forall|other: Ram|
            word_at(other, link.local(TX_POS)) == word_at(ram, link.local(TX_POS))
                ==> #[trigger] holds(other),
    ensures
        outcome(vchiq::reserve_program(link, space), ram) matches Some((reserved, Ok(header)))
            ==> {
            &&& reserved.base == link.base
            &&& throughout(vchiq::reserve_program(link, space), ram, holds)
            &&& word_at(left(vchiq::reserve_program(link, space), ram), link.local(TX_POS))
                == word_at(ram, link.local(TX_POS))
        },
{
    broadcast use {
        lemma_act,
        lemma_act_left,
        lemma_act_throughout,
        lemma_read,
        lemma_read_left,
        lemma_read_throughout,
    };

    reveal(vchiq::block_field);
    let base = link.base;
    let word: int = 432;
    assert(link.local(TX_POS) == base.wrapping_add(word as u32));
    assert(holds(ram));
    let room = (SLOT_SIZE - link.tx_pos % SLOT_SIZE) as u32;
    if space > room {
        let pad = choose|pad: int|
            #[trigger] in_the_slots(pad, 0) && link.tx_data.wrapping_add(link.tx_pos % SLOT_SIZE)
                == base.wrapping_add(pad as u32);
        let header = link.tx_data.wrapping_add(link.tx_pos % SLOT_SIZE);
        let id = bytes::le32_bytes(vchiq::message_id(MSG_PADDING, 0, 0));
        let size = bytes::le32_bytes((room - HEADER_SIZE) as u32);
        let named = with_bytes(ram, header, id);
        lemma_word_kept(ram, base, pad, id, word);
        assert(holds(named));
        assert(header.wrapping_add(4) == base.wrapping_add((pad + 4) as u32));
        let padded = with_bytes(named, header.wrapping_add(4), size);
        lemma_word_kept(named, base, pad + 4, size, word);
        assert(holds(padded));
        lemma_take_room(link, link.tx_pos.wrapping_add(room), space, padded, holds);
    } else {
        lemma_take_room(link, link.tx_pos, space, ram, holds);
    }
}

proof fn lemma_take_room(
    link: Link,
    position: u32,
    space: u32,
    ram: Ram,
    holds: spec_fn(Ram) -> bool,
)
    requires
        holds(ram),
    ensures
        outcome(vchiq::take_room(link, position, space), ram) matches Some((reserved, Ok(header)))
            ==> {
            &&& reserved.base == link.base
            &&& throughout(vchiq::take_room(link, position, space), ram, holds)
            &&& left(vchiq::take_room(link, position, space), ram) == ram
        },
{
    broadcast use {
        lemma_act,
        lemma_act_left,
        lemma_act_throughout,
        lemma_read,
        lemma_read_left,
        lemma_read_throughout,
    };

    if position % SLOT_SIZE == 0 && position / SLOT_SIZE == link.available {
        let signal = vchiq::signal_program(link, TRIGGER);
        let written = with_bytes(ram, link.local(TX_POS), bytes::le32_bytes(link.tx_pos));
        assert(outcome(signal, written) == Some(()));
        lemma_bind(
            signal,
            |signalled: ()|
                Program::<Op, Answer, (Link, Result<u32, Error>)>::Return(
                    (link, Err(Error::OutOfSlots)),
                ),
            written,
            holds,
        );
    }
}

/// The firmware never sees a half-written message: as long as the message is not there
/// as a whole, the position that shows it is as it was. In the end both are there.
pub proof fn law_never_half_written(
    link: Link,
    id: u32,
    data: Seq<u8>,
    ram: Ram,
    reserved: Link,
    place: int,
)
    requires
        link.wf(),
        data.len() <= MAX_MESSAGE_SIZE,
        slot_known(link),
        in_the_slots(place, data.len()),
        outcome(vchiq::reserve_program(link, vchiq::stride_of(data.len() as u32)), ram) == Some(
            (reserved, Ok::<u32, Error>(link.base.wrapping_add(place as u32))),
        ),
    ensures
        ({
            let header = link.base.wrapping_add(place as u32);
            let program = vchiq::send_program(link, id, data);
            &&& outcome(program, ram) == Some((vchiq::sent(reserved), Ok::<(), Error>(())))
            &&& throughout(program, ram, old_or_whole(link, ram, header, id, data))
            &&& holds_message(left(program, ram), header, id, data)
            &&& word_at(left(program, ram), link.local(TX_POS)) == reserved.tx_pos
        }),
{
    let header = link.base.wrapping_add(place as u32);
    let holds = old_or_whole(link, ram, header, id, data);
    let space = vchiq::stride_of(data.len() as u32);
    messages::law_stride(data.len() as u32);
    let reserve = vchiq::reserve_program(link, space);
    lemma_reserve(link, space, ram, holds);
    let room = left(reserve, ram);
    lemma_place(reserved, place, id, data, ram, room);
    assert(old_or_whole(reserved, ram, header, id, data) =~= holds);
    let rest = |reserved: (Link, Result<u32, Error>)|
        match reserved.1 {
            Err(error) => Program::<Op, Answer, (Link, Result<(), Error>)>::Return(
                (reserved.0, Err(error)),
            ),
            Ok(header) => vchiq::place_program(reserved.0, header, id, data),
        };
    lemma_bind(reserve, rest, ram, holds);
    assert(vchiq::send_program(link, id, data) == reserve.bind(rest));
}

broadcast proof fn lemma_read_half<T>(address: u32, rest: spec_fn(u16) -> ShmProgram<T>, ram: Ram)
    ensures
        #[trigger] outcome(memory::read_half(address, rest), ram) == outcome(
            rest(half_at(ram, address)),
            ram,
        ),
{
}

/// An event of the firmware can always be fired.
proof fn lemma_signal(link: Link, event: u32, ram: Ram)
    ensures
        outcome(vchiq::signal_program(link, event), ram) == Some(()),
{
    broadcast use {lemma_act, lemma_read};

}

/// Moving past a message always comes to an end.
proof fn lemma_advance(link: Link, size: u32, ram: Ram)
    ensures
        outcome(vchiq::advance_program(link, size), ram) matches Some(advanced)
            && advanced.rx_pos == link.rx_pos.wrapping_add(vchiq::stride_of(size)),
{
    let moved = Link { rx_pos: link.rx_pos.wrapping_add(vchiq::stride_of(size)), ..link };
    if moved.rx_pos % SLOT_SIZE == 0 {
        lemma_release(moved, moved.rx_slot, ram);
        lemma_bind(
            vchiq::release_program(moved, moved.rx_slot),
            |released: Link|
                Program::<Op, Answer, Link>::Return(Link { rx_data: 0, ..released }),
            ram,
            |now: Ram| true,
        );
    }
}

proof fn lemma_release(link: Link, slot: u32, ram: Ram)
    ensures
        outcome(vchiq::release_program(link, slot), ram) matches Some(released)
            && released.rx_pos == link.rx_pos,
{
    broadcast use {lemma_act, lemma_read, lemma_read_half};

    let info = link.base.wrapping_add(SLOTS_OFFSET).wrapping_add(slot.wrapping_mul(4));
    let uses = half_at(ram, info);
    let releases = half_at(ram, info.wrapping_add(2)).wrapping_add(1);
    let counted = effect(ram, Op::WriteHalf(info.wrapping_add(2), releases));
    let recycle = word_at(counted, link.remote(SLOT_QUEUE_RECYCLE));
    let queued = effect(
        counted,
        Op::Write(
            link.remote((SLOT_QUEUE + recycle % MAX_SLOTS_PER_SIDE * 4) as u32),
            slot,
        ),
    );
    let moved = effect(
        queued,
        Op::Write(link.remote(SLOT_QUEUE_RECYCLE), recycle.wrapping_add(1)),
    );
    let counts = Stats {
        slots_recycled: link.stats.slots_recycled.wrapping_add(1),
        ..link.stats
    };
    lemma_signal(link, RECYCLE, moved);
    lemma_bind(
        vchiq::signal_program(link, RECYCLE),
        |signalled: ()| Program::<Op, Answer, Link>::Return(Link { stats: counts, ..link }),
        moved,
        |now: Ram| true,
    );
}

/// Bytes are copied as they are.
proof fn lemma_copy(address: u32, count: nat, taken: Seq<u8>, ram: Ram)
    requires
        taken.len() <= count,
    ensures
        outcome(vchiq::copy_program(address, count, taken), ram) == Some(
            taken + Seq::new(
                (count - taken.len()) as nat,
                |i: int| ram(address.wrapping_add((taken.len() + i) as u32)),
            ),
        ),
        left(vchiq::copy_program(address, count, taken), ram) == ram,
    decreases count - taken.len(),
{
    let rest = Seq::new(
        (count - taken.len()) as nat,
        |i: int| ram(address.wrapping_add((taken.len() + i) as u32)),
    );
    if taken.len() >= count {
        assert(taken + rest =~= taken);
    } else {
        let byte = ram(address.wrapping_add(taken.len() as u32));
        let more = taken.push(byte);
        lemma_copy(address, count, more, ram);
        let later = Seq::new(
            (count - more.len()) as nat,
            |i: int| ram(address.wrapping_add((more.len() + i) as u32)),
        );
        assert(taken + rest =~= more + later);
    }
}

/// As much of some data as there is room for.
pub open spec fn fitting(data: Seq<u8>, room: usize) -> Seq<u8> {
    if data.len() <= room {
        data
    } else {
        data.take(room as int)
    }
}

/// What is read of a message is what was written: a service that is open hears the
/// data, as far as there is room for it, and its length.
pub proof fn law_message_read_back(
    reader: Link,
    ram: Ram,
    source: u32,
    port: u16,
    data: Seq<u8>,
    room: usize,
    spins: nat,
)
    requires
        reader.wf(),
        source < 4096,
        port < MAX_SERVICES,
        reader.services[port as int].state == ServiceState::Open,
        data.len() <= MAX_MESSAGE_SIZE,
        reader.rx_data != 0,
        word_at(ram, reader.remote(TX_POS)) != reader.rx_pos,
        spins > 0,
        holds_message(
            ram,
            reader.rx_data.wrapping_add(reader.rx_pos % SLOT_SIZE),
            vchiq::message_id(MSG_DATA, source, port as u32),
            data,
        ),
    ensures
        outcome(vchiq::listen_program(reader, room, spins), ram) matches Some(heard) && {
            &&& heard.1 == fitting(data, room)
            &&& heard.2 == Ok::<Option<Event>, Error>(
                Some(Event::Message { service: ServiceId::at(port), len: data.len() as usize }),
            )
            &&& heard.0.rx_pos == reader.rx_pos.wrapping_add(
                vchiq::stride_of(data.len() as u32),
            )
        },
{
    broadcast use {lemma_read, lemma_read_left};

    let header = reader.rx_data.wrapping_add(reader.rx_pos % SLOT_SIZE);
    let id = vchiq::message_id(MSG_DATA, source, port as u32);
    let size = data.len() as u32;
    vchiq::law_message_id(MSG_DATA, source, port as u32);
    let address = header.wrapping_add(HEADER_SIZE);
    let entered = vchiq::received(reader);
    let count: nat = if size as usize <= room {
        size as nat
    } else {
        room as nat
    };
    lemma_copy(address, count, Seq::empty(), ram);
    let copied = outcome(vchiq::copy_program(address, count, Seq::empty()), ram)->0;
    assert(copied =~= fitting(data, room)) by {
        assert forall|i: int| 0 <= i < count implies copied[i] == data[i] by {
            assert(address.wrapping_add(i as u32) == header.wrapping_add(
                (HEADER_SIZE + i) as u32,
            ));
        }
    }
    let event = Event::Message { service: ServiceId::at(port), len: size as usize };
    let counts = Stats {
        data_received: entered.stats.data_received.wrapping_add(1),
        ..entered.stats
    };
    let said = |bytes: Seq<u8>|
        Program::<Op, Answer, Heard>::Return(
            (
                Link { stats: counts, ..entered },
                bytes,
                Ok::<Option<Event>, Error>(Some(event)),
            ),
        );
    let nothing = |now: Ram| true;
    let copy = vchiq::copy_program(address, count, Seq::empty());
    lemma_bind(copy, said, ram, nothing);
    let parse = vchiq::parse_program(reader, id, size, address, room);
    assert(parse == copy.bind(said));
    let parsed = (Link { stats: counts, ..entered }, copied, Ok::<Option<Event>, Error>(Some(event)));
    assert(outcome(parse, ram) == Some(parsed));
    assert(left(parse, ram) == ram);

    let told = |advanced: Link| Program::<Op, Answer, Heard>::Return((advanced, parsed.1, parsed.2));
    lemma_advance(parsed.0, size, ram);
    lemma_bind(vchiq::advance_program(parsed.0, size), told, ram, nothing);
    let past = |parsed: Heard| vchiq::past_program(parsed, size);
    lemma_bind(parse, past, ram, nothing);
    let message = vchiq::message_program(reader, room);
    assert(outcome(message, ram) == outcome(parse.bind(past), ram)) by {
        assert(vchiq::enter_program(reader) == Program::<Op, Answer, Link>::Return(reader));
    }
    let heard = outcome(message, ram)->0;
    assert(outcome(message, ram) == Some(heard) && heard.2 == parsed.2);
    assert(!vchiq::of_no_interest(heard));
    broadcast use lemma_bind_outcome;

    assert(outcome(vchiq::listen_program(reader, room, spins), ram) == Some(heard));
}

} // verus!

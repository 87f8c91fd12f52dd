//! Page lists while their transfers are in flight: no other transfer writes over them.

use vstd::prelude::*;

use crate::bytes;
use crate::program::Program;
use crate::vchiq;
use crate::vchiq::memory;
use crate::vchiq::memory::{Answer, Op, ShmProgram};
use crate::vchiq::messages;
use crate::vchiq::ram;
use crate::vchiq::ram::Ram;
use crate::vchiq::{
    Bulk, Error, Link, ServiceState, FIRED, FRAGMENTS_OFFSET, HEADER_SIZE, MAX_BULKS,
    MAX_MESSAGE_SIZE, MAX_SERVICES, MAX_SLOTS_PER_SIDE, MSG_BULK_RX, MSG_BULK_TX, MSG_PADDING,
    PAGELISTS_OFFSET, PAGELIST_READ, PAGELIST_SIZE, PAGELIST_WRITE, PAGE_SIZE, SLOT_QUEUE,
    SLOT_SIZE, TRIGGER, TX_POS,
};

verus! {

/// Where a page list begins, as bytes behind the start of the shared memory.
pub open spec fn list_place(receive: bool, list: u32) -> int {
    PAGELISTS_OFFSET + (if receive {
        MAX_BULKS + list
    } else {
        list as int
    }) * PAGELIST_SIZE
}

/// Some bytes of the shared memory are as they were.
pub open spec fn unchanged(base: u32, from: int, to: int, was: Ram) -> spec_fn(Ram) -> bool {
    |now: Ram|
        forall|i: int|
            from <= i < to ==> #[trigger] now(base.wrapping_add(i as u32)) == was(
                base.wrapping_add(i as u32),
            )
}

/// A slot for messages begins here, as bytes behind the start of the shared memory.
pub open spec fn slot_start(start: int) -> bool {
    SLOT_SIZE <= start && start + SLOT_SIZE <= FRAGMENTS_OFFSET
}

/// This is the address of a slot for messages.
pub open spec fn is_slot(base: u32, address: u32) -> bool {
    exists|start: int| #[trigger] slot_start(start) && address == base.wrapping_add(start as u32)
}

/// The slot being written, unless the next message starts another, and those that this
/// side's queue names, are slots for messages.
pub open spec fn writes_in_slots(link: Link, ram: Ram) -> bool {
    &&& link.tx_pos % SLOT_SIZE == 0 || is_slot(link.base, link.tx_data)
    &&& forall|i: u32|
        i < MAX_SLOTS_PER_SIDE ==> is_slot(link.base, #[trigger] slot_queued(link, ram, i))
}

/// The address of a slot in this side's queue.
pub open spec fn slot_queued(link: Link, ram: Ram, i: u32) -> u32 {
    vchiq::slot_address(link.base, ram::word_at(ram, link.local((SLOT_QUEUE + i * 4) as u32)))
}

/// Bytes that are put somewhere else leave them as they were.
proof fn lemma_put_elsewhere(
    base: u32,
    from: int,
    to: int,
    was: Ram,
    now: Ram,
    place: int,
    put: Seq<u8>,
)
    requires
        unchanged(base, from, to, was)(now),
        0 <= from,
        to <= 0x10_0000,
        0 <= place <= 0x10_0000,
        put.len() <= 0x10_0000,
        to <= place || place + put.len() <= from,
    ensures
        unchanged(base, from, to, was)(
            ram::with_bytes(now, base.wrapping_add(place as u32), put),
        ),
{
    let after = ram::with_bytes(now, base.wrapping_add(place as u32), put);
    assert forall|i: int| from <= i < to implies #[trigger] after(base.wrapping_add(i as u32))
        == was(base.wrapping_add(i as u32)) by {
        ram::lemma_byte_kept(now, base, place, put, i);
    }
}

/// The data of a message.
proof fn lemma_payload(
    base: u32,
    place: int,
    data: Seq<u8>,
    at: int,
    from: int,
    to: int,
    was: Ram,
    now: Ram,
)
    requires
        ram::in_the_slots(place, data.len()),
        0 <= at <= data.len(),
        FRAGMENTS_OFFSET <= from,
        to <= 0x10_0000,
        unchanged(base, from, to, was)(now),
    ensures
        ({
            let address = base.wrapping_add(place as u32).wrapping_add(HEADER_SIZE);
            let program = vchiq::payload_program(address, data, at);
            &&& ram::outcome(program, now) == Some(())
            &&& ram::throughout(program, now, unchanged(base, from, to, was))
            &&& unchanged(base, from, to, was)(ram::left(program, now))
        }),
    decreases data.len() - at,
{
    broadcast use {ram::lemma_act, ram::lemma_act_left, ram::lemma_act_throughout};

    let address = base.wrapping_add(place as u32).wrapping_add(HEADER_SIZE);
    if at < data.len() {
        let here = place + HEADER_SIZE + at;
        assert(address.wrapping_add(at as u32) == base.wrapping_add(here as u32));
        let next = ram::effect(now, Op::WriteByte(address.wrapping_add(at as u32), data[at]));
        lemma_put_elsewhere(base, from, to, was, now, here, seq![data[at]]);
        lemma_payload(base, place, data, at + 1, from, to, was, next);
    }
}

/// Showing the firmware how far messages have been written.
proof fn lemma_show(link: Link, from: int, to: int, was: Ram, now: Ram)
    requires
        FRAGMENTS_OFFSET <= from,
        to <= 0x10_0000,
        unchanged(link.base, from, to, was)(now),
    ensures
        ({
            let kept = unchanged(link.base, from, to, was);
            let shown = ram::with_bytes(
                now,
                link.local(TX_POS),
                bytes::le32_bytes(link.tx_pos),
            );
            let signal = vchiq::signal_program(link, TRIGGER);
            &&& kept(shown)
            &&& ram::outcome(signal, shown) == Some(())
            &&& ram::throughout(signal, shown, kept)
            &&& kept(ram::left(signal, shown))
        }),
{
    broadcast use {
        ram::lemma_act,
        ram::lemma_act_left,
        ram::lemma_act_throughout,
        ram::lemma_read,
        ram::lemma_read_left,
        ram::lemma_read_throughout,
    };

    reveal(vchiq::block_field);
    let base = link.base;
    let word: int = 432;
    let event: int = 52;
    assert(link.local(TX_POS) == base.wrapping_add(word as u32));
    assert(link.remote((TRIGGER + FIRED) as u32) == base.wrapping_add(event as u32));
    lemma_put_elsewhere(base, from, to, was, now, word, bytes::le32_bytes(link.tx_pos));
    let shown = ram::with_bytes(now, link.local(TX_POS), bytes::le32_bytes(link.tx_pos));
    lemma_put_elsewhere(base, from, to, was, shown, event, bytes::le32_bytes(1));
}

/// A message that is written in the slots.
proof fn lemma_place(
    link: Link,
    place: int,
    id: u32,
    data: Seq<u8>,
    from: int,
    to: int,
    was: Ram,
    now: Ram,
)
    requires
        ram::in_the_slots(place, data.len()),
        FRAGMENTS_OFFSET <= from,
        to <= 0x10_0000,
        unchanged(link.base, from, to, was)(now),
    ensures
        ram::throughout(
            vchiq::place_program(link, link.base.wrapping_add(place as u32), id, data),
            now,
            unchanged(link.base, from, to, was),
        ),
{
    broadcast use {ram::lemma_act, ram::lemma_act_left, ram::lemma_act_throughout};

    let base = link.base;
    let kept = unchanged(base, from, to, was);
    let header = base.wrapping_add(place as u32);
    let payload = vchiq::payload_program(header.wrapping_add(HEADER_SIZE), data, 0);
    lemma_payload(base, place, data, 0, from, to, was, now);
    let filled = ram::left(payload, now);
    let size = data.len() as u32;
    lemma_put_elsewhere(base, from, to, was, filled, place, bytes::le32_bytes(id));
    let named = ram::with_bytes(filled, header, bytes::le32_bytes(id));
    assert(header.wrapping_add(4) == base.wrapping_add((place + 4) as u32));
    lemma_put_elsewhere(base, from, to, was, named, place + 4, bytes::le32_bytes(size));
    let sized = ram::with_bytes(named, header.wrapping_add(4), bytes::le32_bytes(size));
    lemma_show(link, from, to, was, sized);
    let shown = ram::with_bytes(sized, link.local(TX_POS), bytes::le32_bytes(link.tx_pos));
    let signal = vchiq::signal_program(link, TRIGGER);
    let end = |signalled: ()|
        Program::<Op, Answer, (Link, Result<(), Error>)>::Return(
            (vchiq::sent(link), Ok::<(), Error>(())),
        );
    ram::lemma_bind(signal, end, shown, kept);
    let rest = |written: ()|
        memory::write(
            header,
            id,
            memory::write(
                header.wrapping_add(4),
                size,
                memory::act(
                    Op::Barrier,
                    memory::write(
                        link.local(TX_POS),
                        link.tx_pos,
                        memory::act(Op::Barrier, signal.bind(end)),
                    ),
                ),
            ),
        );
    ram::lemma_bind(payload, rest, now, kept);
    assert(vchiq::place_program(link, header, id, data) == payload.bind(rest));
}

/// What finding room comes to: none, or some in a slot for messages.
spec fn found(link: Link, len: nat, reserved: (Link, Result<u32, Error>)) -> bool {
    &&& reserved.0.base == link.base
    &&& reserved.1 matches Ok(header) ==> exists|place: int| #[trigger]
        ram::in_the_slots(place, len) && header == link.base.wrapping_add(place as u32)
}

/// Finding room at a position.
proof fn lemma_take_room(
    link: Link,
    position: u32,
    len: nat,
    from: int,
    to: int,
    was: Ram,
    now: Ram,
)
    requires
        len <= MAX_MESSAGE_SIZE,
        position % SLOT_SIZE + vchiq::stride_of(len as u32) <= SLOT_SIZE,
        position % SLOT_SIZE == 0 || is_slot(link.base, link.tx_data),
        forall|i: u32|
            i < MAX_SLOTS_PER_SIDE ==> is_slot(link.base, #[trigger] slot_queued(link, now, i)),
        FRAGMENTS_OFFSET <= from,
        to <= 0x10_0000,
        unchanged(link.base, from, to, was)(now),
    ensures
        ({
            let program = vchiq::take_room(link, position, vchiq::stride_of(len as u32));
            &&& ram::outcome(program, now) matches Some(reserved) && found(link, len, reserved)
            &&& ram::throughout(program, now, unchanged(link.base, from, to, was))
            &&& unchanged(link.base, from, to, was)(ram::left(program, now))
        }),
{
    broadcast use {
        ram::lemma_act,
        ram::lemma_act_left,
        ram::lemma_act_throughout,
        ram::lemma_read,
        ram::lemma_read_left,
        ram::lemma_read_throughout,
    };

    messages::law_stride(len as u32);
    let base = link.base;
    let kept = unchanged(base, from, to, was);
    if position % SLOT_SIZE == 0 {
        if position / SLOT_SIZE == link.available {
            lemma_show(link, from, to, was, now);
            let shown = ram::with_bytes(now, link.local(TX_POS), bytes::le32_bytes(link.tx_pos));
            ram::lemma_bind(
                vchiq::signal_program(link, TRIGGER),
                |signalled: ()|
                    Program::<Op, Answer, (Link, Result<u32, Error>)>::Return(
                        (link, Err(Error::OutOfSlots)),
                    ),
                shown,
                kept,
            );
        } else {
            let i = (position / SLOT_SIZE) % MAX_SLOTS_PER_SIDE;
            let address = slot_queued(link, now, i);
            assert(is_slot(base, address));
            let start = choose|start: int| #[trigger]
                slot_start(start) && address == base.wrapping_add(start as u32);
            assert(ram::in_the_slots(start, len));
        }
    } else {
        let start = choose|start: int| #[trigger]
            slot_start(start) && link.tx_data == base.wrapping_add(start as u32);
        let place = start + position % SLOT_SIZE;
        assert(link.tx_data.wrapping_add(position % SLOT_SIZE) == base.wrapping_add(place as u32));
        assert(ram::in_the_slots(place, len));
    }
}

/// Finding room, with padding if it takes another slot.
proof fn lemma_reserve(link: Link, len: nat, from: int, to: int, was: Ram, now: Ram)
    requires
        link.wf(),
        len <= MAX_MESSAGE_SIZE,
        writes_in_slots(link, now),
        FRAGMENTS_OFFSET <= from,
        to <= 0x10_0000,
        unchanged(link.base, from, to, was)(now),
    ensures
        ({
            let program = vchiq::reserve_program(link, vchiq::stride_of(len as u32));
            &&& ram::outcome(program, now) matches Some(reserved) && found(link, len, reserved)
            &&& ram::throughout(program, now, unchanged(link.base, from, to, was))
            &&& unchanged(link.base, from, to, was)(ram::left(program, now))
        }),
{
    broadcast use {ram::lemma_act, ram::lemma_act_left, ram::lemma_act_throughout};

    messages::law_stride(len as u32);
    let base = link.base;
    let space = vchiq::stride_of(len as u32);
    let room = (SLOT_SIZE - link.tx_pos % SLOT_SIZE) as u32;
    if space > room {
        let start = choose|start: int| #[trigger]
            slot_start(start) && link.tx_data == base.wrapping_add(start as u32);
        let pad = start + link.tx_pos % SLOT_SIZE;
        let header = link.tx_data.wrapping_add(link.tx_pos % SLOT_SIZE);
        assert(header == base.wrapping_add(pad as u32));
        assert(header.wrapping_add(4) == base.wrapping_add((pad + 4) as u32));
        let id = bytes::le32_bytes(vchiq::message_id(MSG_PADDING, 0, 0));
        let size = bytes::le32_bytes((room - HEADER_SIZE) as u32);
        lemma_put_elsewhere(base, from, to, was, now, pad, id);
        let named = ram::with_bytes(now, header, id);
        lemma_put_elsewhere(base, from, to, was, named, pad + 4, size);
        let padded = ram::with_bytes(named, header.wrapping_add(4), size);
        assert forall|i: u32| i < MAX_SLOTS_PER_SIDE implies is_slot(
            base,
            #[trigger] slot_queued(link, padded, i),
        ) by {
            lemma_queue_kept(link, now, pad, id, i);
            lemma_queue_kept(link, named, pad + 4, size, i);
            assert(is_slot(base, slot_queued(link, now, i)));
        }
        let position = link.tx_pos.wrapping_add(room);
        assert(position % SLOT_SIZE == 0);
        lemma_take_room(link, position, len, from, to, was, padded);
    } else {
        lemma_take_room(link, link.tx_pos, len, from, to, was, now);
    }
}

/// Bytes that are put behind slot zero leave the queue as it was.
proof fn lemma_queue_kept(link: Link, now: Ram, place: int, put: Seq<u8>, i: u32)
    requires
        SLOT_SIZE <= place <= 0x10_0000,
        put.len() <= 0x10_0000,
        i < MAX_SLOTS_PER_SIDE,
    ensures
        slot_queued(link, ram::with_bytes(now, link.base.wrapping_add(place as u32), put), i)
            == slot_queued(link, now, i),
{
    reveal(vchiq::block_field);
    let word = 476 + i * 4;
    assert(link.local((SLOT_QUEUE + i * 4) as u32) == link.base.wrapping_add(word as u32));
    ram::lemma_word_kept(now, link.base, place, put, word);
}

/// A message.
proof fn lemma_send(link: Link, id: u32, data: Seq<u8>, from: int, to: int, was: Ram, now: Ram)
    requires
        link.wf(),
        data.len() <= MAX_MESSAGE_SIZE,
        writes_in_slots(link, now),
        FRAGMENTS_OFFSET <= from,
        to <= 0x10_0000,
        unchanged(link.base, from, to, was)(now),
    ensures
        ram::throughout(
            vchiq::send_program(link, id, data),
            now,
            unchanged(link.base, from, to, was),
        ),
{
    let kept = unchanged(link.base, from, to, was);
    let reserve = vchiq::reserve_program(link, vchiq::stride_of(data.len() as u32));
    lemma_reserve(link, data.len(), from, to, was, now);
    let reserved = ram::outcome(reserve, now)->0;
    let room = ram::left(reserve, now);
    match reserved.1 {
        Ok(header) => {
            let place = choose|place: int| #[trigger]
                ram::in_the_slots(place, data.len()) && header == link.base.wrapping_add(
                    place as u32,
                );
            lemma_place(reserved.0, place, id, data, from, to, was, room);
        },
        Err(error) => {},
    }
    let rest = |reserved: (Link, Result<u32, Error>)|
        match reserved.1 {
            Err(error) => Program::<Op, Answer, (Link, Result<(), Error>)>::Return(
                (reserved.0, Err(error)),
            ),
            Ok(header) => vchiq::place_program(reserved.0, header, id, data),
        };
    ram::lemma_bind(reserve, rest, now, kept);
    assert(vchiq::send_program(link, id, data) == reserve.bind(rest));
}

/// What is only returned changes nothing more.
proof fn lemma_last<S, T>(
    program: ShmProgram<S>,
    rest: spec_fn(S) -> ShmProgram<T>,
    now: Ram,
    holds: spec_fn(Ram) -> bool,
)
    requires
        ram::throughout(program, now, holds),
        forall|value: S| (#[trigger] rest(value)) is Return,
    ensures
        ram::throughout(program.bind(rest), now, holds),
    decreases program,
{
    match program {
        Program::Return(value) => {
            assert(program.bind(rest) == rest(value));
        },
        Program::Request(op, next) => {
            let bound = program.bind(rest)->Request_1;
            let answer = ram::reply(now, op);
            lemma_last(next(answer), rest, ram::effect(now, op), holds);
            assert(bound(answer) == next(answer).bind(rest));
        },
        Program::Stuck => {},
    }
}

/// A transfer in flight keeps its page list: while another is asked for, from the first
/// write of that one's page list to the last of its request, not a byte of it changes.
pub proof fn law_page_list_kept(
    link: Link,
    port: u16,
    bulk: Bulk,
    receive: bool,
    other: bool,
    at: int,
    now: Ram,
)
    requires
        link.wf(),
        port < MAX_SERVICES,
        link.services[port as int].state == ServiceState::Open,
        bulk.list == vchiq::next_list(vchiq::flight(link, receive)),
        0 <= at < vchiq::flight(link, other).len(),
        writes_in_slots(link, now),
    ensures
        ({
            let place = list_place(other, vchiq::flight(link, other)[at].list);
            &&& vchiq::list_address(link.base, other, vchiq::flight(link, other)[at].list as int)
                == link.base.wrapping_add(place as u32)
            &&& ram::throughout(
                vchiq::bulk_program(link, port, bulk, receive),
                now,
                unchanged(link.base, place, place + PAGELIST_SIZE, now),
            )
        }),
{
    broadcast use {ram::lemma_act, ram::lemma_act_left, ram::lemma_act_throughout};

    let base = link.base;
    let theirs = vchiq::flight(link, other)[at].list;
    let from = list_place(other, theirs);
    let to = from + PAGELIST_SIZE;
    if vchiq::flight(link, receive).len() < MAX_BULKS {
        vchiq::law_page_lists(vchiq::flight(link, receive), bulk);
        if receive == other {
            assert(vchiq::in_use(vchiq::flight(link, other), theirs));
            assert(bulk.list != theirs);
        }
        let ours = list_place(receive, bulk.list);
        let list = vchiq::list_address(base, receive, bulk.list as int);
        assert(list == base.wrapping_add(ours as u32));
        assert(list.wrapping_add(4) == base.wrapping_add((ours + 4) as u32));
        assert(list.wrapping_add(8) == base.wrapping_add((ours + 8) as u32));
        assert(ours + PAGELIST_SIZE <= from || to <= ours);
        let offset = bulk.address % PAGE_SIZE;
        let one = bytes::le32_bytes(bulk.len as u32);
        let two = bytes::le32_bytes(
            ((if receive {
                PAGELIST_READ
            } else {
                PAGELIST_WRITE
            }) + offset * 65536) as u32,
        );
        let three = bytes::le32_bytes(
            vchiq::bus_of((bulk.address - offset) as u32) | (vchiq::pages_of(
                bulk.address,
                bulk.len,
            ) - 1) as u32,
        );
        lemma_put_elsewhere(base, from, to, now, now, ours, one);
        let with_one = ram::with_bytes(now, list, one);
        lemma_put_elsewhere(base, from, to, now, with_one, ours + 4, two);
        let with_two = ram::with_bytes(with_one, list.wrapping_add(4), two);
        lemma_put_elsewhere(base, from, to, now, with_two, ours + 8, three);
        let with_three = ram::with_bytes(with_two, list.wrapping_add(8), three);
        assert(writes_in_slots(link, with_three)) by {
            assert forall|i: u32| i < MAX_SLOTS_PER_SIDE implies is_slot(
                base,
                #[trigger] slot_queued(link, with_three, i),
            ) by {
                lemma_queue_kept(link, now, ours, one, i);
                lemma_queue_kept(link, with_one, ours + 4, two, i);
                lemma_queue_kept(link, with_two, ours + 8, three, i);
                assert(is_slot(base, slot_queued(link, now, i)));
            }
        }
        let id = vchiq::message_id(
            if receive {
                MSG_BULK_RX
            } else {
                MSG_BULK_TX
            },
            port as u32,
            link.services[port as int].remote_port as u32,
        );
        let data = bytes::le32_bytes(vchiq::bus_of(list)) + bytes::le32_bytes(bulk.len as u32);
        lemma_send(link, id, data, from, to, now, with_three);
        let rest = |sent: (Link, Result<(), Error>)|
            match sent.1 {
                Err(error) => Program::<Op, Answer, (Link, Result<(), Error>)>::Return(
                    (sent.0, Err(error)),
                ),
                Ok(()) => Program::Return((vchiq::with_bulk(sent.0, bulk, receive), Ok(()))),
            };
        lemma_last(
            vchiq::send_program(link, id, data),
            rest,
            with_three,
            unchanged(base, from, to, now),
        );
    }
}

} // verus!

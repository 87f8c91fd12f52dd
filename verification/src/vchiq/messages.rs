//! What holds of every message: it lies in one slot, transfers are in flight once they have
//! been asked for, completions come for them in that order, and a port whose service has
//! been told as closed is free.

use vstd::prelude::*;

use crate::bytes;
use crate::vchiq;
use crate::vchiq::memory;
use crate::vchiq::memory::{Answer, Op, ShmProgram};
use crate::vchiq::{
    Bulk, Error, Event, Heard, Link, Service, ServiceId, ServiceState, HEADER_SIZE,
    MAX_MESSAGE_SIZE, MAX_SERVICES, MSG_BULK_RX, MSG_BULK_TX, MSG_CLOSE, SLOT_SIZE,
};

verus! {

/// What is returned after something that has no answer.
pub(crate) broadcast proof fn lemma_act<T>(op: Op, rest: ShmProgram<T>, holds: spec_fn(T) -> bool)
    requires
        rest.ends_in(holds),
    ensures
        #[trigger] memory::act(op, rest).ends_in(holds),
{
}

/// What is returned after a word was read.
pub(crate) broadcast proof fn lemma_read<T>(
    address: u32,
    rest: spec_fn(u32) -> ShmProgram<T>,
    holds: spec_fn(T) -> bool,
)
    requires
        forall|value: u32| (#[trigger] rest(value)).ends_in(holds),
    ensures
        #[trigger] memory::read(address, rest).ends_in(holds),
{
    let next = memory::read(address, rest)->Request_1;
    assert forall|answer: Answer| (#[trigger] next(answer)).ends_in(holds) by {
        match answer {
            Answer::Word(value) => {
                assert(next(answer) == rest(value));
            },
            _ => {},
        }
    }
}

broadcast group group_steps {
    lemma_act,
    lemma_read,
    crate::program::lemma_ends_in_bind,
}

/// What a message takes is enough for its header and its data, is a multiple of
/// eight, and is no more than a slot.
pub proof fn law_stride(size: u32)
    requires
        size <= MAX_MESSAGE_SIZE,
    ensures
        vchiq::stride_of(size) % 8 == 0,
        HEADER_SIZE + size <= vchiq::stride_of(size) < HEADER_SIZE + size + 8,
        vchiq::stride_of(size) <= SLOT_SIZE,
{
    reveal(vchiq::stride_of);
}

/// Room for `space` bytes at `header`, the last that has been taken.
pub open spec fn in_one_slot(link: Link, header: u32, space: u32) -> bool {
    let start = link.tx_pos.wrapping_sub(space);
    &&& start % SLOT_SIZE + space <= SLOT_SIZE
    &&& header == link.tx_data.wrapping_add(start % SLOT_SIZE)
    &&& link.tx_pos % 8 == 0
}

/// A message never straddles two slots, wherever the last one ended and whatever the
/// firmware has put into the queue of slots.
pub proof fn law_message_in_one_slot(link: Link, size: u32)
    requires
        link.wf(),
        size <= MAX_MESSAGE_SIZE,
    ensures
        vchiq::reserve_program(link, vchiq::stride_of(size)).ends_in(
            |reserved: (Link, Result<u32, Error>)|
                reserved.1 matches Ok(header) ==> in_one_slot(
                    reserved.0,
                    header,
                    vchiq::stride_of(size),
                ),
        ),
{
    let space = vchiq::stride_of(size);
    let holds = |reserved: (Link, Result<u32, Error>)|
        reserved.1 matches Ok(header) ==> in_one_slot(reserved.0, header, space);
    law_stride(size);
    let left = (SLOT_SIZE - link.tx_pos % SLOT_SIZE) as u32;
    if space > left {
        let next = link.tx_pos.wrapping_add(left);
        assert(next % SLOT_SIZE == 0);
        lemma_room(link, next, space);
    } else {
        lemma_room(link, link.tx_pos, space);
    }
    broadcast use group_steps;

    assert(vchiq::reserve_program(link, space).ends_in(holds));
}

proof fn lemma_room(link: Link, position: u32, space: u32)
    requires
        position % 8 == 0,
        space % 8 == 0,
        position % SLOT_SIZE + space <= SLOT_SIZE,
    ensures
        vchiq::take_room(link, position, space).ends_in(
            |reserved: (Link, Result<u32, Error>)|
                reserved.1 matches Ok(header) ==> in_one_slot(reserved.0, header, space),
        ),
{
    let end = position.wrapping_add(space);
    assert(end.wrapping_sub(space) == position);
    assert(end % 8 == 0);
    broadcast use group_steps;

    let holds = |reserved: (Link, Result<u32, Error>)|
        reserved.1 matches Ok(header) ==> in_one_slot(reserved.0, header, space);
    assert(vchiq::take_room(link, position, space).ends_in(holds));
}

/// What a completion of a direction comes to: the oldest transfer of that direction is
/// done, and the others are as they were.
pub open spec fn oldest_done(before: Link, receive: bool, heard: Heard) -> bool {
    let after = heard.0;
    if receive {
        &&& after.bulk_rx == before.bulk_rx.skip(1)
        &&& after.bulk_tx == before.bulk_tx
        &&& heard.2 matches Ok(Some(Event::BulkReceiveDone { context, actual })) && context
            == before.bulk_rx[0].context
    } else {
        &&& after.bulk_tx == before.bulk_tx.skip(1)
        &&& after.bulk_rx == before.bulk_rx
        &&& heard.2 matches Ok(Some(Event::BulkTransmitDone { context, actual })) && context
            == before.bulk_tx[0].context
    }
}

/// Transfers of one direction are done in the order in which they were asked for; a
/// completion when none is in flight is a fault of the protocol.
pub proof fn law_completions_in_order(link: Link, receive: bool, data: u32)
    ensures
        vchiq::completion_program(link, receive, data).ends_in(
            |heard: Heard|
                if (receive && link.bulk_rx.len() == 0) || (!receive && link.bulk_tx.len() == 0) {
                    heard.0 == link && heard.2 == Err::<Option<Event>, Error>(Error::Protocol)
                } else {
                    oldest_done(link, receive, heard)
                },
        ),
{
    let holds = |heard: Heard|
        if (receive && link.bulk_rx.len() == 0) || (!receive && link.bulk_tx.len() == 0) {
            heard.0 == link && heard.2 == Err::<Option<Event>, Error>(Error::Protocol)
        } else {
            oldest_done(link, receive, heard)
        };
    broadcast use group_steps;

    assert(vchiq::completion_program(link, receive, data).ends_in(holds));
}

/// The transfers that are in flight, and the counts of those that were asked for, are
/// those of `link`.
pub open spec fn same_flight(link: Link, other: Link) -> bool {
    &&& other.bulk_tx == link.bulk_tx
    &&& other.bulk_rx == link.bulk_rx
    &&& other.stats.bulk_transmits == link.stats.bulk_transmits
    &&& other.stats.bulk_receives == link.stats.bulk_receives
}

/// A transport has the transfers in flight of `link`.
pub open spec fn has_flight(link: Link) -> spec_fn((Link, Result<(), Error>)) -> bool {
    |sent: (Link, Result<(), Error>)| same_flight(link, sent.0)
}

/// Sending a message puts no transfer in flight.
proof fn lemma_send_keeps_flight(link: Link, id: u32, data: Seq<u8>)
    ensures
        vchiq::send_program(link, id, data).ends_in(has_flight(link)),
{
    let space = vchiq::stride_of(data.len() as u32);
    let reserve = vchiq::reserve_program(link, space);
    let kept = |reserved: (Link, Result<u32, Error>)| same_flight(link, reserved.0);
    assert(reserve.ends_in(kept)) by {
        broadcast use group_steps;

    }
    crate::program::lemma_reached(reserve, kept);
    broadcast use group_steps;

    assert(vchiq::send_program(link, id, data).ends_in(has_flight(link)));
}

/// A transfer is in flight, the newest of its direction, if and only if asking for it
/// succeeded; a request that was refused, or for which there was no slot, leaves the
/// transfers in flight and their counts as they were, so that it can be made again.
pub proof fn law_in_flight_if_asked(link: Link, port: u16, bulk: Bulk, receive: bool)
    ensures
        vchiq::bulk_program(link, port, bulk, receive).ends_in(
            |asked: (Link, Result<(), Error>)|
                if asked.1 is Ok {
                    same_flight(vchiq::with_bulk(link, bulk, receive), asked.0)
                } else {
                    same_flight(link, asked.0)
                },
        ),
{
    let holds = |asked: (Link, Result<(), Error>)|
        if asked.1 is Ok {
            same_flight(vchiq::with_bulk(link, bulk, receive), asked.0)
        } else {
            same_flight(link, asked.0)
        };
    let list = vchiq::list_address(link.base, receive, bulk.list as int);
    let id = vchiq::message_id(
        if receive {
            MSG_BULK_RX
        } else {
            MSG_BULK_TX
        },
        port as u32,
        link.services[port as int].remote_port as u32,
    );
    let data = bytes::le32_bytes(vchiq::bus_of(list)) + bytes::le32_bytes(bulk.len as u32);
    lemma_send_keeps_flight(link, id, data);
    crate::program::lemma_reached(vchiq::send_program(link, id, data), has_flight(link));
    broadcast use group_steps;

    assert(vchiq::bulk_program(link, port, bulk, receive).ends_in(holds));
}

/// The ports of a transport are these, and a message failed only for want of a slot.
pub open spec fn has_ports(services: Seq<Service>) -> spec_fn((Link, Result<(), Error>)) -> bool {
    |sent: (Link, Result<(), Error>)|
        sent.0.services == services && (sent.1 matches Err(error) ==> error == Error::OutOfSlots)
}

/// Sending a message changes no port.
pub(crate) proof fn lemma_send_keeps_ports(link: Link, id: u32, data: Seq<u8>)
    ensures
        vchiq::send_program(link, id, data).ends_in(has_ports(link.services)),
{
    let space = vchiq::stride_of(data.len() as u32);
    let reserve = vchiq::reserve_program(link, space);
    let kept = |reserved: (Link, Result<u32, Error>)|
        reserved.0.services == link.services && (reserved.1 matches Err(error) ==> error
            == Error::OutOfSlots);
    assert(reserve.ends_in(kept)) by {
        broadcast use group_steps;

    }
    crate::program::lemma_reached(reserve, kept);
    broadcast use group_steps;

    assert(vchiq::send_program(link, id, data).ends_in(has_ports(link.services)));
}

/// A port is free again once its service has been told as closed, whoever closed it; only
/// of one that was being opened it is left to whoever waits for it.
pub proof fn law_closed_port_is_free(link: Link, id: u32, size: u32, data: u32, room: usize)
    requires
        link.wf(),
        vchiq::kind_of(id) == MSG_CLOSE,
        vchiq::destination_of(id) < MAX_SERVICES,
        link.services[vchiq::destination_of(id) as int].state != ServiceState::Opening,
    ensures
        vchiq::act_program(link, id, size, data, room).ends_in(
            |heard: Heard|
                heard.2 is Ok ==> {
                    let port = vchiq::destination_of(id);
                    &&& heard.2 == Ok::<Option<Event>, Error>(
                        Some(Event::ServiceClosed(ServiceId::at(port))),
                    )
                    &&& heard.0.services == link.services.update(
                        port as int,
                        heard.0.services[port as int],
                    )
                    &&& heard.0.services[port as int].state == ServiceState::Free
                },
        ),
{
    let port = vchiq::destination_of(id);
    let holds = |heard: Heard|
        heard.2 is Ok ==> {
            &&& heard.2 == Ok::<Option<Event>, Error>(
                Some(Event::ServiceClosed(ServiceId::at(port))),
            )
            &&& heard.0.services == link.services.update(
                port as int,
                heard.0.services[port as int],
            )
            &&& heard.0.services[port as int].state == ServiceState::Free
        };
    let closing = vchiq::in_state(link, port as int, ServiceState::Closed);
    let answer = vchiq::message_id(MSG_CLOSE, port as u32, vchiq::source_of(id) as u32);
    lemma_send_keeps_ports(closing, answer, Seq::empty());
    crate::program::lemma_reached(
        vchiq::send_program(closing, answer, Seq::empty()),
        has_ports(closing.services),
    );
    assert forall|sent: Link| sent.services == closing.services implies #[trigger]
        vchiq::in_state(sent, port as int, ServiceState::Free).services == link.services.update(
        port as int,
        vchiq::in_state(sent, port as int, ServiceState::Free).services[port as int],
    ) by {
        assert(vchiq::in_state(sent, port as int, ServiceState::Free).services
            =~= link.services.update(
            port as int,
            vchiq::in_state(sent, port as int, ServiceState::Free).services[port as int],
        ));
    }
    broadcast use group_steps;

    assert(vchiq::act_program(link, id, size, data, room).ends_in(holds));
}

} // verus!

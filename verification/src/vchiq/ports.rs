//! The ports of the transport: as many services can be open at once as there are ports,
//! however many have been opened before.

use vstd::prelude::*;

use crate::bytes;
use crate::program;
use crate::vchiq;
use crate::vchiq::memory;
use crate::vchiq::memory::{Answer, Op, ShmHistory, ShmProgram};
use crate::vchiq::messages;
use crate::vchiq::{
    Bulk, Error, Event, Heard, Link, Service, ServiceId, ServiceState, MAX_MESSAGE_SIZE,
    MAX_SERVICES, MAX_SPINS, MSG_BULK_RX, MSG_BULK_TX, MSG_CLOSE, MSG_CONNECT, MSG_DATA, MSG_OPEN,
    MSG_OPENACK,
};

verus! {

/// What is returned after a half was read.
broadcast proof fn lemma_read_half<T>(
    address: u32,
    rest: spec_fn(u16) -> ShmProgram<T>,
    holds: spec_fn(T) -> bool,
)
    requires
        forall|value: u16| (#[trigger] rest(value)).ends_in(holds),
    ensures
        #[trigger] memory::read_half(address, rest).ends_in(holds),
{
    let next = memory::read_half(address, rest)->Request_1;
    assert forall|answer: Answer| (#[trigger] next(answer)).ends_in(holds) by {
        match answer {
            Answer::Half(value) => {
                assert(next(answer) == rest(value));
            },
            _ => {},
        }
    }
}

/// What is returned after the clock was read.
broadcast proof fn lemma_now<T>(rest: spec_fn(u64) -> ShmProgram<T>, holds: spec_fn(T) -> bool)
    requires
        forall|time: u64| (#[trigger] rest(time)).ends_in(holds),
    ensures
        #[trigger] memory::now(rest).ends_in(holds),
{
    let next = memory::now(rest)->Request_1;
    assert forall|answer: Answer| (#[trigger] next(answer)).ends_in(holds) by {
        match answer {
            Answer::Time(time) => {
                assert(next(answer) == rest(time));
            },
            _ => {},
        }
    }
}

/// What is returned after a word was asked for.
broadcast proof fn lemma_ask<T>(
    op: Op,
    rest: spec_fn(u32) -> ShmProgram<T>,
    holds: spec_fn(T) -> bool,
)
    requires
        forall|value: u32| (#[trigger] rest(value)).ends_in(holds),
    ensures
        #[trigger] memory::ask(op, rest).ends_in(holds),
{
    let next = memory::ask(op, rest)->Request_1;
    assert forall|answer: Answer| (#[trigger] next(answer)).ends_in(holds) by {
        match answer {
            Answer::Word(value) => {
                assert(next(answer) == rest(value));
            },
            _ => {},
        }
    }
}

/// What is returned after a call that may fail.
broadcast proof fn lemma_call<T>(
    op: Op,
    rest: spec_fn(Result<u32, u32>) -> ShmProgram<T>,
    holds: spec_fn(T) -> bool,
)
    requires
        forall|status: Result<u32, u32>| (#[trigger] rest(status)).ends_in(holds),
    ensures
        #[trigger] memory::call(op, rest).ends_in(holds),
{
    let next = memory::call(op, rest)->Request_1;
    assert forall|answer: Answer| (#[trigger] next(answer)).ends_in(holds) by {
        match answer {
            Answer::Status(status) => {
                assert(next(answer) == rest(status));
            },
            _ => {},
        }
    }
}

broadcast group group_steps {
    messages::lemma_act,
    messages::lemma_read,
    lemma_read_half,
    lemma_now,
    lemma_ask,
    lemma_call,
    program::lemma_ends_in_bind,
}

/// A port has not been taken if it was free, and is not being opened if it was not.
pub open spec fn eased_at(before: Service, after: Service) -> bool {
    &&& after.state != ServiceState::Free ==> before.state != ServiceState::Free
    &&& after.state == ServiceState::Opening ==> before.state == ServiceState::Opening
}

/// No free port has been taken, and nothing is being opened that was not.
pub open spec fn eased(before: Seq<Service>, after: Seq<Service>) -> bool {
    &&& after.len() == before.len()
    &&& forall|port: int|
        0 <= port < before.len() ==> eased_at(before[port], #[trigger] after[port])
}

/// That, of the ports but one.
pub open spec fn others_eased(before: Seq<Service>, after: Seq<Service>, but: int) -> bool {
    &&& after.len() == before.len()
    &&& forall|port: int|
        0 <= port < before.len() && port != but ==> eased_at(before[port], #[trigger] after[port])
}

/// If a service was told as closed, its port is free, unless it was being opened.
pub open spec fn freed(
    before: Seq<Service>,
    after: Seq<Service>,
    result: Result<Option<Event>, Error>,
) -> bool {
    result matches Ok(Some(Event::ServiceClosed(service))) ==> {
        &&& service.wf()
        &&& before[service.port() as int].state == ServiceState::Opening
            || after[service.port() as int].state == ServiceState::Free
    }
}

/// What polling leaves of the ports.
pub open spec fn polled(before: Seq<Service>) -> spec_fn(Heard) -> bool {
    |heard: Heard|
        {
            &&& eased(before, heard.0.services)
            &&& freed(before, heard.0.services, heard.2)
            &&& heard.2 != Err::<Option<Event>, Error>(Error::TooManyServices)
        }
}

proof fn lemma_act_on(link: Link, id: u32, size: u32, data: u32, room: usize)
    requires
        link.services.len() == MAX_SERVICES,
    ensures
        vchiq::act_program(link, id, size, data, room).ends_in(polled(link.services)),
{
    let holds = polled(link.services);
    let port = vchiq::destination_of(id);
    ServiceId::lemma_at(port);
    let closing = vchiq::in_state(link, port as int, ServiceState::Closed);
    let answer = vchiq::message_id(MSG_CLOSE, port as u32, vchiq::source_of(id) as u32);
    messages::lemma_send_keeps_ports(closing, answer, Seq::empty());
    program::lemma_reached(
        vchiq::send_program(closing, answer, Seq::empty()),
        messages::has_ports(closing.services),
    );
    broadcast use group_steps;

    assert(vchiq::act_program(link, id, size, data, room).ends_in(holds));
}

/// The ports of a transport are these.
pub open spec fn has_ports(services: Seq<Service>) -> spec_fn(Link) -> bool {
    |link: Link| link.services == services
}

proof fn lemma_slots(link: Link, size: u32)
    ensures
        vchiq::enter_program(link).ends_in(has_ports(link.services)),
        vchiq::advance_program(link, size).ends_in(has_ports(link.services)),
{
    let holds = has_ports(link.services);
    let moved = Link { rx_pos: link.rx_pos.wrapping_add(vchiq::stride_of(size)), ..link };
    assert(vchiq::release_program(moved, moved.rx_slot).ends_in(holds)) by {
        broadcast use group_steps;

    }
    program::lemma_reached(vchiq::release_program(moved, moved.rx_slot), holds);
    broadcast use group_steps;

    assert(vchiq::enter_program(link).ends_in(holds));
    assert(vchiq::advance_program(link, size).ends_in(holds));
}

proof fn lemma_message(link: Link, room: usize)
    requires
        link.services.len() == MAX_SERVICES,
    ensures
        vchiq::message_program(link, room).ends_in(polled(link.services)),
{
    let holds = polled(link.services);
    lemma_slots(link, 0);
    program::lemma_reached(vchiq::enter_program(link), has_ports(link.services));
    assert forall|entered: Link, id: u32, size: u32, data: u32|
        entered.services == link.services implies (#[trigger] vchiq::parse_program(
        entered,
        id,
        size,
        data,
        room,
    )).bind(|parsed: Heard| vchiq::past_program(parsed, size)).ends_in(holds) by {
        let part = vchiq::parse_program(entered, id, size, data, room);
        lemma_act_on(vchiq::received(entered), id, size, data, room);
        program::lemma_reached(part, holds);
        assert forall|parsed: Heard| #[trigger] part.reaches(parsed) implies vchiq::past_program(
            parsed,
            size,
        ).ends_in(holds) by {
            lemma_slots(parsed.0, size);
            program::lemma_reached(
                vchiq::advance_program(parsed.0, size),
                has_ports(parsed.0.services),
            );
            broadcast use group_steps;

            assert(vchiq::past_program(parsed, size).ends_in(holds));
        }
        broadcast use group_steps;

    }
    broadcast use group_steps;

    assert(vchiq::message_program(link, room).ends_in(holds));
}

proof fn lemma_listen(link: Link, room: usize, spins: nat)
    requires
        link.services.len() == MAX_SERVICES,
    ensures
        vchiq::listen_program(link, room, spins).ends_in(polled(link.services)),
    decreases spins,
{
    let holds = polled(link.services);
    let part = vchiq::message_program(link, room);
    lemma_message(link, room);
    program::lemma_reached(part, holds);
    if spins > 0 {
        let left = (spins - 1) as nat;
        assert forall|heard: Heard| #[trigger] part.reaches(heard) implies vchiq::listen_program(
            heard.0,
            room,
            left,
        ).ends_in(holds) by {
            lemma_listen(heard.0, room, left);
            program::lemma_ends_in_weaker(
                vchiq::listen_program(heard.0, room, left),
                polled(heard.0.services),
                holds,
            );
        }
    }
    broadcast use group_steps;

    assert(vchiq::listen_program(link, room, spins).ends_in(holds));
}

proof fn lemma_poll(link: Link, room: usize)
    requires
        link.services.len() == MAX_SERVICES,
    ensures
        vchiq::poll_program(link, room).ends_in(polled(link.services)),
{
    assert forall|recycle: u32|
        vchiq::listen_program(
            #[trigger] with_available(link, recycle),
            room,
            MAX_SPINS as nat,
        ).ends_in(polled(link.services)) by {
        lemma_listen(with_available(link, recycle), room, MAX_SPINS as nat);
    }
    let next = vchiq::poll_program(link, room)->Request_1;
    assert forall|answer: Answer| (#[trigger] next(answer)).ends_in(polled(link.services)) by {
        match answer {
            Answer::Word(recycle) => {
                assert(next(answer) == vchiq::listen_program(
                    with_available(link, recycle),
                    room,
                    MAX_SPINS as nat,
                ));
            },
            _ => {},
        }
    }
}

/// The transport with other slots to write to.
pub open spec fn with_available(link: Link, available: u32) -> Link {
    Link { available, ..link }
}

/// What opening a service on a port leaves of the ports: the port is in use if and only if
/// the service was opened.
pub open spec fn tried(before: Seq<Service>, port: u16) -> spec_fn(
    (Link, Result<ServiceId, Error>),
) -> bool {
    |asked: (Link, Result<ServiceId, Error>)|
        {
            let after = asked.0.services;
            &&& others_eased(before, after, port as int)
            &&& asked.1 != Err::<ServiceId, Error>(Error::TooManyServices)
            &&& after[port as int].state == (if asked.1 is Ok {
                ServiceState::Open
            } else {
                ServiceState::Free
            })
            &&& asked.1 matches Ok(service) ==> service == ServiceId::at(port)
        }
}

proof fn lemma_await_service(link: Link, port: u16, deadline: u64, spins: nat)
    requires
        link.services.len() == MAX_SERVICES,
        port < MAX_SERVICES,
    ensures
        vchiq::await_service(link, port, deadline, spins).ends_in(tried(link.services, port)),
    decreases spins,
{
    let holds = tried(link.services, port);
    let part = vchiq::poll_program(link, 0);
    lemma_poll(link, 0);
    program::lemma_reached(part, polled(link.services));
    if spins > 0 {
        let left = (spins - 1) as nat;
        assert forall|heard: Heard| #[trigger] part.reaches(heard) implies vchiq::await_service(
            heard.0,
            port,
            deadline,
            left,
        ).ends_in(holds) by {
            lemma_await_service(heard.0, port, deadline, left);
            program::lemma_ends_in_weaker(
                vchiq::await_service(heard.0, port, deadline, left),
                tried(heard.0.services, port),
                holds,
            );
        }
    }
    broadcast use group_steps;

    assert(vchiq::await_service(link, port, deadline, spins).ends_in(holds));
}

proof fn lemma_open(link: Link, port: u16, fourcc: Seq<u8>, version: u16, version_min: u16)
    requires
        link.services.len() == MAX_SERVICES,
        port < MAX_SERVICES,
    ensures
        vchiq::open_program(link, port, fourcc, version, version_min).ends_in(
            tried(link.services, port),
        ),
{
    let holds = tried(link.services, port);
    let program = vchiq::open_program(link, port, fourcc, version, version_min);
    let opening = vchiq::with_service(
        link,
        port as int,
        Service { state: ServiceState::Opening, remote_port: 0 },
    );
    let id = vchiq::message_id(MSG_OPEN, port as u32, 0);
    let data = vchiq::open_payload(fourcc, version, version_min);
    messages::lemma_send_keeps_ports(opening, id, data);
    program::lemma_reached(
        vchiq::send_program(opening, id, data),
        messages::has_ports(opening.services),
    );
    assert forall|asked: Link, deadline: u64|
        asked.services == opening.services implies (#[trigger] vchiq::await_service(
        asked,
        port,
        deadline,
        MAX_SPINS as nat,
    )).ends_in(holds) by {
        lemma_await_service(asked, port, deadline, MAX_SPINS as nat);
        program::lemma_ends_in_weaker(
            vchiq::await_service(asked, port, deadline, MAX_SPINS as nat),
            tried(opening.services, port),
            holds,
        );
    }
    broadcast use group_steps;

    assert(program.ends_in(holds));
}

/// What waiting for the firmware leaves of the ports.
pub open spec fn waited(before: Seq<Service>) -> spec_fn((Link, Result<(), Error>)) -> bool {
    |asked: (Link, Result<(), Error>)| eased(before, asked.0.services)
}

proof fn lemma_await_connection(link: Link, deadline: u64, spins: nat)
    requires
        link.services.len() == MAX_SERVICES,
    ensures
        vchiq::await_connection(link, deadline, spins).ends_in(waited(link.services)),
    decreases spins,
{
    let holds = waited(link.services);
    let part = vchiq::poll_program(link, 0);
    lemma_poll(link, 0);
    program::lemma_reached(part, polled(link.services));
    if spins > 0 {
        let left = (spins - 1) as nat;
        assert forall|heard: Heard| #[trigger] part.reaches(heard) implies vchiq::await_connection(
            heard.0,
            deadline,
            left,
        ).ends_in(holds) by {
            lemma_await_connection(heard.0, deadline, left);
            program::lemma_ends_in_weaker(
                vchiq::await_connection(heard.0, deadline, left),
                waited(heard.0.services),
                holds,
            );
        }
    }
    broadcast use group_steps;

    assert(vchiq::await_connection(link, deadline, spins).ends_in(holds));
}

proof fn lemma_connect(link: Link)
    requires
        link.services.len() == MAX_SERVICES,
    ensures
        vchiq::connect_program(link).ends_in(waited(link.services)),
{
    let holds = waited(link.services);
    let id = vchiq::message_id(MSG_CONNECT, 0, 0);
    messages::lemma_send_keeps_ports(link, id, Seq::empty());
    program::lemma_reached(
        vchiq::send_program(link, id, Seq::empty()),
        messages::has_ports(link.services),
    );
    assert forall|asked: Link, deadline: u64|
        asked.services == link.services implies (#[trigger] vchiq::await_connection(
        asked,
        deadline,
        MAX_SPINS as nat,
    )).ends_in(holds) by {
        lemma_await_connection(asked, deadline, MAX_SPINS as nat);
    }
    broadcast use group_steps;

    assert(vchiq::connect_program(link).ends_in(holds));
}

proof fn lemma_bulk(link: Link, port: u16, bulk: Bulk, receive: bool)
    ensures
        vchiq::bulk_program(link, port, bulk, receive).ends_in(
            |asked: (Link, Result<(), Error>)| asked.0.services == link.services,
        ),
{
    let holds = |asked: (Link, Result<(), Error>)| asked.0.services == link.services;
    let list = vchiq::list_address(link.base, receive, bulk.list as int);
    let id = vchiq::message_id(
        if receive {
            MSG_BULK_RX
        } else {
            MSG_BULK_TX
        },
        port as u32,
        link.services[port as int].remote_port as u32,
    );
    let data = bytes::le32_bytes(vchiq::bus_of(list)) + bytes::le32_bytes(bulk.len as u32);
    messages::lemma_send_keeps_ports(link, id, data);
    program::lemma_reached(
        vchiq::send_program(link, id, data),
        messages::has_ports(link.services),
    );
    broadcast use group_steps;

    assert(vchiq::bulk_program(link, port, bulk, receive).ends_in(holds));
}

/// Every port is free.
pub open spec fn idle(link: Link) -> bool {
    &&& link.services.len() == MAX_SERVICES
    &&& forall|port: int|
        0 <= port < MAX_SERVICES ==> (#[trigger] link.services[port]).state == ServiceState::Free
}

/// Every port of a transport that has just been brought up is free.
pub proof fn law_new_is_idle()
    ensures
        vchiq::new_program().ends_in(
            |result: Result<Link, Error>| result matches Ok(link) ==> idle(link),
        ),
{
    let holds = |result: Result<Link, Error>| result matches Ok(link) ==> idle(link);
    assert forall|link: Link, deadline: u64|
        idle(link) implies (#[trigger] vchiq::await_firmware(
        link,
        deadline,
        MAX_SPINS as nat,
    )).ends_in(holds) by {
        lemma_await_firmware(link, deadline, MAX_SPINS as nat);
    }
    broadcast use group_steps;

    assert(vchiq::new_program().ends_in(holds));
}

proof fn lemma_await_firmware(link: Link, deadline: u64, spins: nat)
    requires
        idle(link),
    ensures
        vchiq::await_firmware(link, deadline, spins).ends_in(
            |result: Result<Link, Error>| result matches Ok(link) ==> idle(link),
        ),
    decreases spins,
{
    let holds = |result: Result<Link, Error>| result matches Ok(link) ==> idle(link);
    if spins > 0 {
        lemma_await_firmware(link, deadline, (spins - 1) as nat);
    }
    broadcast use group_steps;

    assert(vchiq::await_firmware(link, deadline, spins).ends_in(holds));
}

/// Something that was asked of the transport, with what came of it.
pub enum Call {
    Connect { result: Result<(), Error> },
    Open { fourcc: Seq<u8>, version: u16, version_min: u16, result: Result<ServiceId, Error> },
    Close { service: ServiceId, result: Result<(), Error> },
    Poll { room: usize, data: Seq<u8>, result: Result<Option<Event>, Error> },
    Send { service: ServiceId, data: Seq<u8>, result: Result<(), Error> },
    Bulk { service: ServiceId, bulk: Bulk, receive: bool, result: Result<(), Error> },
}

/// No port is free.
pub open spec fn full(link: Link) -> bool {
    forall|port: int|
        0 <= port < MAX_SERVICES ==> #[trigger] link.services[port].state != ServiceState::Free
}

/// A call took the transport from `before` to `after`, and its history from `start` to `end`.
pub open spec fn called(
    call: Call,
    before: Link,
    after: Link,
    start: ShmHistory,
    end: ShmHistory,
) -> bool {
    match call {
        Call::Connect { result } => vchiq::connect_program(before).ran(start, end, (after, result)),
        Call::Open { fourcc, version, version_min, result } => if !before.connected {
            result == Err::<ServiceId, Error>(Error::NotConnected) && after == before
        } else if full(before) {
            result == Err::<ServiceId, Error>(Error::TooManyServices) && after == before
        } else {
            asked_for(call, before, after, start, end)
        },
        Call::Close { service, result } => service.wf() && vchiq::close_program(
            before,
            service.port(),
        ).ran(start, end, (after, result)),
        Call::Poll { room, data, result } => vchiq::poll_program(before, room).ran(
            start,
            end,
            (after, data, result),
        ),
        Call::Send { service, data, result } => if before.services[service.port() as int].state
            != ServiceState::Open {
            result == Err::<(), Error>(Error::NotConnected) && after == before
        } else if data.len() > MAX_MESSAGE_SIZE {
            result == Err::<(), Error>(Error::MessageTooLong) && after == before
        } else {
            vchiq::send_program(
                before,
                vchiq::message_id(
                    MSG_DATA,
                    service.port() as u32,
                    before.services[service.port() as int].remote_port as u32,
                ),
                data,
            ).ran(start, end, (after, result))
        },
        Call::Bulk { service, bulk, receive, result } => memory::act(
            if receive {
                Op::CleanInvalidate(bulk.address, bulk.len)
            } else {
                Op::Clean(bulk.address, bulk.len)
            },
            vchiq::bulk_program(before, service.port(), bulk, receive),
        ).ran(start, end, (after, result)),
    }
}

/// A service was asked for on the lowest free port, and its answer awaited.
pub open spec fn asked_for(
    call: Call,
    before: Link,
    after: Link,
    start: ShmHistory,
    end: ShmHistory,
) -> bool {
    call matches Call::Open { fourcc, version, version_min, result } && exists|port: u16|
        vchiq::lowest_free(before.services, port as int) && #[trigger] vchiq::open_program(
            before,
            port,
            fourcc,
            version,
            version_min,
        ).ran(start, end, (after, result))
}

/// The ports in use after some calls: those of the services that were opened, and that have
/// not been told as closed since.
pub open spec fn in_use(calls: Seq<Call>) -> Set<u16>
    decreases calls.len(),
{
    if calls.len() == 0 {
        Set::empty()
    } else {
        let before = in_use(calls.drop_last());
        match calls.last() {
            Call::Open { result: Ok(service), .. } => before.insert(service.port()),
            Call::Poll { result: Ok(Some(Event::ServiceClosed(service))), .. } => before.remove(
                service.port(),
            ),
            _ => before,
        }
    }
}

/// Calls that were made in turn: `links` and `histories` are the transport and its history
/// before each of them, and after the last.
pub open spec fn in_turn(
    calls: Seq<Call>,
    links: Seq<Link>,
    histories: Seq<ShmHistory>,
) -> bool {
    &&& links.len() == calls.len() + 1
    &&& histories.len() == calls.len() + 1
    &&& forall|i: int|
        0 <= i < calls.len() ==> called(
            #[trigger] calls[i],
            links[i],
            links[i + 1],
            histories[i],
            histories[i + 1],
        )
}

/// Every port that is not free is in use, and none is being opened.
pub open spec fn settled(services: Seq<Service>, used: Set<u16>) -> bool {
    &&& services.len() == MAX_SERVICES
    &&& forall|port: int|
        0 <= port < MAX_SERVICES ==> {
            &&& (#[trigger] services[port]).state != ServiceState::Opening
            &&& services[port].state != ServiceState::Free ==> used.contains(port as u16)
        }
}

/// A call leaves it so; and for want of a port it fails only if none is free.
proof fn lemma_call_settles(
    calls: Seq<Call>,
    before: Link,
    after: Link,
    start: ShmHistory,
    end: ShmHistory,
)
    requires
        calls.len() > 0,
        settled(before.services, in_use(calls.drop_last())),
        called(calls.last(), before, after, start, end),
    ensures
        settled(after.services, in_use(calls)),
        calls.last() matches Call::Open { result, .. } ==> (result == Err::<ServiceId, Error>(
            Error::TooManyServices,
        ) ==> full(before)),
{
    match calls.last() {
        Call::Connect { result } => {
            lemma_connect(before);
            program::law_ends_in(
                vchiq::connect_program(before),
                waited(before.services),
                start,
                end,
                (after, result),
            );
        },
        Call::Open { fourcc, version, version_min, result } => {
            if before.connected && !full(before) {
                let port = choose|port: u16|
                    vchiq::lowest_free(before.services, port as int)
                        && #[trigger] vchiq::open_program(
                        before,
                        port,
                        fourcc,
                        version,
                        version_min,
                    ).ran(start, end, (after, result));
                ServiceId::lemma_at(port);
                lemma_open(before, port, fourcc, version, version_min);
                program::law_ends_in(
                    vchiq::open_program(before, port, fourcc, version, version_min),
                    tried(before.services, port),
                    start,
                    end,
                    (after, result),
                );
            }
        },
        Call::Close { service, result } => {
            let closing = vchiq::closing(before, service.port());
            let id = vchiq::message_id(
                MSG_CLOSE,
                service.port() as u32,
                before.services[service.port() as int].remote_port as u32,
            );
            messages::lemma_send_keeps_ports(closing, id, Seq::empty());
            program::law_ends_in(
                vchiq::close_program(before, service.port()),
                messages::has_ports(closing.services),
                start,
                end,
                (after, result),
            );
        },
        Call::Poll { room, data, result } => {
            lemma_poll(before, room);
            program::law_ends_in(
                vchiq::poll_program(before, room),
                polled(before.services),
                start,
                end,
                (after, data, result),
            );
        },
        Call::Send { service, data, result } => {
            if before.services[service.port() as int].state == ServiceState::Open && data.len()
                <= MAX_MESSAGE_SIZE {
                let id = vchiq::message_id(
                    MSG_DATA,
                    service.port() as u32,
                    before.services[service.port() as int].remote_port as u32,
                );
                messages::lemma_send_keeps_ports(before, id, data);
                program::law_ends_in(
                    vchiq::send_program(before, id, data),
                    messages::has_ports(before.services),
                    start,
                    end,
                    (after, result),
                );
            }
        },
        Call::Bulk { service, bulk, receive, result } => {
            let op = if receive {
                Op::CleanInvalidate(bulk.address, bulk.len)
            } else {
                Op::Clean(bulk.address, bulk.len)
            };
            let program = vchiq::bulk_program(before, service.port(), bulk, receive);
            let kept = |asked: (Link, Result<(), Error>)| asked.0.services == before.services;
            lemma_bulk(before, service.port(), bulk, receive);
            program::law_ends_in(memory::act(op, program), kept, start, end, (after, result));
        },
    }
}

/// So it is after any calls.
proof fn lemma_settled(calls: Seq<Call>, links: Seq<Link>, histories: Seq<ShmHistory>)
    requires
        in_turn(calls, links, histories),
        idle(links[0]),
    ensures
        settled(links.last().services, in_use(calls)),
    decreases calls.len(),
{
    if calls.len() > 0 {
        let earlier = calls.drop_last();
        assert(forall|i: int| 0 <= i < earlier.len() ==> #[trigger] earlier[i] == calls[i]);
        lemma_settled(earlier, links.drop_last(), histories.drop_last());
        let i = calls.len() - 1;
        assert(calls[i] == calls.last());
        lemma_call_settles(calls, links[i], links[i + 1], histories[i], histories[i + 1]);
    }
}

/// There can be as many services at once as there are ports, and not only that many ever:
/// whatever has been asked of the transport before, opening a service fails with
/// [`Error::TooManyServices`] only if at each port there is a service that was opened and
/// has not been told as closed. Whatever was closed, by either side, and has been told of
/// has made room again.
/// As long as some port is not in use, the service is asked for on a free port.
pub proof fn law_as_many_at_once(calls: Seq<Call>, links: Seq<Link>, histories: Seq<ShmHistory>)
    requires
        in_turn(calls, links, histories),
        idle(links[0]),
        calls.len() > 0,
        calls.last() is Open,
    ensures
        calls.last()->Open_result == Err::<ServiceId, Error>(Error::TooManyServices)
            ==> forall|port: u16|
            port < MAX_SERVICES ==> #[trigger] in_use(calls.drop_last()).contains(port),
        links[calls.len() - 1].connected && (exists|port: u16|
            port < MAX_SERVICES && !#[trigger] in_use(calls.drop_last()).contains(port))
            ==> asked_for(
            calls.last(),
            links[calls.len() - 1],
            links[calls.len() as int],
            histories[calls.len() - 1],
            histories[calls.len() as int],
        ),
{
    let earlier = calls.drop_last();
    let i = calls.len() - 1;
    assert(forall|i: int| 0 <= i < earlier.len() ==> #[trigger] earlier[i] == calls[i]);
    lemma_settled(earlier, links.drop_last(), histories.drop_last());
    assert(calls[i] == calls.last());
    lemma_call_settles(calls, links[i], links[i + 1], histories[i], histories[i + 1]);
    if full(links[i]) {
        assert forall|port: u16| port < MAX_SERVICES implies #[trigger] in_use(earlier).contains(
            port,
        ) by {
            assert(links[i].services[port as int].state != ServiceState::Free);
        }
    }
}

/// A service whose opening the firmware acknowledges while it is waited for is open: what
/// has been heard opens its port, and the wait is over.
pub proof fn law_acknowledged_service_is_open(
    link: Link,
    port: u16,
    id: u32,
    size: u32,
    data: u32,
    room: usize,
    deadline: u64,
    spins: nat,
)
    requires
        link.services.len() == MAX_SERVICES,
        port < MAX_SERVICES,
        link.services[port as int].state == ServiceState::Opening,
        vchiq::kind_of(id) == MSG_OPENACK,
        vchiq::destination_of(id) == port,
    ensures
        vchiq::act_program(link, id, size, data, room).ends_in(
            |heard: Heard|
                {
                    &&& heard.2 == Ok::<Option<Event>, Error>(
                        Some(Event::ServiceOpened(ServiceId::at(port))),
                    )
                    &&& heard.0.services[port as int] == (Service {
                        state: ServiceState::Open,
                        remote_port: vchiq::source_of(id),
                    })
                    &&& vchiq::await_service(heard.0, port, deadline, spins) == ShmProgram::<
                        (Link, Result<ServiceId, Error>),
                    >::Return((heard.0, Ok(ServiceId::at(port))))
                },
        ),
{
}

} // verus!

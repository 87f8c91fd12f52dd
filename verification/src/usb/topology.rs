//! What the bus keeps track of: a tree of hubs under the root hub, in which every
//! address that is taken belongs to a device, and every hub to a port.
//!
//! Neither an address nor a hub is ever lost: when a device goes, its address is free
//! again, and so are the addresses of all devices behind it.

use vstd::prelude::*;

use crate::program;
use crate::usb::bus;
use crate::usb::bus::{
    BusState, Enumerated, HubEntry, Walked, MAX_ADDRESS, MAX_HUBS, MAX_HUB_DEPTH, MAX_PORTS,
    PORT_FAILED,
};
use crate::usb::descriptor::DeviceDescriptor;
use crate::usb::dwc2::{ControlEndpoint, TransferError};
use crate::usb::hub::{Hub, PortStatus};
use crate::usb::session;
use crate::usb::session::{BusAnswer, BusOp, BusProgram};
use crate::usb::EnumerationError;

verus! {

/// The address of the root hub.
pub const ROOT_ADDRESS: u8 = 1;

/// The hubs that are kept track of.
pub type Hubs = Seq<Option<HubEntry>>;

/// Some port has the device with this address.
pub open spec fn located(hubs: Hubs, address: u8) -> bool {
    exists|i: int, p: int|
        bus::is_place(i, p) && #[trigger] bus::device_at(hubs, i, p) == address
}

/// The address of a hub.
pub open spec fn address_at(hubs: Hubs, i: int) -> u8 {
    hubs[i]->0.hub.endpoint.address
}

/// The place of a hub.
pub open spec fn is_hub(hubs: Hubs, i: int) -> bool {
    0 <= i < MAX_HUBS && hubs[i] is Some
}

/// A hub is as deep as the place that its device is found at says.
pub open spec fn fits(hubs: Hubs, i: int, p: int, j: int) -> bool {
    bus::is_address(bus::device_at(hubs, i, p)) && bus::device_at(hubs, i, p) == address_at(
        hubs,
        j,
    ) ==> hubs[j]->0.depth == hubs[i]->0.depth + 1
}

/// Every address that is taken is that of the root hub, or of a device at some port,
/// or one of those that are about to go; and so is the address of every hub. No two
/// hubs share an address.
pub open spec fn accounted(bus: BusState, going: Set<u8>) -> bool {
    &&& bus.wf()
    &&& forall|a: int| #[trigger]
        bus.addresses.contains(a) ==> 1 <= a <= MAX_ADDRESS && (a == ROOT_ADDRESS
            || going.contains(a as u8) || located(bus.hubs, a as u8))
    &&& forall|a: u8| #[trigger]
        going.contains(a) ==> bus::is_address(a) && a != ROOT_ADDRESS && bus.addresses.contains(
            a as int,
        ) && !located(bus.hubs, a)
    &&& !located(bus.hubs, ROOT_ADDRESS)
    &&& forall|j: int| #[trigger]
        is_hub(bus.hubs, j) ==> bus.addresses.contains(ROOT_ADDRESS as int) && (address_at(
            bus.hubs,
            j,
        ) == ROOT_ADDRESS || going.contains(address_at(bus.hubs, j)) || (bus::is_address(
            address_at(bus.hubs, j),
        ) && located(bus.hubs, address_at(bus.hubs, j))))
    &&& forall|j: int, k: int| #[trigger]
        is_hub(bus.hubs, j) && #[trigger] is_hub(bus.hubs, k) && address_at(bus.hubs, j)
            == address_at(bus.hubs, k) ==> j == k
    &&& forall|i: int, p: int, j: int|
        #![trigger bus::device_at(bus.hubs, i, p), is_hub(bus.hubs, j)]
        bus::is_place(i, p) && is_hub(bus.hubs, j) ==> fits(bus.hubs, i, p, j)
}

/// Nothing is about to go.
pub open spec fn tidy(bus: BusState) -> bool {
    accounted(bus, Set::empty())
}

/// Hubs may have gone, but none has changed.
pub open spec fn shrunk(now: Hubs, before: Hubs) -> bool {
    &&& now.len() == before.len()
    &&& forall|i: int| 0 <= i < now.len() ==> (#[trigger] now[i]) is None || now[i] == before[i]
}

/// No hub has this address.
pub open spec fn no_hub(hubs: Hubs, address: u8) -> bool {
    forall|j: int| #[trigger] is_hub(hubs, j) ==> address_at(hubs, j) != address
}

/// Whatever hub has this address is high enough for so many levels to reach the
/// bottom of the tree.
pub open spec fn reachable(hubs: Hubs, address: u8, levels: nat) -> bool {
    forall|j: int| #[trigger]
        is_hub(hubs, j) && address_at(hubs, j) == address ==> hubs[j]->0.depth + levels
            > MAX_HUB_DEPTH
}

/// A device and everything behind it is gone, but for its address.
pub open spec fn forgotten(now: BusState, before: BusState, address: u8, going: Set<u8>) -> bool {
    &&& accounted(now, going)
    &&& shrunk(now.hubs, before.hubs)
    &&& no_hub(now.hubs, address)
}

/// The addresses at the ports of a hub from a place on.
pub open spec fn among(ports: Seq<u8>, at: int, address: u8) -> bool {
    bus::is_address(address) && exists|q: int|
        at <= q < MAX_PORTS && #[trigger] ports[q] == address
}

/// What is about to go, without the devices at the ports from a place on.
pub open spec fn less(going: Set<u8>, ports: Seq<u8>, at: int) -> Set<u8> {
    Set::new(|a: u8| going.contains(a) && !among(ports, at, a))
}

/// The devices at the ports from a place on are gone, with everything behind them.
pub open spec fn all_forgotten(
    now: BusState,
    before: BusState,
    ports: Seq<u8>,
    at: int,
    going: Set<u8>,
) -> bool {
    &&& accounted(now, less(going, ports, at))
    &&& shrunk(now.hubs, before.hubs)
}

/// What it takes for the devices at the ports from a place on to be forgotten.
pub open spec fn ready(
    bus: BusState,
    ports: Seq<u8>,
    at: int,
    going: Set<u8>,
    levels: nat,
) -> bool {
    &&& accounted(bus, going)
    &&& 0 <= at <= MAX_PORTS
    &&& ports.len() == MAX_PORTS
    &&& forall|q: int|
        at <= q < MAX_PORTS && bus::is_address(#[trigger] ports[q]) ==> going.contains(ports[q])
            && reachable(bus.hubs, ports[q], levels)
    &&& forall|q: int, r: int|
        at <= q < MAX_PORTS && at <= r < MAX_PORTS && bus::is_address(#[trigger] ports[q])
            && ports[q] == #[trigger] ports[r] ==> q == r
}

/// What is returned after a step that is answered by yes or no.
broadcast proof fn lemma_ask<T>(op: BusOp, rest: spec_fn(bool) -> BusProgram<T>, holds: spec_fn(T) -> bool)
    requires
        rest(true).ends_in(holds),
        rest(false).ends_in(holds),
    ensures
        #[trigger] session::ask(op, rest).ends_in(holds),
{
    let next = session::ask(op, rest)->Request_1;
    assert forall|answer: BusAnswer| (#[trigger] next(answer)).ends_in(holds) by {
        match answer {
            BusAnswer::Flag(flag) => {
                assert(next(answer) == rest(flag));
            },
            _ => {},
        }
    }
}

/// What is returned after a step without an answer.
broadcast proof fn lemma_act<T>(op: BusOp, rest: BusProgram<T>, holds: spec_fn(T) -> bool)
    requires
        rest.ends_in(holds),
    ensures
        #[trigger] session::act(op, rest).ends_in(holds),
{
}

/// What is returned after a look at a port, or a reset.
broadcast proof fn lemma_port_step<T>(
    op: BusOp,
    rest: spec_fn(Result<PortStatus, EnumerationError>) -> BusProgram<T>,
    holds: spec_fn(T) -> bool,
)
    requires
        forall|status: Result<PortStatus, EnumerationError>|
            (#[trigger] rest(status)).ends_in(holds),
    ensures
        #[trigger] session::port_step(op, rest).ends_in(holds),
{
    let next = session::port_step(op, rest)->Request_1;
    assert forall|answer: BusAnswer| (#[trigger] next(answer)).ends_in(holds) by {
        match answer {
            BusAnswer::Status(status) => {
                assert(next(answer) == rest(status));
            },
            _ => {},
        }
    }
}

/// What is returned after a look at the root port's speed.
broadcast proof fn lemma_root_speed<T>(
    rest: spec_fn(u8) -> BusProgram<T>,
    holds: spec_fn(T) -> bool,
)
    requires
        forall|speed: u8| (#[trigger] rest(speed)).ends_in(holds),
    ensures
        #[trigger] session::root_speed(rest).ends_in(holds),
{
    let next = session::root_speed(rest)->Request_1;
    assert forall|answer: BusAnswer| (#[trigger] next(answer)).ends_in(holds) by {
        match answer {
            BusAnswer::Speed(speed) => {
                assert(next(answer) == rest(speed));
            },
            _ => {},
        }
    }
}

/// What is returned after a device was given an address.
broadcast proof fn lemma_probe<T>(
    endpoint: ControlEndpoint,
    address: u8,
    rest: spec_fn(Result<(ControlEndpoint, DeviceDescriptor), TransferError>) -> BusProgram<T>,
    holds: spec_fn(T) -> bool,
)
    requires
        forall|probed: Result<(ControlEndpoint, DeviceDescriptor), TransferError>|
            (probed matches Ok(found) ==> found.0.address == address) ==> (#[trigger] rest(
                probed,
            )).ends_in(holds),
    ensures
        #[trigger] session::probe(endpoint, address, rest).ends_in(holds),
{
    let next = session::probe(endpoint, address, rest)->Request_1;
    assert forall|answer: BusAnswer| (#[trigger] next(answer)).ends_in(holds) by {
        match answer {
            BusAnswer::Probed(probed) => {
                if !(probed is Ok && probed->Ok_0.0.address != address) {
                    assert(next(answer) == rest(probed));
                }
            },
            _ => {},
        }
    }
}

/// What is returned after a hub was configured.
broadcast proof fn lemma_configure<T>(
    endpoint: ControlEndpoint,
    high_speed: bool,
    rest: spec_fn(Result<Hub, EnumerationError>) -> BusProgram<T>,
    holds: spec_fn(T) -> bool,
)
    requires
        forall|configured: Result<Hub, EnumerationError>|
            (configured matches Ok(hub) ==> hub.endpoint == endpoint) ==> (#[trigger] rest(
                configured,
            )).ends_in(holds),
    ensures
        #[trigger] session::configure(endpoint, high_speed, rest).ends_in(holds),
{
    let next = session::configure(endpoint, high_speed, rest)->Request_1;
    assert forall|answer: BusAnswer| (#[trigger] next(answer)).ends_in(holds) by {
        match answer {
            BusAnswer::Configured(configured) => {
                if !(configured is Ok && configured->Ok_0.endpoint != endpoint) {
                    assert(next(answer) == rest(configured));
                }
            },
            _ => {},
        }
    }
}

broadcast group group_steps {
    lemma_ask,
    lemma_act,
    lemma_port_step,
    lemma_root_speed,
    lemma_probe,
    lemma_configure,
    program::lemma_ends_in_bind,
}

/// An address that is about to go, and that no hub has, is released.
pub(crate) proof fn lemma_release(bus: BusState, address: u8, going: Set<u8>)
    requires
        accounted(bus, going),
        going.contains(address),
        no_hub(bus.hubs, address),
    ensures
        accounted(bus.releasing(address), going.remove(address)),
{
    let after = bus.releasing(address);
    assert forall|i: int, p: int|
        bus::is_place(i, p) && bus::is_address(
            #[trigger] bus::device_at(after.hubs, i, p),
        ) implies after.addresses.contains(bus::device_at(after.hubs, i, p) as int) by {
        assert(located(bus.hubs, bus::device_at(bus.hubs, i, p)));
    }
    assert(!going.contains(ROOT_ADDRESS));
}

/// What is about to go, with the devices at the ports of a hub.
pub open spec fn more(going: Set<u8>, ports: Seq<u8>) -> Set<u8> {
    Set::new(|a: u8| going.contains(a) || among(ports, 0, a))
}

/// A hub goes, and the devices at its ports with it.
pub(crate) proof fn lemma_hub_goes(bus: BusState, index: int, going: Set<u8>, levels: nat)
    requires
        accounted(bus, going),
        is_hub(bus.hubs, index),
        going.contains(address_at(bus.hubs, index)),
        bus.hubs[index]->0.depth + levels > MAX_HUB_DEPTH,
        levels > 0,
    ensures
        ready(
            BusState { hubs: bus.hubs.update(index, None), ..bus },
            bus.hubs[index]->0.ports,
            0,
            more(going, bus.hubs[index]->0.ports),
            (levels - 1) as nat,
        ),
        no_hub(bus.hubs.update(index, None), address_at(bus.hubs, index)),
        less(more(going, bus.hubs[index]->0.ports), bus.hubs[index]->0.ports, 0) == going,
{
    let entry = bus.hubs[index]->0;
    let ports = entry.ports;
    let hubs = bus.hubs.update(index, None);
    let after = BusState { hubs, ..bus };
    let wide = more(going, ports);
    assert forall|i: int, p: int| bus::is_place(i, p) implies #[trigger] bus::device_at(hubs, i, p)
        == if i == index {
        0
    } else {
        bus::device_at(bus.hubs, i, p)
    } by {}
    assert forall|j: int| #[trigger] is_hub(hubs, j) implies is_hub(bus.hubs, j) && j != index
        && hubs[j] == bus.hubs[j] by {}
    assert forall|q: int| 0 <= q < MAX_PORTS implies #[trigger] ports[q] == bus::device_at(
        bus.hubs,
        index,
        q,
    ) by {}
    assert forall|a: u8| #[trigger] located(bus.hubs, a) && bus::is_address(a) implies located(
        hubs,
        a,
    ) || among(ports, 0, a) by {
        let (i, p) = choose|i: int, p: int|
            bus::is_place(i, p) && #[trigger] bus::device_at(bus.hubs, i, p) == a;
        if i == index {
            assert(ports[p] == a);
        } else {
            assert(bus::device_at(hubs, i, p) == a);
        }
    }
    assert forall|a: u8| bus::is_address(a) && #[trigger] located(hubs, a) implies located(
        bus.hubs,
        a,
    ) && !among(ports, 0, a) by {
        let (i, p) = choose|i: int, p: int|
            bus::is_place(i, p) && #[trigger] bus::device_at(hubs, i, p) == a;
        assert(bus::device_at(bus.hubs, i, p) == a);
        if among(ports, 0, a) {
            let q = choose|q: int| 0 <= q < MAX_PORTS && #[trigger] ports[q] == a;
            assert(bus::device_at(bus.hubs, index, q) == a);
        }
    }
    assert forall|a: u8| #[trigger] among(ports, 0, a) implies bus.addresses.contains(a as int)
        && a != ROOT_ADDRESS && located(bus.hubs, a) by {
        let q = choose|q: int| 0 <= q < MAX_PORTS && #[trigger] ports[q] == a;
        assert(bus::is_place(index, q));
        assert(bus::device_at(bus.hubs, index, q) == a);
    }
    assert(bus::distinct(hubs));
    assert forall|a: int| #[trigger] after.addresses.contains(a) implies 1 <= a <= MAX_ADDRESS && (
    a == ROOT_ADDRESS || wide.contains(a as u8) || located(hubs, a as u8)) by {
        assert(bus.addresses.contains(a));
        if located(bus.hubs, a as u8) {
            assert(bus::is_address(a as u8));
        }
    }
    assert(accounted(after, wide));
    assert forall|q: int|
        0 <= q < MAX_PORTS && bus::is_address(#[trigger] ports[q]) implies wide.contains(ports[q])
        && reachable(hubs, ports[q], (levels - 1) as nat) by {
        assert(among(ports, 0, ports[q]));
        assert forall|j: int| #[trigger] is_hub(hubs, j) && address_at(hubs, j)
            == ports[q] implies hubs[j]->0.depth + (levels - 1) > MAX_HUB_DEPTH by {
            assert(is_hub(bus.hubs, j));
            assert(bus::device_at(bus.hubs, index, q) == ports[q]);
            assert(fits(bus.hubs, index, q, j));
        }
    }
    assert forall|q: int, r: int|
        0 <= q < MAX_PORTS && 0 <= r < MAX_PORTS && bus::is_address(#[trigger] ports[q])
            && ports[q] == #[trigger] ports[r] implies q == r by {
        assert(bus::device_at(bus.hubs, index, q) == bus::device_at(bus.hubs, index, r));
    }
    assert(less(wide, ports, 0) =~= going) by {
        assert forall|a: u8| going.contains(a) implies !#[trigger] among(ports, 0, a) by {}
    }
}

pub(crate) proof fn lemma_place_of(hubs: Hubs, address: u8, from: int)
    requires
        hubs.len() == MAX_HUBS,
        0 <= from <= hubs.len(),
    ensures
        match bus::place_of(hubs, address, from) {
            Some(index) => is_hub(hubs, index) && address_at(hubs, index) == address,
            None => forall|j: int| from <= j && #[trigger] is_hub(hubs, j) ==> address_at(hubs, j)
                != address,
        },
    decreases hubs.len() - from,
{
    if from < hubs.len() && !(hubs[from] is Some && address_at(hubs, from) == address) {
        lemma_place_of(hubs, address, from + 1);
    }
}

pub(crate) proof fn lemma_forget(bus: BusState, address: u8, levels: nat, going: Set<u8>)
    requires
        accounted(bus, going),
        going.contains(address),
        reachable(bus.hubs, address, levels),
    ensures
        bus::forget_program(bus, address, levels).ends_in(
            |walked: Walked| forgotten(walked.0, bus, address, going),
        ),
    decreases levels, 0nat, 0int, 0nat,
{
    let holds = |walked: Walked| forgotten(walked.0, bus, address, going);
    lemma_place_of(bus.hubs, address, 0);
    match bus::place_of(bus.hubs, address, 0) {
        None => {
            assert(holds((bus, false)));
        },
        Some(index) => {
            if levels == 0 {
                assert(entry_fits(bus, index));
            } else {
                let ports = bus.hubs[index]->0.ports;
                let after = BusState { hubs: bus.hubs.update(index, None), ..bus };
                let wide = more(going, ports);
                let lower = (levels - 1) as nat;
                lemma_hub_goes(bus, index, going, levels);
                lemma_forget_ports(after, address, ports, 0, false, lower, wide);
                let strong = |walked: Walked| all_forgotten(walked.0, after, ports, 0, wide);
                assert forall|walked: Walked| #[trigger] strong(walked) implies holds(walked) by {
                    assert forall|j: int| #[trigger] is_hub(walked.0.hubs, j) implies is_hub(
                        after.hubs,
                        j,
                    ) && walked.0.hubs[j] == after.hubs[j] by {}
                }
                program::lemma_ends_in_weaker(
                    bus::forget_ports_program(after, address, ports, 0, false, lower),
                    strong,
                    holds,
                );
            }
        },
    }
}

/// A hub is not too deep.
pub open spec fn entry_fits(bus: BusState, index: int) -> bool {
    bus::entry_wf(bus.hubs[index])
}

pub(crate) proof fn lemma_forget_ports(
    bus: BusState,
    address: u8,
    ports: Seq<u8>,
    at: int,
    stop: bool,
    levels: nat,
    going: Set<u8>,
)
    requires
        ready(bus, ports, at, going, levels),
    ensures
        bus::forget_ports_program(bus, address, ports, at, stop, levels).ends_in(
            |walked: Walked| all_forgotten(walked.0, bus, ports, at, going),
        ),
    decreases levels, 1nat, MAX_PORTS - at, 1nat,
{
    let holds = |walked: Walked| all_forgotten(walked.0, bus, ports, at, going);
    let program = bus::forget_ports_program(bus, address, ports, at, stop, levels);
    if at >= MAX_PORTS {
        assert(less(going, ports, at) =~= going);
        assert(holds((bus, stop)));
    } else if ports[at] == 0 || ports[at] == PORT_FAILED {
        assert(less(going, ports, at) =~= less(going, ports, at + 1)) by {
            assert forall|a: u8| among(ports, at, a) == #[trigger] among(ports, at + 1, a) by {
                if among(ports, at, a) {
                    let q = choose|q: int| at <= q < MAX_PORTS && #[trigger] ports[q] == a;
                    assert(ports[q] == a && q != at);
                }
                if among(ports, at + 1, a) {
                    let q = choose|q: int| at + 1 <= q < MAX_PORTS && #[trigger] ports[q] == a;
                    assert(ports[q] == a);
                }
            }
        }
        lemma_forget_ports(bus, address, ports, at + 1, stop, levels, going);
        program::lemma_ends_in_weaker(
            bus::forget_ports_program(bus, address, ports, at + 1, stop, levels),
            |walked: Walked| all_forgotten(walked.0, bus, ports, at + 1, going),
            holds,
        );
    } else {
        let gone = ports[at];
        lemma_forget(bus, gone, levels, going);
        let part = bus::forget_program(bus, gone, levels);
        program::lemma_reached(part, |walked: Walked| forgotten(walked.0, bus, gone, going));
        assert forall|walked: Walked| #[trigger] part.reaches(walked) implies after_port(
            walked,
            address,
            ports,
            at,
            stop,
            true,
            levels,
        ).ends_in(holds) && after_port(
            walked,
            address,
            ports,
            at,
            stop,
            false,
            levels,
        ).ends_in(holds) by {
            lemma_port_gone(bus, walked, address, ports, at, stop, true, levels, going);
            lemma_port_gone(bus, walked, address, ports, at, stop, false, levels, going);
        }
        broadcast use {program::lemma_ends_in_bind, lemma_ask};

        assert(program.ends_in(holds));
    }
}

/// What is left once the device at a port is gone.
pub open spec fn after_port(
    walked: Walked,
    address: u8,
    ports: Seq<u8>,
    at: int,
    stop: bool,
    more: bool,
    levels: nat,
) -> BusProgram<Walked> {
    bus::forget_ports_program(
        walked.0.releasing(ports[at]),
        address,
        ports,
        at + 1,
        stop || walked.1 || more,
        levels,
    )
}

/// Once the device at a port is gone, it is the next port's turn.
pub(crate) proof fn lemma_next_port(
    bus: BusState,
    walked: BusState,
    ports: Seq<u8>,
    at: int,
    levels: nat,
    going: Set<u8>,
)
    requires
        at < MAX_PORTS,
        ready(bus, ports, at, going, levels),
        bus::is_address(ports[at]),
        forgotten(walked, bus, ports[at], going),
    ensures
        ready(walked.releasing(ports[at]), ports, at + 1, going.remove(ports[at]), levels),
{
    let gone = ports[at];
    let now = walked.releasing(gone);
    let left = going.remove(gone);
    lemma_release(walked, gone, going);
    assert forall|q: int|
        at + 1 <= q < MAX_PORTS && bus::is_address(#[trigger] ports[q]) implies left.contains(
        ports[q],
    ) && reachable(now.hubs, ports[q], levels) by {
        assert(going.contains(ports[q]));
        assert(ports[q] != ports[at]);
        assert(reachable(bus.hubs, ports[q], levels));
        assert forall|j: int| #[trigger] is_hub(now.hubs, j) && address_at(now.hubs, j)
            == ports[q] implies now.hubs[j]->0.depth + levels > MAX_HUB_DEPTH by {
            assert(is_hub(bus.hubs, j));
        }
    }
}

proof fn lemma_port_gone(
    bus: BusState,
    walked: Walked,
    address: u8,
    ports: Seq<u8>,
    at: int,
    stop: bool,
    more: bool,
    levels: nat,
    going: Set<u8>,
)
    requires
        at < MAX_PORTS,
        ready(bus, ports, at, going, levels),
        bus::is_address(ports[at]),
        forgotten(walked.0, bus, ports[at], going),
    ensures
        after_port(walked, address, ports, at, stop, more, levels).ends_in(
            |end: Walked| all_forgotten(end.0, bus, ports, at, going),
        ),
    decreases levels, 1nat, MAX_PORTS - at, 0nat,
{
    let gone = ports[at];
    let now = walked.0.releasing(gone);
    let left = going.remove(gone);
    lemma_next_port(bus, walked.0, ports, at, levels, going);
    lemma_forget_ports(now, address, ports, at + 1, stop || walked.1 || more, levels, left);
    assert(less(left, ports, at + 1) =~= less(going, ports, at)) by {
        assert forall|a: u8| #[trigger] among(ports, at, a) == (among(ports, at + 1, a) || a
            == gone) by {
            if among(ports, at, a) {
                let q = choose|q: int| at <= q < MAX_PORTS && #[trigger] ports[q] == a;
                if q != at {
                    assert(ports[q] == a);
                }
            }
            if among(ports, at + 1, a) {
                let q = choose|q: int| at + 1 <= q < MAX_PORTS && #[trigger] ports[q] == a;
                assert(ports[q] == a);
            }
            if a == gone {
                assert(ports[at] == a);
            }
        }
    }
    let strong = |end: Walked| all_forgotten(end.0, now, ports, at + 1, left);
    let holds = |end: Walked| all_forgotten(end.0, bus, ports, at, going);
    assert forall|end: Walked| #[trigger] strong(end) implies holds(end) by {
        assert(shrunk(end.0.hubs, now.hubs));
        assert(shrunk(now.hubs, bus.hubs));
        assert forall|i: int| 0 <= i < end.0.hubs.len() implies (#[trigger] end.0.hubs[i]) is None
            || end.0.hubs[i] == bus.hubs[i] by {
            assert(end.0.hubs[i] is None || end.0.hubs[i] == now.hubs[i]);
        }
    }
    program::lemma_ends_in_weaker(
        after_port(walked, address, ports, at, stop, more, levels),
        strong,
        holds,
    );
}

/// What a change of one port changes.
pub(crate) proof fn lemma_one_port(bus: BusState, index: int, port: int, value: u8)
    requires
        bus.wf(),
        is_hub(bus.hubs, index),
        bus::is_place(index, port - 1),
    ensures
        forall|i: int, p: int|
            bus::is_place(i, p) ==> #[trigger] bus::device_at(
                bus.with_port(index, port, value).hubs,
                i,
                p,
            ) == if i == index && p == port - 1 {
                value
            } else {
                bus::device_at(bus.hubs, i, p)
            },
        forall|j: int| #[trigger]
            is_hub(bus.with_port(index, port, value).hubs, j) == is_hub(bus.hubs, j),
        forall|j: int| #[trigger]
            is_hub(bus.hubs, j) ==> bus.with_port(index, port, value).hubs[j]->0.hub
                == bus.hubs[j]->0.hub && bus.with_port(index, port, value).hubs[j]->0.depth
                == bus.hubs[j]->0.depth,
        bus.with_port(index, port, value).hubs.len() == MAX_HUBS,
        forall|j: int|
            0 <= j < MAX_HUBS ==> bus::entry_wf(
                #[trigger] bus.with_port(index, port, value).hubs[j],
            ),
{
    assert(bus::entry_wf(bus.hubs[index]));
}

/// A port that had no device has none still.
proof fn lemma_mark(bus: BusState, index: int, port: int, value: u8)
    requires
        tidy(bus),
        is_hub(bus.hubs, index),
        bus::is_place(index, port - 1),
        !bus::is_address(bus::device_at(bus.hubs, index, port - 1)),
        !bus::is_address(value),
    ensures
        tidy(bus.with_port(index, port, value)),
{
    let after = bus.with_port(index, port, value);
    lemma_one_port(bus, index, port, value);
    assert forall|a: u8| bus::is_address(a) implies #[trigger] located(after.hubs, a) == located(
        bus.hubs,
        a,
    ) by {
        lemma_located_elsewhere(bus.hubs, after.hubs, index, port - 1, a);
    }
    assert forall|a: int| #[trigger] after.addresses.contains(a) implies 1 <= a <= MAX_ADDRESS && (
    a == ROOT_ADDRESS || located(after.hubs, a as u8)) by {
        assert(bus.addresses.contains(a));
        assert(bus::is_address(a as u8));
    }
    assert(bus::is_address(ROOT_ADDRESS));
    assert(bus::distinct(after.hubs));
}

proof fn lemma_located_elsewhere(before: Hubs, after: Hubs, index: int, p: int, address: u8)
    requires
        bus::is_place(index, p),
        bus::device_at(before, index, p) != address,
        bus::device_at(after, index, p) != address,
        forall|i: int, q: int|
            bus::is_place(i, q) && !(i == index && q == p) ==> #[trigger] bus::device_at(after, i, q)
                == bus::device_at(before, i, q),
    ensures
        located(after, address) == located(before, address),
{
    if located(after, address) {
        let (i, q) = choose|i: int, q: int|
            bus::is_place(i, q) && #[trigger] bus::device_at(after, i, q) == address;
        assert(bus::device_at(before, i, q) == address);
    }
    if located(before, address) {
        let (i, q) = choose|i: int, q: int|
            bus::is_place(i, q) && #[trigger] bus::device_at(before, i, q) == address;
        assert(bus::device_at(after, i, q) == address);
    }
}

/// The device at a port is about to go.
pub(crate) proof fn lemma_clear(bus: BusState, index: int, port: int)
    requires
        tidy(bus),
        is_hub(bus.hubs, index),
        bus::is_place(index, port - 1),
        bus::is_address(bus::device_at(bus.hubs, index, port - 1)),
    ensures
        accounted(
            bus.with_port(index, port, 0),
            Set::empty().insert(bus::device_at(bus.hubs, index, port - 1)),
        ),
        forall|a: u8|
            bus::is_address(a) ==> #[trigger] located(bus.with_port(index, port, 0).hubs, a) == (
            located(bus.hubs, a) && a != bus::device_at(bus.hubs, index, port - 1)),
{
    let address = bus::device_at(bus.hubs, index, port - 1);
    let after = bus.with_port(index, port, 0);
    let going = Set::<u8>::empty().insert(address);
    lemma_one_port(bus, index, port, 0);
    assert(located(bus.hubs, address));
    assert forall|a: u8| bus::is_address(a) && a != address implies #[trigger] located(
        after.hubs,
        a,
    ) == located(bus.hubs, a) by {
        lemma_located_elsewhere(bus.hubs, after.hubs, index, port - 1, a);
    }
    assert(!located(after.hubs, address)) by {
        if located(after.hubs, address) {
            let (i, q) = choose|i: int, q: int|
                bus::is_place(i, q) && #[trigger] bus::device_at(after.hubs, i, q) == address;
            assert(bus::device_at(bus.hubs, i, q) == address);
            assert(bus::device_at(bus.hubs, index, port - 1) == address);
        }
    }
    assert forall|a: int| #[trigger] after.addresses.contains(a) implies 1 <= a <= MAX_ADDRESS && (
    a == ROOT_ADDRESS || going.contains(a as u8) || located(after.hubs, a as u8)) by {
        assert(bus.addresses.contains(a));
        assert(bus::is_address(a as u8));
    }
    assert(address != ROOT_ADDRESS);
    assert(bus::distinct(after.hubs));
}

/// A device that is gone leaves no address behind, nor does anything behind it.
proof fn lemma_detach(bus: BusState, index: int, port: u8)
    requires
        tidy(bus),
        bus::is_place(index, port - 1),
        bus.known(index, port as int) != PORT_FAILED,
    ensures
        bus::detach_program(bus, index, port).ends_in(|walked: Walked| tidy(walked.0)),
{
    let holds = |walked: Walked| tidy(walked.0);
    let program = bus::detach_program(bus, index, port);
    match bus.hubs[index] {
        None => {
            assert(holds((bus, false)));
        },
        Some(entry) => {
            assert(is_hub(bus.hubs, index));
            let address = entry.ports[port - 1];
            assert(address == bus::device_at(bus.hubs, index, port - 1));
            let cleared = bus.with_port(index, port as int, 0);
            if address == 0 {
                lemma_mark(bus, index, port as int, 0);
                assert(holds((cleared, false)));
            } else {
                let going = Set::<u8>::empty().insert(address);
                lemma_clear(bus, index, port as int);
                lemma_forget(cleared, address, MAX_HUBS as nat, going);
                let part = bus::forget_program(cleared, address, MAX_HUBS as nat);
                program::lemma_reached(
                    part,
                    |walked: Walked| forgotten(walked.0, cleared, address, going),
                );
                assert forall|walked: Walked| #[trigger] part.reaches(walked) implies tidy(
                    walked.0.releasing(address),
                ) by {
                    lemma_release(walked.0, address, going);
                    assert(going.remove(address) =~= Set::empty());
                }
                broadcast use group_steps;

                assert(program.ends_in(holds));
            }
        },
    }
}

pub(crate) proof fn lemma_free_address(addresses: Set<int>, from: int)
    requires
        1 <= from,
    ensures
        bus::free_address(addresses, from) matches Some(address) ==> from <= address <= MAX_ADDRESS
            && !addresses.contains(address as int),
    decreases MAX_ADDRESS + 1 - from,
{
    if from <= MAX_ADDRESS && addresses.contains(from) {
        lemma_free_address(addresses, from + 1);
    }
}

pub(crate) proof fn lemma_free_place(hubs: Hubs, from: int)
    requires
        0 <= from,
    ensures
        bus::free_place(hubs, from) matches Some(place) ==> from <= place < hubs.len()
            && hubs[place] is None,
    decreases hubs.len() - from,
{
    if from < hubs.len() && hubs[from] is Some {
        lemma_free_place(hubs, from + 1);
    }
}

/// The hubs that there were are there still.
pub open spec fn kept(now: Hubs, before: Hubs) -> bool {
    &&& now.len() == before.len()
    &&& forall|i: int| #[trigger]
        is_hub(before, i) ==> is_hub(now, i) && now[i]->0.hub == before[i]->0.hub
            && now[i]->0.depth == before[i]->0.depth
}

/// A walk has added devices and hubs, and of the ports of the hubs that there were it
/// has changed one at most; that one is now known to hold something, unless the walk
/// could not go on.
pub open spec fn grown(now: BusState, before: Hubs, index: int, p: int) -> bool {
    &&& tidy(now)
    &&& kept(now.hubs, before)
    &&& forall|i: int, q: int|
        is_hub(before, i) && bus::is_place(i, q) && !(i == index && q == p)
            ==> #[trigger] bus::device_at(now.hubs, i, q) == bus::device_at(before, i, q)
    &&& is_hub(before, index) ==> bus::device_at(now.hubs, index, p) != 0 || now.fault is Some
}

/// A walk has added devices and hubs, and of the hubs that there were it has changed
/// the ports of one at most.
pub open spec fn wider(now: BusState, before: Hubs, index: int) -> bool {
    &&& tidy(now)
    &&& kept(now.hubs, before)
    &&& forall|i: int, q: int|
        is_hub(before, i) && bus::is_place(i, q) && i != index ==> #[trigger] bus::device_at(
            now.hubs,
            i,
            q,
        ) == bus::device_at(before, i, q)
}

/// The ports of a hub from a place on have no devices.
pub open spec fn vacant(hubs: Hubs, index: int, from: int) -> bool {
    forall|q: int| from <= q < MAX_PORTS ==> #[trigger] bus::device_at(hubs, index, q) == 0
}

/// An address that was free is about to be somebody's.
proof fn lemma_take(bus: BusState, address: u8)
    requires
        tidy(bus),
        1 < address <= MAX_ADDRESS,
        !bus.addresses.contains(address as int),
    ensures
        accounted(bus.taking(address), Set::empty().insert(address)),
        no_hub(bus.hubs, address),
{
    let after = bus.taking(address);
    let going = Set::<u8>::empty().insert(address);
    assert(!located(bus.hubs, address)) by {
        if located(bus.hubs, address) {
            let (i, p) = choose|i: int, p: int|
                bus::is_place(i, p) && #[trigger] bus::device_at(bus.hubs, i, p) == address;
            assert(bus::is_address(bus::device_at(bus.hubs, i, p)));
        }
    }
    assert forall|i: int, p: int|
        bus::is_place(i, p) && bus::is_address(
            #[trigger] bus::device_at(after.hubs, i, p),
        ) implies after.addresses.contains(bus::device_at(after.hubs, i, p) as int) by {
        assert(bus.addresses.contains(bus::device_at(bus.hubs, i, p) as int));
    }
    assert forall|a: int| #[trigger] after.addresses.contains(a) implies 1 <= a <= MAX_ADDRESS && (
    a == ROOT_ADDRESS || going.contains(a as u8) || located(after.hubs, a as u8)) by {
        if a != address {
            assert(bus.addresses.contains(a));
        }
    }
}

/// A device with an address of its own is found at a port.
proof fn lemma_place(bus: BusState, index: int, port: int, address: u8)
    requires
        accounted(bus, Set::empty().insert(address)),
        is_hub(bus.hubs, index),
        bus::is_place(index, port - 1),
        !bus::is_address(bus::device_at(bus.hubs, index, port - 1)),
        no_hub(bus.hubs, address),
    ensures
        tidy(bus.with_port(index, port, address)),
        located(bus.with_port(index, port, address).hubs, address),
        no_hub(bus.with_port(index, port, address).hubs, address),
{
    let after = bus.with_port(index, port, address);
    let going = Set::<u8>::empty().insert(address);
    lemma_one_port(bus, index, port, address);
    assert(going.contains(address));
    assert(bus::device_at(after.hubs, index, port - 1) == address);
    assert(located(after.hubs, address));
    assert forall|a: u8| bus::is_address(a) && a != address implies #[trigger] located(
        after.hubs,
        a,
    ) == located(bus.hubs, a) by {
        lemma_located_elsewhere(bus.hubs, after.hubs, index, port - 1, a);
    }
    assert forall|a: int| #[trigger] after.addresses.contains(a) implies 1 <= a <= MAX_ADDRESS && (
    a == ROOT_ADDRESS || located(after.hubs, a as u8)) by {
        assert(bus.addresses.contains(a));
        assert(bus::is_address(a as u8));
    }
    assert forall|i: int, p: int|
        bus::is_place(i, p) && bus::device_at(bus.hubs, i, p) == address implies false by {
        assert(located(bus.hubs, address));
    }
    assert(bus::distinct(after.hubs));
    assert forall|i: int, p: int, j: int|
        #![trigger bus::device_at(after.hubs, i, p), is_hub(after.hubs, j)]
        bus::is_place(i, p) && is_hub(after.hubs, j) implies fits(after.hubs, i, p, j) by {
        assert(is_hub(bus.hubs, j));
        assert(fits(bus.hubs, i, p, j));
        if bus::is_address(bus::device_at(after.hubs, i, p)) && !(i == index && p == port - 1) {
            assert(is_hub(bus.hubs, i));
        }
    }
}

/// A hub is added, whose device is at a port of a hub above it.
proof fn lemma_new_hub(bus: BusState, child: int, hub: Hub, index: int, p: int)
    requires
        tidy(bus),
        0 <= child < MAX_HUBS,
        bus.hubs[child] is None,
        is_hub(bus.hubs, index),
        bus.hubs[index]->0.depth < MAX_HUB_DEPTH,
        bus::is_place(index, p),
        bus::is_address(hub.endpoint.address),
        bus::device_at(bus.hubs, index, p) == hub.endpoint.address,
        no_hub(bus.hubs, hub.endpoint.address),
    ensures
        tidy(bus.with_hub(child, hub, (bus.hubs[index]->0.depth + 1) as u8)),
        vacant(bus.with_hub(child, hub, (bus.hubs[index]->0.depth + 1) as u8).hubs, child, 0),
{
    let address = hub.endpoint.address;
    let depth = (bus.hubs[index]->0.depth + 1) as u8;
    let after = bus.with_hub(child, hub, depth);
    assert forall|i: int, q: int| bus::is_place(i, q) implies #[trigger] bus::device_at(
        after.hubs,
        i,
        q,
    ) == bus::device_at(bus.hubs, i, q) by {}
    assert forall|a: u8| #[trigger] located(after.hubs, a) == located(bus.hubs, a) by {
        if located(after.hubs, a) {
            let (i, q) = choose|i: int, q: int|
                bus::is_place(i, q) && #[trigger] bus::device_at(after.hubs, i, q) == a;
            assert(bus::device_at(bus.hubs, i, q) == a);
        }
        if located(bus.hubs, a) {
            let (i, q) = choose|i: int, q: int|
                bus::is_place(i, q) && #[trigger] bus::device_at(bus.hubs, i, q) == a;
            assert(bus::device_at(after.hubs, i, q) == a);
        }
    }
    assert(located(bus.hubs, address));
    assert(bus::distinct(after.hubs));
    assert forall|j: int| #[trigger] is_hub(after.hubs, j) implies j == child || (is_hub(
        bus.hubs,
        j,
    ) && after.hubs[j] == bus.hubs[j]) by {}
    assert forall|i: int, q: int, j: int|
        #![trigger bus::device_at(after.hubs, i, q), is_hub(after.hubs, j)]
        bus::is_place(i, q) && is_hub(after.hubs, j) implies fits(after.hubs, i, q, j) by {
        if bus::is_address(bus::device_at(after.hubs, i, q)) {
            assert(is_hub(bus.hubs, i));
            assert(i != child);
            if j == child {
                if bus::device_at(bus.hubs, i, q) == address {
                    assert(bus::device_at(bus.hubs, index, p) == bus::device_at(bus.hubs, i, q));
                }
            } else {
                assert(is_hub(bus.hubs, j));
                assert(fits(bus.hubs, i, q, j));
            }
        }
    }
    assert(is_hub(bus.hubs, index));
}

proof fn lemma_attach(bus: BusState, index: int, port: u8, levels: nat)
    requires
        tidy(bus),
        bus::is_place(index, port - 1),
        bus::device_at(bus.hubs, index, port - 1) == 0,
    ensures
        bus::attach_program(bus, index, port, levels).ends_in(
            |walked: Walked| grown(walked.0, bus.hubs, index, port - 1),
        ),
    decreases levels, 0nat, 1int,
{
    let holds = |walked: Walked| grown(walked.0, bus.hubs, index, port - 1);
    let program = bus::attach_program(bus, index, port, levels);
    match bus.hubs[index] {
        None => {
            assert(holds((bus, false)));
        },
        Some(entry) => {
            assert(is_hub(bus.hubs, index));
            lemma_mark(bus, index, port as int, PORT_FAILED);
            lemma_one_port(bus, index, port as int, PORT_FAILED);
            assert(holds((bus.with_port(index, port as int, PORT_FAILED), false)));
            assert(tidy(bus.failing(EnumerationError::OutOfAddresses)));
            assert(holds((bus.failing(EnumerationError::OutOfAddresses), true)));
            lemma_free_address(bus.addresses, 1);
            if let Some(address) = bus::free_address(bus.addresses, 1) {
                let taken = bus.taking(address);
                lemma_take(bus, address);
                assert forall|status: PortStatus| #[trigger]
                    status.is_enabled() implies bus::admit_program(
                    taken,
                    index,
                    entry,
                    port,
                    status,
                    address,
                    levels,
                ).ends_in(holds) by {
                    lemma_admit(taken, index, entry, port, status, address, levels);
                }
            }
            broadcast use group_steps;

            assert(program.ends_in(holds));
        },
    }
}

proof fn lemma_admit(
    bus: BusState,
    index: int,
    entry: HubEntry,
    port: u8,
    status: PortStatus,
    address: u8,
    levels: nat,
)
    requires
        accounted(bus, Set::empty().insert(address)),
        no_hub(bus.hubs, address),
        bus::is_place(index, port - 1),
        bus.hubs[index] == Some(entry),
        bus::device_at(bus.hubs, index, port - 1) == 0,
    ensures
        bus::admit_program(bus, index, entry, port, status, address, levels).ends_in(
            |walked: Walked| grown(walked.0, bus.hubs, index, port - 1),
        ),
    decreases levels, 0nat, 0int,
{
    let holds = |walked: Walked| grown(walked.0, bus.hubs, index, port - 1);
    let program = bus::admit_program(bus, index, entry, port, status, address, levels);
    let going = Set::<u8>::empty().insert(address);
    assert(is_hub(bus.hubs, index));
    assert(going.contains(address));

    let released = bus.releasing(address);
    lemma_release(bus, address, going);
    assert(going.remove(address) =~= Set::empty());
    lemma_mark(released, index, port as int, PORT_FAILED);
    lemma_one_port(released, index, port as int, PORT_FAILED);
    assert(holds((released.with_port(index, port as int, PORT_FAILED), false)));

    let placed = bus.with_port(index, port as int, address);
    lemma_place(bus, index, port as int, address);
    lemma_one_port(bus, index, port as int, address);
    assert(holds((placed, true)));
    assert(holds((placed, false)));
    assert(tidy(placed.failing(EnumerationError::TooManyHubs)));
    assert(holds((placed.failing(EnumerationError::TooManyHubs), true)));

    lemma_free_place(placed.hubs, 0);
    let depth = (entry.depth + 1) as u8;
    if entry.depth < MAX_HUB_DEPTH && levels > 0 {
        if let Some(child) = bus::free_place(placed.hubs, 0) {
            assert forall|hub: Hub| hub.endpoint.address == address implies bus::walk_program(
                #[trigger] placed.with_hub(child, hub, depth),
                child,
                hub,
                1,
                (levels - 1) as nat,
            ).ends_in(holds) by {
                lemma_child(bus, placed, index, port as int, child, hub, (levels - 1) as nat);
            }
        }
    }
    broadcast use group_steps;

    assert(program.ends_in(holds));
}

proof fn lemma_child(
    bus: BusState,
    placed: BusState,
    index: int,
    port: int,
    child: int,
    hub: Hub,
    levels: nat,
)
    requires
        tidy(placed),
        grown(placed, bus.hubs, index, port - 1),
        0 <= child < MAX_HUBS,
        placed.hubs[child] is None,
        is_hub(bus.hubs, index),
        is_hub(placed.hubs, index),
        placed.hubs[index]->0.depth < MAX_HUB_DEPTH,
        bus::is_place(index, port - 1),
        bus::is_address(hub.endpoint.address),
        bus::device_at(placed.hubs, index, port - 1) == hub.endpoint.address,
        no_hub(placed.hubs, hub.endpoint.address),
    ensures
        bus::walk_program(
            placed.with_hub(child, hub, (placed.hubs[index]->0.depth + 1) as u8),
            child,
            hub,
            1,
            levels,
        ).ends_in(|walked: Walked| grown(walked.0, bus.hubs, index, port - 1)),
    decreases levels, 2nat, 0int,
{
    let depth = (placed.hubs[index]->0.depth + 1) as u8;
    let extended = placed.with_hub(child, hub, depth);
    lemma_new_hub(placed, child, hub, index, port - 1);
    lemma_walk(extended, child, hub, 1, levels);
    let strong = |walked: Walked| wider(walked.0, extended.hubs, child);
    let holds = |walked: Walked| grown(walked.0, bus.hubs, index, port - 1);
    assert forall|walked: Walked| #[trigger] strong(walked) implies holds(walked) by {
        let now = walked.0.hubs;
        assert forall|i: int| #[trigger] is_hub(bus.hubs, i) implies is_hub(now, i)
            && now[i]->0.hub == bus.hubs[i]->0.hub && now[i]->0.depth == bus.hubs[i]->0.depth by {
            assert(is_hub(placed.hubs, i));
            assert(is_hub(extended.hubs, i));
        }
        assert forall|i: int, q: int|
            is_hub(bus.hubs, i) && bus::is_place(i, q) && !(i == index && q == port
                - 1) implies #[trigger] bus::device_at(now, i, q) == bus::device_at(
            bus.hubs,
            i,
            q,
        ) by {
            assert(is_hub(placed.hubs, i));
            assert(is_hub(extended.hubs, i));
            assert(bus::device_at(placed.hubs, i, q) == bus::device_at(bus.hubs, i, q));
            assert(bus::device_at(extended.hubs, i, q) == bus::device_at(placed.hubs, i, q));
        }
    }
    program::lemma_ends_in_weaker(
        bus::walk_program(extended, child, hub, 1, levels),
        strong,
        holds,
    );
}

proof fn lemma_walk(bus: BusState, index: int, hub: Hub, port: int, levels: nat)
    requires
        tidy(bus),
        is_hub(bus.hubs, index),
        1 <= port,
        vacant(bus.hubs, index, port - 1),
    ensures
        bus::walk_program(bus, index, hub, port, levels).ends_in(
            |walked: Walked| wider(walked.0, bus.hubs, index),
        ),
    decreases levels, 1nat, MAX_PORTS + 1 - port,
{
    let holds = |walked: Walked| wider(walked.0, bus.hubs, index);
    let program = bus::walk_program(bus, index, hub, port, levels);
    assert(holds((bus, false)));
    if port <= bus::tracked_ports(hub) {
        lemma_walk(bus, index, hub, port + 1, levels);
        assert(bus::device_at(bus.hubs, index, port - 1) == 0);
        lemma_attach(bus, index, port as u8, levels);
        let part = bus::attach_program(bus, index, port as u8, levels);
        program::lemma_reached(
            part,
            |walked: Walked| grown(walked.0, bus.hubs, index, port as u8 - 1),
        );
        assert forall|walked: Walked| #[trigger] part.reaches(walked) implies wider(
            walked.0,
            bus.hubs,
            index,
        ) && bus::walk_program(walked.0, index, hub, port + 1, levels).ends_in(holds) by {
            let now = walked.0;
            assert(grown(now, bus.hubs, index, port - 1));
            assert forall|q: int| port <= q < MAX_PORTS implies #[trigger] bus::device_at(
                now.hubs,
                index,
                q,
            ) == 0 by {
                assert(bus::is_place(index, q));
                assert(bus::device_at(bus.hubs, index, q) == 0);
            }
            lemma_walk(now, index, hub, port + 1, levels);
            let strong = |end: Walked| wider(end.0, now.hubs, index);
            assert forall|end: Walked| #[trigger] strong(end) implies holds(end) by {
                assert forall|i: int| #[trigger] is_hub(bus.hubs, i) implies is_hub(end.0.hubs, i)
                    && end.0.hubs[i]->0.hub == bus.hubs[i]->0.hub && end.0.hubs[i]->0.depth
                    == bus.hubs[i]->0.depth by {
                    assert(is_hub(now.hubs, i));
                }
                assert forall|i: int, q: int|
                    is_hub(bus.hubs, i) && bus::is_place(i, q) && i
                        != index implies #[trigger] bus::device_at(end.0.hubs, i, q)
                    == bus::device_at(bus.hubs, i, q) by {
                    assert(is_hub(now.hubs, i));
                    assert(bus::device_at(now.hubs, i, q) == bus::device_at(bus.hubs, i, q));
                }
            }
            program::lemma_ends_in_weaker(
                bus::walk_program(now, index, hub, port + 1, levels),
                strong,
                holds,
            );
        }
        broadcast use group_steps;

        assert(program.ends_in(holds));
    }
}

proof fn lemma_react(bus: BusState, index: int, port: u8, connected: bool)
    requires
        tidy(bus),
        bus::is_place(index, port - 1),
    ensures
        bus::react_program(bus, index, port, connected).ends_in(|walked: Walked| tidy(walked.0)),
{
    let holds = |walked: Walked| tidy(walked.0);
    assert(bus.known(index, port as int) == bus::device_at(bus.hubs, index, port - 1));
    if connected {
        if bus.known(index, port as int) == 0 {
            lemma_attach(bus, index, port, MAX_HUB_DEPTH as nat);
            program::lemma_ends_in_weaker(
                bus::attach_program(bus, index, port, MAX_HUB_DEPTH as nat),
                |walked: Walked| grown(walked.0, bus.hubs, index, port - 1),
                holds,
            );
        }
    } else if bus.known(index, port as int) == PORT_FAILED {
        assert(is_hub(bus.hubs, index));
        lemma_mark(bus, index, port as int, 0);
    } else if bus.known(index, port as int) != 0 {
        lemma_detach(bus, index, port);
    }
}

proof fn lemma_sweep(bus: BusState, index: int, hub: Hub, port: int)
    requires
        tidy(bus),
        0 <= index < MAX_HUBS,
        1 <= port,
    ensures
        bus::sweep_program(bus, index, hub, port).ends_in(|walked: Walked| tidy(walked.0)),
    decreases MAX_PORTS + 1 - port,
{
    let holds = |walked: Walked| tidy(walked.0);
    let program = bus::sweep_program(bus, index, hub, port);
    if port <= bus::tracked_ports(hub) {
        lemma_sweep(bus, index, hub, port + 1);
        assert forall|connected: bool, walked: Walked| #[trigger]
            bus::react_program(bus, index, port as u8, connected).reaches(
                walked,
            ) implies bus::sweep_program(walked.0, index, hub, port + 1).ends_in(holds) && tidy(
            walked.0,
        ) by {
            lemma_react(bus, index, port as u8, connected);
            program::lemma_reached(
                bus::react_program(bus, index, port as u8, connected),
                holds,
            );
            lemma_sweep(walked.0, index, hub, port + 1);
        }
        broadcast use group_steps;

        assert(program.ends_in(holds));
    }
}

proof fn lemma_poll_hubs(bus: BusState, index: int)
    requires
        tidy(bus),
        0 <= index,
    ensures
        bus::poll_hubs_program(bus, index).ends_in(|polled: BusState| tidy(polled)),
    decreases MAX_HUBS - index,
{
    let holds = |polled: BusState| tidy(polled);
    let program = bus::poll_hubs_program(bus, index);
    if index < MAX_HUBS {
        match bus.hubs[index] {
            None => {
                lemma_poll_hubs(bus, index + 1);
            },
            Some(entry) => {
                lemma_sweep(bus, index, entry.hub, 1);
                let part = bus::sweep_program(bus, index, entry.hub, 1);
                program::lemma_reached(part, |walked: Walked| tidy(walked.0));
                assert forall|walked: Walked| #[trigger] part.reaches(
                    walked,
                ) implies bus::poll_hubs_program(walked.0, index + 1).ends_in(holds) && tidy(
                    walked.0,
                ) by {
                    lemma_poll_hubs(walked.0, index + 1);
                }
                broadcast use group_steps;

                assert(program.ends_in(holds));
            },
        }
    }
}

proof fn lemma_conclude(bus: BusState)
    requires
        tidy(bus),
    ensures
        bus::conclude(bus).ends_in(|done: Enumerated| tidy(done.0)),
{
    broadcast use group_steps;

    assert(tidy(BusState { fault: None, ..bus }));
}

proof fn lemma_root()
    ensures
        bus::root_program().ends_in(|done: Enumerated| tidy(done.0)),
{
    let holds = |done: Enumerated| tidy(done.0);
    let program = bus::root_program();
    let bus = BusState::empty();
    let taken = bus.taking(ROOT_ADDRESS);
    assert forall|i: int, p: int| bus::is_place(i, p) implies #[trigger] bus::device_at(
        taken.hubs,
        i,
        p,
    ) == 0 by {}
    assert(tidy(taken));
    assert forall|hub: Hub| hub.endpoint.address == ROOT_ADDRESS implies bus::walk_program(
        #[trigger] taken.with_hub(0, hub, 0),
        0,
        hub,
        1,
        MAX_HUB_DEPTH as nat,
    ).bind(|walked: Walked| bus::conclude(walked.0)).ends_in(holds) by {
        let rooted = taken.with_hub(0, hub, 0);
        assert forall|i: int, p: int| bus::is_place(i, p) implies #[trigger] bus::device_at(
            rooted.hubs,
            i,
            p,
        ) == 0 by {}
        assert(is_hub(rooted.hubs, 0));
        assert(tidy(rooted));
        lemma_walk(rooted, 0, hub, 1, MAX_HUB_DEPTH as nat);
        let part = bus::walk_program(rooted, 0, hub, 1, MAX_HUB_DEPTH as nat);
        program::lemma_reached(part, |walked: Walked| wider(walked.0, rooted.hubs, 0));
        assert forall|walked: Walked| #[trigger] part.reaches(walked) implies bus::conclude(
            walked.0,
        ).ends_in(holds) by {
            lemma_conclude(walked.0);
        }
        broadcast use group_steps;

        assert(part.bind(|walked: Walked| bus::conclude(walked.0)).ends_in(holds));
    }
    broadcast use group_steps;

    assert(program.ends_in(holds));
}

/// Walking the bus keeps account of it, whatever the devices do and whenever the
/// application asks to stop: every address that is taken is the root hub's or that of
/// a device at some port, every hub that is looked at is the root hub or such a
/// device, and no two devices share an address. Nothing that was unplugged leaves an
/// address that cannot be used again, or a hub that is looked at for ever.
pub proof fn law_nothing_is_lost(bus: BusState)
    requires
        tidy(bus),
    ensures
        bus::enumerate_program().ends_in(|done: Enumerated| tidy(done.0)),
        bus::poll_program(bus).ends_in(|done: Enumerated| tidy(done.0)),
{
    let holds = |done: Enumerated| tidy(done.0);
    lemma_root();
    law_empty_is_tidy();
    lemma_poll_hubs(bus, 0);
    let part = bus::poll_hubs_program(bus, 0);
    program::lemma_reached(part, |polled: BusState| tidy(polled));
    assert forall|polled: BusState| #[trigger] part.reaches(polled) implies bus::conclude(
        polled,
    ).ends_in(holds) by {
        lemma_conclude(polled);
    }
    broadcast use group_steps;

    assert(bus::enumerate_program().ends_in(holds));
    assert(bus::poll_program(bus).ends_in(holds));
}

/// A bus with nothing on it is accounted for.
pub proof fn law_empty_is_tidy()
    ensures
        tidy(BusState::empty()),
{
    let bus = BusState::empty();
    assert forall|i: int, p: int| bus::is_place(i, p) implies #[trigger] bus::device_at(
        bus.hubs,
        i,
        p,
    ) == 0 by {}
}

/// A device is brought up once: whatever comes of the attempt, unless the walk could not
/// go on, the port is known to hold something afterwards, and is then left alone for as
/// long as something is connected to it. If that was a device that could not be brought
/// up, nobody is told when it goes, and what comes next is tried anew.
pub proof fn law_tried_once(bus: BusState, index: int, port: u8, levels: nat)
    requires
        tidy(bus),
        is_hub(bus.hubs, index),
        bus::is_place(index, port - 1),
    ensures
        bus.known(index, port as int) == 0 ==> bus::attach_program(
            bus,
            index,
            port,
            levels,
        ).ends_in(
            |walked: Walked|
                walked.0.known(index, port as int) != 0 || walked.0.fault is Some,
        ),
        bus.known(index, port as int) != 0 ==> bus::react_program(bus, index, port, true)
            == BusProgram::<Walked>::Return((bus, false)),
        bus.known(index, port as int) == PORT_FAILED ==> bus::react_program(
            bus,
            index,
            port,
            false,
        ) == BusProgram::<Walked>::Return((bus.with_port(index, port as int, 0), false)),
{
    if bus.known(index, port as int) == 0 {
        lemma_attach(bus, index, port, levels);
        let strong = |walked: Walked| grown(walked.0, bus.hubs, index, port - 1);
        let weak = |walked: Walked|
            walked.0.known(index, port as int) != 0 || walked.0.fault is Some;
        assert forall|walked: Walked| #[trigger] strong(walked) implies weak(walked) by {
            assert(is_hub(walked.0.hubs, index));
        }
        program::lemma_ends_in_weaker(
            bus::attach_program(bus, index, port, levels),
            strong,
            weak,
        );
    }
}

} // verus!

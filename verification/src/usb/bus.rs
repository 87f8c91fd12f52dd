//! The bus: which hubs there are, what is connected to their ports, and which
//! device addresses are taken.

use vstd::prelude::*;

use crate::program::{Exchange, Program};
use crate::usb::descriptor::DeviceDescriptor;
use crate::usb::dwc2::hardware::{Dwc2Registers, HwHistory};
use crate::usb::dwc2::host;
use crate::usb::dwc2::{Channel, ControlEndpoint, Dwc2Host};
use crate::usb::hub::{Hub, PortStatus};
use crate::usb::session;
use crate::usb::session::{
    BusAnswer, BusHistory, BusListener, BusOp, BusProgram, Deed, Device, Event, Session,
};
use crate::usb::topology;
use crate::usb::EnumerationError;

verus! {

broadcast use crate::program::group_program;

/// The highest device address.
pub const MAX_ADDRESS: u8 = 127;

/// The class of hubs.
pub const CLASS_HUB: u8 = 9;

/// How many hubs may lie between a hub and the root port.
pub const MAX_HUB_DEPTH: u8 = 4;

/// The most hubs that are kept track of.
pub const MAX_HUBS: usize = 8;

/// The most ports of a hub that are kept track of.
pub const MAX_PORTS: usize = 15;

/// Stands in place of an address for a port whose device could not be brought
/// up; it is not tried again before it has been unplugged.
pub const PORT_FAILED: u8 = 255;

/// A hub that is kept track of.
#[derive(Clone, Copy)]
struct HubRecord {
    hub: Hub,
    depth: u8,
    ports: [u8; 15],
}

/// A hub that is kept track of, as a value.
#[verifier::ext_equal]
pub struct HubEntry {
    pub hub: Hub,
    /// How many hubs lie between it and the root port.
    pub depth: u8,
    /// For each port the address of its device, 0 for none, or
    /// [`PORT_FAILED`].
    pub ports: Seq<u8>,
}

/// The bus as a value.
#[verifier::ext_equal]
pub struct BusState {
    /// The addresses that are taken.
    pub addresses: Set<int>,
    pub hubs: Seq<Option<HubEntry>>,
    /// What ended the last walk early, if it was not the application.
    pub fault: Option<EnumerationError>,
}

impl HubRecord {
    spec fn entry(self) -> HubEntry {
        HubEntry { hub: self.hub, depth: self.depth, ports: self.ports@ }
    }
}

impl BusState {
    /// A bus with nothing on it.
    pub open spec fn empty() -> BusState {
        BusState {
            addresses: Set::empty(),
            hubs: Seq::new(MAX_HUBS as nat, |i: int| None),
            fault: None,
        }
    }

    /// What always holds: there are so many places for hubs, each hub has so
    /// many ports and is not too deep, only addresses that a device can have are
    /// taken, the address of every device that is kept track of is taken, and no two
    /// devices have the same address.
    pub open spec fn wf(self) -> bool {
        &&& forall|address: int| #[trigger]
            self.addresses.contains(address) ==> 1 <= address <= MAX_ADDRESS
        &&& self.hubs.len() == MAX_HUBS
        &&& forall|i: int| 0 <= i < MAX_HUBS ==> entry_wf(#[trigger] self.hubs[i])
        &&& forall|i: int, p: int|
            is_place(i, p) && is_address(#[trigger] device_at(self.hubs, i, p))
                ==> self.addresses.contains(device_at(self.hubs, i, p) as int)
        &&& distinct(self.hubs)
    }

    /// No device that is kept track of has this address.
    pub open spec fn unknown(self, address: u8) -> bool {
        forall|i: int, p: int|
            is_place(i, p) ==> #[trigger] device_at(self.hubs, i, p) != address
    }

    /// The state of a port of a hub.
    pub open spec fn known(self, index: int, port: int) -> u8 {
        match self.hubs[index] {
            Some(entry) => entry.ports[port - 1],
            None => 0,
        }
    }

    /// The bus with another state of a port.
    pub open spec fn with_port(self, index: int, port: int, value: u8) -> BusState {
        match self.hubs[index] {
            Some(entry) => BusState {
                hubs: self.hubs.update(
                    index,
                    Some(HubEntry { ports: entry.ports.update(port - 1, value), ..entry }),
                ),
                ..self
            },
            None => self,
        }
    }

    /// The bus with an address taken.
    pub open spec fn taking(self, address: u8) -> BusState {
        BusState { addresses: self.addresses.insert(address as int), ..self }
    }

    /// The bus with an address free again.
    pub open spec fn releasing(self, address: u8) -> BusState {
        BusState { addresses: self.addresses.remove(address as int), ..self }
    }

    /// The bus with one more hub.
    pub open spec fn with_hub(self, index: int, hub: Hub, depth: u8) -> BusState {
        BusState {
            hubs: self.hubs.update(
                index,
                Some(HubEntry { hub, depth, ports: Seq::new(MAX_PORTS as nat, |i: int| 0u8) }),
            ),
            ..self
        }
    }

    /// The bus after a walk that could not go on.
    pub open spec fn failing(self, error: EnumerationError) -> BusState {
        BusState { fault: Some(error), ..self }
    }
}

/// There is such a hub and such a port.
pub open spec fn is_place(i: int, p: int) -> bool {
    0 <= i < MAX_HUBS && 0 <= p < MAX_PORTS
}

/// What is known of a port: the address of its device, 0, or [`PORT_FAILED`].
pub open spec fn device_at(hubs: Seq<Option<HubEntry>>, i: int, p: int) -> u8 {
    match hubs[i] {
        Some(entry) => entry.ports[p],
        None => 0,
    }
}

/// Whether that is an address.
pub open spec fn is_address(known: u8) -> bool {
    known != 0 && known != PORT_FAILED
}

/// No two devices have the same address.
pub open spec fn distinct(hubs: Seq<Option<HubEntry>>) -> bool {
    forall|i: int, p: int, j: int, q: int|
        is_place(i, p) && is_place(j, q) && is_address(#[trigger] device_at(hubs, i, p))
            && device_at(hubs, i, p) == #[trigger] device_at(hubs, j, q) ==> i == j && p == q
}

/// Nothing is kept track of now that was not before.
pub open spec fn no_more(now: Seq<Option<HubEntry>>, before: Seq<Option<HubEntry>>) -> bool {
    forall|i: int, p: int|
        is_place(i, p) ==> (#[trigger] device_at(now, i, p) == device_at(before, i, p)
            || device_at(now, i, p) == 0)
}

/// A place for a hub is empty, or holds one with all its ports, not too deep.
pub open spec fn entry_wf(entry: Option<HubEntry>) -> bool {
    entry matches Some(entry) ==> entry.ports.len() == MAX_PORTS && entry.depth <= MAX_HUB_DEPTH
}

/// The lowest address from `from` on that is not taken.
pub open spec fn free_address(addresses: Set<int>, from: int) -> Option<u8>
    decreases MAX_ADDRESS + 1 - from,
{
    if from > MAX_ADDRESS {
        None
    } else if !addresses.contains(from) {
        Some(from as u8)
    } else {
        free_address(addresses, from + 1)
    }
}

/// The first empty place for a hub from `from` on.
pub open spec fn free_place(hubs: Seq<Option<HubEntry>>, from: int) -> Option<int>
    decreases hubs.len() - from,
{
    if from < 0 || from >= hubs.len() {
        None
    } else if hubs[from] is None {
        Some(from)
    } else {
        free_place(hubs, from + 1)
    }
}

/// The place of the first hub from `from` on with the given address.
pub open spec fn place_of(hubs: Seq<Option<HubEntry>>, address: u8, from: int) -> Option<int>
    decreases hubs.len() - from,
{
    if from < 0 || from >= hubs.len() {
        None
    } else if hubs[from] is Some && hubs[from]->0.hub.endpoint.address == address {
        Some(from)
    } else {
        place_of(hubs, address, from + 1)
    }
}

/// How many of the first `count` places hold a hub.
pub open spec fn hub_count(hubs: Seq<Option<HubEntry>>, count: int) -> nat
    decreases count,
{
    if count <= 0 {
        0
    } else {
        hub_count(hubs, count - 1) + (if hubs[count - 1] is Some {
            1nat
        } else {
            0nat
        })
    }
}

/// How many of a hub's ports are kept track of.
pub open spec fn tracked_ports(hub: Hub) -> int {
    if hub.num_ports as int <= MAX_PORTS {
        hub.num_ports as int
    } else {
        MAX_PORTS as int
    }
}

/// A new device on a port of a hub, before it has an address.
pub open spec fn newcomer(hub: Hub, port: u8, status: PortStatus) -> ControlEndpoint {
    ControlEndpoint {
        address: 0,
        low_speed: status.is_low_speed(),
        max_packet_size: 8,
        split: hub.translator(port, status),
    }
}

/// What a part of a walk came to: the bus, and whether to stop.
pub type Walked = (BusState, bool);

/// Bring up what is connected to a port: reset the port, give the device the
/// lowest free address, and tell the application; and if the device is a hub,
/// walk it in turn. `levels` is the number of further levels of hubs.
pub open spec fn attach_program(bus: BusState, index: int, port: u8, levels: nat) -> BusProgram<
    Walked,
>
    decreases levels, 0nat, 1int,
{
    match bus.hubs[index] {
        None => Program::Return((bus, false)),
        Some(entry) => session::port_step(
            BusOp::Reset(entry.hub, port),
            |reset: Result<PortStatus, EnumerationError>|
                match reset {
                    Err(error) => Program::Return(
                        (bus.with_port(index, port as int, PORT_FAILED), false),
                    ),
                    Ok(status) => if !status.is_enabled() {
                        Program::Return((bus.with_port(index, port as int, PORT_FAILED), false))
                    } else {
                        match free_address(bus.addresses, 1) {
                            None => Program::Return(
                                (bus.failing(EnumerationError::OutOfAddresses), true),
                            ),
                            Some(address) => admit_program(
                                bus.taking(address),
                                index,
                                entry,
                                port,
                                status,
                                address,
                                levels,
                            ),
                        }
                    },
                },
        ),
    }
}

/// Give a new device its address, which has been taken, and go on with it.
pub open spec fn admit_program(
    bus: BusState,
    index: int,
    entry: HubEntry,
    port: u8,
    status: PortStatus,
    address: u8,
    levels: nat,
) -> BusProgram<Walked>
    decreases levels, 0nat, 0int,
{
    session::probe(
        newcomer(entry.hub, port, status),
        address,
        |probed: Result<
            (ControlEndpoint, DeviceDescriptor),
            crate::usb::dwc2::TransferError,
        >|
            match probed {
                Err(error) => Program::Return(
                    (bus.releasing(address).with_port(index, port as int, PORT_FAILED), false),
                ),
                Ok(found) => session::ask(
                    BusOp::Tell(
                        Event::Attached(
                            Device {
                                port,
                                hub_address: entry.hub.endpoint.address,
                                depth: entry.depth,
                                endpoint: found.0,
                                descriptor: found.1,
                            },
                        ),
                    ),
                    |stop: bool|
                        {
                            let placed = bus.with_port(index, port as int, address);
                            if stop {
                                Program::Return((placed, true))
                            } else if found.1.device_class == CLASS_HUB && entry.depth
                                < MAX_HUB_DEPTH && levels > 0 {
                                session::configure(
                                    found.0,
                                    status.is_high_speed(),
                                    |configured: Result<Hub, EnumerationError>|
                                        match configured {
                                            Err(error) => Program::Return((placed, false)),
                                            Ok(hub) => match free_place(placed.hubs, 0) {
                                                None => Program::Return(
                                                    (
                                                        placed.failing(
                                                            EnumerationError::TooManyHubs,
                                                        ),
                                                        true,
                                                    ),
                                                ),
                                                Some(child) => walk_program(
                                                    placed.with_hub(
                                                        child,
                                                        hub,
                                                        (entry.depth + 1) as u8,
                                                    ),
                                                    child,
                                                    hub,
                                                    1,
                                                    (levels - 1) as nat,
                                                ),
                                            },
                                        },
                                )
                            } else {
                                Program::Return((placed, false))
                            }
                        },
                ),
            },
    )
}

/// Look at the ports of a new hub, from `port` on, and bring up what is connected.
pub open spec fn walk_program(
    bus: BusState,
    index: int,
    hub: Hub,
    port: int,
    levels: nat,
) -> BusProgram<Walked>
    decreases levels, 1nat, MAX_PORTS + 1 - port,
{
    if port > tracked_ports(hub) {
        Program::Return((bus, false))
    } else {
        session::port_step(
            BusOp::LookAt(hub, port as u8),
            |looked: Result<PortStatus, EnumerationError>|
                match looked {
                    Err(error) => walk_program(bus, index, hub, port + 1, levels),
                    Ok(status) => if !status.is_connected() {
                        walk_program(bus, index, hub, port + 1, levels)
                    } else {
                        attach_program(bus, index, port as u8, levels).bind(
                            |walked: Walked|
                                if walked.1 {
                                    Program::Return((walked.0, true))
                                } else {
                                    walk_program(walked.0, index, hub, port + 1, levels)
                                },
                        )
                    },
                },
        )
    }
}

/// Forget the hub with the given address, and everything behind it.
pub open spec fn forget_program(bus: BusState, address: u8, levels: nat) -> BusProgram<Walked>
    decreases levels, 0nat, 0int,
{
    match place_of(bus.hubs, address, 0) {
        None => Program::Return((bus, false)),
        Some(index) => if levels == 0 {
            Program::Return((bus, false))
        } else {
            forget_ports_program(
                BusState { hubs: bus.hubs.update(index, None), ..bus },
                address,
                bus.hubs[index]->0.ports,
                0,
                false,
                (levels - 1) as nat,
            )
        },
    }
}

/// Forget what was connected to the ports of a hub, from `at` on: each device
/// after what is behind it. The application is told of every one of them, even
/// after it has asked to stop.
pub open spec fn forget_ports_program(
    bus: BusState,
    address: u8,
    ports: Seq<u8>,
    at: int,
    stop: bool,
    levels: nat,
) -> BusProgram<Walked>
    decreases levels, 1nat, MAX_PORTS - at,
{
    if at >= MAX_PORTS {
        Program::Return((bus, stop))
    } else if ports[at] == 0 || ports[at] == PORT_FAILED {
        forget_ports_program(bus, address, ports, at + 1, stop, levels)
    } else {
        forget_program(bus, ports[at], levels).bind(
            |walked: Walked|
                session::ask(
                    BusOp::Tell(
                        Event::Detached {
                            hub_address: address,
                            port: (at + 1) as u8,
                            address: ports[at],
                        },
                    ),
                    |more: bool|
                        forget_ports_program(
                            walked.0.releasing(ports[at]),
                            address,
                            ports,
                            at + 1,
                            stop || walked.1 || more,
                            levels,
                        ),
                ),
        )
    }
}

/// Forget what was connected to a port.
pub open spec fn detach_program(bus: BusState, index: int, port: u8) -> BusProgram<Walked> {
    match bus.hubs[index] {
        None => Program::Return((bus, false)),
        Some(entry) => {
            let address = entry.ports[port - 1];
            let cleared = bus.with_port(index, port as int, 0);
            if address == 0 {
                Program::Return((cleared, false))
            } else {
                forget_program(cleared, address, MAX_HUBS as nat).bind(
                    |walked: Walked|
                        session::ask(
                            BusOp::Tell(
                                Event::Detached {
                                    hub_address: entry.hub.endpoint.address,
                                    port,
                                    address,
                                },
                            ),
                            |stop: bool|
                                Program::Return(
                                    (walked.0.releasing(address), walked.1 || stop),
                                ),
                        ),
                )
            }
        },
    }
}

/// Act on what a look at a port showed.
pub open spec fn react_program(bus: BusState, index: int, port: u8, connected: bool) -> BusProgram<
    Walked,
> {
    let known = bus.known(index, port as int);
    if connected {
        if known == 0 {
            attach_program(bus, index, port, MAX_HUB_DEPTH as nat)
        } else {
            Program::Return((bus, false))
        }
    } else if known == 0 {
        Program::Return((bus, false))
    } else if known == PORT_FAILED {
        Program::Return((bus.with_port(index, port as int, 0), false))
    } else {
        detach_program(bus, index, port)
    }
}

/// Look at the ports of a hub, from `port` on, and act on what has changed.
pub open spec fn sweep_program(bus: BusState, index: int, hub: Hub, port: int) -> BusProgram<Walked>
    decreases MAX_PORTS + 1 - port,
{
    if port > tracked_ports(hub) {
        Program::Return((bus, false))
    } else {
        session::port_step(
            BusOp::LookAt(hub, port as u8),
            |looked: Result<PortStatus, EnumerationError>|
                match looked {
                    Err(error) => sweep_program(bus, index, hub, port + 1),
                    Ok(status) => react_program(
                        bus,
                        index,
                        port as u8,
                        status.is_connected(),
                    ).bind(
                        |walked: Walked|
                            {
                                let rest = if walked.1 {
                                    Program::Return((walked.0, true))
                                } else {
                                    sweep_program(walked.0, index, hub, port + 1)
                                };
                                if status.is_connected() != (bus.known(index, port) != 0) {
                                    session::act(
                                        BusOp::Acknowledge(hub.endpoint, port as u8),
                                        rest,
                                    )
                                } else {
                                    rest
                                }
                            },
                    ),
                },
        )
    }
}

/// Look at the hubs from `index` on.
pub open spec fn poll_hubs_program(bus: BusState, index: int) -> BusProgram<BusState>
    decreases MAX_HUBS - index,
{
    if index >= MAX_HUBS {
        Program::Return(bus)
    } else {
        match bus.hubs[index] {
            None => poll_hubs_program(bus, index + 1),
            Some(entry) => sweep_program(bus, index, entry.hub, 1).bind(
                |walked: Walked|
                    if walked.1 {
                        Program::Return(walked.0)
                    } else {
                        poll_hubs_program(walked.0, index + 1)
                    },
            ),
        }
    }
}

/// What a walk of the bus comes to: the bus, with the fault taken out of it and
/// made the result.
pub type Enumerated = (BusState, Result<(), EnumerationError>);

/// Give the channel back, and make the fault, if any, the result.
pub open spec fn conclude(bus: BusState) -> BusProgram<Enumerated> {
    session::act(
        BusOp::ReturnChannel,
        Program::Return(
            (
                BusState { fault: None, ..bus },
                match bus.fault {
                    Some(error) => Err(error),
                    None => Ok(()),
                },
            ),
        ),
    )
}

/// Give the channel back after a failure.
pub open spec fn give_up(bus: BusState, error: EnumerationError) -> BusProgram<Enumerated> {
    session::act(BusOp::ReturnChannel, Program::Return((bus, Err(error))))
}

/// No hub is kept track of.
pub open spec fn no_hubs(hubs: Seq<Option<HubEntry>>) -> bool {
    forall|i: int| 0 <= i < hubs.len() ==> #[trigger] hubs[i] is None
}

/// Look at every hub; if there is none, do nothing.
pub open spec fn poll_program(bus: BusState) -> BusProgram<Enumerated> {
    if no_hubs(bus.hubs) {
        Program::Return((bus, Ok(())))
    } else {
        session::ask(
            BusOp::TakeChannel,
            |taken: bool|
                if !taken {
                    Program::Return((bus, Err(EnumerationError::OutOfChannels)))
                } else {
                    poll_hubs_program(bus, 0).bind(|polled: BusState| conclude(polled))
                },
        )
    }
}

/// If a step at this place of the history took a channel, it got one if and only if the
/// controller had one left.
pub open spec fn channel_taken<H>(
    before: Dwc2Host<H>,
    history: BusHistory,
    place: int,
) -> bool {
    0 <= place < history.len() ==> history[place] == Exchange {
        request: BusOp::TakeChannel,
        answer: BusAnswer::Flag(before.has_free()),
    }
}

/// Bring up the hub on the root port, and walk the bus from there.
pub open spec fn root_program() -> BusProgram<Enumerated> {
    let bus = BusState::empty();
    session::root_speed(
        |speed: u8|
            session::probe(
                ControlEndpoint {
                    address: 0,
                    low_speed: speed == 2,
                    max_packet_size: 8,
                    split: None,
                },
                1,
                |probed: Result<
                    (ControlEndpoint, DeviceDescriptor),
                    crate::usb::dwc2::TransferError,
                >|
                    match probed {
                        Err(error) => give_up(
                            bus.taking(1),
                            EnumerationError::Transfer(error),
                        ),
                        Ok(found) => session::root_speed(
                            |now: u8|
                                session::configure(
                                    found.0,
                                    now == 0,
                                    |configured: Result<Hub, EnumerationError>|
                                        match configured {
                                            Err(error) => give_up(bus.taking(1), error),
                                            Ok(hub) => walk_program(
                                                bus.taking(1).with_hub(0, hub, 0),
                                                0,
                                                hub,
                                                1,
                                                MAX_HUB_DEPTH as nat,
                                            ).bind(|walked: Walked| conclude(walked.0)),
                                        },
                                ),
                        ),
                    },
            ),
    )
}

/// Forget everything, reset the root port, and walk the bus anew. What was known of the bus
/// before makes no difference.
pub open spec fn enumerate_program() -> BusProgram<Enumerated> {
    session::ask(
        BusOp::RootConnected,
        |connected: bool|
            if !connected {
                Program::Return((BusState::empty(), Err(EnumerationError::NotConnected)))
            } else {
                session::act(
                    BusOp::ResetRoot,
                    session::ask(
                        BusOp::RootEnabled,
                        |enabled: bool|
                            if !enabled {
                                Program::Return(
                                    (BusState::empty(), Err(EnumerationError::PortNotEnabled)),
                                )
                            } else {
                                session::ask(
                                    BusOp::TakeChannel,
                                    |taken: bool|
                                        if !taken {
                                            Program::Return(
                                                (
                                                    BusState::empty(),
                                                    Err(EnumerationError::OutOfChannels),
                                                ),
                                            )
                                        } else {
                                            root_program()
                                        },
                                )
                            },
                    ),
                )
            },
    )
}

/// The bus, and the controller that it hangs on.
pub struct Bus<H> {
    session: Session<H>,
    addresses: u128,
    hubs: [Option<HubRecord>; 8],
    fault: Option<EnumerationError>,
}

/// Whether an address is in a 128-bit map.
pub open spec fn address_bit(map: u128, address: int) -> bool {
    0 <= address < 128 && map & (1u128 << (address as u128)) != 0
}

/// What taking and giving back addresses comes to. The one that is taken is the lowest of
/// 1 to 127 that is free, and there is one unless all of them are taken; one that is given
/// back is free again, and nothing else changes, so only such addresses are ever taken.
/// [`PORT_FAILED`] is no address: to give it back changes nothing.
pub proof fn law_addresses(bus: BusState, back: u8)
    requires
        bus.wf(),
    ensures
        match free_address(bus.addresses, 1) {
            Some(address) => {
                &&& 1 <= address <= MAX_ADDRESS
                &&& !bus.addresses.contains(address as int)
                &&& forall|lower: int| 1 <= lower < address ==> #[trigger] bus.addresses.contains(lower)
                &&& bus.taking(address).addresses == bus.addresses.insert(address as int)
                &&& bus.taking(address).wf()
            },
            None => forall|address: int|
                1 <= address <= MAX_ADDRESS ==> #[trigger] bus.addresses.contains(address),
        },
        bus.releasing(back).addresses == bus.addresses.remove(back as int),
        1 <= back <= MAX_ADDRESS ==> (free_address(bus.releasing(back).addresses, 1) matches Some(
            next,
        ) && next <= back),
        bus.releasing(PORT_FAILED) == bus,
{
    lemma_free_address(bus.addresses, 1);
    lemma_free_address(bus.releasing(back).addresses, 1);
    assert(!bus.releasing(back).addresses.contains(back as int));
    assert(bus.addresses.remove(PORT_FAILED as int) =~= bus.addresses);
    assert(bus.releasing(PORT_FAILED) =~= bus);
}

proof fn lemma_free_address(addresses: Set<int>, from: int)
    requires
        1 <= from <= MAX_ADDRESS + 1,
    ensures
        match free_address(addresses, from) {
            Some(address) => {
                &&& from <= address <= MAX_ADDRESS
                &&& !addresses.contains(address as int)
                &&& forall|lower: int| from <= lower < address ==> #[trigger] addresses.contains(lower)
            },
            None => forall|address: int|
                from <= address <= MAX_ADDRESS ==> #[trigger] addresses.contains(address),
        },
    decreases MAX_ADDRESS + 1 - from,
{
    if from <= MAX_ADDRESS && addresses.contains(from) {
        lemma_free_address(addresses, from + 1);
    }
}

proof fn lemma_address_bits(map: u128, at: u128, other: u128)
    by (bit_vector)
    requires
        at < 128,
        other < 128,
    ensures
        ((map | (1u128 << at)) & (1u128 << other) != 0) == (at == other || map & (1u128 << other)
            != 0),
        ((map & !(1u128 << at)) & (1u128 << other) != 0) == (at != other && map & (1u128 << other)
            != 0),
        0u128 & (1u128 << other) == 0,
{
}

spec fn entries(hubs: Seq<Option<HubRecord>>) -> Seq<Option<HubEntry>> {
    hubs.map_values(
        |record: Option<HubRecord>|
            match record {
                Some(record) => Some(record.entry()),
                None => None,
            },
    )
}

impl<H> View for Bus<H> {
    type V = BusState;

    closed spec fn view(&self) -> BusState {
        BusState {
            addresses: Set::new(|address: int| address_bit(self.addresses, address)),
            hubs: entries(self.hubs@),
            fault: self.fault,
        }
    }
}

impl<H> Bus<H> {
    /// The steps that have been made.
    pub closed spec fn history(&self) -> BusHistory {
        self.session@
    }

    /// The controller.
    pub closed spec fn controller(&self) -> Dwc2Host<H> {
        self.session.controller()
    }

    /// The steps that have been made, with what they did to the controller.
    pub closed spec fn deeds(&self) -> Seq<Deed> {
        self.session.deeds()
    }

    /// What had been done to the controller's registers before the first step.
    pub closed spec fn origin(&self) -> HwHistory {
        self.session.origin()
    }

    /// Every step was really made, and nothing else was done to the controller.
    pub closed spec fn faithful(&self) -> bool {
        self.session.faithful()
    }

    /// What holds in the middle of a walk, too.
    pub open spec fn sound(&self) -> bool {
        self@.wf() && self.controller().wf() && self.faithful()
    }

    /// What every bus keeps: in particular, every address and every hub is accounted for.
    pub open spec fn wf(&self) -> bool {
        self.sound() && topology::tidy(self@)
    }

    /// A step of the history is never made up: it stands for transfers that were made on
    /// the channel, or for accesses to the registers, which are a run of what the step
    /// means and returned its answer; and the registers saw nothing else.
    pub proof fn law_steps_are_made(&self)
        requires
            self.wf(),
        ensures
            self.history() == self.deeds().map_values(|deed: Deed| deed.exchange()),
            forall|i: int| 0 <= i < self.deeds().len() ==> (#[trigger] self.deeds()[i]).made(),
            self.controller().registers() == self.origin() + session::on_registers(self.deeds()),
    {
        self.session.lemma_faithful();
    }

    spec fn walking(&self) -> bool {
        self.session.ready() && self.sound()
    }
}

impl<H: Dwc2Registers> Bus<H> {
    /// A bus with nothing known about it.
    pub fn new(dwc2: Dwc2Host<H>) -> (bus: Self)
        requires
            dwc2.wf(),
        ensures
            bus.wf(),
            bus@ == BusState::empty(),
            bus.controller() == dwc2,
            bus.origin() == dwc2.registers(),
            bus.history() == BusHistory::empty(),
    {
        let bus = Bus { session: Session::new(dwc2), addresses: 0, hubs: [None;8], fault: None };
        proof {
            bus.lemma_blank();
            topology::law_empty_is_tidy();
        }
        bus
    }

    proof fn lemma_blank(self)
        requires
            self.addresses == 0,
            forall|i: int| 0 <= i < 8 ==> self.hubs@[i] is None,
            self.fault is None,
        ensures
            self@ == BusState::empty(),
            self@.wf(),
    {
        assert forall|address: int| !self@.addresses.contains(address) by {
            if 0 <= address < 128 {
                lemma_address_bits(0, 0, address as u128);
            }
        }
        assert(self@.addresses =~= Set::<int>::empty());
        assert(self@.hubs =~= BusState::empty().hubs);
    }

    /// The controller.
    pub fn host(&self) -> (host: &Dwc2Host<H>)
        ensures
            *host == self.controller(),
    {
        self.session.host()
    }

    /// Gives the controller back.
    pub fn into_host(self) -> (host: Dwc2Host<H>)
        ensures
            host == self.controller(),
    {
        self.session.into_host()
    }

    /// Hands a channel out, for a driver to keep.
    pub fn alloc_channel(&mut self) -> (channel: Option<Channel<H>>)
        requires
            old(self).wf(),
        ensures
            final(self).wf(),
            final(self)@ == old(self)@,
            final(self).history() == old(self).history(),
            final(self).deeds() == old(self).deeds(),
            host::handed_out(old(self).controller(), final(self).controller(), channel),
    {
        self.session.alloc_channel()
    }

    /// Takes such a channel back.
    pub fn free_channel(&mut self, channel: Channel<H>)
        requires
            old(self).wf(),
        ensures
            final(self).wf(),
            final(self)@ == old(self)@,
            final(self).history() == old(self).history(),
            final(self).deeds() == old(self).deeds(),
            final(self).controller().channels() == old(self).controller().channels(),
            final(self).controller().registers() == old(self).controller().registers(),
            final(self).controller().in_use() == old(self).controller().in_use().remove(
                channel.number() as int,
            ),
    {
        self.session.free_channel(channel)
    }

    /// Forgets everything known of the bus, resets the root port and walks the whole
    /// bus, telling `listener` of every device.
    pub fn enumerate<L: BusListener<H>>(&mut self, listener: &mut L) -> (result: Result<
        (),
        EnumerationError,
    >)
        requires
            old(self).wf(),
        ensures
            final(self).wf(),
            final(self).controller().in_use() == old(self).controller().in_use(),
            enumerate_program().ran(
                old(self).history(),
                final(self).history(),
                (final(self)@, result),
            ),
            channel_taken(
                old(self).controller(),
                final(self).history(),
                old(self).history().len() as int + 3,
            ),
    {
        let ghost start = self.history().len() as int;
        self.addresses = 0;
        self.hubs = [None;8];
        self.fault = None;
        proof {
            self.lemma_blank();
            topology::law_empty_is_tidy();
            topology::law_nothing_is_lost(self@);
        }

        if !self.session.root_connected() {
            return Err(EnumerationError::NotConnected);
        }
        self.session.reset_root();
        if !self.session.root_enabled() {
            return Err(EnumerationError::PortNotEnabled);
        }
        let ghost used = self.controller().in_use();

        if !self.session.take_channel() {
            return Err(EnumerationError::OutOfChannels);
        }
        let ghost number = self.session.taken();
        let ghost taken = self.history();
        assert(taken.len() == start + 4);
        let result = self.enumerate_root(listener);
        assert(used.insert(number).remove(number) =~= used);
        assert(self.history().take(start + 4)[start + 3] == taken[start + 3]);
        proof {
            crate::program::law_ends_in(
                enumerate_program(),
                |done: Enumerated| topology::tidy(done.0),
                old(self).history(),
                self.history(),
                (self@, result),
            );
        }
        result
    }

    fn enumerate_root<L: BusListener<H>>(&mut self, listener: &mut L) -> (result: Result<
        (),
        EnumerationError,
    >)
        requires
            old(self).walking(),
            old(self)@ == BusState::empty(),
        ensures
            final(self).sound(),
            final(self).controller().in_use() == old(self).controller().in_use().remove(
                old(self).session.taken(),
            ),
            root_program().ran(
                old(self).history(),
                final(self).history(),
                (final(self)@, result),
            ),
    {
        let speed: u8 = self.session.root_speed();
        let root = ControlEndpoint {
            address: 0,
            low_speed: speed == 2,
            max_packet_size: 8,
            split: None,
        };
        let address: u8 = match self.take_address() {
            Some(address) => address,
            None => 0,
        };
        assert(free_address(BusState::empty().addresses, 1) == Some(1u8));
        let (endpoint, _) = match self.session.probe(root, address) {
            Ok(found) => found,
            Err(error) => {
                self.session.return_channel();
                return Err(EnumerationError::Transfer(error));
            },
        };
        let now: u8 = self.session.root_speed();
        let hub: Hub = match self.session.configure(endpoint, now == 0) {
            Ok(hub) => hub,
            Err(error) => {
                self.session.return_channel();
                return Err(error);
            },
        };
        assert(free_place(self@.hubs, 0) == Some(0int));
        let index: usize = match self.record_hub(hub, 0) {
            Some(index) => index,
            None => 0,
        };
        let _ = self.walk_hub(index, listener, Ghost(MAX_HUB_DEPTH as nat));
        self.finish()
    }

    fn finish(&mut self) -> (result: Result<(), EnumerationError>)
        requires
            old(self).walking(),
        ensures
            final(self).sound(),
            final(self).controller().in_use() == old(self).controller().in_use().remove(
                old(self).session.taken(),
            ),
            conclude(old(self)@).ran(
                old(self).history(),
                final(self).history(),
                (final(self)@, result),
            ),
    {
        self.session.return_channel();
        match self.fault.take() {
            Some(error) => Err(error),
            None => Ok(()),
        }
    }

    /// Looks at every hub, and tells `listener` of what has come and gone.
    pub fn poll<L: BusListener<H>>(&mut self, listener: &mut L) -> (result: Result<
        (),
        EnumerationError,
    >)
        requires
            old(self).wf(),
        ensures
            final(self).wf(),
            final(self).controller().in_use() == old(self).controller().in_use(),
            poll_program(old(self)@).ran(
                old(self).history(),
                final(self).history(),
                (final(self)@, result),
            ),
            channel_taken(
                old(self).controller(),
                final(self).history(),
                old(self).history().len() as int,
            ),
    {
        let ghost start = self.history().len() as int;
        proof {
            crate::program::begin(self.history(), poll_program(self@));
        }
        if !self.tracks_any() {
            return Ok(());
        }
        let ghost used = self.controller().in_use();
        if !self.session.take_channel() {
            return Err(EnumerationError::OutOfChannels);
        }
        let ghost number = self.session.taken();
        let ghost taken = self.history();
        self.poll_hubs(listener);
        let ghost polled = self.history();
        let result = self.finish();
        assert(used.insert(number).remove(number) =~= used);
        assert(polled.take(start + 1)[start] == taken[start]);
        assert(self.history().take(polled.len() as int)[start] == polled[start]);
        proof {
            topology::law_nothing_is_lost(old(self)@);
            crate::program::law_ends_in(
                poll_program(old(self)@),
                |done: Enumerated| topology::tidy(done.0),
                old(self).history(),
                self.history(),
                (self@, result),
            );
        }
        result
    }

    fn tracks_any(&self) -> (any: bool)
        requires
            self.sound(),
        ensures
            any == !no_hubs(self@.hubs),
    {
        let mut index: usize = 0;
        while index < MAX_HUBS
            invariant
                self.sound(),
                index <= MAX_HUBS,
                forall|i: int| 0 <= i < index ==> #[trigger] self@.hubs[i] is None,
            decreases MAX_HUBS - index,
        {
            if self.hubs[index].is_some() {
                assert(self@.hubs[index as int] is Some);
                return true;
            }
            index = index + 1;
        }
        false
    }

    fn poll_hubs<L: BusListener<H>>(&mut self, listener: &mut L)
        requires
            old(self).walking(),
        ensures
            final(self).walking(),
            final(self).session.taken() == old(self).session.taken(),
            final(self).controller() == old(self).controller(),
            poll_hubs_program(old(self)@, 0).ran(
                old(self).history(),
                final(self).history(),
                final(self)@,
            ),
    {
        proof {
            crate::program::begin(self.history(), poll_hubs_program(self@, 0));
        }
        let mut index: usize = 0;
        while index < MAX_HUBS
            invariant
                index <= MAX_HUBS,
                self.walking(),
                self.session.taken() == old(self).session.taken(),
                self.controller() == old(self).controller(),
                poll_hubs_program(old(self)@, 0).leads(
                    old(self).history(),
                    self.history(),
                    poll_hubs_program(self@, index as int),
                ),
            decreases MAX_HUBS - index,
        {
            match self.hubs[index] {
                Some(record) => {
                    if self.sweep_hub(index, &record.hub, listener) {
                        return;
                    }
                },
                None => {},
            }
            index = index + 1;
        }
    }

    fn sweep_hub<L: BusListener<H>>(&mut self, index: usize, hub: &Hub, listener: &mut L) -> (stop:
        bool)
        requires
            old(self).walking(),
            index < MAX_HUBS,
        ensures
            final(self).walking(),
            final(self).session.taken() == old(self).session.taken(),
            final(self).controller() == old(self).controller(),
            sweep_program(old(self)@, index as int, *hub, 1).ran(
                old(self).history(),
                final(self).history(),
                (final(self)@, stop),
            ),
    {
        let ghost whole = sweep_program(self@, index as int, *hub, 1);
        proof {
            crate::program::begin(self.history(), whole);
        }
        let count: u8 = if hub.num_ports <= 15 {
            hub.num_ports
        } else {
            15
        };
        let mut port: u8 = 1;
        while port <= count
            invariant
                self.walking(),
                index < MAX_HUBS,
                count == tracked_ports(*hub),
                1 <= port <= count + 1,
                count <= 15,
                self.session.taken() == old(self).session.taken(),
                self.controller() == old(self).controller(),
                whole == sweep_program(old(self)@, index as int, *hub, 1),
                whole.leads(
                    old(self).history(),
                    self.history(),
                    sweep_program(self@, index as int, *hub, port as int),
                ),
            decreases count + 1 - port,
        {
            let looked = self.session.look_at(hub, port);
            match looked {
                Ok(status) => {
                    let known: u8 = self.known(index, port);
                    let connected: bool = status.connected();
                    let stop: bool = self.react(index, port, connected, known, listener);
                    if connected != (known != 0) {
                        self.session.acknowledge(hub.endpoint(), port);
                    }
                    if stop {
                        return true;
                    }
                },
                Err(_) => {},
            }
            port = port + 1;
        }
        false
    }

    fn react<L: BusListener<H>>(
        &mut self,
        index: usize,
        port: u8,
        connected: bool,
        known: u8,
        listener: &mut L,
    ) -> (stop: bool)
        requires
            old(self).walking(),
            index < MAX_HUBS,
            1 <= port <= MAX_PORTS,
            known == old(self)@.known(index as int, port as int),
        ensures
            final(self).walking(),
            final(self).session.taken() == old(self).session.taken(),
            final(self).controller() == old(self).controller(),
            react_program(old(self)@, index as int, port, connected).ran(
                old(self).history(),
                final(self).history(),
                (final(self)@, stop),
            ),
    {
        if connected {
            if known == 0 {
                self.attach(index, port, listener, Ghost(MAX_HUB_DEPTH as nat))
            } else {
                false
            }
        } else if known == 0 {
            false
        } else if known == PORT_FAILED {
            self.set_port(index, port, 0);
            false
        } else {
            self.detach(index, port, listener)
        }
    }

    fn walk_hub<L: BusListener<H>>(
        &mut self,
        index: usize,
        listener: &mut L,
        Ghost(levels): Ghost<nat>,
    ) -> (stop: bool)
        requires
            old(self).walking(),
            index < MAX_HUBS,
            old(self)@.hubs[index as int] is Some,
            levels + old(self)@.hubs[index as int]->0.depth >= MAX_HUB_DEPTH,
        ensures
            final(self).walking(),
            final(self).session.taken() == old(self).session.taken(),
            final(self).controller() == old(self).controller(),
            forall|i: int|
                0 <= i < MAX_HUBS && old(self)@.hubs[i] is Some ==> same_hub(
                    #[trigger] final(self)@.hubs[i],
                    old(self)@.hubs[i],
                ),
            walk_program(
                old(self)@,
                index as int,
                old(self)@.hubs[index as int]->0.hub,
                1,
                levels,
            ).ran(old(self).history(), final(self).history(), (final(self)@, stop)),
        decreases levels, 1nat,
    {
        let record: HubRecord = match self.hubs[index] {
            Some(record) => record,
            None => return false,
        };
        let ghost whole = walk_program(self@, index as int, record.hub, 1, levels);
        proof {
            crate::program::begin(self.history(), whole);
        }
        let count: u8 = if record.hub.num_ports <= 15 {
            record.hub.num_ports
        } else {
            15
        };
        let mut port: u8 = 1;
        while port <= count
            invariant
                self.walking(),
                index < MAX_HUBS,
                count == tracked_ports(record.hub),
                1 <= port <= count + 1,
                count <= 15,
                levels + record.depth >= MAX_HUB_DEPTH,
                self.session.taken() == old(self).session.taken(),
                self.controller() == old(self).controller(),
                old(self)@.hubs[index as int] == Some(record.entry()),
                forall|i: int|
                    0 <= i < MAX_HUBS && old(self)@.hubs[i] is Some ==> same_hub(
                        #[trigger] self@.hubs[i],
                        old(self)@.hubs[i],
                    ),
                whole == walk_program(old(self)@, index as int, record.hub, 1, levels),
                whole.leads(
                    old(self).history(),
                    self.history(),
                    walk_program(self@, index as int, record.hub, port as int, levels),
                ),
            decreases count + 1 - port,
        {
            let looked = self.session.look_at(&record.hub, port);
            match looked {
                Ok(status) => {
                    if status.connected() {
                        assert(same_hub(self@.hubs[index as int], old(self)@.hubs[index as int]));
                        if self.attach(index, port, listener, Ghost(levels)) {
                            return true;
                        }
                    }
                },
                Err(_) => {},
            }
            port = port + 1;
        }
        false
    }

    fn attach<L: BusListener<H>>(
        &mut self,
        index: usize,
        port: u8,
        listener: &mut L,
        Ghost(levels): Ghost<nat>,
    ) -> (stop: bool)
        requires
            old(self).walking(),
            index < MAX_HUBS,
            1 <= port <= MAX_PORTS,
            old(self)@.hubs[index as int] matches Some(entry) ==> levels + entry.depth
                >= MAX_HUB_DEPTH,
        ensures
            final(self).walking(),
            final(self).session.taken() == old(self).session.taken(),
            final(self).controller() == old(self).controller(),
            forall|i: int|
                0 <= i < MAX_HUBS && old(self)@.hubs[i] is Some ==> same_hub(
                    #[trigger] final(self)@.hubs[i],
                    old(self)@.hubs[i],
                ),
            attach_program(old(self)@, index as int, port, levels).ran(
                old(self).history(),
                final(self).history(),
                (final(self)@, stop),
            ),
        decreases levels, 0nat,
    {
        let record: HubRecord = match self.hubs[index] {
            Some(record) => record,
            None => return false,
        };
        assert(self@.hubs[index as int] == Some(record.entry()));

        let status: PortStatus = match self.session.reset(&record.hub, port) {
            Ok(status) => status,
            Err(_) => {
                self.set_port(index, port, PORT_FAILED);
                return false;
            },
        };
        if !status.enabled() {
            self.set_port(index, port, PORT_FAILED);
            return false;
        }

        let address: u8 = match self.take_address() {
            Some(address) => address,
            None => {
                self.fault = Some(EnumerationError::OutOfAddresses);
                return true;
            },
        };
        let newcomer = ControlEndpoint {
            address: 0,
            low_speed: status.low_speed(),
            max_packet_size: 8,
            split: record.hub.split_target(port, &status),
        };
        let (endpoint, descriptor) = match self.session.probe(newcomer, address) {
            Ok(found) => found,
            Err(_) => {
                self.release_address(address);
                self.set_port(index, port, PORT_FAILED);
                return false;
            },
        };
        self.set_port(index, port, address);

        let device = Device {
            port,
            hub_address: record.hub.endpoint().address,
            depth: record.depth,
            endpoint,
            descriptor,
        };
        if self.session.tell(listener, Event::Attached(device)) {
            return true;
        }

        if descriptor.device_class == CLASS_HUB && record.depth < MAX_HUB_DEPTH {
            let hub: Hub = match self.session.configure(endpoint, status.high_speed()) {
                Ok(hub) => hub,
                Err(_) => return false,
            };
            let ghost before = self@;
            let child: usize = match self.record_hub(hub, record.depth + 1) {
                Some(child) => child,
                None => {
                    self.fault = Some(EnumerationError::TooManyHubs);
                    return true;
                },
            };
            assert(before.hubs[child as int] is None);
            return self.walk_hub(child, listener, Ghost((levels - 1) as nat));
        }
        false
    }

    fn detach<L: BusListener<H>>(&mut self, index: usize, port: u8, listener: &mut L) -> (stop: bool)
        requires
            old(self).walking(),
            index < MAX_HUBS,
            1 <= port <= MAX_PORTS,
            old(self)@.known(index as int, port as int) != PORT_FAILED,
        ensures
            final(self).walking(),
            final(self).session.taken() == old(self).session.taken(),
            final(self).controller() == old(self).controller(),
            detach_program(old(self)@, index as int, port).ran(
                old(self).history(),
                final(self).history(),
                (final(self)@, stop),
            ),
    {
        let record: HubRecord = match self.hubs[index] {
            Some(record) => record,
            None => return false,
        };
        assert(self@.hubs[index as int] == Some(record.entry()));
        let address: u8 = record.ports[port as usize - 1];
        self.set_port(index, port, 0);
        if address == 0 {
            return false;
        }
        let hub_address: u8 = record.hub.endpoint().address;

        proof {
            lemma_count_bound(self@.hubs, MAX_HUBS as int);
            assert(device_at(old(self)@.hubs, index as int, port - 1) == address);
            assert forall|i: int, p: int| is_place(i, p) implies #[trigger] device_at(
                self@.hubs,
                i,
                p,
            ) != address by {
                if i != index || p != port - 1 {
                    assert(device_at(self@.hubs, i, p) == device_at(old(self)@.hubs, i, p));
                }
            }
        }
        let below: bool = self.detach_subtree(address, listener, Ghost(MAX_HUBS as nat));
        self.release_address(address);
        let stop: bool = self.session.tell(
            listener,
            Event::Detached { hub_address, port, address },
        );
        below || stop
    }

    fn detach_subtree<L: BusListener<H>>(
        &mut self,
        address: u8,
        listener: &mut L,
        Ghost(levels): Ghost<nat>,
    ) -> (stop: bool)
        requires
            old(self).walking(),
            hub_count(old(self)@.hubs, MAX_HUBS as int) <= levels,
        ensures
            final(self).walking(),
            final(self).session.taken() == old(self).session.taken(),
            final(self).controller() == old(self).controller(),
            hub_count(final(self)@.hubs, MAX_HUBS as int) <= hub_count(
                old(self)@.hubs,
                MAX_HUBS as int,
            ),
            no_more(final(self)@.hubs, old(self)@.hubs),
            forget_program(old(self)@, address, levels).ran(
                old(self).history(),
                final(self).history(),
                (final(self)@, stop),
            ),
        decreases levels, 0nat,
    {
        let index: usize = match self.find_hub(address) {
            Some(index) => index,
            None => return false,
        };
        let record: HubRecord = match self.hubs[index] {
            Some(record) => record,
            None => return false,
        };
        let ghost before = self@;
        assert(before.hubs[index as int] == Some(record.entry()));
        proof {
            lemma_count_update(before.hubs, index as int, MAX_HUBS as int);
        }
        proof {
            lemma_vacant(before, index as int);
        }
        self.hubs[index] = None;
        assert(self@.hubs =~= before.hubs.update(index as int, None));
        assert(self@ =~= (BusState { hubs: before.hubs.update(index as int, None), ..before }));
        assert(levels > 0);
        self.detach_ports(address, &record.ports, listener, Ghost((levels - 1) as nat))
    }

    fn detach_ports<L: BusListener<H>>(
        &mut self,
        address: u8,
        ports: &[u8; 15],
        listener: &mut L,
        Ghost(levels): Ghost<nat>,
    ) -> (stop: bool)
        requires
            old(self).walking(),
            hub_count(old(self)@.hubs, MAX_HUBS as int) <= levels,
            forall|p: int|
                0 <= p < MAX_PORTS && is_address(#[trigger] ports@[p]) ==> old(self)@.unknown(
                    ports@[p],
                ),
        ensures
            final(self).walking(),
            final(self).session.taken() == old(self).session.taken(),
            final(self).controller() == old(self).controller(),
            hub_count(final(self)@.hubs, MAX_HUBS as int) <= hub_count(
                old(self)@.hubs,
                MAX_HUBS as int,
            ),
            no_more(final(self)@.hubs, old(self)@.hubs),
            forget_ports_program(old(self)@, address, ports@, 0, false, levels).ran(
                old(self).history(),
                final(self).history(),
                (final(self)@, stop),
            ),
        decreases levels, 1nat,
    {
        let ghost whole = forget_ports_program(self@, address, ports@, 0, false, levels);
        proof {
            crate::program::begin(self.history(), whole);
        }
        let mut stop: bool = false;
        let mut at: usize = 0;
        while at < MAX_PORTS
            invariant
                at <= MAX_PORTS,
                self.walking(),
                hub_count(self@.hubs, MAX_HUBS as int) <= hub_count(
                    old(self)@.hubs,
                    MAX_HUBS as int,
                ),
                hub_count(old(self)@.hubs, MAX_HUBS as int) <= levels,
                no_more(self@.hubs, old(self)@.hubs),
                forall|p: int|
                    0 <= p < MAX_PORTS && is_address(#[trigger] ports@[p]) ==> self@.unknown(
                        ports@[p],
                    ),
                self.session.taken() == old(self).session.taken(),
                self.controller() == old(self).controller(),
                whole == forget_ports_program(old(self)@, address, ports@, 0, false, levels),
                whole.leads(
                    old(self).history(),
                    self.history(),
                    forget_ports_program(self@, address, ports@, at as int, stop, levels),
                ),
            decreases MAX_PORTS - at,
        {
            let below: u8 = ports[at];
            if below != 0 && below != PORT_FAILED {
                let deeper: bool = self.detach_subtree(below, listener, Ghost(levels));
                self.release_address(below);
                let more: bool = self.session.tell(
                    listener,
                    Event::Detached { hub_address: address, port: at as u8 + 1, address: below },
                );
                stop = stop || deeper || more;
            }
            at = at + 1;
        }
        stop
    }

    fn known(&self, index: usize, port: u8) -> (known: u8)
        requires
            self.sound(),
            index < MAX_HUBS,
            1 <= port <= MAX_PORTS,
        ensures
            known == self@.known(index as int, port as int),
    {
        match self.hubs[index] {
            Some(record) => record.ports[port as usize - 1],
            None => 0,
        }
    }

    fn find_hub(&self, address: u8) -> (found: Option<usize>)
        requires
            self.sound(),
        ensures
            match found {
                Some(index) => {
                    &&& index < MAX_HUBS
                    &&& place_of(self@.hubs, address, 0) == Some(index as int)
                    &&& self@.hubs[index as int] is Some
                },
                None => place_of(self@.hubs, address, 0) is None,
            },
    {
        let mut index: usize = 0;
        while index < MAX_HUBS
            invariant
                self.sound(),
                index <= MAX_HUBS,
                place_of(self@.hubs, address, 0) == place_of(self@.hubs, address, index as int),
            decreases MAX_HUBS - index,
        {
            match self.hubs[index] {
                Some(record) => {
                    assert(self@.hubs[index as int] == Some(record.entry()));
                    if record.hub.endpoint().address == address {
                        return Some(index);
                    }
                },
                None => {
                    assert(self@.hubs[index as int] is None);
                },
            }
            index = index + 1;
        }
        None
    }

    fn take_address(&mut self) -> (address: Option<u8>)
        requires
            old(self).sound(),
        ensures
            final(self).sound(),
            final(self).session == old(self).session,
            address == free_address(old(self)@.addresses, 1),
            address matches Some(address) ==> {
                &&& 1 <= address <= MAX_ADDRESS
                &&& final(self)@.unknown(address)
            },
            final(self)@ == (match address {
                Some(address) => old(self)@.taking(address),
                None => old(self)@,
            }),
    {
        let mut address: u8 = 1;
        while address <= MAX_ADDRESS
            invariant
                *self == *old(self),
                self.sound(),
                1 <= address <= 128,
                free_address(self@.addresses, 1) == free_address(self@.addresses, address as int),
            decreases 128 - address,
        {
            if self.addresses & (1u128 << (address as u128)) == 0 {
                let ghost before = self@;
                let ghost map = self.addresses;
                self.addresses = self.addresses | (1u128 << (address as u128));
                proof {
                    assert forall|other: int|
                        self@.addresses.contains(other) == before.taking(
                            address,
                        ).addresses.contains(other) by {
                        if 0 <= other < 128 {
                            lemma_address_bits(map, address as u128, other as u128);
                        }
                    }
                    assert(self@ =~= before.taking(address));
                    assert(!before.addresses.contains(address as int));
                }
                return Some(address);
            }
            address = address + 1;
        }
        None
    }

    fn release_address(&mut self, address: u8)
        requires
            old(self).sound(),
            old(self)@.unknown(address),
        ensures
            final(self).sound(),
            final(self).session == old(self).session,
            final(self)@ == old(self)@.releasing(address),
    {
        let ghost before = self@;
        let ghost map = self.addresses;
        if address <= MAX_ADDRESS {
            self.addresses = self.addresses & !(1u128 << (address as u128));
        }
        proof {
            assert forall|other: int|
                self@.addresses.contains(other) == before.releasing(address).addresses.contains(
                    other,
                ) by {
                if 0 <= other < 128 && address < 128 {
                    lemma_address_bits(map, address as u128, other as u128);
                }
            }
            assert(self@ =~= before.releasing(address));
        }
    }

    fn record_hub(&mut self, hub: Hub, depth: u8) -> (place: Option<usize>)
        requires
            old(self).sound(),
            depth <= MAX_HUB_DEPTH,
        ensures
            final(self).sound(),
            final(self).session == old(self).session,
            match place {
                Some(index) => {
                    &&& index < MAX_HUBS
                    &&& free_place(old(self)@.hubs, 0) == Some(index as int)
                    &&& old(self)@.hubs[index as int] is None
                    &&& final(self)@ == old(self)@.with_hub(index as int, hub, depth)
                },
                None => {
                    &&& free_place(old(self)@.hubs, 0) is None
                    &&& final(self)@ == old(self)@
                },
            },
    {
        let mut index: usize = 0;
        while index < MAX_HUBS
            invariant
                *self == *old(self),
                self.sound(),
                index <= MAX_HUBS,
                depth <= MAX_HUB_DEPTH,
                free_place(self@.hubs, 0) == free_place(self@.hubs, index as int),
            decreases MAX_HUBS - index,
        {
            let vacant: bool = match self.hubs[index] {
                Some(_) => false,
                None => true,
            };
            if vacant {
                assert(self@.hubs[index as int] is None);
                let ghost before = self@;
                let record = HubRecord { hub, depth, ports: [0;15] };
                self.hubs[index] = Some(record);
                proof {
                    assert(record.ports@ =~= Seq::new(MAX_PORTS as nat, |i: int| 0u8));
                    assert(self@.hubs =~= before.with_hub(index as int, hub, depth).hubs);
                    assert(self@ =~= before.with_hub(index as int, hub, depth));
                    lemma_new_hub(before, index as int, hub, depth);
                }
                return Some(index);
            }
            assert(self@.hubs[index as int] is Some);
            index = index + 1;
        }
        None
    }

    fn set_port(&mut self, index: usize, port: u8, value: u8)
        requires
            old(self).sound(),
            index < MAX_HUBS,
            1 <= port <= MAX_PORTS,
            is_address(value) ==> old(self)@.unknown(value) && old(self)@.addresses.contains(
                value as int,
            ),
        ensures
            final(self).sound(),
            final(self).session == old(self).session,
            final(self)@ == old(self)@.with_port(index as int, port as int, value),
    {
        let ghost before = self@;
        match self.hubs[index] {
            Some(record) => {
                let mut changed: HubRecord = record;
                changed.ports[port as usize - 1] = value;
                self.hubs[index] = Some(changed);
                proof {
                    assert(before.hubs[index as int] == Some(record.entry()));
                    assert(self@.hubs =~= before.with_port(
                        index as int,
                        port as int,
                        value,
                    ).hubs);
                    assert(self@ =~= before.with_port(index as int, port as int, value));
                    lemma_port(before, index as int, port as int, value);
                }
            },
            None => {
                assert(before.hubs[index as int] is None);
            },
        }
    }
}

proof fn lemma_new_hub(bus: BusState, index: int, hub: Hub, depth: u8)
    requires
        bus.wf(),
        0 <= index < MAX_HUBS,
        bus.hubs[index] is None,
        depth <= MAX_HUB_DEPTH,
    ensures
        bus.with_hub(index, hub, depth).wf(),
{
    let now = bus.with_hub(index, hub, depth);
    assert forall|i: int, p: int| is_place(i, p) implies #[trigger] device_at(now.hubs, i, p)
        == device_at(bus.hubs, i, p) by {}
    assert forall|i: int| 0 <= i < MAX_HUBS implies entry_wf(#[trigger] now.hubs[i]) by {
        if i != index {
            assert(now.hubs[i] == bus.hubs[i]);
        }
    }
}

proof fn lemma_port(bus: BusState, index: int, port: int, value: u8)
    requires
        bus.wf(),
        0 <= index < MAX_HUBS,
        1 <= port <= MAX_PORTS,
        is_address(value) ==> bus.unknown(value) && bus.addresses.contains(value as int),
    ensures
        bus.with_port(index, port, value).wf(),
{
    let now = bus.with_port(index, port, value);
    if bus.hubs[index] is Some {
        assert forall|i: int, p: int| is_place(i, p) implies #[trigger] device_at(now.hubs, i, p)
            == (if i == index && p == port - 1 {
            value
        } else {
            device_at(bus.hubs, i, p)
        }) by {}
        assert forall|i: int| 0 <= i < MAX_HUBS implies entry_wf(#[trigger] now.hubs[i]) by {
            if i != index {
                assert(now.hubs[i] == bus.hubs[i]);
            } else {
                assert(entry_wf(bus.hubs[i]));
            }
        }
    }
}

proof fn lemma_vacant(bus: BusState, index: int)
    requires
        bus.wf(),
        0 <= index < MAX_HUBS,
        bus.hubs[index] is Some,
    ensures
        (BusState { hubs: bus.hubs.update(index, None), ..bus }).wf(),
        no_more(bus.hubs.update(index, None), bus.hubs),
        forall|p: int|
            0 <= p < MAX_PORTS && is_address(#[trigger] bus.hubs[index]->0.ports[p]) ==> (
            BusState { hubs: bus.hubs.update(index, None), ..bus }).unknown(
                bus.hubs[index]->0.ports[p],
            ),
{
    let now = BusState { hubs: bus.hubs.update(index, None), ..bus };
    assert forall|i: int, p: int| is_place(i, p) implies #[trigger] device_at(now.hubs, i, p) == (
    if i == index {
        0
    } else {
        device_at(bus.hubs, i, p)
    }) by {}
    assert forall|i: int| 0 <= i < MAX_HUBS implies entry_wf(#[trigger] now.hubs[i]) by {
        if i != index {
            assert(now.hubs[i] == bus.hubs[i]);
        }
    }
    assert forall|p: int|
        0 <= p < MAX_PORTS && is_address(
            #[trigger] bus.hubs[index]->0.ports[p],
        ) implies now.unknown(bus.hubs[index]->0.ports[p]) by {
        assert(device_at(bus.hubs, index, p) == bus.hubs[index]->0.ports[p]);
        assert forall|i: int, q: int| is_place(i, q) implies #[trigger] device_at(now.hubs, i, q)
            != bus.hubs[index]->0.ports[p] by {
            if i != index {
                assert(device_at(now.hubs, i, q) == device_at(bus.hubs, i, q));
            }
        }
    }
}

/// A hub that is still there, whatever is connected to its ports.
pub open spec fn same_hub(now: Option<HubEntry>, before: Option<HubEntry>) -> bool {
    &&& now is Some
    &&& now->0.hub == before->0.hub
    &&& now->0.depth == before->0.depth
}

proof fn lemma_count_bound(hubs: Seq<Option<HubEntry>>, count: int)
    requires
        0 <= count,
    ensures
        hub_count(hubs, count) <= count,
    decreases count,
{
    if count > 0 {
        lemma_count_bound(hubs, count - 1);
    }
}

proof fn lemma_count_update(hubs: Seq<Option<HubEntry>>, index: int, count: int)
    requires
        0 <= index < hubs.len(),
        0 <= count <= hubs.len(),
        hubs[index] is Some,
    ensures
        hub_count(hubs.update(index, None), count) == hub_count(hubs, count) - (if index < count {
            1int
        } else {
            0int
        }),
    decreases count,
{
    if count > 0 {
        lemma_count_update(hubs, index, count - 1);
    }
}

} // verus!

//! What becomes of a device that arrives: how it is spoken to before it has an address, what
//! the application is told of it, and how it is reached from then on.

use vstd::prelude::*;

use crate::program::Program;
use crate::usb::bus;
use crate::usb::bus::BusState;
use crate::usb::control;
use crate::usb::descriptor::DeviceDescriptor;
use crate::usb::control::Read;
use crate::usb::dwc2::{
    ControlEndpoint, Reply, SplitTarget, Transfer, TransferError, UsbHistory, UsbProgram,
};
use crate::usb::hub::{Hub, PortStatus};
use crate::usb::session::{BusAnswer, BusOp, Device, Event};
use crate::usb::EnumerationError;

verus! {

/// How a device that has just come out of a reset is spoken to: at the default address, in
/// packets of eight bytes. Bit 9 of the port's status says that it is a low-speed device and
/// bit 10 that it is a high-speed one. Behind a high-speed hub, whatever is not high speed is
/// spoken to through the translator of its port; behind a slower hub, through whatever the
/// hub itself is.
pub open spec fn fresh(hub: Hub, port: u8, status: u16) -> ControlEndpoint {
    ControlEndpoint {
        address: 0,
        low_speed: status / 512 % 2 == 1,
        max_packet_size: 8,
        split: if !hub.high_speed {
            hub.endpoint.split
        } else if status & 0x0400 == 0 {
            Some(SplitTarget { hub_address: hub.endpoint.address, port })
        } else {
            None
        },
    }
}

/// A device on a port that comes out of its reset enabled is probed as its port's status
/// says, for the lowest address that is free. What is found is told to the application, with
/// the hub and the port that it is on; and if it is a hub, at a depth at which hubs are
/// still looked behind, it is configured, as a high-speed hub if that is what its port says.
pub proof fn law_arrival(
    bus: BusState,
    index: int,
    port: u8,
    levels: nat,
    status: u16,
    found: (ControlEndpoint, DeviceDescriptor),
)
    requires
        0 <= index < bus.hubs.len(),
        bus.hubs[index] is Some,
        status / 2 % 2 == 1,
        1 <= found.0.address <= 127,
        !bus.addresses.contains(found.0.address as int),
        forall|lower: int|
            1 <= lower < found.0.address ==> #[trigger] bus.addresses.contains(lower),
    ensures
        ({
            let entry = bus.hubs[index]->0;
            let attach = bus::attach_program(bus, index, port, levels);
            let device = Device {
                port,
                hub_address: entry.hub.endpoint.address,
                depth: entry.depth,
                endpoint: found.0,
                descriptor: found.1,
            };
            let answers = seq![
                BusAnswer::Status(Ok(PortStatus(status))),
                BusAnswer::Probed(Ok(found)),
                BusAnswer::Flag(false),
            ];
            let told = seq![
                BusOp::Reset(entry.hub, port),
                BusOp::Probe(fresh(entry.hub, port, status), found.0.address),
                BusOp::Tell(Event::Attached(device)),
            ];
            attach.asked(answers) == if found.1.device_class == 9 && entry.depth < 4 && levels > 0 {
                told.push(BusOp::Configure(found.0, status / 1024 % 2 == 1))
            } else {
                told
            }
        }),
{
    reveal_with_fuel(Program::asked, 5);
    crate::usb::hub::law_port_status(PortStatus(status));
    crate::usb::hub::law_translator(bus.hubs[index]->0.hub, port, PortStatus(status));
    lemma_lowest(bus.addresses, 1, found.0.address as int);
    let entry = bus.hubs[index]->0;
    let first = bus::attach_program(bus, index, port, levels);
    let second = (first->Request_1)(BusAnswer::Status(Ok(PortStatus(status))));
    assert(second == bus::admit_program(
        bus.taking(found.0.address),
        index,
        entry,
        port,
        PortStatus(status),
        found.0.address,
        levels,
    ));
    assert(bus::newcomer(entry.hub, port, PortStatus(status)) == fresh(entry.hub, port, status));
    let third = (second->Request_1)(BusAnswer::Probed(Ok(found)));
    let last = (third->Request_1)(BusAnswer::Flag(false));
    let answers = seq![
        BusAnswer::Status(Ok(PortStatus(status))),
        BusAnswer::Probed(Ok(found)),
        BusAnswer::Flag(false),
    ];
    assert(answers.skip(1) =~= seq![BusAnswer::Probed(Ok(found)), BusAnswer::Flag(false)]);
    assert(answers.skip(1).skip(1) =~= seq![BusAnswer::Flag(false)]);
    assert(answers.skip(1).skip(1).skip(1).len() == 0);
}

proof fn lemma_lowest(addresses: Set<int>, from: int, lowest: int)
    requires
        1 <= from <= lowest <= 127,
        !addresses.contains(lowest),
        forall|lower: int| 1 <= lower < lowest ==> #[trigger] addresses.contains(lower),
    ensures
        bus::free_address(addresses, from) == Some(lowest as u8),
    decreases lowest - from,
{
    if from < lowest {
        assert(addresses.contains(from));
        lemma_lowest(addresses, from + 1, lowest);
    }
}

/// Bringing up a bus: the root port must have something connected to it, is reset, and must
/// come out of that enabled; a channel is taken; and what is there is probed for address 1,
/// directly, as a low-speed device if that is the port's speed. It is configured as a hub,
/// as a high-speed one if that is the port's speed, and its first port is looked at.
pub proof fn law_root(
    speed: u8,
    now: u8,
    found: (ControlEndpoint, DeviceDescriptor),
    hub: Hub,
)
    requires
        found.0.address == 1,
        hub.endpoint == found.0,
        hub.num_ports > 0,
    ensures
        bus::enumerate_program().asked(
            seq![
                BusAnswer::Flag(true),
                BusAnswer::Done,
                BusAnswer::Flag(true),
                BusAnswer::Flag(true),
                BusAnswer::Speed(speed),
                BusAnswer::Probed(Ok(found)),
                BusAnswer::Speed(now),
                BusAnswer::Configured(Ok(hub)),
            ],
        ) == seq![
            BusOp::RootConnected,
            BusOp::ResetRoot,
            BusOp::RootEnabled,
            BusOp::TakeChannel,
            BusOp::RootSpeed,
            BusOp::Probe(
                ControlEndpoint {
                    address: 0,
                    low_speed: speed == 2,
                    max_packet_size: 8,
                    split: None,
                },
                1,
            ),
            BusOp::RootSpeed,
            BusOp::Configure(found.0, now == 0),
            BusOp::LookAt(hub, 1),
        ],
{
    let second = seq![
        BusAnswer::Speed(speed),
        BusAnswer::Probed(Ok(found)),
        BusAnswer::Speed(now),
        BusAnswer::Configured(Ok(hub)),
    ];
    let all = seq![
        BusAnswer::Flag(true),
        BusAnswer::Done,
        BusAnswer::Flag(true),
        BusAnswer::Flag(true),
        BusAnswer::Speed(speed),
        BusAnswer::Probed(Ok(found)),
        BusAnswer::Speed(now),
        BusAnswer::Configured(Ok(hub)),
    ];
    reveal_with_fuel(Program::asked, 10);
    assert(all.skip(1).skip(1).skip(1).skip(1) =~= second);
    assert(all.skip(1)[0] == BusAnswer::Done);
    assert(all.skip(1).skip(1)[0] == BusAnswer::Flag(true));
    assert(all.skip(1).skip(1).skip(1)[0] == BusAnswer::Flag(true));
    assert(second.skip(1)[0] == BusAnswer::Probed(Ok(found)));
    assert(second.skip(1).skip(1)[0] == BusAnswer::Speed(now));
    assert(second.skip(1).skip(1).skip(1)[0] == BusAnswer::Configured(Ok(hub)));
    assert(second.skip(1).skip(1).skip(1).skip(1).len() == 0);
}

/// The ports of a hub, from one on.
pub open spec fn looks(hub: Hub, port: int) -> Seq<BusOp> {
    let last = if hub.num_ports <= 15 {
        hub.num_ports as int
    } else {
        15
    };
    Seq::new(
        if port <= last {
            (last - port + 1) as nat
        } else {
            0
        },
        |i: int| BusOp::LookAt(hub, (port + i) as u8),
    )
}

/// Every port of a new hub is looked at, from the first to the last, or to the fifteenth; if
/// nothing is connected to any, that is all, and the bus is as it was.
pub proof fn law_every_port_is_looked_at(
    bus: BusState,
    index: int,
    hub: Hub,
    port: int,
    levels: nat,
    empty: PortStatus,
)
    requires
        1 <= port,
        empty.0 % 2 == 0,
    ensures
        ({
            let program = bus::walk_program(bus, index, hub, port, levels);
            let answers = Seq::new(
                looks(hub, port).len(),
                |i: int| BusAnswer::Status(Ok(empty)),
            );
            &&& program.asked(answers) == looks(hub, port)
            &&& program.given(answers) == crate::usb::session::BusProgram::<bus::Walked>::Return(
                (bus, false),
            )
        }),
    decreases 16 - port,
{
    crate::usb::hub::law_port_status(empty);
    let program = bus::walk_program(bus, index, hub, port, levels);
    let all = looks(hub, port);
    let answers = Seq::new(all.len(), |i: int| BusAnswer::Status(Ok(empty)));
    if port <= bus::tracked_ports(hub) {
        law_every_port_is_looked_at(bus, index, hub, port + 1, levels, empty);
        let fewer = looks(hub, port + 1);
        assert(answers.skip(1) =~= Seq::new(fewer.len(), |i: int| BusAnswer::Status(Ok(empty))));
        assert(seq![BusOp::LookAt(hub, port as u8)] + fewer =~= all);
        assert(program.asked(answers) =~= all);
    } else {
        assert(program.asked(answers) =~= all);
    }
}

/// Acknowledging a change of connection is a request of the hub, for that port and that
/// change, and nothing else first.
pub proof fn law_acknowledged(hub: ControlEndpoint, port: u8, transfers: UsbHistory)
    requires
        crate::usb::session::was_acknowledged(hub, port, transfers),
    ensures
        transfers.len() > 0,
        transfers[0].request == Transfer::Setup(hub, seq![0x23, 1, 16, 0, port, 0, 0, 0]),
{
    crate::usb::control::requests::law_port_request(1, 16, port);
    let result = choose|result: Result<(), TransferError>| #[trigger]
        crate::usb::session::acknowledged(hub, port, transfers, result);
    let setup = control::port_setup(1, 16, port);
    let program = control::no_data_program(hub, setup);
    reveal_with_fuel(control::stage_program, 2);
    assert(program is Request && program->Request_0 == Transfer::Setup(hub, setup.packet()));
}

/// A transfer to a device at an address, and the way to it.
pub open spec fn goes_to(transfer: Transfer, device: ControlEndpoint) -> bool {
    let through = |endpoint: ControlEndpoint|
        endpoint.address == device.address && endpoint.low_speed == device.low_speed
            && endpoint.split == device.split;
    match transfer {
        Transfer::Setup(endpoint, packet) => through(endpoint),
        Transfer::DataIn(endpoint, len) => through(endpoint),
        Transfer::DataOut(endpoint, data) => through(endpoint),
        Transfer::StatusIn(endpoint) => through(endpoint),
        Transfer::StatusOut(endpoint) => through(endpoint),
        Transfer::DelayMs(ms) => true,
        _ => false,
    }
}

/// Every transfer that probing makes goes to the new device the way it is reached before it
/// has an address, its translator included; and the device that was found is reached the same
/// way from then on, at its new address, in packets of the size that its descriptor gives.
pub proof fn law_probe(probe: ControlEndpoint, address: u8)
    ensures
        control::probe_program(probe, address).every(|t: Transfer| goes_to(t, probe)),
        control::probe_program(probe, address).ends_in(
            |probed: Result<(ControlEndpoint, DeviceDescriptor), TransferError>|
                probed matches Ok(found) ==> found.0 == (ControlEndpoint {
                    address,
                    low_speed: probe.low_speed,
                    max_packet_size: found.1.max_packet_size0 as u16,
                    split: probe.split,
                }),
        ),
{
    broadcast use crate::program::lemma_every_bind, crate::program::lemma_ends_in_bind;

    let holds = |t: Transfer| goes_to(t, probe);
    let small = ControlEndpoint { max_packet_size: 8, ..probe };
    let tries = control::DESCRIPTOR_TRIES as nat;
    lemma_descriptor(
        small,
        control::descriptor_setup(0x80, 1, 0, 8),
        control::zeros(8),
        tries,
        holds,
    );
    assert forall|size: u16|
        (#[trigger] control::descriptor_program(
            ControlEndpoint { max_packet_size: size, ..probe },
            control::descriptor_setup(0x80, 1, 0, 18),
            control::zeros(18),
            tries,
        )).every(holds) by {
        lemma_descriptor(
            ControlEndpoint { max_packet_size: size, ..probe },
            control::descriptor_setup(0x80, 1, 0, 18),
            control::zeros(18),
            tries,
            holds,
        );
    }
    lemma_address(probe, address, holds);
}

proof fn lemma_stage(stage: Transfer, tries: nat, holds: spec_fn(Transfer) -> bool)
    requires
        holds(stage),
    ensures
        control::stage_program(stage, tries).every(holds),
    decreases tries,
{
    reveal_with_fuel(Program::every, 2);
    if tries > 0 {
        lemma_stage(stage, (tries - 1) as nat, holds);
    }
}

proof fn lemma_data(
    endpoint: ControlEndpoint,
    buf: Seq<u8>,
    tries: nat,
    holds: spec_fn(Transfer) -> bool,
)
    requires
        holds(Transfer::DataIn(endpoint, buf.len() as usize)),
    ensures
        control::data_program(endpoint, buf, tries).every(holds),
    decreases tries,
{
    reveal_with_fuel(Program::every, 2);
    if tries > 0 {
        lemma_data(endpoint, buf, (tries - 1) as nat, holds);
    }
}

proof fn lemma_read(
    endpoint: ControlEndpoint,
    setup: control::Setup,
    buf: Seq<u8>,
    holds: spec_fn(Transfer) -> bool,
)
    requires
        holds(Transfer::Setup(endpoint, setup.packet())),
        holds(Transfer::DataIn(endpoint, buf.len() as usize)),
        holds(Transfer::StatusOut(endpoint)),
    ensures
        control::control_in_program(endpoint, setup, buf).every(holds),
{
    broadcast use crate::program::lemma_every_bind;

    let tries = control::MAX_NAK_RETRIES as nat;
    lemma_stage(Transfer::Setup(endpoint, setup.packet()), tries, holds);
    lemma_stage(Transfer::StatusOut(endpoint), tries, holds);
    lemma_data(endpoint, buf, tries, holds);
}

broadcast proof fn lemma_pause<T>(ms: u32, rest: UsbProgram<T>, holds: spec_fn(Transfer) -> bool)
    requires
        holds(Transfer::DelayMs(ms as u64)),
        rest.every(holds),
    ensures
        #[trigger] control::pause(ms, rest).every(holds),
{
    let next = control::pause(ms, rest)->Request_1;
    assert forall|reply: Reply| (#[trigger] next(reply)).every(holds) by {
        assert(next(reply) == rest);
    }
}

proof fn lemma_descriptor(
    endpoint: ControlEndpoint,
    setup: control::Setup,
    buf: Seq<u8>,
    tries: nat,
    holds: spec_fn(Transfer) -> bool,
)
    requires
        forall|len: usize| #[trigger] holds(Transfer::DataIn(endpoint, len)),
        holds(Transfer::Setup(endpoint, setup.packet())),
        holds(Transfer::StatusOut(endpoint)),
        forall|ms: u64| #[trigger] holds(Transfer::DelayMs(ms)),
    ensures
        control::descriptor_program(endpoint, setup, buf, tries).every(holds),
    decreases tries,
{
    broadcast use crate::program::lemma_every_bind, lemma_pause;

    broadcast use crate::program::lemma_bind_same;

    lemma_read(endpoint, setup, buf, holds);
    let next = |read: Read|
        if read.0 is Ok || tries <= 1 {
            Program::Return(read)
        } else {
            control::pause(
                control::DESCRIPTOR_RETRY_MS,
                control::descriptor_program(endpoint, setup, read.1, (tries - 1) as nat),
            )
        };
    assert forall|read: Read| (#[trigger] next(read)).every(holds) by {
        if read.0 is Err && tries > 1 {
            lemma_descriptor(endpoint, setup, read.1, (tries - 1) as nat, holds);
        }
    }
    assert(control::control_in_program(endpoint, setup, buf).bind(next).every(holds));
}

proof fn lemma_address(probe: ControlEndpoint, address: u8, holds: spec_fn(Transfer) -> bool)
    requires
        forall|packet: Seq<u8>| #[trigger] holds(Transfer::Setup(probe, packet)),
        holds(Transfer::StatusIn(probe)),
        forall|ms: u64| #[trigger] holds(Transfer::DelayMs(ms)),
    ensures
        control::set_address_program(probe, address).every(holds),
{
    broadcast use crate::program::lemma_every_bind;

    reveal_with_fuel(Program::every, 2);
    assert forall|packet: Seq<u8>|
        (#[trigger] control::stage_program(
            Transfer::Setup(probe, packet),
            control::MAX_NAK_RETRIES as nat,
        )).every(holds) by {
        lemma_stage(Transfer::Setup(probe, packet), control::MAX_NAK_RETRIES as nat, holds);
    }
    lemma_stage(Transfer::StatusIn(probe), control::MAX_NAK_RETRIES as nat, holds);
}

/// The ports of the first hub are walked with four further levels of hubs below it, from the
/// first one on, with nothing on the bus but that hub; then the channel is given back.
pub proof fn law_root_walk(
    speed: u8,
    now: u8,
    found: (ControlEndpoint, DeviceDescriptor),
    hub: Hub,
)
    requires
        found.0.address == 1,
        hub.endpoint == found.0,
    ensures
        ({
            let first = BusState::empty().taking(1).with_hub(0, hub, 0);
            bus::root_program().given(
                seq![
                    BusAnswer::Speed(speed),
                    BusAnswer::Probed(Ok(found)),
                    BusAnswer::Speed(now),
                    BusAnswer::Configured(Ok(hub)),
                ],
            ) == bus::walk_program(first, 0, hub, 1, 4).bind(
                |walked: bus::Walked| bus::conclude(walked.0),
            )
        }),
{
    let all = seq![
        BusAnswer::Speed(speed),
        BusAnswer::Probed(Ok(found)),
        BusAnswer::Speed(now),
        BusAnswer::Configured(Ok(hub)),
    ];
    let first = BusState::empty().taking(1).with_hub(0, hub, 0);
    let last = |walked: bus::Walked| bus::conclude(walked.0);
    broadcast use crate::program::lemma_bind_same;

    let root = bus::root_program();
    let probe = (root->Request_1)(all[0]);
    let again = (probe->Request_1)(all[1]);
    let configure = (again->Request_1)(all[2]);
    assert(root is Request && probe is Request && again is Request && configure is Request);
    assert((configure->Request_1)(all[3]) == bus::walk_program(first, 0, hub, 1, 4).bind(last));
    let one = all.skip(1);
    let two = one.skip(1);
    let three = two.skip(1);
    assert(one[0] == all[1] && two[0] == all[2] && three[0] == all[3]);
    assert(three.skip(1).len() == 0);
    assert(root.given(all) == probe.given(one));
    assert(probe.given(one) == again.given(two));
    assert(again.given(two) == configure.given(three));
    assert(configure.given(three) == (configure->Request_1)(all[3]).given(three.skip(1)));
}

/// What becomes of a device that has been given an address. If it does not take it, the
/// address is free again and its port has failed. Otherwise its port has its address; the walk
/// stops if the application wants that, and goes on if the device is no hub, or none that is
/// looked behind, or one that cannot be configured.
pub proof fn law_admitted(
    bus: BusState,
    index: int,
    port: u8,
    status: PortStatus,
    levels: nat,
    found: (ControlEndpoint, DeviceDescriptor),
    error: TransferError,
    fault: EnumerationError,
)
    requires
        0 <= index < bus.hubs.len(),
        bus.hubs[index] is Some,
        bus.hubs[index]->0.ports.len() == 15,
        1 <= port <= 15,
    ensures
        ({
            let entry = bus.hubs[index]->0;
            let address = found.0.address;
            let program = bus::admit_program(bus, index, entry, port, status, address, levels);
            let failed = program.given(seq![BusAnswer::Probed(Err(error))]);
            let stopped = program.given(seq![BusAnswer::Probed(Ok(found)), BusAnswer::Flag(true)]);
            let told = seq![BusAnswer::Probed(Ok(found)), BusAnswer::Flag(false)];
            let behind = found.1.device_class == 9 && entry.depth < 4 && levels > 0;
            let at_port = |after: BusState, value: u8|
                after.known(index, port as int) == value && after.fault == bus.fault && forall|
                    other: int,
                |
                    1 <= other <= 15 && other != port ==> #[trigger] after.known(index, other)
                        == bus.known(index, other);
            &&& failed matches Program::Return(walked) && !walked.1 && at_port(walked.0, 255)
                && walked.0.addresses == bus.addresses.remove(address as int)
            &&& stopped matches Program::Return(walked) && walked.1 && at_port(walked.0, address)
                && walked.0.addresses == bus.addresses
            &&& !behind ==> (program.given(told) matches Program::Return(walked) && !walked.1
                && at_port(walked.0, address) && walked.0.addresses == bus.addresses)
            &&& behind ==> (program.given(told.push(BusAnswer::Configured(Err(fault)))) matches
                Program::Return(walked) && !walked.1 && at_port(walked.0, address)
                && walked.0.addresses == bus.addresses)
        }),
{
    reveal_with_fuel(Program::given, 5);
    let one = seq![BusAnswer::Probed(Err::<(ControlEndpoint, DeviceDescriptor), _>(error))];
    let two = seq![BusAnswer::Probed(Ok(found)), BusAnswer::Flag(true)];
    let told = seq![BusAnswer::Probed(Ok(found)), BusAnswer::Flag(false)];
    let three = told.push(BusAnswer::Configured(Err(fault)));
    assert(one.skip(1).len() == 0);
    assert(two.skip(1)[0] == BusAnswer::Flag(true));
    assert(two.skip(1).skip(1).len() == 0);
    assert(told.skip(1)[0] == BusAnswer::Flag(false));
    assert(told.skip(1).skip(1).len() == 0);
    assert(three.skip(1)[0] == BusAnswer::Flag(false));
    assert(three.skip(1).skip(1)[0] == BusAnswer::Configured(Err(fault)));
    assert(three.skip(1).skip(1).skip(1).len() == 0);
}

/// A bus whose first device does not answer is given up: the channel is given back, and the
/// failure is told.
pub proof fn law_root_fails(speed: u8, error: TransferError)
    ensures
        ({
            let program = bus::root_program();
            let answers = seq![
                BusAnswer::Speed(speed),
                BusAnswer::Probed(Err(error)),
                BusAnswer::Done,
            ];
            &&& program.asked(answers).len() == 3
            &&& program.asked(answers)[2] == BusOp::ReturnChannel
            &&& program.given(answers) matches Program::Return(ended) && ended.1 == Err::<
                (),
                EnumerationError,
            >(EnumerationError::Transfer(error)) && ended.0.addresses == set![1int]
                && ended.0.hubs == BusState::empty().hubs
        }),
{
    reveal_with_fuel(Program::asked, 5);
    reveal_with_fuel(Program::given, 5);
    let answers = seq![
        BusAnswer::Speed(speed),
        BusAnswer::Probed(Err(error)),
        BusAnswer::Done,
    ];
    assert(answers.skip(1)[0] == BusAnswer::Probed(Err(error)));
    assert(answers.skip(1).skip(1)[0] == BusAnswer::Done);
    assert(answers.skip(1).skip(1).skip(1).len() == 0);
    assert(BusState::empty().taking(1).addresses =~= set![1int]);
}

/// A hub that has been configured has the first place that is free, one level deeper than the
/// hub that it is on, and its ports are walked with one level less to go; if there is no place,
/// there are too many hubs, and the walk is over.
pub proof fn law_hub_admitted(
    bus: BusState,
    index: int,
    port: u8,
    status: PortStatus,
    levels: nat,
    found: (ControlEndpoint, DeviceDescriptor),
    hub: Hub,
    place: int,
)
    requires
        0 <= index < bus.hubs.len(),
        bus.hubs[index] is Some,
        found.1.device_class == 9,
        bus.hubs[index]->0.depth < 4,
        levels > 0,
        hub.endpoint == found.0,
        0 <= place <= bus.hubs.len(),
        place < bus.hubs.len() ==> bus.hubs[place] is None,
        forall|i: int| 0 <= i < place ==> #[trigger] bus.hubs[i] is Some,
    ensures
        ({
            let entry = bus.hubs[index]->0;
            let address = found.0.address;
            let program = bus::admit_program(bus, index, entry, port, status, address, levels);
            let left = program.given(
                seq![
                    BusAnswer::Probed(Ok(found)),
                    BusAnswer::Flag(false),
                    BusAnswer::Configured(Ok(hub)),
                ],
            );
            let placed = bus.with_port(index, port as int, address);
            &&& place < bus.hubs.len() ==> left == bus::walk_program(
                placed.with_hub(place, hub, (entry.depth + 1) as u8),
                place,
                hub,
                1,
                (levels - 1) as nat,
            )
            &&& place == bus.hubs.len() ==> (left matches Program::Return(walked) && walked.1
                && walked.0.fault == Some(EnumerationError::TooManyHubs))
        }),
{
    let entry = bus.hubs[index]->0;
    let address = found.0.address;
    let placed = bus.with_port(index, port as int, address);
    assert forall|i: int| 0 <= i < place implies #[trigger] placed.hubs[i] is Some by {
        assert(bus.hubs[i] is Some);
    }
    lemma_place(placed.hubs, 0, place);
    let answers = seq![
        BusAnswer::Probed(Ok(found)),
        BusAnswer::Flag(false),
        BusAnswer::Configured(Ok(hub)),
    ];
    reveal_with_fuel(Program::given, 4);
    assert(answers.skip(1)[0] == BusAnswer::Flag(false));
    assert(answers.skip(1).skip(1)[0] == BusAnswer::Configured(Ok(hub)));
    assert(answers.skip(1).skip(1).skip(1).len() == 0);
}

proof fn lemma_place(hubs: Seq<Option<bus::HubEntry>>, from: int, place: int)
    requires
        0 <= from <= place <= hubs.len(),
        place < hubs.len() ==> hubs[place] is None,
        forall|i: int| from <= i < place ==> #[trigger] hubs[i] is Some,
    ensures
        bus::free_place(hubs, from) == if place < hubs.len() {
            Some(place)
        } else {
            None
        },
    decreases place - from,
{
    if from < place {
        assert(hubs[from] is Some);
        lemma_place(hubs, from + 1, place);
    }
}

} // verus!

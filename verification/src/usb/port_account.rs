//! What a look at the bus does about one port of a hub: it looks at the port once, and
//! what it does then depends on what was known of the port, and on nothing else.

use vstd::prelude::*;

use crate::program;
use crate::program::{Exchange, Program};
use crate::usb::bus;
use crate::usb::bus::{
    BusState, Enumerated, HubEntry, Walked, MAX_HUBS, MAX_HUB_DEPTH, MAX_PORTS, PORT_FAILED,
};
use crate::usb::descriptor::DeviceDescriptor;
use crate::usb::dwc2::{ControlEndpoint, TransferError};
use crate::usb::hub::{Hub, PortStatus};
use crate::usb::session;
use crate::usb::session::{BusAnswer, BusHistory, BusOp, BusProgram, Event};
use crate::usb::topology;
use crate::usb::EnumerationError;

verus! {

/// A port, by the address of its hub.
pub struct Place {
    pub hub: u8,
    pub port: u8,
}

impl Place {
    /// A step resets this port.
    pub open spec fn is_reset(self, op: BusOp) -> bool {
        op matches BusOp::Reset(hub, port) && hub.endpoint.address == self.hub && port == self.port
    }

    /// A step looks at this port.
    pub open spec fn is_look(self, op: BusOp) -> bool {
        op matches BusOp::LookAt(hub, port) && hub.endpoint.address == self.hub && port
            == self.port
    }

    /// A step acknowledges a change of this port.
    pub open spec fn is_acknowledged(self, op: BusOp) -> bool {
        op matches BusOp::Acknowledge(endpoint, port) && endpoint.address == self.hub && port
            == self.port
    }

    /// A step concerns this port: it looks at it, resets it, acknowledges a change of it,
    /// or tells the application of a device at it; or it probes the device there, which
    /// is so if the step before it has reset the port.
    pub open spec fn concerned(self, fresh: bool, op: BusOp) -> bool {
        match op {
            BusOp::LookAt(hub, port) => self.is_look(op),
            BusOp::Reset(hub, port) => self.is_reset(op),
            BusOp::Acknowledge(endpoint, port) => self.is_acknowledged(op),
            BusOp::Probe(endpoint, address) => fresh,
            BusOp::Tell(Event::Attached(device)) => device.hub_address == self.hub && device.port
                == self.port,
            BusOp::Tell(Event::Detached { hub_address, port, address }) => hub_address == self.hub
                && port == self.port,
            _ => false,
        }
    }

    /// A step tells that the hub itself is gone.
    pub open spec fn hub_goes(self, op: BusOp) -> bool {
        op matches BusOp::Tell(Event::Detached { hub_address, port, address }) && address
            == self.hub
    }
}

/// What has been done about a port.
#[verifier::ext_equal]
pub struct Watch {
    /// The steps that concerned it.
    pub steps: BusHistory,
    /// Whether the last of all steps has reset it.
    pub fresh: bool,
}

impl Watch {
    /// One step later.
    pub open spec fn after(self, place: Place, op: BusOp, answer: BusAnswer) -> Watch {
        Watch {
            steps: if place.concerned(self.fresh, op) {
                self.steps.push(Exchange { request: op, answer })
            } else {
                self.steps
            },
            fresh: place.is_reset(op),
        }
    }

    /// After a step that does not concern the port.
    pub open spec fn calm(self) -> Watch {
        Watch { fresh: false, ..self }
    }

    /// After `history`.
    pub open spec fn over(self, place: Place, history: BusHistory) -> Watch
        decreases history.len(),
    {
        if history.len() == 0 {
            self
        } else {
            self.after(place, history[0].request, history[0].answer).over(place, history.skip(1))
        }
    }
}

/// The steps of a history that concern a port.
pub open spec fn steps_about(place: Place, history: BusHistory) -> BusHistory {
    Watch { steps: Seq::empty(), fresh: false }.over(place, history).steps
}

/// Unless the hub goes, `ends` is true of what has been done about the port when this
/// returns, and of what is returned.
pub open spec fn traced<T>(
    program: BusProgram<T>,
    place: Place,
    watch: Watch,
    ends: spec_fn(Watch, T) -> bool,
) -> bool
    decreases program,
{
    match program {
        Program::Return(value) => ends(watch, value),
        Program::Request(op, next) => place.hub_goes(op) || forall|answer: BusAnswer|
            traced(#[trigger] next(answer), place, watch.after(place, op, answer), ends),
        Program::Stuck => true,
    }
}

/// Some answers lead to `value` being returned, with `left` done about the port.
pub open spec fn comes_to<T>(
    program: BusProgram<T>,
    place: Place,
    watch: Watch,
    left: Watch,
    value: T,
) -> bool
    decreases program,
{
    match program {
        Program::Return(returned) => returned == value && left == watch,
        Program::Request(op, next) => !place.hub_goes(op) && exists|answer: BusAnswer|
            comes_to(#[trigger] next(answer), place, watch.after(place, op, answer), left, value),
        Program::Stuck => false,
    }
}

proof fn lemma_comes_to<T>(
    program: BusProgram<T>,
    place: Place,
    watch: Watch,
    ends: spec_fn(Watch, T) -> bool,
)
    requires
        traced(program, place, watch, ends),
    ensures
        forall|left: Watch, value: T| #[trigger]
            comes_to(program, place, watch, left, value) ==> ends(left, value),
    decreases program,
{
    match program {
        Program::Request(op, next) => {
            assert forall|left: Watch, value: T| #[trigger]
                comes_to(program, place, watch, left, value) implies ends(left, value) by {
                let answer = choose|answer: BusAnswer|
                    comes_to(
                        #[trigger] next(answer),
                        place,
                        watch.after(place, op, answer),
                        left,
                        value,
                    );
                lemma_comes_to(next(answer), place, watch.after(place, op, answer), ends);
            }
        },
        _ => {},
    }
}

broadcast proof fn lemma_bind<S, T>(
    program: BusProgram<S>,
    rest: spec_fn(S) -> BusProgram<T>,
    place: Place,
    watch: Watch,
    ends: spec_fn(Watch, T) -> bool,
)
    requires
        forall|left: Watch, value: S| #[trigger]
            comes_to(program, place, watch, left, value) ==> traced(rest(value), place, left, ends),
    ensures
        #[trigger] traced(program.bind(rest), place, watch, ends),
    decreases program,
{
    match program {
        Program::Return(value) => {
            assert(comes_to(program, place, watch, watch, value));
            assert(program.bind(rest) == rest(value));
        },
        Program::Request(op, next) => {
            let bound = program.bind(rest)->Request_1;
            if !place.hub_goes(op) {
                assert forall|answer: BusAnswer|
                    traced(
                        #[trigger] bound(answer),
                        place,
                        watch.after(place, op, answer),
                        ends,
                    ) by {
                    let later = watch.after(place, op, answer);
                    assert forall|left: Watch, value: S| #[trigger]
                        comes_to(next(answer), place, later, left, value) implies traced(
                        rest(value),
                        place,
                        left,
                        ends,
                    ) by {
                        assert(comes_to(program, place, watch, left, value));
                    }
                    lemma_bind(next(answer), rest, place, later, ends);
                    assert(bound(answer) == next(answer).bind(rest));
                }
            }
        },
        Program::Stuck => {},
    }
}

proof fn lemma_weaker<T>(
    program: BusProgram<T>,
    place: Place,
    watch: Watch,
    strong: spec_fn(Watch, T) -> bool,
    weak: spec_fn(Watch, T) -> bool,
)
    requires
        traced(program, place, watch, strong),
        forall|left: Watch, value: T| #[trigger] strong(left, value) ==> weak(left, value),
    ensures
        traced(program, place, watch, weak),
    decreases program,
{
    match program {
        Program::Request(op, next) => {
            if !place.hub_goes(op) {
                assert forall|answer: BusAnswer|
                    traced(
                        #[trigger] next(answer),
                        place,
                        watch.after(place, op, answer),
                        weak,
                    ) by {
                    lemma_weaker(
                        next(answer),
                        place,
                        watch.after(place, op, answer),
                        strong,
                        weak,
                    );
                }
            }
        },
        _ => {},
    }
}

/// What was done about the port when a run ended.
proof fn lemma_ran<T>(
    program: BusProgram<T>,
    place: Place,
    watch: Watch,
    ends: spec_fn(Watch, T) -> bool,
    history: BusHistory,
    value: T,
)
    requires
        traced(program, place, watch, ends),
        program.after(history) == Program::<BusOp, BusAnswer, T>::Return(value),
        forall|i: int|
            0 <= i < history.len() ==> !place.hub_goes((#[trigger] history[i]).request),
    ensures
        ends(watch.over(place, history), value),
    decreases history.len(),
{
    if history.len() > 0 {
        match program {
            Program::Request(op, next) => {
                assert(!place.hub_goes(history[0].request));
                let answer = history[0].answer;
                assert(traced(next(answer), place, watch.after(place, op, answer), ends));
                assert forall|i: int| 0 <= i < history.skip(1).len() implies !place.hub_goes(
                    (#[trigger] history.skip(1)[i]).request,
                ) by {
                    assert(history.skip(1)[i] == history[i + 1]);
                }
                lemma_ran(
                    next(answer),
                    place,
                    watch.after(place, op, answer),
                    ends,
                    history.skip(1),
                    value,
                );
            },
            _ => {},
        }
    }
}

broadcast proof fn lemma_ask<T>(
    op: BusOp,
    rest: spec_fn(bool) -> BusProgram<T>,
    place: Place,
    watch: Watch,
    ends: spec_fn(Watch, T) -> bool,
)
    requires
        !place.concerned(watch.fresh, op),
        place.hub_goes(op) || (traced(rest(true), place, watch.calm(), ends) && traced(
            rest(false),
            place,
            watch.calm(),
            ends,
        )),
    ensures
        #[trigger] traced(session::ask(op, rest), place, watch, ends),
{
    let next = session::ask(op, rest)->Request_1;
    if !place.hub_goes(op) {
        assert forall|answer: BusAnswer|
            traced(#[trigger] next(answer), place, watch.after(place, op, answer), ends) by {
            assert(watch.after(place, op, answer) == watch.calm());
            match answer {
                BusAnswer::Flag(flag) => {
                    assert(next(answer) == rest(flag));
                },
                _ => {},
            }
        }
    }
}

broadcast proof fn lemma_act<T>(
    op: BusOp,
    rest: BusProgram<T>,
    place: Place,
    watch: Watch,
    ends: spec_fn(Watch, T) -> bool,
)
    requires
        !place.concerned(watch.fresh, op),
        traced(rest, place, watch.calm(), ends),
    ensures
        #[trigger] traced(session::act(op, rest), place, watch, ends),
{
    let next = session::act(op, rest)->Request_1;
    assert forall|answer: BusAnswer|
        traced(#[trigger] next(answer), place, watch.after(place, op, answer), ends) by {
        assert(watch.after(place, op, answer) == watch.calm());
        assert(next(answer) == rest);
    }
}

broadcast proof fn lemma_port_step<T>(
    op: BusOp,
    rest: spec_fn(Result<PortStatus, EnumerationError>) -> BusProgram<T>,
    place: Place,
    watch: Watch,
    ends: spec_fn(Watch, T) -> bool,
)
    requires
        !place.concerned(watch.fresh, op),
        forall|status: Result<PortStatus, EnumerationError>|
            traced(#[trigger] rest(status), place, watch.calm(), ends),
    ensures
        #[trigger] traced(session::port_step(op, rest), place, watch, ends),
{
    let next = session::port_step(op, rest)->Request_1;
    assert forall|answer: BusAnswer|
        traced(#[trigger] next(answer), place, watch.after(place, op, answer), ends) by {
        assert(watch.after(place, op, answer) == watch.calm());
        match answer {
            BusAnswer::Status(status) => {
                assert(next(answer) == rest(status));
            },
            _ => {},
        }
    }
}

broadcast proof fn lemma_probe<T>(
    endpoint: ControlEndpoint,
    address: u8,
    rest: spec_fn(Result<(ControlEndpoint, DeviceDescriptor), TransferError>) -> BusProgram<T>,
    place: Place,
    watch: Watch,
    ends: spec_fn(Watch, T) -> bool,
)
    requires
        !watch.fresh,
        forall|probed: Result<(ControlEndpoint, DeviceDescriptor), TransferError>|
            (probed matches Ok(found) ==> found.0.address == address) ==> traced(
                #[trigger] rest(probed),
                place,
                watch.calm(),
                ends,
            ),
    ensures
        #[trigger] traced(session::probe(endpoint, address, rest), place, watch, ends),
{
    let op = BusOp::Probe(endpoint, address);
    let next = session::probe(endpoint, address, rest)->Request_1;
    assert forall|answer: BusAnswer|
        traced(#[trigger] next(answer), place, watch.after(place, op, answer), ends) by {
        assert(watch.after(place, op, answer) == watch.calm());
        match answer {
            BusAnswer::Probed(probed) => {
                if !(probed is Ok && probed->Ok_0.0.address != address) {
                    assert(next(answer) == rest(probed));
                }
            },
            _ => {},
        }
    }
}

broadcast proof fn lemma_configure<T>(
    endpoint: ControlEndpoint,
    high_speed: bool,
    rest: spec_fn(Result<Hub, EnumerationError>) -> BusProgram<T>,
    place: Place,
    watch: Watch,
    ends: spec_fn(Watch, T) -> bool,
)
    requires
        forall|configured: Result<Hub, EnumerationError>|
            (configured matches Ok(hub) ==> hub.endpoint == endpoint) ==> traced(
                #[trigger] rest(configured),
                place,
                watch.calm(),
                ends,
            ),
    ensures
        #[trigger] traced(session::configure(endpoint, high_speed, rest), place, watch, ends),
{
    let op = BusOp::Configure(endpoint, high_speed);
    let next = session::configure(endpoint, high_speed, rest)->Request_1;
    assert forall|answer: BusAnswer|
        traced(#[trigger] next(answer), place, watch.after(place, op, answer), ends) by {
        assert(watch.after(place, op, answer) == watch.calm());
        match answer {
            BusAnswer::Configured(configured) => {
                if !(configured is Ok && configured->Ok_0.endpoint != endpoint) {
                    assert(next(answer) == rest(configured));
                }
            },
            _ => {},
        }
    }
}

broadcast group group_steps {
    lemma_bind,
    lemma_ask,
    lemma_act,
    lemma_port_step,
    lemma_probe,
    lemma_configure,
}

/// The hub is at this place, no other hub has its address, which is taken, and this is
/// known of its port.
pub open spec fn stays(bus: BusState, index: int, place: Place, known: u8) -> bool {
    &&& 1 <= place.port <= MAX_PORTS
    &&& bus.hubs.len() == MAX_HUBS
    &&& topology::is_hub(bus.hubs, index)
    &&& topology::address_at(bus.hubs, index) == place.hub
    &&& bus.hubs[index]->0.ports.len() == MAX_PORTS
    &&& bus.known(index, place.port as int) == known
    &&& bus.addresses.contains(place.hub as int)
    &&& forall|j: int| #[trigger]
        topology::is_hub(bus.hubs, j) && topology::address_at(bus.hubs, j) == place.hub ==> j
            == index
}

/// Nothing more was done about the port, and what is known of it is unchanged.
pub open spec fn unmoved(steps: BusHistory, index: int, place: Place, known: u8) -> spec_fn(
    Watch,
    Walked,
) -> bool {
    |left: Watch, walked: Walked| left.steps == steps && stays(walked.0, index, place, known)
}

/// Another port has no part in this.
proof fn lemma_elsewhere(
    bus: BusState,
    at: int,
    port: u8,
    value: u8,
    index: int,
    place: Place,
    known: u8,
)
    requires
        stays(bus, index, place, known),
        bus::is_place(at, port - 1),
        at != index || port != place.port,
    ensures
        stays(bus.with_port(at, port as int, value), index, place, known),
{
    let after = bus.with_port(at, port as int, value);
    assert forall|j: int| #[trigger] topology::is_hub(after.hubs, j) && topology::address_at(
        after.hubs,
        j,
    ) == place.hub implies j == index by {
        assert(topology::is_hub(bus.hubs, j));
    }
}

proof fn lemma_attach(
    bus: BusState,
    at: int,
    port: u8,
    levels: nat,
    index: int,
    place: Place,
    known: u8,
    watch: Watch,
)
    requires
        stays(bus, index, place, known),
        bus::is_place(at, port - 1),
        at != index || port != place.port,
    ensures
        traced(
            bus::attach_program(bus, at, port, levels),
            place,
            watch,
            unmoved(watch.steps, index, place, known),
        ),
    decreases levels, 0nat, 1int,
{
    let ends = unmoved(watch.steps, index, place, known);
    match bus.hubs[at] {
        None => {
            assert(ends(watch, (bus, false)));
        },
        Some(entry) => {
            assert(topology::is_hub(bus.hubs, at));
            lemma_elsewhere(bus, at, port, PORT_FAILED, index, place, known);
            topology::lemma_free_address(bus.addresses, 1);
            if let Some(address) = bus::free_address(bus.addresses, 1) {
                assert forall|status: PortStatus| #[trigger] status.is_enabled() implies traced(
                    bus::admit_program(
                        bus.taking(address),
                        at,
                        entry,
                        port,
                        status,
                        address,
                        levels,
                    ),
                    place,
                    watch.calm(),
                    ends,
                ) by {
                    lemma_admit(
                        bus.taking(address),
                        at,
                        entry,
                        port,
                        status,
                        address,
                        levels,
                        index,
                        place,
                        known,
                        watch.calm(),
                    );
                }
            }
            broadcast use group_steps;

            assert(traced(bus::attach_program(bus, at, port, levels), place, watch, ends));
        },
    }
}

proof fn lemma_admit(
    bus: BusState,
    at: int,
    entry: HubEntry,
    port: u8,
    status: PortStatus,
    address: u8,
    levels: nat,
    index: int,
    place: Place,
    known: u8,
    watch: Watch,
)
    requires
        stays(bus, index, place, known),
        bus::is_place(at, port - 1),
        at != index || port != place.port,
        bus.hubs[at] == Some(entry),
        address != place.hub,
        entry.hub.endpoint.address == place.hub ==> at == index,
        !watch.fresh,
    ensures
        traced(
            bus::admit_program(bus, at, entry, port, status, address, levels),
            place,
            watch,
            unmoved(watch.steps, index, place, known),
        ),
    decreases levels, 0nat, 0int,
{
    let ends = unmoved(watch.steps, index, place, known);
    let placed = bus.with_port(at, port as int, address);
    let depth = (entry.depth + 1) as u8;
    lemma_elsewhere(bus.releasing(address), at, port, PORT_FAILED, index, place, known);
    lemma_elsewhere(bus, at, port, address, index, place, known);
    assert(stays(placed.failing(EnumerationError::TooManyHubs), index, place, known));
    if levels > 0 {
        topology::lemma_free_place(placed.hubs, 0);
        if let Some(child) = bus::free_place(placed.hubs, 0) {
            assert forall|hub: Hub| hub.endpoint.address == address implies traced(
                bus::walk_program(
                    #[trigger] placed.with_hub(child, hub, depth),
                    child,
                    hub,
                    1,
                    (levels - 1) as nat,
                ),
                place,
                watch,
                ends,
            ) by {
                let extended = placed.with_hub(child, hub, depth);
                assert forall|j: int| #[trigger] topology::is_hub(extended.hubs, j)
                    && topology::address_at(extended.hubs, j) == place.hub implies j == index by {
                    if j != child {
                        assert(topology::is_hub(placed.hubs, j));
                    }
                }
                lemma_walk(
                    extended,
                    child,
                    hub,
                    1,
                    (levels - 1) as nat,
                    index,
                    place,
                    known,
                    watch,
                );
            }
        }
    }
    assert(watch.calm() == watch);
    broadcast use group_steps;

    assert(traced(
        bus::admit_program(bus, at, entry, port, status, address, levels),
        place,
        watch,
        ends,
    ));
}

proof fn lemma_walk(
    bus: BusState,
    at: int,
    hub: Hub,
    port: int,
    levels: nat,
    index: int,
    place: Place,
    known: u8,
    watch: Watch,
)
    requires
        stays(bus, index, place, known),
        0 <= at < MAX_HUBS,
        at != index,
        1 <= port,
        hub.endpoint.address != place.hub,
    ensures
        traced(
            bus::walk_program(bus, at, hub, port, levels),
            place,
            watch,
            unmoved(watch.steps, index, place, known),
        ),
    decreases levels, 1nat, MAX_PORTS + 1 - port,
{
    let ends = unmoved(watch.steps, index, place, known);
    if port <= bus::tracked_ports(hub) {
        let calm = watch.calm();
        lemma_walk(bus, at, hub, port + 1, levels, index, place, known, calm);
        lemma_attach(bus, at, port as u8, levels, index, place, known, calm);
        let part = bus::attach_program(bus, at, port as u8, levels);
        lemma_comes_to(part, place, calm, ends);
        assert forall|left: Watch, walked: Walked| #[trigger]
            comes_to(part, place, calm, left, walked) implies traced(
            bus::walk_program(walked.0, at, hub, port + 1, levels),
            place,
            left,
            ends,
        ) by {
            lemma_walk(walked.0, at, hub, port + 1, levels, index, place, known, left);
        }
        broadcast use group_steps;

        assert(traced(bus::walk_program(bus, at, hub, port, levels), place, watch, ends));
    }
}

proof fn lemma_forget(
    bus: BusState,
    address: u8,
    levels: nat,
    index: int,
    place: Place,
    known: u8,
    watch: Watch,
)
    requires
        stays(bus, index, place, known),
        address != place.hub,
    ensures
        traced(
            bus::forget_program(bus, address, levels),
            place,
            watch,
            unmoved(watch.steps, index, place, known),
        ),
    decreases levels, 0nat, 0int,
{
    topology::lemma_place_of(bus.hubs, address, 0);
    if let Some(at) = bus::place_of(bus.hubs, address, 0) {
        if levels > 0 {
            let after = BusState { hubs: bus.hubs.update(at, None), ..bus };
            assert forall|j: int| #[trigger] topology::is_hub(after.hubs, j)
                && topology::address_at(after.hubs, j) == place.hub implies j == index by {
                assert(topology::is_hub(bus.hubs, j));
            }
            lemma_forget_ports(
                after,
                address,
                bus.hubs[at]->0.ports,
                0,
                false,
                (levels - 1) as nat,
                index,
                place,
                known,
                watch,
            );
        }
    }
}

proof fn lemma_forget_ports(
    bus: BusState,
    address: u8,
    ports: Seq<u8>,
    at: int,
    stop: bool,
    levels: nat,
    index: int,
    place: Place,
    known: u8,
    watch: Watch,
)
    requires
        stays(bus, index, place, known),
        address != place.hub,
        0 <= at,
    ensures
        traced(
            bus::forget_ports_program(bus, address, ports, at, stop, levels),
            place,
            watch,
            unmoved(watch.steps, index, place, known),
        ),
    decreases levels, 1nat, MAX_PORTS - at,
{
    let ends = unmoved(watch.steps, index, place, known);
    if at < MAX_PORTS {
        lemma_forget_ports(
            bus,
            address,
            ports,
            at + 1,
            stop,
            levels,
            index,
            place,
            known,
            watch,
        );
        let gone = ports[at];
        let part = bus::forget_program(bus, gone, levels);
        if gone != place.hub {
            lemma_forget(bus, gone, levels, index, place, known, watch);
            lemma_comes_to(part, place, watch, ends);
            assert forall|left: Watch, walked: Walked| #[trigger]
                comes_to(part, place, watch, left, walked) implies traced(
                topology::after_port(walked, address, ports, at, stop, true, levels),
                place,
                left.calm(),
                ends,
            ) && traced(
                topology::after_port(walked, address, ports, at, stop, false, levels),
                place,
                left.calm(),
                ends,
            ) by {
                let now = walked.0.releasing(gone);
                assert(stays(now, index, place, known));
                lemma_forget_ports(
                    now,
                    address,
                    ports,
                    at + 1,
                    stop || walked.1 || true,
                    levels,
                    index,
                    place,
                    known,
                    left.calm(),
                );
                lemma_forget_ports(
                    now,
                    address,
                    ports,
                    at + 1,
                    stop || walked.1 || false,
                    levels,
                    index,
                    place,
                    known,
                    left.calm(),
                );
            }
        }
        broadcast use group_steps;

        assert(traced(
            bus::forget_ports_program(bus, address, ports, at, stop, levels),
            place,
            watch,
            ends,
        ));
    }
}

/// What is done at another port.
proof fn lemma_react(
    bus: BusState,
    at: int,
    port: u8,
    connected: bool,
    index: int,
    place: Place,
    known: u8,
    watch: Watch,
)
    requires
        stays(bus, index, place, known),
        bus::is_place(at, port - 1),
        at != index || port != place.port,
    ensures
        traced(
            bus::react_program(bus, at, port, connected),
            place,
            watch,
            unmoved(watch.steps, index, place, known),
        ),
{
    let ends = unmoved(watch.steps, index, place, known);
    lemma_attach(bus, at, port, MAX_HUB_DEPTH as nat, index, place, known, watch);
    lemma_elsewhere(bus, at, port, 0, index, place, known);
    if let Some(entry) = bus.hubs[at] {
        assert(topology::is_hub(bus.hubs, at));
        let address = entry.ports[port - 1];
        let cleared = bus.with_port(at, port as int, 0);
        let part = bus::forget_program(cleared, address, MAX_HUBS as nat);
        if address != place.hub {
            lemma_forget(cleared, address, MAX_HUBS as nat, index, place, known, watch);
            lemma_comes_to(part, place, watch, ends);
        }
        broadcast use group_steps;

        assert(traced(bus::detach_program(bus, at, port), place, watch, ends));
    }
}

/// What is done about the ports of a hub from another port on.
proof fn lemma_sweep(
    bus: BusState,
    at: int,
    hub: Hub,
    port: int,
    index: int,
    place: Place,
    known: u8,
    watch: Watch,
)
    requires
        stays(bus, index, place, known),
        0 <= at < MAX_HUBS,
        1 <= port,
        hub.endpoint.address == place.hub ==> at == index,
        at == index ==> port > place.port,
    ensures
        traced(
            bus::sweep_program(bus, at, hub, port),
            place,
            watch,
            unmoved(watch.steps, index, place, known),
        ),
    decreases MAX_PORTS + 1 - port,
{
    let ends = unmoved(watch.steps, index, place, known);
    if port <= bus::tracked_ports(hub) {
        let calm = watch.calm();
        lemma_sweep(bus, at, hub, port + 1, index, place, known, calm);
        assert forall|connected: bool, left: Watch, walked: Walked| #[trigger]
            comes_to(
                bus::react_program(bus, at, port as u8, connected),
                place,
                calm,
                left,
                walked,
            ) implies ends(left, walked) && traced(
            bus::sweep_program(walked.0, at, hub, port + 1),
            place,
            left,
            ends,
        ) && traced(
            bus::sweep_program(walked.0, at, hub, port + 1),
            place,
            left.calm(),
            ends,
        ) by {
            lemma_react(bus, at, port as u8, connected, index, place, known, calm);
            lemma_comes_to(
                bus::react_program(bus, at, port as u8, connected),
                place,
                calm,
                ends,
            );
            lemma_sweep(walked.0, at, hub, port + 1, index, place, known, left);
            lemma_sweep(walked.0, at, hub, port + 1, index, place, known, left.calm());
        }
        broadcast use group_steps;

        assert(traced(bus::sweep_program(bus, at, hub, port), place, watch, ends));
    }
}

/// What a look found, if it did not fail: whether anything is connected.
pub open spec fn found(look: Exchange<BusOp, BusAnswer>) -> Option<bool> {
    match look.answer {
        BusAnswer::Status(Ok(status)) => Some(status.is_connected()),
        _ => None,
    }
}

/// The port was found connected, and at once reset.
pub open spec fn tried(place: Place, steps: BusHistory) -> bool {
    &&& steps.len() >= 2
    &&& place.is_look(steps[0].request)
    &&& found(steps[0]) == Some(true)
    &&& place.is_reset(steps[1].request)
}

/// The port was found disconnected, which was acknowledged after so many more steps.
pub open spec fn left_after(place: Place, steps: BusHistory, between: int) -> bool {
    &&& steps.len() == between + 2
    &&& place.is_look(steps[0].request)
    &&& found(steps[0]) == Some(false)
    &&& place.is_acknowledged(steps[between + 1].request)
}

/// How the steps that concern a port depend on what was `known` of it, and what is known
/// of it `now`:
/// - If it was not looked at, nothing else was done about it.
/// - If nothing was known there, and a device is connected, the port is reset at once.
/// - If the device there is gone, the application is told, and the change acknowledged.
/// - If a device that could not be brought up is gone, the change is acknowledged, and
///   the application is not told.
/// - Otherwise, or if the look failed, nothing else is done about it.
pub open spec fn accounts(place: Place, known: u8, steps: BusHistory, now: u8) -> bool {
    if steps.len() == 0 {
        now == known
    } else if known == 0 && found(steps[0]) == Some(true) {
        tried(place, steps)
    } else if bus::is_address(known) && found(steps[0]) == Some(false) {
        &&& left_after(place, steps, 1)
        &&& steps[1].request == BusOp::Tell(
            Event::Detached { hub_address: place.hub, port: place.port, address: known },
        )
        &&& now == 0
    } else if known == PORT_FAILED && found(steps[0]) == Some(false) {
        &&& left_after(place, steps, 0)
        &&& now == 0
    } else {
        &&& steps.len() == 1
        &&& place.is_look(steps[0].request)
        &&& now == known
    }
}

/// Everything that was done about the port is accounted for.
pub open spec fn accounted_for(
    bus: BusState,
    steps: BusHistory,
    index: int,
    place: Place,
    known: u8,
) -> bool {
    ||| known == 0 && tried(place, steps)
    ||| exists|now: u8| #[trigger]
        stays(bus, index, place, now) && accounts(place, known, steps, now)
}

/// That, of a walk.
pub open spec fn walk_accounted_for(index: int, place: Place, known: u8) -> spec_fn(
    Watch,
    Walked,
) -> bool {
    |left: Watch, walked: Walked| accounted_for(walked.0, left.steps, index, place, known)
}

/// What is done after an attempt does not change that it was made.
proof fn lemma_tried<T>(
    program: BusProgram<T>,
    place: Place,
    watch: Watch,
    ends: spec_fn(Watch, T) -> bool,
)
    requires
        tried(place, watch.steps),
        forall|left: Watch, value: T| tried(place, left.steps) ==> #[trigger] ends(left, value),
    ensures
        traced(program, place, watch, ends),
    decreases program,
{
    match program {
        Program::Request(op, next) => {
            assert forall|answer: BusAnswer|
                traced(#[trigger] next(answer), place, watch.after(place, op, answer), ends) by {
                lemma_tried(next(answer), place, watch.after(place, op, answer), ends);
            }
        },
        _ => {},
    }
}

/// What follows a look at another port of the same hub, or at this one.
pub open spec fn sweep_on(
    bus: BusState,
    index: int,
    hub: Hub,
    port: int,
    status: PortStatus,
) -> BusProgram<Walked> {
    bus::react_program(bus, index, port as u8, status.is_connected()).bind(
        |walked: Walked| swept_on(bus, index, hub, port, status, walked),
    )
}

/// What follows once that has been acted on.
pub open spec fn swept_on(
    bus: BusState,
    index: int,
    hub: Hub,
    port: int,
    status: PortStatus,
    walked: Walked,
) -> BusProgram<Walked> {
    let rest = if walked.1 {
        Program::Return((walked.0, true))
    } else {
        bus::sweep_program(walked.0, index, hub, port + 1)
    };
    if status.is_connected() != (bus.known(index, port) != 0) {
        session::act(BusOp::Acknowledge(hub.endpoint, port as u8), rest)
    } else {
        rest
    }
}

/// Once the port has been looked at and everything there has been done, nothing more is.
proof fn lemma_sweep_rest(
    bus: BusState,
    index: int,
    hub: Hub,
    place: Place,
    known: u8,
    now: u8,
    watch: Watch,
)
    requires
        stays(bus, index, place, now),
        hub.endpoint.address == place.hub,
        accounts(place, known, watch.steps, now),
    ensures
        traced(
            bus::sweep_program(bus, index, hub, place.port + 1),
            place,
            watch,
            walk_accounted_for(index, place, known),
        ),
{
    lemma_sweep(bus, index, hub, place.port + 1, index, place, now, watch);
    lemma_weaker(
        bus::sweep_program(bus, index, hub, place.port + 1),
        place,
        watch,
        unmoved(watch.steps, index, place, now),
        walk_accounted_for(index, place, known),
    );
}

/// A port at which there is nothing any more.
proof fn lemma_cleared(bus: BusState, index: int, place: Place, known: u8)
    requires
        stays(bus, index, place, known),
    ensures
        stays(bus.with_port(index, place.port as int, 0), index, place, 0),
{
    let cleared = bus.with_port(index, place.port as int, 0);
    assert forall|j: int| #[trigger] topology::is_hub(cleared.hubs, j) && topology::address_at(
        cleared.hubs,
        j,
    ) == place.hub implies j == index by {
        assert(topology::is_hub(bus.hubs, j));
    }
}

/// What is done about the port once it has been found disconnected.
proof fn lemma_gone(
    bus: BusState,
    index: int,
    hub: Hub,
    status: PortStatus,
    place: Place,
    known: u8,
    watch: Watch,
)
    requires
        stays(bus, index, place, known),
        known != 0,
        !status.is_connected(),
        hub.endpoint.address == place.hub,
        watch.steps == seq![
            Exchange {
                request: BusOp::LookAt(hub, place.port),
                answer: BusAnswer::Status(Ok(status)),
            },
        ],
    ensures
        traced(
            sweep_on(bus, index, hub, place.port as int, status),
            place,
            watch,
            walk_accounted_for(index, place, known),
        ),
{
    let ends = walk_accounted_for(index, place, known);
    let port = place.port;
    let react = bus::react_program(bus, index, port, false);
    let op = BusOp::Acknowledge(hub.endpoint, port);
    let told = |left: Watch, walked: Walked|
        {
            &&& stays(walked.0, index, place, 0)
            &&& forall|answer: BusAnswer|
                accounts(
                    place,
                    known,
                    #[trigger] left.after(place, op, answer).steps,
                    0,
                )
        };
    assert(traced(react, place, watch, told)) by {
        lemma_cleared(bus, index, place, known);
        if known == PORT_FAILED {
            assert(react == BusProgram::<Walked>::Return(
                (bus.with_port(index, port as int, 0), false),
            ));
        } else {
            let cleared = bus.with_port(index, port as int, 0);
            let part = bus::forget_program(cleared, known, MAX_HUBS as nat);
            if known != place.hub {
                lemma_forget(cleared, known, MAX_HUBS as nat, index, place, 0, watch);
                lemma_comes_to(part, place, watch, unmoved(watch.steps, index, place, 0));
            }
            broadcast use lemma_bind;

            let tell = BusOp::Tell(
                Event::Detached { hub_address: place.hub, port, address: known },
            );
            assert forall|left: Watch, walked: Walked| #[trigger]
                comes_to(part, place, watch, left, walked) implies traced(
                session::ask(
                    tell,
                    |stop: bool|
                        Program::Return((walked.0.releasing(known), walked.1 || stop)),
                ),
                place,
                left,
                told,
            ) by {
                let ask: BusProgram<Walked> = session::ask(
                    tell,
                    |stop: bool|
                        Program::Return((walked.0.releasing(known), walked.1 || stop)),
                );
                let next = ask->Request_1;
                if known != place.hub {
                    assert(stays(walked.0.releasing(known), index, place, 0));
                    assert forall|answer: BusAnswer|
                        traced(
                            #[trigger] next(answer),
                            place,
                            left.after(place, tell, answer),
                            told,
                        ) by {
                        match answer {
                            BusAnswer::Flag(stop) => {
                                let value = (walked.0.releasing(known), walked.1 || stop);
                                assert(next(answer) == BusProgram::<Walked>::Return(value));
                                assert(told(left.after(place, tell, answer), value));
                            },
                            _ => {},
                        }
                    }
                }
            }
            assert(traced(react, place, watch, told));
        }
    }
    lemma_comes_to(react, place, watch, told);
    assert forall|left: Watch, walked: Walked, answer: BusAnswer| #[trigger]
        comes_to(react, place, watch, left, walked) implies traced(
        bus::sweep_program(walked.0, index, hub, port + 1),
        place,
        #[trigger] left.after(place, op, answer),
        ends,
    ) by {
        let later = left.after(place, op, answer);
        lemma_sweep_rest(walked.0, index, hub, place, known, 0, later);
    }
    assert forall|left: Watch, walked: Walked| #[trigger]
        comes_to(react, place, watch, left, walked) implies traced(
        swept_on(bus, index, hub, port as int, status, walked),
        place,
        left,
        ends,
    ) by {
        let next = swept_on(bus, index, hub, port as int, status, walked)->Request_1;
        assert forall|answer: BusAnswer|
            traced(#[trigger] next(answer), place, left.after(place, op, answer), ends) by {
            let later = left.after(place, op, answer);
            assert(stays(walked.0, index, place, 0) && accounts(place, known, later.steps, 0));
            assert(ends(later, (walked.0, true)));
        }
    }
    broadcast use lemma_bind;

    assert(traced(
        sweep_on(bus, index, hub, place.port as int, status),
        place,
        watch,
        ends,
    ));
}

/// What is done about the port itself once it has been looked at.
proof fn lemma_here(
    bus: BusState,
    index: int,
    hub: Hub,
    status: PortStatus,
    place: Place,
    known: u8,
    watch: Watch,
)
    requires
        stays(bus, index, place, known),
        hub.endpoint.address == place.hub,
        watch.steps == seq![
            Exchange {
                request: BusOp::LookAt(hub, place.port),
                answer: BusAnswer::Status(Ok(status)),
            },
        ],
    ensures
        traced(
            sweep_on(bus, index, hub, place.port as int, status),
            place,
            watch,
            walk_accounted_for(index, place, known),
        ),
{
    let ends = walk_accounted_for(index, place, known);
    let port = place.port;
    let program = sweep_on(bus, index, hub, port as int, status);
    let entry = bus.hubs[index]->0;
    if status.is_connected() == (known != 0) {
        lemma_sweep_rest(bus, index, hub, place, known, known, watch);
    } else if known == 0 {
        let next = program->Request_1;
        let op = BusOp::Reset(entry.hub, port);
        assert forall|answer: BusAnswer|
            traced(#[trigger] next(answer), place, watch.after(place, op, answer), ends) by {
            lemma_tried(next(answer), place, watch.after(place, op, answer), ends);
        }
    } else {
        lemma_gone(bus, index, hub, status, place, known, watch);
    }
}

/// What is done about the ports of the hub, up to the port and beyond it.
proof fn lemma_sweep_to(
    bus: BusState,
    index: int,
    hub: Hub,
    port: int,
    place: Place,
    known: u8,
    watch: Watch,
)
    requires
        stays(bus, index, place, known),
        hub.endpoint.address == place.hub,
        1 <= port <= place.port,
        watch.steps.len() == 0,
    ensures
        traced(
            bus::sweep_program(bus, index, hub, port),
            place,
            watch,
            walk_accounted_for(index, place, known),
        ),
    decreases MAX_PORTS + 1 - port,
{
    let ends = walk_accounted_for(index, place, known);
    let program = bus::sweep_program(bus, index, hub, port);
    let op = BusOp::LookAt(hub, port as u8);
    assert(ends(watch, (bus, false)));
    if port <= bus::tracked_ports(hub) {
        let next = program->Request_1;
        assert forall|answer: BusAnswer|
            traced(#[trigger] next(answer), place, watch.after(place, op, answer), ends) by {
            let later = watch.after(place, op, answer);
            match answer {
                BusAnswer::Status(Ok(status)) => {
                    let rest = |walked: Walked|
                        swept_on(bus, index, hub, port, status, walked);
                    let react = bus::react_program(
                        bus,
                        index,
                        port as u8,
                        status.is_connected(),
                    );
                    assert(next(answer) == react.bind(rest)) by {
                        broadcast use program::lemma_bind_same;

                    }
                    if port == place.port {
                        assert(later.steps =~= seq![Exchange { request: op, answer }]);
                        lemma_here(bus, index, hub, status, place, known, later);
                    } else {
                        let kept = unmoved(later.steps, index, place, known);
                        lemma_react(
                            bus,
                            index,
                            port as u8,
                            status.is_connected(),
                            index,
                            place,
                            known,
                            later,
                        );
                        lemma_comes_to(react, place, later, kept);
                        assert forall|left: Watch, walked: Walked| #[trigger]
                            comes_to(react, place, later, left, walked) implies traced(
                            rest(walked),
                            place,
                            left,
                            ends,
                        ) by {
                            assert(ends(left, (walked.0, true)));
                            assert(ends(left.calm(), (walked.0, true)));
                            lemma_sweep_to(walked.0, index, hub, port + 1, place, known, left);
                            lemma_sweep_to(
                                walked.0,
                                index,
                                hub,
                                port + 1,
                                place,
                                known,
                                left.calm(),
                            );
                            broadcast use lemma_act;

                        }
                        broadcast use lemma_bind;

                        assert(traced(react.bind(rest), place, later, ends));
                    }
                },
                BusAnswer::Status(Err(error)) => {
                    if port == place.port {
                        lemma_sweep_rest(bus, index, hub, place, known, known, later);
                    } else {
                        lemma_sweep_to(bus, index, hub, port + 1, place, known, later);
                    }
                },
                _ => {},
            }
        }
    }
}

/// Everything that was done about the port is accounted for, of hubs that were looked at.
pub open spec fn poll_accounted_for(index: int, place: Place, known: u8) -> spec_fn(
    Watch,
    BusState,
) -> bool {
    |left: Watch, polled: BusState| accounted_for(polled, left.steps, index, place, known)
}

/// What is done about the hubs behind the one that has the port.
proof fn lemma_poll_rest(
    bus: BusState,
    at: int,
    index: int,
    place: Place,
    known: u8,
    watch: Watch,
)
    requires
        accounted_for(bus, watch.steps, index, place, known),
        index < at,
    ensures
        traced(
            bus::poll_hubs_program(bus, at),
            place,
            watch,
            poll_accounted_for(index, place, known),
        ),
    decreases MAX_HUBS - at,
{
    let ends = poll_accounted_for(index, place, known);
    if known == 0 && tried(place, watch.steps) {
        lemma_tried(bus::poll_hubs_program(bus, at), place, watch, ends);
    } else if at < MAX_HUBS {
        let now = choose|now: u8| #[trigger]
            stays(bus, index, place, now) && accounts(place, known, watch.steps, now);
        match bus.hubs[at] {
            None => {
                lemma_poll_rest(bus, at + 1, index, place, known, watch);
            },
            Some(entry) => {
                assert(topology::is_hub(bus.hubs, at));
                let part = bus::sweep_program(bus, at, entry.hub, 1);
                lemma_sweep(bus, at, entry.hub, 1, index, place, now, watch);
                lemma_comes_to(part, place, watch, unmoved(watch.steps, index, place, now));
                assert forall|left: Watch, walked: Walked| #[trigger]
                    comes_to(part, place, watch, left, walked) implies traced(
                    bus::poll_hubs_program(walked.0, at + 1),
                    place,
                    left,
                    ends,
                ) && ends(left, walked.0) by {
                    lemma_poll_rest(walked.0, at + 1, index, place, known, left);
                }
                broadcast use lemma_bind;

                assert(traced(bus::poll_hubs_program(bus, at), place, watch, ends));
            },
        }
    }
}

/// What is done about the hubs up to the one that has the port, and behind it.
proof fn lemma_poll_to(
    bus: BusState,
    at: int,
    index: int,
    place: Place,
    known: u8,
    watch: Watch,
)
    requires
        stays(bus, index, place, known),
        0 <= at <= index,
        watch.steps.len() == 0,
    ensures
        traced(
            bus::poll_hubs_program(bus, at),
            place,
            watch,
            poll_accounted_for(index, place, known),
        ),
    decreases MAX_HUBS - at,
{
    let ends = poll_accounted_for(index, place, known);
    match bus.hubs[at] {
        None => {
            lemma_poll_to(bus, at + 1, index, place, known, watch);
        },
        Some(entry) => {
            assert(topology::is_hub(bus.hubs, at));
            let part = bus::sweep_program(bus, at, entry.hub, 1);
            if at == index {
                lemma_sweep_to(bus, index, entry.hub, 1, place, known, watch);
                lemma_comes_to(part, place, watch, walk_accounted_for(index, place, known));
            } else {
                lemma_sweep(bus, at, entry.hub, 1, index, place, known, watch);
                lemma_comes_to(part, place, watch, unmoved(watch.steps, index, place, known));
            }
            assert forall|left: Watch, walked: Walked| #[trigger]
                comes_to(part, place, watch, left, walked) implies traced(
                bus::poll_hubs_program(walked.0, at + 1),
                place,
                left,
                ends,
            ) && ends(left, walked.0) by {
                if at == index {
                    lemma_poll_rest(walked.0, at + 1, index, place, known, left);
                } else {
                    lemma_poll_to(walked.0, at + 1, index, place, known, left);
                }
            }
            broadcast use lemma_bind;

            assert(traced(bus::poll_hubs_program(bus, at), place, watch, ends));
        },
    }
}

/// The port of the hub at `index`.
pub open spec fn place_at(bus: BusState, index: int, port: u8) -> Place {
    Place { hub: topology::address_at(bus.hubs, index), port }
}

/// The hub is not told as gone between two histories.
pub open spec fn hub_remains(place: Place, start: BusHistory, end: BusHistory) -> bool {
    forall|i: int|
        start.len() <= i < end.len() ==> !place.hub_goes((#[trigger] end[i]).request)
}

/// A look at the bus looks at each port of a hub once at most, and does with it what is
/// called for: a device that was not known of is brought up, the application is told of
/// one that is gone, and of one that could not be brought up it is told nothing. Nothing
/// else that happens on the bus has it do anything about the port, unless the hub goes.
pub proof fn law_poll_of_a_port(
    bus: BusState,
    index: int,
    port: u8,
    start: BusHistory,
    end: BusHistory,
    done: Enumerated,
)
    requires
        topology::tidy(bus),
        topology::is_hub(bus.hubs, index),
        bus::is_place(index, port - 1),
        bus::poll_program(bus).ran(start, end, done),
        hub_remains(place_at(bus, index, port), start, end),
    ensures
        accounts(
            place_at(bus, index, port),
            bus.known(index, port as int),
            steps_about(place_at(bus, index, port), end.skip(start.len() as int)),
            done.0.known(index, port as int),
        ),
        bus.known(index, port as int) != 0 ==> topology::is_hub(done.0.hubs, index) && place_at(
            done.0,
            index,
            port,
        ) == place_at(bus, index, port),
{
    let place = place_at(bus, index, port);
    let known = bus.known(index, port as int);
    let watch = Watch { steps: Seq::empty(), fresh: false };
    let history = end.skip(start.len() as int);
    let program = bus::poll_program(bus);
    let ends = |left: Watch, done: Enumerated|
        accounted_for(done.0, left.steps, index, place, known);
    assert(bus::entry_wf(bus.hubs[index]));
    if place.hub != topology::ROOT_ADDRESS {
        let (i, p) = choose|i: int, p: int|
            bus::is_place(i, p) && #[trigger] bus::device_at(bus.hubs, i, p) == place.hub;
        assert(bus.addresses.contains(bus::device_at(bus.hubs, i, p) as int));
    }
    assert(stays(bus, index, place, known));
    assert(ends(watch, (bus, Err(EnumerationError::OutOfChannels))));
    assert(watch.calm() == watch);
    let part = bus::poll_hubs_program(bus, 0);
    lemma_poll_to(bus, 0, index, place, known, watch);
    lemma_comes_to(part, place, watch, poll_accounted_for(index, place, known));
    assert forall|left: Watch, polled: BusState| #[trigger]
        comes_to(part, place, watch, left, polled) implies traced(
        bus::conclude(polled),
        place,
        left,
        ends,
    ) by {
        let settled = BusState { fault: None, ..polled };
        if !(known == 0 && tried(place, left.steps)) {
            let now = choose|now: u8| #[trigger]
                stays(polled, index, place, now) && accounts(place, known, left.steps, now);
            assert(stays(settled, index, place, now));
        }
        broadcast use lemma_act;

        assert(forall|result: Result<(), EnumerationError>| #[trigger]
            ends(left.calm(), (settled, result)));
    }
    assert(traced(program, place, watch, ends)) by {
        broadcast use group_steps;

    }
    assert forall|i: int| 0 <= i < history.len() implies !place.hub_goes(
        (#[trigger] history[i]).request,
    ) by {
        assert(history[i] == end[start.len() + i]);
    }
    lemma_ran(program, place, watch, ends, history, done);
}

/// The step at a place of a history concerns the port; `fresh` says whether the step before
/// the history has reset it.
pub open spec fn concerned_at(place: Place, fresh: bool, history: BusHistory, i: int) -> bool {
    place.concerned(
        if i == 0 {
            fresh
        } else {
            place.is_reset(history[i - 1].request)
        },
        history[i].request,
    )
}

/// Every step that concerns a port is among those that are noted of it.
proof fn lemma_noted(place: Place, watch: Watch, history: BusHistory)
    ensures
        forall|i: int|
            0 <= i < history.len() && #[trigger] concerned_at(place, watch.fresh, history, i)
                ==> watch.over(place, history).steps.contains(history[i]),
        forall|step: Exchange<BusOp, BusAnswer>| #[trigger]
            watch.steps.contains(step) ==> watch.over(place, history).steps.contains(step),
    decreases history.len(),
{
    if history.len() > 0 {
        let later = watch.after(place, history[0].request, history[0].answer);
        let rest = history.skip(1);
        let all = watch.over(place, history).steps;
        lemma_noted(place, later, rest);
        assert forall|step: Exchange<BusOp, BusAnswer>| #[trigger]
            watch.steps.contains(step) implies all.contains(step) by {
            let i = choose|i: int| 0 <= i < watch.steps.len() && watch.steps[i] == step;
            assert(later.steps[i] == step);
            assert(later.steps.contains(step));
        }
        assert forall|i: int|
            0 <= i < history.len() && #[trigger] concerned_at(
                place,
                watch.fresh,
                history,
                i,
            ) implies all.contains(history[i]) by {
            if i == 0 {
                assert(later.steps[watch.steps.len() as int] == Exchange {
                    request: history[0].request,
                    answer: history[0].answer,
                });
                assert(later.steps.contains(history[0]));
            } else {
                assert(rest[i - 1] == history[i]);
                assert(concerned_at(place, later.fresh, rest, i - 1));
            }
        }
    }
}

/// Every step that is noted of a port was made.
proof fn lemma_made(
    place: Place,
    watch: Watch,
    history: BusHistory,
    step: Exchange<BusOp, BusAnswer>,
)
    requires
        watch.over(place, history).steps.contains(step),
    ensures
        watch.steps.contains(step) || history.contains(step),
    decreases history.len(),
{
    if history.len() > 0 {
        let later = watch.after(place, history[0].request, history[0].answer);
        let rest = history.skip(1);
        lemma_made(place, later, rest, step);
        if later.steps.contains(step) {
            let i = choose|i: int| 0 <= i < later.steps.len() && later.steps[i] == step;
            if i < watch.steps.len() {
                assert(watch.steps[i] == step);
            } else {
                assert(history[0] == step);
            }
        } else {
            let i = choose|i: int| 0 <= i < rest.len() && rest[i] == step;
            assert(history[i + 1] == step);
        }
    }
}

/// A port that something is known of is left alone for as long as something is connected
/// to it, be that a device or something that could not be brought up: it is not reset,
/// nothing there is probed, and the application is told nothing of it.
pub proof fn law_left_alone_while_connected(
    bus: BusState,
    index: int,
    port: u8,
    start: BusHistory,
    end: BusHistory,
    done: Enumerated,
)
    requires
        topology::tidy(bus),
        topology::is_hub(bus.hubs, index),
        bus::is_place(index, port - 1),
        bus.known(index, port as int) != 0,
        bus::poll_program(bus).ran(start, end, done),
        hub_remains(place_at(bus, index, port), start, end),
        forall|i: int|
            start.len() <= i < end.len() && place_at(bus, index, port).is_look(
                (#[trigger] end[i]).request,
            ) ==> found(end[i]) != Some(false),
    ensures
        forall|i: int|
            0 <= i < end.len() - start.len() && #[trigger] concerned_at(
                place_at(bus, index, port),
                false,
                end.skip(start.len() as int),
                i,
            ) ==> place_at(bus, index, port).is_look(end[start.len() + i].request),
        done.0.known(index, port as int) == bus.known(index, port as int),
{
    let place = place_at(bus, index, port);
    let history = end.skip(start.len() as int);
    let watch = Watch { steps: Seq::empty(), fresh: false };
    let steps = steps_about(place, history);
    law_poll_of_a_port(bus, index, port, start, end, done);
    lemma_noted(place, watch, history);
    if steps.len() > 0 {
        assert(steps.contains(steps[0]));
        lemma_made(place, watch, history, steps[0]);
        let i = choose|i: int| 0 <= i < history.len() && history[i] == steps[0];
        assert(end[start.len() + i] == steps[0]);
    }
    assert forall|i: int|
        0 <= i < end.len() - start.len() && #[trigger] concerned_at(
            place,
            false,
            history,
            i,
        ) implies place.is_look(end[start.len() + i].request) by {
        assert(history[i] == end[start.len() + i]);
        assert(steps.contains(history[i]));
    }
}

/// When something that could not be brought up is unplugged, the application is not told,
/// and what is found there by the next look at the bus is tried anew.
pub proof fn law_tried_again(
    bus: BusState,
    index: int,
    port: u8,
    start: BusHistory,
    end: BusHistory,
    done: Enumerated,
    next_start: BusHistory,
    next_end: BusHistory,
    next_done: Enumerated,
)
    requires
        topology::tidy(bus),
        topology::is_hub(bus.hubs, index),
        bus::is_place(index, port - 1),
        bus.known(index, port as int) == PORT_FAILED,
        bus::poll_program(bus).ran(start, end, done),
        bus::poll_program(done.0).ran(next_start, next_end, next_done),
        hub_remains(place_at(bus, index, port), start, end),
        hub_remains(place_at(bus, index, port), next_start, next_end),
        exists|i: int|
            start.len() <= i < end.len() && place_at(bus, index, port).is_look(
                (#[trigger] end[i]).request,
            ) && found(end[i]) == Some(false),
        exists|i: int|
            next_start.len() <= i < next_end.len() && place_at(bus, index, port).is_look(
                (#[trigger] next_end[i]).request,
            ) && found(next_end[i]) == Some(true),
    ensures
        left_after(
            place_at(bus, index, port),
            steps_about(place_at(bus, index, port), end.skip(start.len() as int)),
            0,
        ),
        tried(
            place_at(bus, index, port),
            steps_about(place_at(bus, index, port), next_end.skip(next_start.len() as int)),
        ),
{
    let place = place_at(bus, index, port);
    let watch = Watch { steps: Seq::empty(), fresh: false };
    let history = end.skip(start.len() as int);
    let next_history = next_end.skip(next_start.len() as int);
    law_poll_of_a_port(bus, index, port, start, end, done);
    lemma_noted(place, watch, history);
    let i = choose|i: int|
        start.len() <= i < end.len() && place.is_look((#[trigger] end[i]).request) && found(end[i])
            == Some(false);
    assert(history[i - start.len()] == end[i]);
    assert(concerned_at(place, false, history, i - start.len()));
    topology::law_nothing_is_lost(bus);
    program::law_ends_in(
        bus::poll_program(bus),
        |done: Enumerated| topology::tidy(done.0),
        start,
        end,
        done,
    );
    law_poll_of_a_port(done.0, index, port, next_start, next_end, next_done);
    lemma_noted(place, watch, next_history);
    let j = choose|j: int|
        next_start.len() <= j < next_end.len() && place.is_look((#[trigger] next_end[j]).request)
            && found(next_end[j]) == Some(true);
    assert(next_history[j - next_start.len()] == next_end[j]);
    assert(concerned_at(place, false, next_history, j - next_start.len()));
}

} // verus!

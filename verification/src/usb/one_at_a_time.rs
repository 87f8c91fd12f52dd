//! One device at a time comes out of a reset: it is spoken to at the default address
//! before any other port is reset, so that no two devices are ever at that address.

use vstd::prelude::*;

use crate::program::Program;
use crate::usb::bus;
use crate::usb::bus::{BusState, HubEntry, Walked, MAX_HUBS, MAX_HUB_DEPTH, MAX_PORTS};
use crate::usb::descriptor::DeviceDescriptor;
use crate::usb::dwc2::{ControlEndpoint, TransferError};
use crate::usb::hub::{Hub, PortStatus};
use crate::usb::session;
use crate::usb::session::{BusAnswer, BusOp, BusProgram};
use crate::usb::EnumerationError;

verus! {

/// A step that resets a port.
pub open spec fn resets(op: BusOp) -> bool {
    op is ResetRoot || op is Reset
}

/// Whether a device is at the default address after a step: one that was is until it
/// has been probed, and a reset puts one there if the port comes out of it enabled.
pub open spec fn fresh_after(fresh: bool, op: BusOp, answer: BusAnswer) -> bool {
    match op {
        BusOp::ResetRoot => true,
        BusOp::Reset(hub, port) => answer matches BusAnswer::Status(Ok(status))
            && status.is_enabled(),
        BusOp::Probe(endpoint, address) => false,
        _ => fresh,
    }
}

/// No port is reset while a device is at the default address; and when this returns,
/// `ends` is true of whether one is, and of what is returned.
pub open spec fn careful<T>(
    program: BusProgram<T>,
    fresh: bool,
    ends: spec_fn(bool, T) -> bool,
) -> bool
    decreases program,
{
    match program {
        Program::Return(value) => ends(fresh, value),
        Program::Request(op, next) => !(fresh && resets(op)) && forall|answer: BusAnswer|
            careful(#[trigger] next(answer), fresh_after(fresh, op, answer), ends),
        Program::Stuck => true,
    }
}

/// Some answers lead to `value` being returned, with or without a device at the
/// default address.
pub open spec fn comes_to<T>(program: BusProgram<T>, fresh: bool, left: bool, value: T) -> bool
    decreases program,
{
    match program {
        Program::Return(returned) => returned == value && left == fresh,
        Program::Request(op, next) => exists|answer: BusAnswer|
            comes_to(#[trigger] next(answer), fresh_after(fresh, op, answer), left, value),
        Program::Stuck => false,
    }
}

proof fn lemma_comes_to<T>(program: BusProgram<T>, fresh: bool, ends: spec_fn(bool, T) -> bool)
    requires
        careful(program, fresh, ends),
    ensures
        forall|left: bool, value: T| #[trigger]
            comes_to(program, fresh, left, value) ==> ends(left, value),
        careful(program, fresh, |left: bool, value: T| true),
    decreases program,
{
    match program {
        Program::Request(op, next) => {
            assert forall|left: bool, value: T| #[trigger]
                comes_to(program, fresh, left, value) implies ends(left, value) by {
                let answer = choose|answer: BusAnswer|
                    comes_to(#[trigger] next(answer), fresh_after(fresh, op, answer), left, value);
                lemma_comes_to(next(answer), fresh_after(fresh, op, answer), ends);
            }
            assert forall|answer: BusAnswer|
                careful(
                    #[trigger] next(answer),
                    fresh_after(fresh, op, answer),
                    |left: bool, value: T| true,
                ) by {
                lemma_comes_to(next(answer), fresh_after(fresh, op, answer), ends);
            }
        },
        _ => {},
    }
}

broadcast proof fn lemma_bind<S, T>(
    program: BusProgram<S>,
    rest: spec_fn(S) -> BusProgram<T>,
    fresh: bool,
    ends: spec_fn(bool, T) -> bool,
)
    requires
        careful(program, fresh, |left: bool, value: S| true),
        forall|left: bool, value: S| #[trigger]
            comes_to(program, fresh, left, value) ==> careful(rest(value), left, ends),
    ensures
        #[trigger] careful(program.bind(rest), fresh, ends),
    decreases program,
{
    match program {
        Program::Return(value) => {
            assert(comes_to(program, fresh, fresh, value));
            assert(program.bind(rest) == rest(value));
        },
        Program::Request(op, next) => {
            let bound = program.bind(rest)->Request_1;
            assert forall|answer: BusAnswer|
                careful(#[trigger] bound(answer), fresh_after(fresh, op, answer), ends) by {
                let then_fresh = fresh_after(fresh, op, answer);
                assert forall|left: bool, value: S| #[trigger]
                    comes_to(next(answer), then_fresh, left, value) implies careful(
                    rest(value),
                    left,
                    ends,
                ) by {
                    assert(comes_to(program, fresh, left, value));
                }
                lemma_bind(next(answer), rest, then_fresh, ends);
                assert(bound(answer) == next(answer).bind(rest));
            }
        },
        Program::Stuck => {},
    }
}

broadcast proof fn lemma_ask<T>(
    op: BusOp,
    rest: spec_fn(bool) -> BusProgram<T>,
    fresh: bool,
    ends: spec_fn(bool, T) -> bool,
)
    requires
        !resets(op),
        op !is Probe,
        careful(rest(true), fresh, ends),
        careful(rest(false), fresh, ends),
    ensures
        #[trigger] careful(session::ask(op, rest), fresh, ends),
{
    let next = session::ask(op, rest)->Request_1;
    assert forall|answer: BusAnswer|
        careful(#[trigger] next(answer), fresh_after(fresh, op, answer), ends) by {
        match answer {
            BusAnswer::Flag(flag) => {
                assert(next(answer) == rest(flag));
            },
            _ => {},
        }
    }
}

broadcast proof fn lemma_act<T>(
    op: BusOp,
    rest: BusProgram<T>,
    fresh: bool,
    ends: spec_fn(bool, T) -> bool,
)
    requires
        !(fresh && resets(op)),
        forall|answer: BusAnswer| #[trigger]
            careful(rest, fresh_after(fresh, op, answer), ends),
    ensures
        #[trigger] careful(session::act(op, rest), fresh, ends),
{
    let next = session::act(op, rest)->Request_1;
    assert forall|answer: BusAnswer|
        careful(#[trigger] next(answer), fresh_after(fresh, op, answer), ends) by {
        assert(next(answer) == rest);
    }
}

broadcast proof fn lemma_look<T>(
    hub: Hub,
    port: u8,
    rest: spec_fn(Result<PortStatus, EnumerationError>) -> BusProgram<T>,
    fresh: bool,
    ends: spec_fn(bool, T) -> bool,
)
    requires
        forall|status: Result<PortStatus, EnumerationError>|
            careful(#[trigger] rest(status), fresh, ends),
    ensures
        #[trigger] careful(session::port_step(BusOp::LookAt(hub, port), rest), fresh, ends),
{
    let op = BusOp::LookAt(hub, port);
    let next = session::port_step(op, rest)->Request_1;
    assert forall|answer: BusAnswer|
        careful(#[trigger] next(answer), fresh_after(fresh, op, answer), ends) by {
        match answer {
            BusAnswer::Status(status) => {
                assert(next(answer) == rest(status));
            },
            _ => {},
        }
    }
}

broadcast proof fn lemma_reset<T>(
    hub: Hub,
    port: u8,
    rest: spec_fn(Result<PortStatus, EnumerationError>) -> BusProgram<T>,
    ends: spec_fn(bool, T) -> bool,
)
    requires
        forall|status: Result<PortStatus, EnumerationError>|
            careful(
                #[trigger] rest(status),
                status matches Ok(status) && status.is_enabled(),
                ends,
            ),
    ensures
        #[trigger] careful(session::port_step(BusOp::Reset(hub, port), rest), false, ends),
{
    let op = BusOp::Reset(hub, port);
    let next = session::port_step(op, rest)->Request_1;
    assert forall|answer: BusAnswer|
        careful(#[trigger] next(answer), fresh_after(false, op, answer), ends) by {
        match answer {
            BusAnswer::Status(status) => {
                assert(next(answer) == rest(status));
            },
            _ => {},
        }
    }
}

broadcast proof fn lemma_root_speed<T>(
    rest: spec_fn(u8) -> BusProgram<T>,
    fresh: bool,
    ends: spec_fn(bool, T) -> bool,
)
    requires
        forall|speed: u8| careful(#[trigger] rest(speed), fresh, ends),
    ensures
        #[trigger] careful(session::root_speed(rest), fresh, ends),
{
    let next = session::root_speed(rest)->Request_1;
    assert forall|answer: BusAnswer|
        careful(
            #[trigger] next(answer),
            fresh_after(fresh, BusOp::RootSpeed, answer),
            ends,
        ) by {
        match answer {
            BusAnswer::Speed(speed) => {
                assert(next(answer) == rest(speed));
            },
            _ => {},
        }
    }
}

broadcast proof fn lemma_probe<T>(
    endpoint: ControlEndpoint,
    address: u8,
    rest: spec_fn(Result<(ControlEndpoint, DeviceDescriptor), TransferError>) -> BusProgram<T>,
    fresh: bool,
    ends: spec_fn(bool, T) -> bool,
)
    requires
        forall|probed: Result<(ControlEndpoint, DeviceDescriptor), TransferError>|
            careful(#[trigger] rest(probed), false, ends),
    ensures
        #[trigger] careful(session::probe(endpoint, address, rest), fresh, ends),
{
    let op = BusOp::Probe(endpoint, address);
    let next = session::probe(endpoint, address, rest)->Request_1;
    assert forall|answer: BusAnswer|
        careful(#[trigger] next(answer), fresh_after(fresh, op, answer), ends) by {
        match answer {
            BusAnswer::Probed(probed) => {
                if !(probed is Ok && probed->Ok_0.0.address != address) {
                    assert(next(answer) == rest(probed));
                }
            },
            _ => {},
        }
    }
}

broadcast proof fn lemma_configure<T>(
    endpoint: ControlEndpoint,
    high_speed: bool,
    rest: spec_fn(Result<Hub, EnumerationError>) -> BusProgram<T>,
    fresh: bool,
    ends: spec_fn(bool, T) -> bool,
)
    requires
        forall|configured: Result<Hub, EnumerationError>|
            careful(#[trigger] rest(configured), fresh, ends),
    ensures
        #[trigger] careful(session::configure(endpoint, high_speed, rest), fresh, ends),
{
    let op = BusOp::Configure(endpoint, high_speed);
    let next = session::configure(endpoint, high_speed, rest)->Request_1;
    assert forall|answer: BusAnswer|
        careful(#[trigger] next(answer), fresh_after(fresh, op, answer), ends) by {
        match answer {
            BusAnswer::Configured(configured) => {
                if !(configured is Ok && configured->Ok_0.endpoint != endpoint) {
                    assert(next(answer) == rest(configured));
                }
            },
            _ => {},
        }
    }
}

broadcast group group_steps {
    lemma_bind,
    lemma_ask,
    lemma_act,
    lemma_look,
    lemma_reset,
    lemma_root_speed,
    lemma_probe,
    lemma_configure,
}

/// A walk that leaves a device at the default address is over.
pub open spec fn over() -> spec_fn(bool, Walked) -> bool {
    |left: bool, walked: Walked| left ==> walked.1
}

proof fn lemma_attach(bus: BusState, index: int, port: u8, levels: nat)
    ensures
        careful(bus::attach_program(bus, index, port, levels), false, over()),
    decreases levels, 0nat, 1int,
{
    if let Some(entry) = bus.hubs[index] {
        if let Some(address) = bus::free_address(bus.addresses, 1) {
            assert forall|status: PortStatus| #[trigger] status.is_enabled() implies careful(
                bus::admit_program(
                    bus.taking(address),
                    index,
                    entry,
                    port,
                    status,
                    address,
                    levels,
                ),
                true,
                over(),
            ) by {
                lemma_admit(bus.taking(address), index, entry, port, status, address, levels);
            }
        }
        broadcast use group_steps;

        assert(careful(bus::attach_program(bus, index, port, levels), false, over()));
    }
}

proof fn lemma_admit(
    bus: BusState,
    index: int,
    entry: HubEntry,
    port: u8,
    status: PortStatus,
    address: u8,
    levels: nat,
)
    ensures
        careful(
            bus::admit_program(bus, index, entry, port, status, address, levels),
            true,
            over(),
        ),
    decreases levels, 0nat, 0int,
{
    let placed = bus.with_port(index, port as int, address);
    let depth = (entry.depth + 1) as u8;
    if levels > 0 {
        if let Some(child) = bus::free_place(placed.hubs, 0) {
            assert forall|hub: Hub|
                careful(
                    bus::walk_program(
                        #[trigger] placed.with_hub(child, hub, depth),
                        child,
                        hub,
                        1,
                        (levels - 1) as nat,
                    ),
                    false,
                    over(),
                ) by {
                lemma_walk(
                    placed.with_hub(child, hub, depth),
                    child,
                    hub,
                    1,
                    (levels - 1) as nat,
                );
            }
        }
    }
    broadcast use group_steps;

    assert(careful(
        bus::admit_program(bus, index, entry, port, status, address, levels),
        true,
        over(),
    ));
}

proof fn lemma_walk(bus: BusState, index: int, hub: Hub, port: int, levels: nat)
    ensures
        careful(bus::walk_program(bus, index, hub, port, levels), false, over()),
    decreases levels, 1nat, MAX_PORTS + 1 - port,
{
    if port <= bus::tracked_ports(hub) {
        lemma_walk(bus, index, hub, port + 1, levels);
        lemma_attach(bus, index, port as u8, levels);
        let part = bus::attach_program(bus, index, port as u8, levels);
        lemma_comes_to(part, false, over());
        assert forall|left: bool, walked: Walked| #[trigger]
            comes_to(part, false, left, walked) && !walked.1 implies careful(
            bus::walk_program(walked.0, index, hub, port + 1, levels),
            left,
            over(),
        ) by {
            lemma_walk(walked.0, index, hub, port + 1, levels);
        }
        broadcast use group_steps;

        assert(careful(bus::walk_program(bus, index, hub, port, levels), false, over()));
    }
}

/// A device at the default address is not left behind.
pub open spec fn settled() -> spec_fn(bool, Walked) -> bool {
    |left: bool, walked: Walked| !left
}

proof fn lemma_forget(bus: BusState, address: u8, levels: nat)
    ensures
        careful(bus::forget_program(bus, address, levels), false, settled()),
    decreases levels, 0nat, 0int,
{
    if let Some(index) = bus::place_of(bus.hubs, address, 0) {
        if levels > 0 {
            lemma_forget_ports(
                BusState { hubs: bus.hubs.update(index, None), ..bus },
                address,
                bus.hubs[index]->0.ports,
                0,
                false,
                (levels - 1) as nat,
            );
        }
    }
}

/// What is left once the device at a port is gone.
pub open spec fn after_port(
    walked: Walked,
    address: u8,
    ports: Seq<u8>,
    at: int,
    stop: bool,
    more: bool,
    levels: nat,
) -> BusProgram<Walked> {
    bus::forget_ports_program(
        walked.0.releasing(ports[at]),
        address,
        ports,
        at + 1,
        stop || walked.1 || more,
        levels,
    )
}

proof fn lemma_forget_ports(
    bus: BusState,
    address: u8,
    ports: Seq<u8>,
    at: int,
    stop: bool,
    levels: nat,
)
    ensures
        careful(
            bus::forget_ports_program(bus, address, ports, at, stop, levels),
            false,
            settled(),
        ),
    decreases levels, 1nat, MAX_PORTS - at,
{
    if at < MAX_PORTS {
        lemma_forget_ports(bus, address, ports, at + 1, stop, levels);
        lemma_forget(bus, ports[at], levels);
        let part = bus::forget_program(bus, ports[at], levels);
        lemma_comes_to(part, false, settled());
        assert forall|left: bool, walked: Walked| #[trigger]
            comes_to(part, false, left, walked) implies careful(
            after_port(walked, address, ports, at, stop, true, levels),
            left,
            settled(),
        ) && careful(
            after_port(walked, address, ports, at, stop, false, levels),
            left,
            settled(),
        ) by {
            let now = walked.0.releasing(ports[at]);
            lemma_forget_ports(now, address, ports, at + 1, stop || walked.1 || true, levels);
            lemma_forget_ports(now, address, ports, at + 1, stop || walked.1 || false, levels);
        }
        broadcast use group_steps;

        assert(careful(
            bus::forget_ports_program(bus, address, ports, at, stop, levels),
            false,
            settled(),
        ));
    }
}

proof fn lemma_react(bus: BusState, index: int, port: u8, connected: bool)
    ensures
        careful(bus::react_program(bus, index, port, connected), false, over()),
{
    lemma_attach(bus, index, port, MAX_HUB_DEPTH as nat);
    if let Some(entry) = bus.hubs[index] {
        let address = entry.ports[port - 1];
        let cleared = bus.with_port(index, port as int, 0);
        let part = bus::forget_program(cleared, address, MAX_HUBS as nat);
        lemma_forget(cleared, address, MAX_HUBS as nat);
        lemma_comes_to(part, false, settled());
    }
    broadcast use group_steps;

    assert(careful(bus::detach_program(bus, index, port), false, over()));
}

proof fn lemma_sweep(bus: BusState, index: int, hub: Hub, port: int)
    ensures
        careful(bus::sweep_program(bus, index, hub, port), false, over()),
    decreases MAX_PORTS + 1 - port,
{
    if port <= bus::tracked_ports(hub) {
        lemma_sweep(bus, index, hub, port + 1);
        assert forall|connected: bool, left: bool, walked: Walked| #[trigger]
            comes_to(
                bus::react_program(bus, index, port as u8, connected),
                false,
                left,
                walked,
            ) implies (left ==> walked.1) && (!walked.1 ==> careful(
            bus::sweep_program(walked.0, index, hub, port + 1),
            left,
            over(),
        )) by {
            lemma_react(bus, index, port as u8, connected);
            lemma_comes_to(
                bus::react_program(bus, index, port as u8, connected),
                false,
                over(),
            );
            lemma_sweep(walked.0, index, hub, port + 1);
        }
        assert forall|connected: bool|
            careful(
                #[trigger] bus::react_program(bus, index, port as u8, connected),
                false,
                |left: bool, walked: Walked| true,
            ) by {
            lemma_react(bus, index, port as u8, connected);
            lemma_comes_to(
                bus::react_program(bus, index, port as u8, connected),
                false,
                over(),
            );
        }
        broadcast use group_steps;

        assert(careful(bus::sweep_program(bus, index, hub, port), false, over()));
    }
}

/// Nothing is asked of how a walk ends.
pub open spec fn anyhow<T>() -> spec_fn(bool, T) -> bool {
    |left: bool, value: T| true
}

proof fn lemma_poll_hubs(bus: BusState, index: int)
    ensures
        careful(bus::poll_hubs_program(bus, index), false, anyhow()),
    decreases MAX_HUBS - index,
{
    if index < MAX_HUBS {
        match bus.hubs[index] {
            None => {
                lemma_poll_hubs(bus, index + 1);
            },
            Some(entry) => {
                let part = bus::sweep_program(bus, index, entry.hub, 1);
                lemma_sweep(bus, index, entry.hub, 1);
                lemma_comes_to(part, false, over());
                assert forall|left: bool, walked: Walked| #[trigger]
                    comes_to(part, false, left, walked) && !walked.1 implies careful(
                    bus::poll_hubs_program(walked.0, index + 1),
                    left,
                    anyhow(),
                ) by {
                    lemma_poll_hubs(walked.0, index + 1);
                }
                broadcast use group_steps;

                assert(careful(bus::poll_hubs_program(bus, index), false, anyhow()));
            },
        }
    }
}

/// However the devices and the application behave, no port is reset while a device
/// is at the default address: a device that a reset has put there is probed first, or
/// the walk is over.
pub proof fn law_one_device_at_the_default_address(bus: BusState)
    ensures
        careful(bus::enumerate_program(), false, anyhow()),
        careful(bus::poll_program(bus), false, anyhow()),
{
    let part = bus::poll_hubs_program(bus, 0);
    lemma_poll_hubs(bus, 0);
    lemma_comes_to(part, false, anyhow());
    assert forall|hub: Hub|
        careful(
            bus::walk_program(
                #[trigger] BusState::empty().taking(1).with_hub(0, hub, 0),
                0,
                hub,
                1,
                MAX_HUB_DEPTH as nat,
            ),
            false,
            anyhow(),
        ) by {
        let rooted = BusState::empty().taking(1).with_hub(0, hub, 0);
        lemma_walk(rooted, 0, hub, 1, MAX_HUB_DEPTH as nat);
        lemma_comes_to(
            bus::walk_program(rooted, 0, hub, 1, MAX_HUB_DEPTH as nat),
            false,
            over(),
        );
    }
    broadcast use group_steps;

    assert(forall|left: bool, bus: BusState| #[trigger]
        careful(bus::conclude(bus), left, anyhow()));
    assert(careful(bus::root_program(), true, anyhow()));
    assert(careful(bus::enumerate_program(), false, anyhow()));
    assert(careful(bus::poll_program(bus), false, anyhow()));
}

} // verus!

//! What the application is told when something is unplugged: of everything that was
//! behind it, each device once and after what was behind that, and of the device itself
//! last.

use vstd::prelude::*;

use crate::program;
use crate::program::Program;
use crate::usb::bus;
use crate::usb::bus::{BusState, Walked, MAX_HUBS, MAX_HUB_DEPTH, MAX_PORTS, PORT_FAILED};
use crate::usb::session;
use crate::usb::session::{BusAnswer, BusOp, BusProgram, Event};
use crate::usb::topology;
use crate::usb::topology::Hubs;

verus! {

/// The bus without the hub with the given address and everything behind it, and what
/// the application is told of that.
pub open spec fn gone(bus: BusState, address: u8, levels: nat) -> (BusState, Seq<Event>)
    decreases levels, 0nat, 0int,
{
    match bus::place_of(bus.hubs, address, 0) {
        None => (bus, Seq::empty()),
        Some(index) => if levels == 0 {
            (bus, Seq::empty())
        } else {
            gone_ports(
                BusState { hubs: bus.hubs.update(index, None), ..bus },
                address,
                bus.hubs[index]->0.ports,
                0,
                (levels - 1) as nat,
            )
        },
    }
}

/// The device at a port is gone.
pub open spec fn departure(address: u8, ports: Seq<u8>, at: int) -> Event {
    Event::Detached { hub_address: address, port: (at + 1) as u8, address: ports[at] }
}

/// The bus without what was at the ports of a hub, from a place on, and what the
/// application is told of that.
pub open spec fn gone_ports(
    bus: BusState,
    address: u8,
    ports: Seq<u8>,
    at: int,
    levels: nat,
) -> (BusState, Seq<Event>)
    decreases levels, 1nat, MAX_PORTS - at,
{
    if at >= MAX_PORTS {
        (bus, Seq::empty())
    } else if ports[at] == 0 || ports[at] == PORT_FAILED {
        gone_ports(bus, address, ports, at + 1, levels)
    } else {
        let below = gone(bus, ports[at], levels);
        let rest = gone_ports(below.0.releasing(ports[at]), address, ports, at + 1, levels);
        (rest.0, below.1 + seq![departure(address, ports, at)] + rest.1)
    }
}

/// Whatever the application answers, a program tells it of these events and of nothing
/// else, does nothing else, and ends with this bus.
pub open spec fn tells(program: BusProgram<Walked>, told: Seq<Event>, after: BusState) -> bool
    decreases program,
{
    match program {
        Program::Return(walked) => told.len() == 0 && walked.0 == after,
        Program::Request(op, next) => {
            &&& told.len() > 0
            &&& op == BusOp::Tell(told[0])
            &&& forall|stop: bool|
                tells(#[trigger] next(BusAnswer::Flag(stop)), told.skip(1), after)
            &&& forall|answer: BusAnswer|
                answer !is Flag ==> (#[trigger] next(answer)) is Stuck
        },
        Program::Stuck => false,
    }
}

/// What is told by a program that is answered to go on.
pub open spec fn told_by(program: BusProgram<Walked>) -> Seq<Event>
    decreases program,
{
    match program {
        Program::Request(BusOp::Tell(event), next) => seq![event] + told_by(
            next(BusAnswer::Flag(false)),
        ),
        _ => Seq::empty(),
    }
}

/// What a program tells is what it tells when it is answered to go on, and there is no
/// other bus that it can end with.
proof fn lemma_tells(program: BusProgram<Walked>, told: Seq<Event>, after: BusState)
    requires
        tells(program, told, after),
    ensures
        told_by(program) == told,
        forall|walked: Walked| #[trigger] program.reaches(walked) ==> walked.0 == after,
        exists|stop: bool| #[trigger] program.reaches((after, stop)),
    decreases program,
{
    match program {
        Program::Return(walked) => {
            assert(program.reaches((after, walked.1)));
        },
        Program::Request(op, next) => {
            let rest = next(BusAnswer::Flag(false));
            assert(tells(next(BusAnswer::Flag(false)), told.skip(1), after));
            lemma_tells(rest, told.skip(1), after);
            assert(told =~= seq![told[0]] + told.skip(1));
            let stop = choose|stop: bool| #[trigger] rest.reaches((after, stop));
            assert(next(BusAnswer::Flag(false)).reaches((after, stop)));
            assert(program.reaches((after, stop)));
            assert forall|walked: Walked| #[trigger] program.reaches(walked) implies walked.0
                == after by {
                let answer = choose|answer: BusAnswer| (#[trigger] next(answer)).reaches(walked);
                match answer {
                    BusAnswer::Flag(flag) => {
                        assert(tells(next(BusAnswer::Flag(flag)), told.skip(1), after));
                        lemma_tells(next(answer), told.skip(1), after);
                    },
                    _ => {
                        assert(next(answer) is Stuck);
                    },
                }
            }
        },
        Program::Stuck => {},
    }
}

/// What is told by two programs in turn.
broadcast proof fn lemma_tells_bind(
    program: BusProgram<Walked>,
    rest: spec_fn(Walked) -> BusProgram<Walked>,
    told: Seq<Event>,
    middle: BusState,
    after: BusState,
)
    requires
        told_by(program).len() <= told.len(),
        told_by(program) == told.take(told_by(program).len() as int),
        #[trigger] tells(program, told_by(program), middle),
        forall|walked: Walked| #[trigger]
            program.reaches(walked) ==> tells(
                rest(walked),
                told.skip(told_by(program).len() as int),
                after,
            ),
    ensures
        #[trigger] tells(program.bind(rest), told, after),
    decreases program,
{
    match program {
        Program::Return(walked) => {
            assert(program.reaches(walked));
            assert(told.skip(0) =~= told);
            assert(program.bind(rest) == rest(walked));
        },
        Program::Request(op, next) => {
            let bound = program.bind(rest)->Request_1;
            let own = told_by(program);
            assert(own[0] == told[0]);
            assert forall|stop: bool| tells(
                #[trigger] bound(BusAnswer::Flag(stop)),
                told.skip(1),
                after,
            ) by {
                let part = next(BusAnswer::Flag(stop));
                assert(tells(next(BusAnswer::Flag(stop)), own.skip(1), middle));
                lemma_tells(part, own.skip(1), middle);
                assert(own.skip(1) =~= told.skip(1).take(own.len() - 1));
                assert(told.skip(1).skip(own.len() - 1) =~= told.skip(own.len() as int));
                assert forall|walked: Walked| #[trigger] part.reaches(walked) implies tells(
                    rest(walked),
                    told.skip(1).skip(told_by(part).len() as int),
                    after,
                ) by {
                    assert(program.reaches(walked));
                }
                lemma_tells_bind(part, rest, told.skip(1), middle, after);
                assert(bound(BusAnswer::Flag(stop)) == part.bind(rest));
            }
            assert forall|answer: BusAnswer| answer !is Flag implies (#[trigger] bound(
                answer,
            )) is Stuck by {
                assert(next(answer) is Stuck);
                assert(bound(answer) == next(answer).bind(rest));
            }
        },
        Program::Stuck => {},
    }
}

/// What is told by a program that begins with telling something.
broadcast proof fn lemma_tells_ask(
    event: Event,
    rest: spec_fn(bool) -> BusProgram<Walked>,
    told: Seq<Event>,
    after: BusState,
)
    requires
        told.len() > 0,
        told[0] == event,
        tells(rest(true), told.skip(1), after),
        tells(rest(false), told.skip(1), after),
    ensures
        #[trigger] tells(session::ask(BusOp::Tell(event), rest), told, after),
{
    let next = session::ask(BusOp::Tell(event), rest)->Request_1;
    assert forall|stop: bool| tells(#[trigger] next(BusAnswer::Flag(stop)), told.skip(1), after) by {
        assert(next(BusAnswer::Flag(stop)) == rest(stop));
    }
}

proof fn lemma_forget_tells(bus: BusState, address: u8, levels: nat)
    ensures
        tells(
            bus::forget_program(bus, address, levels),
            gone(bus, address, levels).1,
            gone(bus, address, levels).0,
        ),
    decreases levels, 0nat, 0int,
{
    match bus::place_of(bus.hubs, address, 0) {
        None => {},
        Some(index) => {
            if levels > 0 {
                lemma_ports_tell(
                    BusState { hubs: bus.hubs.update(index, None), ..bus },
                    address,
                    bus.hubs[index]->0.ports,
                    0,
                    false,
                    (levels - 1) as nat,
                );
            }
        },
    }
}

proof fn lemma_ports_tell(
    bus: BusState,
    address: u8,
    ports: Seq<u8>,
    at: int,
    stop: bool,
    levels: nat,
)
    ensures
        tells(
            bus::forget_ports_program(bus, address, ports, at, stop, levels),
            gone_ports(bus, address, ports, at, levels).1,
            gone_ports(bus, address, ports, at, levels).0,
        ),
    decreases levels, 1nat, MAX_PORTS - at,
{
    if at >= MAX_PORTS {
    } else if ports[at] == 0 || ports[at] == PORT_FAILED {
        lemma_ports_tell(bus, address, ports, at + 1, stop, levels);
    } else {
        let part = bus::forget_program(bus, ports[at], levels);
        let below = gone(bus, ports[at], levels);
        lemma_forget_tells(bus, ports[at], levels);
        lemma_tells(part, below.1, below.0);
        let now = below.0.releasing(ports[at]);
        let rest = gone_ports(now, address, ports, at + 1, levels);
        lemma_ports_tell(now, address, ports, at + 1, true, levels);
        lemma_ports_tell(now, address, ports, at + 1, false, levels);
        let told = gone_ports(bus, address, ports, at, levels).1;
        let own = seq![departure(address, ports, at)];
        assert(told.take(below.1.len() as int) =~= below.1);
        assert(told.skip(below.1.len() as int) =~= own + rest.1);
        assert((own + rest.1).skip(1) =~= rest.1);
        broadcast use {lemma_tells_bind, lemma_tells_ask};

        assert(tells(part, told_by(part), below.0));
        assert(tells(
            bus::forget_ports_program(bus, address, ports, at, stop, levels),
            told,
            rest.0,
        ));
    }
}

/// The address of the device that an event is about.
pub open spec fn who(event: Event) -> u8 {
    match event {
        Event::Attached(device) => device.endpoint.address,
        Event::Detached { address, .. } => address,
    }
}

/// The address of the hub that it was on.
pub open spec fn whose(event: Event) -> u8 {
    match event {
        Event::Attached(device) => device.hub_address,
        Event::Detached { hub_address, .. } => hub_address,
    }
}

/// A device goes only after everything that was on it, and each goes once.
pub open spec fn deepest_first(told: Seq<Event>) -> bool {
    forall|i: int, j: int|
        #![trigger told[i], told[j]]
        0 <= i < j < told.len() ==> whose(told[j]) != who(told[i]) && who(told[j]) != who(told[i])
}

/// Some event is about the device with this address.
pub open spec fn is_told(told: Seq<Event>, address: u8) -> bool {
    exists|k: int| 0 <= k < told.len() && who(#[trigger] told[k]) == address
}

/// Some hub has this address.
pub open spec fn has_hub(hubs: Hubs, address: u8) -> bool {
    exists|j: int| #[trigger] topology::is_hub(hubs, j) && topology::address_at(hubs, j) == address
}

/// What is told of devices that go is right: they were there, or are among those that
/// are known to go; they are not there any more; and they were on the given hub or on
/// one that was there.
pub open spec fn truthful(
    before: Hubs,
    after: Hubs,
    going: Set<u8>,
    address: u8,
    told: Seq<Event>,
) -> bool {
    forall|k: int|
        0 <= k < told.len() ==> {
            let event = #[trigger] told[k];
            &&& event is Detached
            &&& bus::is_address(who(event))
            &&& who(event) != address
            &&& topology::located(before, who(event)) || going.contains(who(event))
            &&& !topology::located(after, who(event))
            &&& topology::no_hub(after, who(event))
            &&& whose(event) == address || has_hub(before, whose(event))
        }
}

/// Nothing goes without being told of.
pub open spec fn complete(before: Hubs, after: Hubs, told: Seq<Event>) -> bool {
    forall|a: u8|
        bus::is_address(a) && #[trigger] topology::located(before, a) && !topology::located(after, a) ==> is_told(
            told,
            a,
        )
}

proof fn lemma_shrunk(now: Hubs, before: Hubs)
    requires
        topology::shrunk(now, before),
        before.len() == MAX_HUBS,
    ensures
        forall|a: u8| bus::is_address(a) && #[trigger] topology::located(now, a) ==> topology::located(before, a),
        forall|a: u8| #[trigger] has_hub(now, a) ==> has_hub(before, a),
        forall|a: u8| #[trigger] topology::no_hub(before, a) ==> topology::no_hub(now, a),
{
    assert forall|a: u8| bus::is_address(a) && #[trigger] topology::located(now, a) implies topology::located(
        before,
        a,
    ) by {
        let (i, p) = choose|i: int, p: int|
            bus::is_place(i, p) && #[trigger] bus::device_at(now, i, p) == a;
        assert(now[i] is None || now[i] == before[i]);
        assert(bus::device_at(before, i, p) == a);
    }
    assert forall|a: u8| #[trigger] has_hub(now, a) implies has_hub(before, a) by {
        let j = choose|j: int| #[trigger] topology::is_hub(now, j) && topology::address_at(now, j) == a;
        assert(now[j] is None || now[j] == before[j]);
        assert(topology::is_hub(before, j) && topology::address_at(before, j) == a);
    }
    assert forall|a: u8| #[trigger] topology::no_hub(before, a) implies topology::no_hub(now, a) by {
        assert forall|j: int| #[trigger] topology::is_hub(now, j) implies topology::address_at(now, j) != a by {
            assert(now[j] is None || now[j] == before[j]);
            assert(topology::is_hub(before, j));
        }
    }
}

/// The devices at the ports of a hub, from a place on.
pub open spec fn at_ports(ports: Seq<u8>, at: int) -> Set<u8> {
    Set::new(|a: u8| topology::among(ports, at, a))
}

proof fn lemma_forget_order(bus: BusState, address: u8, levels: nat, going: Set<u8>)
    requires
        topology::accounted(bus, going),
        going.contains(address),
        topology::reachable(bus.hubs, address, levels),
    ensures
        ({
            let (after, told) = gone(bus, address, levels);
            &&& topology::forgotten(after, bus, address, going)
            &&& deepest_first(told)
            &&& truthful(bus.hubs, after.hubs, Set::empty(), address, told)
            &&& complete(bus.hubs, after.hubs, told)
            &&& told.len() > 0 ==> has_hub(bus.hubs, address)
        }),
    decreases levels, 0nat, 0int, 0nat,
{
    let (after, told) = gone(bus, address, levels);
    let program = bus::forget_program(bus, address, levels);
    lemma_forget_tells(bus, address, levels);
    lemma_tells(program, told, after);
    topology::lemma_forget(bus, address, levels, going);
    program::lemma_reached(
        program,
        |walked: Walked| topology::forgotten(walked.0, bus, address, going),
    );
    let stop = choose|stop: bool| #[trigger] program.reaches((after, stop));
    assert(program.reaches((after, stop)));

    topology::lemma_place_of(bus.hubs, address, 0);
    match bus::place_of(bus.hubs, address, 0) {
        None => {},
        Some(index) => {
            if levels > 0 {
                let ports = bus.hubs[index]->0.ports;
                let without = BusState { hubs: bus.hubs.update(index, None), ..bus };
                assert(topology::is_hub(bus.hubs, index));
                assert(has_hub(bus.hubs, address));
                topology::lemma_hub_goes(bus, index, going, levels);
                lemma_shrunk(without.hubs, bus.hubs);
                assert(!topology::located(bus.hubs, address));
                assert forall|q: int|
                    0 <= q < MAX_PORTS && bus::is_address(#[trigger] ports[q]) implies ports[q]
                    != address && topology::located(bus.hubs, ports[q]) by {
                    assert(bus::is_place(index, q));
                    assert(bus::device_at(bus.hubs, index, q) == ports[q]);
                }
                lemma_ports_order(
                    without,
                    address,
                    ports,
                    0,
                    (levels - 1) as nat,
                    topology::more(going, ports),
                );
                assert forall|a: u8|
                    bus::is_address(a) && #[trigger] topology::located(bus.hubs, a)
                        && !topology::located(after.hubs, a) implies is_told(told, a) by {
                    if !topology::located(without.hubs, a) {
                        let (i, p) = choose|i: int, p: int|
                            bus::is_place(i, p) && #[trigger] bus::device_at(bus.hubs, i, p) == a;
                        if i != index {
                            assert(bus::device_at(without.hubs, i, p) == a);
                        }
                        assert(ports[p] == a);
                        assert(topology::among(ports, 0, a));
                    }
                }
                assert forall|k: int| 0 <= k < told.len() implies topology::located(
                    bus.hubs,
                    who(#[trigger] told[k]),
                ) by {
                    let a = who(told[k]);
                    if at_ports(ports, 0).contains(a) {
                        let q = choose|q: int| 0 <= q < MAX_PORTS && #[trigger] ports[q] == a;
                        assert(topology::located(bus.hubs, ports[q]));
                    }
                }
            }
        },
    }
}

proof fn lemma_ports_order(
    bus: BusState,
    address: u8,
    ports: Seq<u8>,
    at: int,
    levels: nat,
    going: Set<u8>,
)
    requires
        topology::ready(bus, ports, at, going, levels),
        bus::is_address(address),
        !topology::located(bus.hubs, address),
        topology::no_hub(bus.hubs, address),
        forall|q: int|
            at <= q < MAX_PORTS && bus::is_address(#[trigger] ports[q]) ==> ports[q] != address,
    ensures
        ({
            let (after, told) = gone_ports(bus, address, ports, at, levels);
            &&& topology::all_forgotten(after, bus, ports, at, going)
            &&& deepest_first(told)
            &&& truthful(bus.hubs, after.hubs, at_ports(ports, at), address, told)
            &&& complete(bus.hubs, after.hubs, told)
            &&& forall|a: u8| #[trigger] topology::among(ports, at, a) ==> is_told(told, a)
        }),
    decreases levels, 1nat, MAX_PORTS - at, 1nat,
{
    let (after, told) = gone_ports(bus, address, ports, at, levels);
    let program = bus::forget_ports_program(bus, address, ports, at, false, levels);
    lemma_ports_tell(bus, address, ports, at, false, levels);
    lemma_tells(program, told, after);
    topology::lemma_forget_ports(bus, address, ports, at, false, levels, going);
    program::lemma_reached(
        program,
        |walked: Walked| topology::all_forgotten(walked.0, bus, ports, at, going),
    );
    let stop = choose|stop: bool| #[trigger] program.reaches((after, stop));
    assert(program.reaches((after, stop)));

    if at >= MAX_PORTS {
    } else if ports[at] == 0 || ports[at] == PORT_FAILED {
        assert forall|a: u8| #[trigger] topology::among(ports, at, a) == topology::among(
            ports,
            at + 1,
            a,
        ) by {
            lemma_among(ports, at, a);
        }
        assert(at_ports(ports, at) =~= at_ports(ports, at + 1));
        lemma_ports_order(bus, address, ports, at + 1, levels, going);
    } else {
        lemma_port_order(bus, address, ports, at, levels, going);
    }
}

/// The devices at the ports from a place on are the one there and those behind it.
proof fn lemma_among(ports: Seq<u8>, at: int, a: u8)
    requires
        0 <= at < MAX_PORTS,
    ensures
        topology::among(ports, at, a) == (topology::among(ports, at + 1, a) || (bus::is_address(a)
            && ports[at] == a)),
{
    if topology::among(ports, at, a) {
        let q = choose|q: int| at <= q < MAX_PORTS && #[trigger] ports[q] == a;
        assert(ports[q] == a);
    }
    if topology::among(ports, at + 1, a) {
        let q = choose|q: int| at + 1 <= q < MAX_PORTS && #[trigger] ports[q] == a;
        assert(ports[q] == a);
    }
    if ports[at] == a {
        assert(at <= at < MAX_PORTS && ports[at] == a);
    }
}

proof fn lemma_port_order(
    bus: BusState,
    address: u8,
    ports: Seq<u8>,
    at: int,
    levels: nat,
    going: Set<u8>,
)
    requires
        at < MAX_PORTS,
        ports[at] != 0 && ports[at] != PORT_FAILED,
        topology::ready(bus, ports, at, going, levels),
        bus::is_address(address),
        !topology::located(bus.hubs, address),
        topology::no_hub(bus.hubs, address),
        forall|q: int|
            at <= q < MAX_PORTS && bus::is_address(#[trigger] ports[q]) ==> ports[q] != address,
    ensures
        ({
            let (after, told) = gone_ports(bus, address, ports, at, levels);
            &&& deepest_first(told)
            &&& truthful(bus.hubs, after.hubs, at_ports(ports, at), address, told)
            &&& complete(bus.hubs, after.hubs, told)
            &&& forall|a: u8| #[trigger] topology::among(ports, at, a) ==> is_told(told, a)
        }),
    decreases levels, 1nat, MAX_PORTS - at, 0nat,
{
    let c = ports[at];
    let (after, told) = gone_ports(bus, address, ports, at, levels);
    let (mid, first) = gone(bus, c, levels);
    assert(bus::is_address(c));
    assert(going.contains(c));
    lemma_forget_order(bus, c, levels, going);
    topology::lemma_next_port(bus, mid, ports, at, levels, going);
    let now = mid.releasing(c);
    lemma_shrunk(mid.hubs, bus.hubs);
    let last = gone_ports(now, address, ports, at + 1, levels).1;
    lemma_ports_order(now, address, ports, at + 1, levels, going.remove(c));
    lemma_shrunk(after.hubs, mid.hubs);
    let event = departure(address, ports, at);
    let n = first.len() as int;
    assert(told == first + seq![event] + last);
    assert(told[n] == event);
    assert forall|k: int| 0 <= k < n implies #[trigger] told[k] == first[k] by {}
    assert forall|k: int| n < k < told.len() implies #[trigger] told[k] == last[k - n - 1] by {}
    assert(!topology::located(bus.hubs, c));
    assert forall|a: u8| #[trigger] topology::among(ports, at + 1, a) implies going.contains(a)
        && a != c && a != address && !topology::located(bus.hubs, a) by {
        let q = choose|q: int| at + 1 <= q < MAX_PORTS && #[trigger] ports[q] == a;
        assert(going.contains(ports[q]));
    }

    assert forall|k: int| 0 <= k < told.len() implies ({
        let event = #[trigger] told[k];
        &&& event is Detached
        &&& bus::is_address(who(event))
        &&& who(event) != address
        &&& topology::located(bus.hubs, who(event)) || at_ports(ports, at).contains(who(event))
        &&& !topology::located(after.hubs, who(event))
        &&& topology::no_hub(after.hubs, who(event))
        &&& whose(event) == address || has_hub(bus.hubs, whose(event))
    }) by {
        lemma_among(ports, at, who(told[k]));
        if k < n {
            assert(told[k] == first[k]);
        } else if k > n {
            assert(told[k] == last[k - n - 1]);
        }
    }

    assert forall|i: int, j: int|
        #![trigger told[i], told[j]]
        0 <= i < j < told.len() implies whose(told[j]) != who(told[i]) && who(told[j]) != who(
        told[i],
    ) by {
        if j < n {
            assert(told[i] == first[i] && told[j] == first[j]);
        } else if i > n {
            assert(told[i] == last[i - n - 1] && told[j] == last[j - n - 1]);
        } else {
            let gone = who(told[i]);
            assert(topology::no_hub(mid.hubs, gone) && !topology::located(mid.hubs, gone) && gone
                != address) by {
                if i < n {
                    assert(told[i] == first[i]);
                }
            }
            if j > n {
                assert(told[j] == last[j - n - 1]);
                if has_hub(now.hubs, whose(told[j])) {
                    let h = choose|h: int| #[trigger]
                        topology::is_hub(now.hubs, h) && topology::address_at(now.hubs, h) == whose(
                            told[j],
                        );
                    assert(topology::is_hub(mid.hubs, h));
                }
                if topology::among(ports, at + 1, who(told[j])) {
                    if i < n {
                        assert(told[i] == first[i]);
                        assert(topology::located(bus.hubs, gone));
                    }
                }
            } else {
                assert(told[i] == first[i]);
            }
        }
    }

    assert forall|a: u8|
        bus::is_address(a) && #[trigger] topology::located(bus.hubs, a) && !topology::located(
            after.hubs,
            a,
        ) implies is_told(told, a) by {
        if topology::located(mid.hubs, a) {
            assert(topology::located(now.hubs, a));
            assert(is_told(last, a));
            let k = choose|k: int| 0 <= k < last.len() && who(#[trigger] last[k]) == a;
            assert(who(told[n + 1 + k]) == a);
        } else {
            let k = choose|k: int| 0 <= k < first.len() && who(#[trigger] first[k]) == a;
            assert(who(told[k]) == a);
        }
    }
    assert forall|a: u8| #[trigger] topology::among(ports, at, a) implies is_told(told, a) by {
        lemma_among(ports, at, a);
        if topology::among(ports, at + 1, a) {
            let k = choose|k: int| 0 <= k < last.len() && who(#[trigger] last[k]) == a;
            assert(who(told[n + 1 + k]) == a);
        } else {
            assert(who(told[n]) == a);
        }
    }
}

/// A hub that is not as deep as what goes stays.
proof fn lemma_forget_keeps(bus: BusState, address: u8, levels: nat, going: Set<u8>, room: nat)
    requires
        topology::accounted(bus, going),
        going.contains(address),
        topology::reachable(bus.hubs, address, levels),
        topology::reachable(bus.hubs, address, room),
    ensures
        forall|i: int| #[trigger]
            topology::is_hub(bus.hubs, i) && bus.hubs[i]->0.depth + room <= MAX_HUB_DEPTH
                ==> gone(bus, address, levels).0.hubs[i] == bus.hubs[i],
    decreases levels, 0nat, 0int,
{
    topology::lemma_place_of(bus.hubs, address, 0);
    match bus::place_of(bus.hubs, address, 0) {
        None => {},
        Some(index) => {
            assert(topology::is_hub(bus.hubs, index));
            assert(bus::entry_wf(bus.hubs[index]));
            let ports = bus.hubs[index]->0.ports;
            let without = BusState { hubs: bus.hubs.update(index, None), ..bus };
            topology::lemma_hub_goes(bus, index, going, levels);
            topology::lemma_hub_goes(bus, index, going, room);
            lemma_ports_keep(
                without,
                address,
                ports,
                0,
                (levels - 1) as nat,
                topology::more(going, ports),
                (room - 1) as nat,
            );
            assert forall|i: int| #[trigger]
                topology::is_hub(bus.hubs, i) && bus.hubs[i]->0.depth + room
                    <= MAX_HUB_DEPTH implies gone(bus, address, levels).0.hubs[i]
                == bus.hubs[i] by {
                assert(i != index);
                assert(topology::is_hub(without.hubs, i));
            }
        },
    }
}

proof fn lemma_ports_keep(
    bus: BusState,
    address: u8,
    ports: Seq<u8>,
    at: int,
    levels: nat,
    going: Set<u8>,
    room: nat,
)
    requires
        topology::ready(bus, ports, at, going, levels),
        topology::ready(bus, ports, at, going, room),
    ensures
        forall|i: int| #[trigger]
            topology::is_hub(bus.hubs, i) && bus.hubs[i]->0.depth + room <= MAX_HUB_DEPTH
                ==> gone_ports(bus, address, ports, at, levels).0.hubs[i] == bus.hubs[i],
    decreases levels, 1nat, MAX_PORTS - at,
{
    if at >= MAX_PORTS {
    } else if ports[at] == 0 || ports[at] == PORT_FAILED {
        lemma_ports_keep(bus, address, ports, at + 1, levels, going, room);
    } else {
        let c = ports[at];
        let mid = gone(bus, c, levels).0;
        assert(bus::is_address(c));
        assert(going.contains(c));
        lemma_forget_keeps(bus, c, levels, going, room);
        lemma_forget_order(bus, c, levels, going);
        topology::lemma_next_port(bus, mid, ports, at, levels, going);
        topology::lemma_next_port(bus, mid, ports, at, room, going);
        let now = mid.releasing(c);
        lemma_ports_keep(now, address, ports, at + 1, levels, going.remove(c), room);
        assert forall|i: int| #[trigger]
            topology::is_hub(bus.hubs, i) && bus.hubs[i]->0.depth + room
                <= MAX_HUB_DEPTH implies gone_ports(bus, address, ports, at, levels).0.hubs[i]
            == bus.hubs[i] by {
            assert(topology::is_hub(now.hubs, i));
        }
    }
}

/// The bus without what was at a port, and what the application is told of that.
pub open spec fn unplugged(bus: BusState, index: int, port: u8) -> (BusState, Seq<Event>) {
    let entry = bus.hubs[index]->0;
    let address = entry.ports[port - 1];
    let below = gone(bus.with_port(index, port as int, 0), address, MAX_HUBS as nat);
    (
        below.0.releasing(address),
        below.1.push(Event::Detached { hub_address: entry.hub.endpoint.address, port, address }),
    )
}

/// When a device is unplugged, the application is told of every device that goes with
/// it and of no other, of each once and after all that was behind it, and of the device
/// itself last. It is told of all of them, and the bus forgets all of them, whatever it
/// answers.
pub proof fn law_unplugging(bus: BusState, index: int, port: u8)
    requires
        topology::tidy(bus),
        topology::is_hub(bus.hubs, index),
        bus::is_place(index, port - 1),
        bus::is_address(bus.known(index, port as int)),
    ensures
        ({
            let (after, told) = unplugged(bus, index, port);
            &&& tells(bus::detach_program(bus, index, port), told, after)
            &&& topology::tidy(after)
            &&& deepest_first(told)
            &&& told.last() == Event::Detached {
                hub_address: topology::address_at(bus.hubs, index),
                port,
                address: bus.known(index, port as int),
            }
            &&& forall|k: int| 0 <= k < told.len() ==> (#[trigger] told[k]) is Detached
            &&& forall|a: u8|
                bus::is_address(a) ==> (#[trigger] is_told(told, a) <==> topology::located(
                    bus.hubs,
                    a,
                ) && !topology::located(after.hubs, a))
        }),
{
    let entry = bus.hubs[index]->0;
    let address = entry.ports[port - 1];
    let cleared = bus.with_port(index, port as int, 0);
    let going = Set::<u8>::empty().insert(address);
    let levels = MAX_HUBS as nat;
    let (mid, first) = gone(cleared, address, levels);
    let (after, told) = unplugged(bus, index, port);
    let hub = topology::address_at(bus.hubs, index);
    let event = Event::Detached { hub_address: hub, port, address };
    assert(address == bus::device_at(bus.hubs, index, port - 1));
    topology::lemma_clear(bus, index, port as int);
    lemma_forget_order(cleared, address, levels, going);
    topology::lemma_release(mid, address, going);
    assert(going.remove(address) =~= Set::empty());

    lemma_forget_tells(cleared, address, levels);
    let part = bus::forget_program(cleared, address, levels);
    lemma_tells(part, first, mid);
    assert(told.take(first.len() as int) =~= first);
    assert(told.skip(first.len() as int) =~= seq![event]);
    assert(seq![event].skip(1) =~= Seq::empty());
    assert(tells(bus::detach_program(bus, index, port), told, after)) by {
        broadcast use {lemma_tells_bind, lemma_tells_ask};

        assert(tells(part, told_by(part), mid));
    }

    topology::lemma_one_port(bus, index, port as int, 0);
    lemma_shrunk(mid.hubs, cleared.hubs);
    assert(topology::located(bus.hubs, address));
    assert forall|a: u8| bus::is_address(a) implies (#[trigger] is_told(told, a)
        <==> topology::located(bus.hubs, a) && !topology::located(after.hubs, a)) by {
        if is_told(told, a) {
            let k = choose|k: int| 0 <= k < told.len() && who(#[trigger] told[k]) == a;
            if k < first.len() {
                assert(told[k] == first[k]);
            }
        } else {
            if a == address {
                assert(who(told[first.len() as int]) == a);
            }
            if is_told(first, a) {
                let k = choose|k: int| 0 <= k < first.len() && who(#[trigger] first[k]) == a;
                assert(who(told[k]) == a);
            }
        }
    }
    let room = (MAX_HUB_DEPTH - entry.depth) as nat;
    assert(bus::entry_wf(bus.hubs[index]));
    assert(topology::reachable(cleared.hubs, address, room)) by {
        assert forall|j: int| #[trigger]
            topology::is_hub(cleared.hubs, j) && topology::address_at(cleared.hubs, j)
                == address implies cleared.hubs[j]->0.depth + room > MAX_HUB_DEPTH by {
            assert(topology::is_hub(bus.hubs, j));
            assert(topology::fits(bus.hubs, index, port - 1, j));
        }
    }
    lemma_forget_keeps(cleared, address, levels, going, room);
    assert(topology::is_hub(cleared.hubs, index));
    assert(mid.hubs[index] == cleared.hubs[index]);
    assert(topology::is_hub(mid.hubs, index) && topology::address_at(mid.hubs, index) == hub);
    assert forall|i: int, j: int|
        #![trigger told[i], told[j]]
        0 <= i < j < told.len() implies whose(told[j]) != who(told[i]) && who(told[j]) != who(
        told[i],
    ) by {
        assert(told[i] == first[i]);
        if j < first.len() {
            assert(told[j] == first[j]);
        } else {
            assert(topology::no_hub(mid.hubs, who(told[i])));
        }
    }
}

} // verus!

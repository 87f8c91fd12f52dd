//! What is asked of a hub, step by step, when all goes well, and what is learnt from it.

use vstd::prelude::*;

use crate::program;
use crate::program::Program;
use crate::usb::control;
use crate::usb::control::requests;
use crate::usb::descriptor;
use crate::usb::dwc2::{ControlEndpoint, Reply, Transfer, TransferError, UsbProgram};
use crate::usb::hub;
use crate::usb::hub::{Hub, PortStatus};
use crate::usb::EnumerationError;

verus! {

/// So many stages that succeeded.
pub open spec fn all_done(count: nat) -> Seq<Reply> {
    Seq::new(count, |i: int| requests::done())
}

/// A reset of a port that enables it: what has changed of its connection is acknowledged,
/// the reset is asked for, and its status is looked at until it is enabled; then the end of
/// the reset is acknowledged. The status that showed it enabled is the result.
pub proof fn law_reset(device: ControlEndpoint, port: u8, came: Seq<u8>)
    requires
        came.len() == 4,
        came[0] / 2 % 2 == 1,
    ensures
        ({
            let program = hub::reset_program(device, port);
            let answers = all_done(4) + seq![Reply::Done, requests::done(), Reply::Bytes(Ok(came))]
                + all_done(3);
            &&& program.asked(answers) == seq![
                Transfer::Setup(device, seq![0x23, 1, 16, 0, port, 0, 0, 0]),
                Transfer::StatusIn(device),
                Transfer::Setup(device, seq![0x23, 3, 4, 0, port, 0, 0, 0]),
                Transfer::StatusIn(device),
                Transfer::DelayMs(10),
                Transfer::Setup(device, seq![0xA3, 0, 0, 0, port, 0, 4, 0]),
                Transfer::DataIn(device, 4),
                Transfer::StatusOut(device),
                Transfer::Setup(device, seq![0x23, 1, 20, 0, port, 0, 0, 0]),
                Transfer::StatusIn(device),
            ]
            &&& program.given(answers) matches Program::Return(Ok(status))
            &&& status.0 == came[0] + 256 * came[1]
        }),
{
    let connection = control::port_setup(1, 16, port);
    let reset = control::port_setup(3, 4, port);
    let ended = control::port_setup(1, 20, port);
    requests::law_port_request(1, 16, port);
    requests::law_port_request(3, 4, port);
    requests::law_port_request(1, 20, port);
    requests::lemma_no_data(device, connection);
    requests::lemma_no_data(device, reset);
    requests::lemma_no_data(device, ended);
    requests::law_port_status(device, port, came);
    let two = all_done(2);
    assert(two =~= seq![requests::done(), requests::done()]);
    lemma_whole_asked(device, connection);
    lemma_whole_asked(device, reset);
    lemma_whole_asked(device, ended);

    let bits = (came[0] + 256 * came[1]) as u16;
    hub::law_port_status(PortStatus(bits));
    assert(bits / 2 % 2 == 1);

    // The look at the port that ends the polling.
    let looked = seq![requests::done(), Reply::Bytes(Ok(came)), requests::done()];
    let poll = hub::reset_poll(device, port, PortStatus(0), hub::PORT_RESET_POLLS as nat);
    let pause = seq![Reply::Done];
    let after_look = |looked: Result<(u16, u16), TransferError>|
        match looked {
            Ok(pair) => if PortStatus(pair.0).is_enabled() {
                Program::Return(PortStatus(pair.0))
            } else {
                hub::reset_poll(
                    device,
                    port,
                    PortStatus(pair.0),
                    (hub::PORT_RESET_POLLS - 1) as nat,
                )
            },
            Err(error) => hub::reset_poll(
                device,
                port,
                PortStatus(0),
                (hub::PORT_RESET_POLLS - 1) as nat,
            ),
        };
    let status_program = control::port_status_program(device, port);
    let pair = (bits, (came[2] + 256 * came[3]) as u16);
    program::lemma_given_in_turn(status_program, after_look, looked, Seq::empty(), Ok(pair));
    assert(looked + Seq::<Reply>::empty() =~= looked);
    {
        broadcast use crate::program::lemma_bind_same;

        assert(poll is Request);
        assert((poll->Request_1)(Reply::Done) == status_program.bind(after_look));
    }
    let polled = pause + looked;
    assert(polled[0] == Reply::Done);
    assert(polled.skip(1) =~= looked);
    assert(poll.given(polled) == UsbProgram::<PortStatus>::Return(PortStatus(bits)));
    assert(poll.asked(polled) =~= seq![
        Transfer::DelayMs(10),
        Transfer::Setup(device, seq![0xA3, 0, 0, 0, port, 0, 4, 0]),
        Transfer::DataIn(device, 4),
        Transfer::StatusOut(device),
    ]);

    let last = |status: PortStatus|
        control::no_data_program(device, ended).bind(
            |ended: Result<(), TransferError>|
                UsbProgram::<Result<PortStatus, EnumerationError>>::Return(Ok(status)),
        );
    let finish = |ended: Result<(), TransferError>|
        UsbProgram::<Result<PortStatus, EnumerationError>>::Return(Ok(PortStatus(bits)));
    program::lemma_given_in_turn(
        control::no_data_program(device, ended),
        finish,
        two,
        Seq::empty(),
        Ok(()),
    );
    assert(two + Seq::<Reply>::empty() =~= two);
    assert(last(PortStatus(bits)) == control::no_data_program(device, ended).bind(finish));
    program::lemma_given_in_turn(poll, last, polled, two, PortStatus(bits));
    let wait = |started: Result<(), TransferError>|
        match started {
            Err(error) => hub::failed(error),
            Ok(()) => poll.bind(last),
        };
    program::lemma_given_in_turn(
        control::no_data_program(device, reset),
        wait,
        two,
        polled + two,
        Ok(()),
    );
    let begin = |acknowledged: Result<(), TransferError>|
        control::no_data_program(device, reset).bind(wait);
    program::lemma_given_in_turn(
        control::no_data_program(device, connection),
        begin,
        two,
        two + (polled + two),
        Ok(()),
    );
    assert(hub::reset_program(device, port) == control::no_data_program(device, connection).bind(
        begin,
    ));
    let answers = all_done(4) + seq![Reply::Done, requests::done(), Reply::Bytes(Ok(came))]
        + all_done(3);
    assert(answers =~= two + (two + (polled + two)));
}

pub(crate) proof fn lemma_whole_asked(device: ControlEndpoint, setup: control::Setup)
    ensures
        control::no_data_program(device, setup).asked(all_done(2)) == seq![
            Transfer::Setup(device, setup.packet()),
            Transfer::StatusIn(device),
        ],
        control::no_data_program(device, setup).given(all_done(2)) == UsbProgram::<
            Result<(), TransferError>,
        >::Return(Ok(())),
{
    reveal_with_fuel(Program::asked, 3);
    reveal_with_fuel(Program::bind, 3);
    reveal_with_fuel(control::stage_program, 2);
    requests::lemma_no_data(device, setup);
    assert(all_done(2) =~= seq![requests::done(), requests::done()]);
    assert(all_done(2).skip(1) =~= seq![requests::done()]);
    assert(all_done(2).skip(1).skip(1).len() == 0);
}

/// The requests that power so many ports, from one on.
pub open spec fn powering(device: ControlEndpoint, port: int, count: int) -> Seq<Transfer> {
    Seq::new(
        if port <= count {
            (2 * (count - port + 1)) as nat
        } else {
            0
        },
        |i: int|
            if i % 2 == 0 {
                Transfer::Setup(device, seq![0x23, 3, 8, 0, (port + i / 2) as u8, 0, 0, 0])
            } else {
                Transfer::StatusIn(device)
            },
    )
}

/// Every port from the first to the last is powered, each once and in their order.
pub proof fn law_every_port_is_powered(device: ControlEndpoint, port: int, count: u8)
    requires
        1 <= port <= count + 1,
    ensures
        ({
            let program = hub::power_program(device, port, count);
            let answers = all_done((2 * (count - port + 1)) as nat);
            &&& program.asked(answers) == powering(device, port, count as int)
            &&& program.given(answers) == UsbProgram::<Result<(), TransferError>>::Return(Ok(()))
        }),
    decreases count + 1 - port,
{
    let program = hub::power_program(device, port, count);
    let answers = all_done((2 * (count - port + 1)) as nat);
    if port <= count {
        law_every_port_is_powered(device, port + 1, count);
        let setup = control::port_setup(3, 8, port as u8);
        requests::law_port_request(3, 8, port as u8);
        lemma_whole_asked(device, setup);
        let more = all_done((2 * (count - port)) as nat);
        let rest = |powered: Result<(), TransferError>|
            match powered {
                Ok(()) => hub::power_program(device, port + 1, count),
                Err(error) => Program::Return(Err(error)),
            };
        program::lemma_given_in_turn(
            control::no_data_program(device, setup),
            rest,
            all_done(2),
            more,
            Ok(()),
        );
        assert(all_done(2) + more =~= answers);
        broadcast use crate::program::lemma_bind_same;

        assert(program == control::no_data_program(device, setup).bind(rest));
        let after = powering(device, port + 1, count as int);
        let whole = powering(device, port, count as int);
        let first = seq![Transfer::Setup(device, setup.packet()), Transfer::StatusIn(device)];
        assert(first + after =~= whole) by {
            assert forall|i: int| 0 <= i < whole.len() implies #[trigger] whole[i] == (first
                + after)[i] by {
                if i >= 2 {
                    assert((first + after)[i] == after[i - 2]);
                }
            }
        }
    } else {
        assert(program.asked(answers) =~= powering(device, port, count as int));
    }
}

/// A hub's descriptor says how many ports it has in its third byte, and in its sixth, in
/// units of two milliseconds, how long their power takes to be good. All of its ports are
/// powered, and then they get that time, and a tenth of a second more for what is connected.
pub proof fn law_described(
    device: ControlEndpoint,
    high_speed: bool,
    status_endpoint: Option<(u8, u16)>,
    came: Seq<u8>,
)
    requires
        6 <= came.len() <= 16,
    ensures
        ({
            let program = hub::describe_program(device, high_speed, status_endpoint);
            let read = seq![requests::done(), Reply::Bytes(Ok(came)), requests::done()];
            let answers = read + (all_done((2 * came[2]) as nat) + seq![Reply::Done]);
            &&& program.asked(answers) == seq![
                Transfer::Setup(device, seq![0xA0, 6, 0, 0x29, 0, 0, 16, 0]),
                Transfer::DataIn(device, 16),
                Transfer::StatusOut(device),
            ] + (powering(device, 1, came[2] as int) + seq![
                Transfer::DelayMs((2 * came[5] + 100) as u64),
            ])
            &&& program.given(answers) matches Program::Return(Ok(described))
            &&& described.endpoint == device
            &&& described.num_ports == came[2]
            &&& described.power_on_good_ms == 2 * came[5]
            &&& described.high_speed == high_speed
            &&& described.status_endpoint == status_endpoint
        }),
{
    let setup = control::descriptor_setup(0xA0, 0x29, 0, 16);
    let buf = control::zeros(16);
    let read = seq![requests::done(), Reply::Bytes(Ok(came)), requests::done()];
    requests::law_read_replies(device, setup, buf, came);
    assert(setup.packet() =~= seq![0xA0, 6, 0, 0x29, 0, 0, 16, 0]);
    let whole = (control::control_in_program(device, setup, buf).given(read))->Return_0;
    assert(whole.1[2] == whole.1.take(came.len() as int)[2]);
    assert(whole.1[5] == whole.1.take(came.len() as int)[5]);
    let once = |read: control::Read|
        if read.0 is Ok || control::DESCRIPTOR_TRIES as nat <= 1 {
            Program::Return(read)
        } else {
            control::pause(
                control::DESCRIPTOR_RETRY_MS,
                control::descriptor_program(
                    device,
                    setup,
                    read.1,
                    (control::DESCRIPTOR_TRIES - 1) as nat,
                ),
            )
        };
    program::lemma_given_in_turn(
        control::control_in_program(device, setup, buf),
        once,
        read,
        Seq::empty(),
        whole,
    );
    assert(read + Seq::<Reply>::empty() =~= read);
    let described = control::descriptor_program(
        device,
        setup,
        buf,
        control::DESCRIPTOR_TRIES as nat,
    );
    assert(described == control::control_in_program(device, setup, buf).bind(once)) by {
        broadcast use crate::program::lemma_bind_same;

    }
    law_every_port_is_powered(device, 1, came[2]);
    let ports = all_done((2 * came[2]) as nat);
    let settle = |powered: Result<(), TransferError>|
        match powered {
            Err(error) => hub::failed(error),
            Ok(()) => control::pause(
                (whole.1[5] * 2 + hub::CONNECT_DEBOUNCE_MS) as u32,
                Program::Return(
                    Ok(
                        Hub {
                            endpoint: device,
                            num_ports: whole.1[2],
                            power_on_good_ms: (whole.1[5] * 2) as u32,
                            high_speed,
                            status_endpoint,
                        },
                    ),
                ),
            ),
        };
    program::lemma_given_in_turn(
        hub::power_program(device, 1, came[2]),
        settle,
        ports,
        seq![Reply::Done],
        Ok(()),
    );
    let rest = |read: control::Read|
        match read.0 {
            Err(error) => hub::failed(error),
            Ok(len) => if len < 6 {
                Program::Return(Err(EnumerationError::MalformedDescriptor))
            } else {
                hub::power_program(device, 1, read.1[2]).bind(
                    |powered: Result<(), TransferError>|
                        match powered {
                            Err(error) => hub::failed(error),
                            Ok(()) => control::pause(
                                (read.1[5] * 2 + hub::CONNECT_DEBOUNCE_MS) as u32,
                                Program::Return(
                                    Ok(
                                        Hub {
                                            endpoint: device,
                                            num_ports: read.1[2],
                                            power_on_good_ms: (read.1[5] * 2) as u32,
                                            high_speed,
                                            status_endpoint,
                                        },
                                    ),
                                ),
                            ),
                        },
                )
            },
        };
    assert(rest(whole) == hub::power_program(device, 1, came[2]).bind(settle));
    let more = ports + seq![Reply::Done];
    program::lemma_given_in_turn(described, rest, read, more, whole);
    assert(hub::describe_program(device, high_speed, status_endpoint) == described.bind(rest));
    reveal_with_fuel(Program::asked, 3);
    reveal_with_fuel(Program::given, 3);
    assert(seq![Reply::Done].skip(1).len() == 0);
    assert(settle(Ok(())).asked(seq![Reply::Done]) =~= seq![
        Transfer::DelayMs((2 * came[5] + 100) as u64),
    ]);
}

/// A hub is configured as its own configuration says, and then described; its changes are
/// reported by an endpoint of that configuration.
pub proof fn law_configured(
    device: ControlEndpoint,
    high_speed: bool,
    header: Seq<u8>,
    came: Seq<u8>,
    more: Seq<Reply>,
)
    requires
        header.len() == 9,
        came.len() <= control::configuration_len(header, 64),
        descriptor::is_configuration(came),
    ensures
        ({
            let program = hub::configure_program(device, high_speed);
            let config = requests::read_answers(header) + requests::read_answers(came);
            let described = hub::describe_program(
                device,
                high_speed,
                hub::first_status_endpoint(descriptor::descriptors(came, 0), 0),
            );
            let answers = config + (all_done(2) + more);
            &&& program.asked(answers) == control::configuration_program(
                device,
                0,
                control::zeros(64),
            ).asked(config) + (seq![
                Transfer::Setup(device, seq![0, 9, came[5], 0, 0, 0, 0, 0]),
                Transfer::StatusIn(device),
            ] + described.asked(more))
            &&& program.given(answers) == described.given(more)
        }),
{
    let buf = control::zeros(64);
    requests::law_configuration_read(device, 0, buf, header, came);
    let whole = came + buf.skip(came.len() as int);
    assert(whole.take(came.len() as int) =~= came);
    let config = requests::read_answers(header) + requests::read_answers(came);
    let two = all_done(2);
    let select = control::set_configuration_program(device, came[5]);
    let chosen = control::Setup {
        request_type: 0,
        request: 9,
        value: came[5] as u16,
        index: 0,
        length: 0,
    };
    assert(chosen.packet() =~= seq![0, 9, came[5], 0, 0, 0, 0, 0]);
    lemma_whole_asked(device, chosen);
    let described = hub::describe_program(
        device,
        high_speed,
        hub::first_status_endpoint(descriptor::descriptors(came, 0), 0),
    );
    let describe = |configured: Result<(), TransferError>|
        match configured {
            Err(error) => hub::failed(error),
            Ok(()) => described,
        };
    program::lemma_given_in_turn(select, describe, two, more, Ok(()));
    let rest = |config: control::Read|
        match config.0 {
            Err(error) => hub::failed(error),
            Ok(len) => if !descriptor::is_configuration(config.1.take(len as int)) {
                Program::Return(Err(EnumerationError::MalformedDescriptor))
            } else {
                control::set_configuration_program(device, config.1[5]).bind(
                    |configured: Result<(), TransferError>|
                        match configured {
                            Err(error) => hub::failed(error),
                            Ok(()) => hub::describe_program(
                                device,
                                high_speed,
                                hub::first_status_endpoint(
                                    descriptor::descriptors(config.1.take(len as int), 0),
                                    0,
                                ),
                            ),
                        },
                )
            },
        };
    let read = (Ok::<usize, TransferError>(came.len() as usize), whole);
    assert(whole[5] == came[5]);
    assert(rest(read) == select.bind(describe));
    program::lemma_given_in_turn(
        control::configuration_program(device, 0, buf),
        rest,
        config,
        two + more,
        read,
    );
    assert(hub::configure_program(device, high_speed) == control::configuration_program(
        device,
        0,
        buf,
    ).bind(rest));
}

/// Changes are reported by the first endpoint of the configuration that interrupts the host.
pub proof fn law_status_endpoint(all: Seq<Seq<u8>>, from: int)
    requires
        0 <= from,
    ensures
        match hub::first_status_endpoint(all, from) {
            Some(endpoint) => exists|i: int|
                from <= i < all.len() && (#[trigger] interrupts(all[i])) && endpoint.0 == all[i][2]
                    % 16 && endpoint.1 == all[i][4] + 256 * all[i][5] && forall|j: int|
                    from <= j < i ==> !(#[trigger] interrupts(all[j])),
            None => forall|i: int| from <= i < all.len() ==> !(#[trigger] interrupts(all[i])),
        },
    decreases all.len() - from,
{
    if from < all.len() {
        law_status_endpoint(all, from + 1);
        descriptor::lemma_endpoint_bits(all[from][2], all[from][3]);
        assert(hub::reports_changes(all[from]) == interrupts(all[from]));
    }
}

/// An endpoint descriptor whose endpoint interrupts the host.
pub open spec fn interrupts(descriptor: Seq<u8>) -> bool {
    descriptor.len() >= 7 && descriptor[1] == 5 && descriptor[2] >= 128 && descriptor[3] % 4 == 3
}

/// A port that cannot be looked at is looked at again after ten milliseconds, until there are
/// no looks left; then its status is what was last seen.
pub proof fn law_reset_given_up(
    device: ControlEndpoint,
    port: u8,
    status: PortStatus,
    polls: nat,
    error: TransferError,
)
    requires
        polls > 0,
        error != TransferError::Nak,
    ensures
        hub::reset_poll(device, port, status, 0) == UsbProgram::<PortStatus>::Return(status),
        ({
            let program = hub::reset_poll(device, port, status, polls);
            let answers = seq![Reply::Done, Reply::Unit(Err(error))];
            &&& program.asked(answers).take(2) == seq![
                Transfer::DelayMs(10),
                Transfer::Setup(device, seq![0xA3, 0, 0, 0, port, 0, 4, 0]),
            ]
            &&& program.given(answers) == hub::reset_poll(device, port, status, (polls - 1) as nat)
        }),
{
    let program = hub::reset_poll(device, port, status, polls);
    let answers = seq![Reply::Done, Reply::Unit(Err(error))];
    reveal_with_fuel(Program::asked, 4);
    reveal_with_fuel(Program::given, 4);
    reveal_with_fuel(Program::bind, 4);
    reveal_with_fuel(control::stage_program, 2);
    reveal_with_fuel(hub::reset_poll, 2);
    requests::law_port_status(device, port, seq![0, 0, 0, 0]);
    assert(control::port_status_setup(port).packet() =~= seq![0xA3, 0, 0, 0, port, 0, 4, 0]);
    assert(answers.skip(1)[0] == Reply::Unit(Err(error)));
    assert(answers.skip(1).skip(1).len() == 0);
    assert(program.asked(answers).take(2) =~= seq![
        Transfer::DelayMs(10),
        Transfer::Setup(device, seq![0xA3, 0, 0, 0, port, 0, 4, 0]),
    ]);
}

/// A port that is being reset has twenty looks.
pub proof fn law_reset_looks(device: ControlEndpoint, port: u8)
    ensures
        ({
            let started = hub::reset_program(device, port).given(all_done(4));
            started == hub::reset_poll(device, port, PortStatus(0), 20).bind(
                |status: PortStatus|
                    control::no_data_program(device, control::port_setup(1, 20, port)).bind(
                        |ended: Result<(), TransferError>|
                            UsbProgram::<Result<PortStatus, EnumerationError>>::Return(Ok(status)),
                    ),
            )
        }),
{
    let connection = control::port_setup(1, 16, port);
    let reset = control::port_setup(3, 4, port);
    requests::lemma_no_data(device, connection);
    requests::lemma_no_data(device, reset);
    let two = all_done(2);
    assert(two =~= seq![requests::done(), requests::done()]);
    let last = |status: PortStatus|
        control::no_data_program(device, control::port_setup(1, 20, port)).bind(
            |ended: Result<(), TransferError>|
                UsbProgram::<Result<PortStatus, EnumerationError>>::Return(Ok(status)),
        );
    let wait = |started: Result<(), TransferError>|
        match started {
            Err(error) => hub::failed(error),
            Ok(()) => hub::reset_poll(device, port, PortStatus(0), 20).bind(last),
        };
    let begin = |acknowledged: Result<(), TransferError>|
        control::no_data_program(device, reset).bind(wait);
    broadcast use crate::program::lemma_bind_same;

    let none = Seq::<Reply>::empty();
    program::lemma_given_in_turn(control::no_data_program(device, reset), wait, two, none, Ok(()));
    program::lemma_given_in_turn(
        control::no_data_program(device, connection),
        begin,
        two,
        two,
        Ok(()),
    );
    assert(two + none =~= two);
    assert(all_done(4) =~= two + two);
    assert(hub::reset_program(device, port) == control::no_data_program(device, connection).bind(
        begin,
    ));
}

} // verus!

//! Hubs: powering, resetting and looking at their ports.

use vstd::prelude::*;

use crate::program::Program;
use crate::usb::control;
use crate::usb::control::{
    get_configuration_descriptor, get_hub_descriptor, port_request, port_status,
    set_configuration, PORT_FEATURE_C_CONNECTION, PORT_FEATURE_C_RESET, PORT_FEATURE_POWER,
    PORT_FEATURE_RESET, REQUEST_CLEAR_FEATURE, REQUEST_SET_FEATURE,
};
use crate::usb::descriptor;
use crate::usb::descriptor::{ConfigurationDescriptor, Descriptors, EndpointDescriptor};
use crate::usb::dwc2::hardware::Dwc2Registers;
use crate::usb::dwc2::{Channel, ControlEndpoint, SplitTarget, TransferError, UsbProgram};
use crate::usb::EnumerationError;

pub mod steps;

verus! {

broadcast use crate::program::group_program;

/// How often a port is looked at while it is being reset.
pub const PORT_RESET_POLLS: u32 = 20;

/// The pause before each look, in milliseconds.
pub const PORT_RESET_POLL_MS: u32 = 10;

/// The time a new connection gets to settle, in milliseconds.
pub const CONNECT_DEBOUNCE_MS: u32 = 100;

/// The status of a hub's port.
#[derive(Clone, Copy, Debug, PartialEq, Eq, Structural)]
pub struct PortStatus(pub u16);

impl PortStatus {
    /// A device is connected.
    pub open spec fn is_connected(self) -> bool {
        self.0 & 0x0001 != 0
    }

    /// The port is enabled.
    pub open spec fn is_enabled(self) -> bool {
        self.0 & 0x0002 != 0
    }

    /// A low-speed device is connected.
    pub open spec fn is_low_speed(self) -> bool {
        self.0 & 0x0200 != 0
    }

    /// A high-speed device is connected.
    pub open spec fn is_high_speed(self) -> bool {
        self.0 & 0x0400 != 0
    }

    /// Whether a device is connected.
    pub fn connected(&self) -> (connected: bool)
        ensures
            connected == self.is_connected(),
    {
        self.0 & 0x0001 != 0
    }

    /// Whether the port is enabled.
    pub fn enabled(&self) -> (enabled: bool)
        ensures
            enabled == self.is_enabled(),
    {
        self.0 & 0x0002 != 0
    }

    /// Whether a low-speed device is connected.
    pub fn low_speed(&self) -> (low_speed: bool)
        ensures
            low_speed == self.is_low_speed(),
    {
        self.0 & 0x0200 != 0
    }

    /// Whether a high-speed device is connected.
    pub fn high_speed(&self) -> (high_speed: bool)
        ensures
            high_speed == self.is_high_speed(),
    {
        self.0 & 0x0400 != 0
    }
}

/// A hub that has been configured.
#[derive(Clone, Copy, Debug, PartialEq, Eq)]
pub struct Hub {
    /// How the hub itself is reached.
    pub endpoint: ControlEndpoint,
    pub num_ports: u8,
    /// How long its ports take to power up.
    pub power_on_good_ms: u32,
    pub high_speed: bool,
    /// The interrupt endpoint that reports changes: its number and packet size.
    pub status_endpoint: Option<(u8, u16)>,
}

/// What the bits of a port's status say, each by what it counts.
pub proof fn law_port_status(status: PortStatus)
    ensures
        status.is_connected() <==> status.0 % 2 == 1,
        status.is_enabled() <==> status.0 / 2 % 2 == 1,
        status.is_low_speed() <==> status.0 / 512 % 2 == 1,
        status.is_high_speed() <==> status.0 / 1024 % 2 == 1,
{
    let bits = status.0;
    assert((bits & 0x0001 != 0) == (bits % 2 == 1) && (bits & 0x0002 != 0) == (bits / 2 % 2 == 1)
        && (bits & 0x0200 != 0) == (bits / 512 % 2 == 1) && (bits & 0x0400 != 0) == (bits / 1024
        % 2 == 1)) by (bit_vector);
}

/// Behind a high-speed hub a device is reached through the translator of the port that it
/// is connected to exactly if it is not a high-speed device itself, full speed or low.
/// Behind a slower hub, which has no translator, it is reached through whatever the hub is
/// reached through.
pub proof fn law_translator(hub: Hub, port: u8, status: PortStatus)
    ensures
        hub.high_speed && status.0 & 0x0400 == 0 ==> hub.translator(port, status) == Some(
            SplitTarget { hub_address: hub.endpoint.address, port },
        ),
        hub.high_speed && status.0 & 0x0400 != 0 ==> hub.translator(port, status) is None,
        !hub.high_speed ==> hub.translator(port, status) == hub.endpoint.split,
{
}

/// Whether a descriptor is that of an endpoint that reports changes.
pub open spec fn reports_changes(descriptor: Seq<u8>) -> bool {
    &&& descriptor::is_endpoint(descriptor)
    &&& descriptor::endpoint_kind(descriptor, 3)
    &&& descriptor::endpoint_in(descriptor)
}

/// The first endpoint that reports changes, of the descriptors from `from` on.
pub open spec fn first_status_endpoint(all: Seq<Seq<u8>>, from: int) -> Option<(u8, u16)>
    decreases all.len() - from,
{
    if from < 0 || from >= all.len() {
        None
    } else if reports_changes(all[from]) {
        Some(
            (
                descriptor::endpoint_number(all[from]),
                descriptor::endpoint_packet_size(all[from]),
            ),
        )
    } else {
        first_status_endpoint(all, from + 1)
    }
}

/// Power the ports from `port` on.
pub open spec fn power_program(hub: ControlEndpoint, port: int, count: u8) -> UsbProgram<
    Result<(), TransferError>,
>
    decreases count + 1 - port,
{
    if port > count {
        Program::Return(Ok(()))
    } else {
        control::and_then(
            control::no_data_program(
                hub,
                control::port_setup(REQUEST_SET_FEATURE, PORT_FEATURE_POWER, port as u8),
            ),
            |powered: ()| power_program(hub, port + 1, count),
        )
    }
}

/// An enumeration step that failed.
pub open spec fn failed<T>(error: TransferError) -> UsbProgram<Result<T, EnumerationError>> {
    Program::Return(Err(EnumerationError::Transfer(error)))
}

/// Learn how many ports a configured hub has, and power them.
pub open spec fn describe_program(
    endpoint: ControlEndpoint,
    high_speed: bool,
    status_endpoint: Option<(u8, u16)>,
) -> UsbProgram<Result<Hub, EnumerationError>> {
    control::descriptor_program(
        endpoint,
        control::descriptor_setup(0xA0, 0x29, 0, 16),
        control::zeros(16),
        control::DESCRIPTOR_TRIES as nat,
    ).bind(
        |read: control::Read|
            match read.0 {
                Err(error) => failed(error),
                Ok(len) => if len < 6 {
                    Program::Return(Err(EnumerationError::MalformedDescriptor))
                } else {
                    power_program(endpoint, 1, read.1[2]).bind(
                        |powered: Result<(), TransferError>|
                            match powered {
                                Err(error) => failed(error),
                                Ok(()) => control::pause(
                                    (read.1[5] * 2 + CONNECT_DEBOUNCE_MS) as u32,
                                    Program::Return(
                                        Ok(
                                            Hub {
                                                endpoint,
                                                num_ports: read.1[2],
                                                power_on_good_ms: (read.1[5] * 2) as u32,
                                                high_speed,
                                                status_endpoint,
                                            },
                                        ),
                                    ),
                                ),
                            },
                    )
                },
            },
    )
}

/// Configure a hub, and power its ports.
pub open spec fn configure_program(endpoint: ControlEndpoint, high_speed: bool) -> UsbProgram<
    Result<Hub, EnumerationError>,
> {
    control::configuration_program(endpoint, 0, control::zeros(64)).bind(
        |config: control::Read|
            match config.0 {
                Err(error) => failed(error),
                Ok(len) => if !descriptor::is_configuration(config.1.take(len as int)) {
                    Program::Return(Err(EnumerationError::MalformedDescriptor))
                } else {
                    control::set_configuration_program(endpoint, config.1[5]).bind(
                        |configured: Result<(), TransferError>|
                            match configured {
                                Err(error) => failed(error),
                                Ok(()) => describe_program(
                                    endpoint,
                                    high_speed,
                                    first_status_endpoint(
                                        descriptor::descriptors(config.1.take(len as int), 0),
                                        0,
                                    ),
                                ),
                            },
                    )
                },
            },
    )
}

/// Look at a port that is being reset until it is enabled, or long enough.
pub open spec fn reset_poll(
    hub: ControlEndpoint,
    port: u8,
    status: PortStatus,
    polls: nat,
) -> UsbProgram<PortStatus>
    decreases polls,
{
    if polls == 0 {
        Program::Return(status)
    } else {
        control::pause(
            PORT_RESET_POLL_MS,
            control::port_status_program(hub, port).bind(
                |looked: Result<(u16, u16), TransferError>|
                    match looked {
                        Ok(pair) => if PortStatus(pair.0).is_enabled() {
                            Program::Return(PortStatus(pair.0))
                        } else {
                            reset_poll(hub, port, PortStatus(pair.0), (polls - 1) as nat)
                        },
                        Err(error) => reset_poll(hub, port, status, (polls - 1) as nat),
                    },
            ),
        )
    }
}

/// Reset a port, and acknowledge what that changed; whether the acknowledgements
/// succeed does not matter.
pub open spec fn reset_program(hub: ControlEndpoint, port: u8) -> UsbProgram<
    Result<PortStatus, EnumerationError>,
> {
    control::no_data_program(
        hub,
        control::port_setup(REQUEST_CLEAR_FEATURE, PORT_FEATURE_C_CONNECTION, port),
    ).bind(
        |acknowledged: Result<(), TransferError>|
            control::no_data_program(
                hub,
                control::port_setup(REQUEST_SET_FEATURE, PORT_FEATURE_RESET, port),
            ).bind(
                |started: Result<(), TransferError>|
                    match started {
                        Err(error) => failed(error),
                        Ok(()) => reset_poll(
                            hub,
                            port,
                            PortStatus(0),
                            PORT_RESET_POLLS as nat,
                        ).bind(
                            |status: PortStatus|
                                control::no_data_program(
                                    hub,
                                    control::port_setup(
                                        REQUEST_CLEAR_FEATURE,
                                        PORT_FEATURE_C_RESET,
                                        port,
                                    ),
                                ).bind(
                                    |ended: Result<(), TransferError>|
                                        Program::Return(Ok(status)),
                                ),
                        ),
                    },
            ),
    )
}

/// Look at a port.
pub open spec fn look_program(hub: ControlEndpoint, port: u8) -> UsbProgram<
    Result<PortStatus, EnumerationError>,
> {
    control::port_status_program(hub, port).bind(
        |looked: Result<(u16, u16), TransferError>|
            match looked {
                Ok(pair) => Program::Return(Ok(PortStatus(pair.0))),
                Err(error) => failed(error),
            },
    )
}

impl Hub {
    /// The transaction translator for a device on one of this hub's ports: a
    /// high-speed hub's own, unless the device is as fast; of a slower hub, the
    /// one that the hub itself is behind.
    pub open spec fn translator(self, port: u8, status: PortStatus) -> Option<SplitTarget> {
        if !self.high_speed {
            self.endpoint.split
        } else if status.is_high_speed() {
            None
        } else {
            Some(SplitTarget { hub_address: self.endpoint.address, port })
        }
    }

    /// Configures the hub at `endpoint`, powers its ports, and waits for what
    /// is connected to settle.
    pub fn configure<H: Dwc2Registers>(
        channel: &mut Channel<H>,
        endpoint: ControlEndpoint,
        high_speed: bool,
    ) -> (result: Result<Hub, EnumerationError>)
        ensures
            configure_program(endpoint, high_speed).ran(old(channel)@, final(channel)@, result),
            result matches Ok(hub) ==> hub.endpoint == endpoint,
    {
        let mut config: [u8; 64] = [0;64];
        assert(config@ =~= control::zeros(64));
        let config_len: usize = match get_configuration_descriptor(
            channel,
            endpoint,
            0,
            &mut config,
        ) {
            Ok(len) => len,
            Err(error) => return Err(EnumerationError::Transfer(error)),
        };
        let read = vstd::slice::slice_subrange(config.as_slice(), 0, config_len);
        assert(read@ =~= config@.take(config_len as int));
        let config_value: u8 = match ConfigurationDescriptor::parse(read) {
            Some(parsed) => parsed.value(),
            None => return Err(EnumerationError::MalformedDescriptor),
        };
        match set_configuration(channel, endpoint, config_value) {
            Ok(()) => {},
            Err(error) => return Err(EnumerationError::Transfer(error)),
        }
        let status_endpoint = find_status_endpoint(read);
        Self::describe(channel, endpoint, high_speed, status_endpoint)
    }

    fn describe<H: Dwc2Registers>(
        channel: &mut Channel<H>,
        endpoint: ControlEndpoint,
        high_speed: bool,
        status_endpoint: Option<(u8, u16)>,
    ) -> (result: Result<Hub, EnumerationError>)
        ensures
            describe_program(endpoint, high_speed, status_endpoint).ran(
                old(channel)@,
                final(channel)@,
                result,
            ),
            result matches Ok(hub) ==> hub.endpoint == endpoint,
    {
        let mut hub_descriptor: [u8; 16] = [0;16];
        assert(hub_descriptor@ =~= control::zeros(16));
        let len: usize = match get_hub_descriptor(channel, endpoint, &mut hub_descriptor) {
            Ok(len) => len,
            Err(error) => return Err(EnumerationError::Transfer(error)),
        };
        if len < 6 {
            return Err(EnumerationError::MalformedDescriptor);
        }
        let num_ports: u8 = hub_descriptor[2];
        let power_on_good_ms: u32 = hub_descriptor[5] as u32 * 2;

        match Self::power_ports(channel, endpoint, num_ports) {
            Ok(()) => {},
            Err(error) => return Err(EnumerationError::Transfer(error)),
        }
        channel.delay_ms(power_on_good_ms + CONNECT_DEBOUNCE_MS);

        Ok(Hub { endpoint, num_ports, power_on_good_ms, high_speed, status_endpoint })
    }

    fn power_ports<H: Dwc2Registers>(
        channel: &mut Channel<H>,
        endpoint: ControlEndpoint,
        num_ports: u8,
    ) -> (result: Result<(), TransferError>)
        ensures
            power_program(endpoint, 1, num_ports).ran(old(channel)@, final(channel)@, result),
    {
        proof {
            crate::program::begin(channel@, power_program(endpoint, 1, num_ports));
        }
        let mut port: u16 = 1;
        while port <= num_ports as u16
            invariant
                1 <= port <= num_ports + 1,
                power_program(endpoint, 1, num_ports).leads(
                    old(channel)@,
                    channel@,
                    power_program(endpoint, port as int, num_ports),
                ),
            decreases num_ports + 1 - port,
        {
            match port_request(
                channel,
                endpoint,
                REQUEST_SET_FEATURE,
                PORT_FEATURE_POWER,
                port as u8,
            ) {
                Ok(()) => {},
                Err(error) => return Err(error),
            }
            port = port + 1;
        }
        Ok(())
    }

    /// The interrupt endpoint that reports changes: its number and packet size.
    pub fn status_endpoint(&self) -> (endpoint: Option<(u8, u16)>)
        ensures
            endpoint == self.status_endpoint,
    {
        self.status_endpoint
    }

    /// How the hub itself is reached.
    pub fn endpoint(&self) -> (endpoint: ControlEndpoint)
        ensures
            endpoint == self.endpoint,
    {
        self.endpoint
    }

    /// The status of a port.
    pub fn port_status<H: Dwc2Registers>(&self, channel: &mut Channel<H>, port: u8) -> (result:
        Result<PortStatus, EnumerationError>)
        ensures
            look_program(self.endpoint, port).ran(old(channel)@, final(channel)@, result),
    {
        match port_status(channel, self.endpoint, port) {
            Ok((status, _)) => Ok(PortStatus(status)),
            Err(error) => Err(EnumerationError::Transfer(error)),
        }
    }

    /// Resets a port, and gives the status that it comes out with.
    pub fn reset_port<H: Dwc2Registers>(&self, channel: &mut Channel<H>, port: u8) -> (result:
        Result<PortStatus, EnumerationError>)
        ensures
            reset_program(self.endpoint, port).ran(old(channel)@, final(channel)@, result),
    {
        let endpoint = self.endpoint;
        let _ = port_request(
            channel,
            endpoint,
            REQUEST_CLEAR_FEATURE,
            PORT_FEATURE_C_CONNECTION,
            port,
        );
        match port_request(channel, endpoint, REQUEST_SET_FEATURE, PORT_FEATURE_RESET, port) {
            Ok(()) => {},
            Err(error) => return Err(EnumerationError::Transfer(error)),
        }
        let status = Self::await_enabled(channel, endpoint, port);
        let _ = port_request(
            channel,
            endpoint,
            REQUEST_CLEAR_FEATURE,
            PORT_FEATURE_C_RESET,
            port,
        );
        Ok(status)
    }

    fn await_enabled<H: Dwc2Registers>(
        channel: &mut Channel<H>,
        endpoint: ControlEndpoint,
        port: u8,
    ) -> (status: PortStatus)
        ensures
            reset_poll(endpoint, port, PortStatus(0), PORT_RESET_POLLS as nat).ran(
                old(channel)@,
                final(channel)@,
                status,
            ),
    {
        let ghost whole = reset_poll(endpoint, port, PortStatus(0), PORT_RESET_POLLS as nat);
        proof {
            crate::program::begin(channel@, whole);
        }
        let mut status = PortStatus(0);
        let mut polls: u32 = PORT_RESET_POLLS;
        while polls > 0
            invariant
                whole == reset_poll(endpoint, port, PortStatus(0), PORT_RESET_POLLS as nat),
                whole.leads(
                    old(channel)@,
                    channel@,
                    reset_poll(endpoint, port, status, polls as nat),
                ),
            decreases polls,
        {
            channel.delay_ms(PORT_RESET_POLL_MS);
            match port_status(channel, endpoint, port) {
                Ok((seen, _)) => {
                    status = PortStatus(seen);
                    if status.enabled() {
                        return status;
                    }
                },
                Err(_) => {},
            }
            polls = polls - 1;
        }
        status
    }

    /// The transaction translator for a device on `port` with that `status`.
    pub fn split_target(&self, port: u8, status: &PortStatus) -> (target: Option<SplitTarget>)
        ensures
            target == self.translator(port, *status),
    {
        if !self.high_speed {
            return self.endpoint.split;
        }
        if status.high_speed() {
            None
        } else {
            Some(SplitTarget { hub_address: self.endpoint.address, port })
        }
    }
}

/// The first endpoint of a configuration that reports changes.
pub fn find_status_endpoint(config: &[u8]) -> (found: Option<(u8, u16)>)
    ensures
        found == first_status_endpoint(descriptor::descriptors(config@, 0), 0),
{
    let ghost all = descriptor::descriptors(config@, 0);
    let ghost mut from: int = 0;
    let mut walk = Descriptors::new(config);
    assert(all.skip(0) =~= all);
    loop
        invariant
            walk.wf(),
            all == descriptor::descriptors(config@, 0),
            0 <= from <= all.len(),
            walk@ == all.skip(from),
            first_status_endpoint(all, 0) == first_status_endpoint(all, from),
        decreases walk.left(),
    {
        match walk.next() {
            Some(found) => {
                proof {
                    assert(all.skip(from)[0] == all[from]);
                    assert(all.skip(from).skip(1) =~= all.skip(from + 1));
                }
                match EndpointDescriptor::parse(found) {
                    Some(endpoint) => {
                        if endpoint.is_interrupt() && endpoint.is_in() {
                            return Some((endpoint.number(), endpoint.max_packet_size()));
                        }
                    },
                    None => {},
                }
                proof {
                    from = from + 1;
                }
            },
            None => return None,
        }
    }
}

} // verus!

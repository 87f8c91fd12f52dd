//! Gamepads, whose reports are laid out as their report descriptor says.

use vstd::prelude::*;

use crate::program::Program;
use crate::usb::descriptor;
use crate::usb::descriptor::ConfigurationDescriptor;
use crate::usb::dwc2::hardware::Dwc2Registers;
use crate::usb::dwc2::{
    Channel, ControlEndpoint, Reply, Transfer, TransferError, UsbHistory, UsbProgram,
    MAX_TRANSFER_LEN,
};
use crate::usb::hid;
use crate::usb::hid::probe;
use crate::usb::hid::probe::{Probe, ProbeOp, ProbeProgram, ReportParser, Trial, Verdict};
use crate::usb::hid::{pipe_for, HidInterface, Wanted};
use crate::usb::session::Device;

verus! {

broadcast use {
    crate::program::group_program,
    crate::usb::hid::probe::lemma_no_step,
    crate::usb::hid::probe::lemma_one_step_more,
};

/// The longest report descriptor that is read: as much as one transfer carries.
pub const MAX_REPORT_DESCRIPTOR: usize = 256;

/// Which request failed when a device was brought up as a gamepad, and how.
#[derive(Clone, Copy, Debug, PartialEq, Eq, Structural)]
pub enum GamepadError {
    /// Reading the configuration.
    ConfigurationDescriptor(TransferError),
    /// Selecting the configuration.
    SetConfiguration(TransferError),
    /// Reading the report descriptor of this interface. A stall is told only if no
    /// interface turned out to be a gamepad.
    ReportDescriptor(u8, TransferError),
}

/// A report: its number, or 0 if the reports of this gamepad have none, and
/// what follows the number.
#[derive(Clone, Copy, Debug, PartialEq, Eq)]
pub struct Report<'a> {
    pub id: u8,
    pub payload: &'a [u8],
}

/// Two to the power of a small number.
pub open spec fn power(exponent: int) -> int
    decreases exponent,
{
    if exponent <= 0 {
        1
    } else {
        2 * power(exponent - 1)
    }
}

/// How long to wait between two polls, in milliseconds. An interval counts
/// milliseconds, but on a high-speed device it is the exponent of a number of
/// microframes, of which a millisecond has eight.
pub open spec fn interval_ms(endpoint: ControlEndpoint, interval: u8) -> int {
    let high_speed = endpoint.split is None && !endpoint.low_speed;
    let ms = if !high_speed {
        interval as int
    } else if interval < 1 {
        power(0) / 8
    } else if interval > 16 {
        power(15) / 8
    } else {
        power(interval - 1) / 8
    };
    if ms < 1 {
        1
    } else {
        ms
    }
}

fn poll_interval_ms(endpoint: &ControlEndpoint, interval: u8) -> (ms: u32)
    ensures
        ms == interval_ms(*endpoint, interval),
{
    let high_speed: bool = endpoint.split.is_none() && !endpoint.low_speed;
    let ms: u32 = if high_speed {
        let exponent: u8 = if interval < 1 {
            0
        } else if interval > 16 {
            15
        } else {
            interval - 1
        };
        proof {
            reveal_with_fuel(power, 16);
        }
        let mut microframes: u32 = 1;
        let mut left: u8 = exponent;
        while left > 0
            invariant
                left <= exponent <= 15,
                microframes == power(exponent - left),
                power(15) == 32768,
            decreases left,
        {
            proof {
                lemma_power_grows(exponent - left + 1, 15);
            }
            microframes = microframes * 2;
            left = left - 1;
        }
        microframes / 8
    } else {
        interval as u32
    };
    if ms < 1 {
        1
    } else {
        ms
    }
}

proof fn lemma_power_grows(small: int, large: int)
    requires
        0 <= small <= large,
    ensures
        power(small) <= power(large),
    decreases large,
{
    if small < large {
        lemma_power_grows(small, large - 1);
        lemma_power_positive(large - 1);
    }
}

proof fn lemma_power_positive(exponent: int)
    ensures
        power(exponent) >= 1,
    decreases exponent,
{
    if exponent > 0 {
        lemma_power_positive(exponent - 1);
    }
}

/// A gamepad. `D` is the layout of its reports.
pub struct Gamepad<D> {
    endpoint: ControlEndpoint,
    interface: u8,
    report_endpoint: u8,
    poll_interval_ms: u32,
    toggle: bool,
    descriptor: D,
    verdict: Verdict,
    raw_descriptor: [u8; 256],
    raw_descriptor_len: usize,
}

/// A gamepad as a value.
#[verifier::ext_equal]
pub struct GamepadState<D> {
    /// How its reports are reached.
    pub endpoint: ControlEndpoint,
    pub interface: u8,
    pub report_endpoint: u8,
    pub poll_interval_ms: int,
    pub toggle: bool,
    /// The layout of its reports, and what else was said of its report descriptor.
    pub layout: D,
    pub verdict: Verdict,
    /// Its report descriptor.
    pub descriptor_bytes: Seq<u8>,
}

impl<D> View for Gamepad<D> {
    type V = GamepadState<D>;

    closed spec fn view(&self) -> GamepadState<D> {
        GamepadState {
            endpoint: self.endpoint,
            interface: self.interface,
            report_endpoint: self.report_endpoint,
            poll_interval_ms: self.poll_interval_ms as int,
            toggle: self.toggle,
            layout: self.descriptor,
            verdict: self.verdict,
            descriptor_bytes: self.raw_descriptor@.take(self.raw_descriptor_len as int),
        }
    }
}

/// A gamepad that has just been brought up.
pub open spec fn new_gamepad<D>(
    device: ControlEndpoint,
    found: HidInterface,
    layout: D,
    verdict: Verdict,
    bytes: Seq<u8>,
) -> GamepadState<D> {
    GamepadState {
        endpoint: hid::report_pipe(device, found),
        interface: found.interface,
        report_endpoint: found.endpoint,
        poll_interval_ms: interval_ms(device, found.interval),
        toggle: false,
        layout,
        verdict,
        descriptor_bytes: bytes,
    }
}

/// How much of a report descriptor is read.
pub open spec fn descriptor_len(found: HidInterface) -> nat {
    if found.report_descriptor_len > MAX_REPORT_DESCRIPTOR {
        MAX_REPORT_DESCRIPTOR as nat
    } else {
        found.report_descriptor_len as nat
    }
}

/// What is known if no interface is a gamepad: the first one that stalled, if one
/// did.
pub open spec fn nothing_found<D>(stalled: Option<u8>) -> Result<
    Option<GamepadState<D>>,
    GamepadError,
> {
    match stalled {
        Some(interface) => Err(GamepadError::ReportDescriptor(interface, TransferError::Stall)),
        None => Ok(None),
    }
}

/// Try some HID interfaces, from one on, in turn.
pub open spec fn search_program<D>(
    device: ControlEndpoint,
    candidates: Seq<HidInterface>,
    at: int,
    stalled: Option<u8>,
) -> ProbeProgram<D, Result<Option<GamepadState<D>>, GamepadError>>
    decreases candidates.len() - at,
{
    if at < 0 || at >= candidates.len() {
        Program::Return(nothing_found(stalled))
    } else {
        let found = candidates[at];
        if found.report_descriptor_len == 0 {
            search_program(device, candidates, at + 1, stalled)
        } else {
            probe::read(
                ProbeOp::ReportDescriptor(device, found.interface, descriptor_len(found)),
                |read: Result<Seq<u8>, TransferError>|
                    match read {
                        Err(error) => if error == TransferError::Stall {
                            search_program(
                                device,
                                candidates,
                                at + 1,
                                match stalled {
                                    Some(first) => Some(first),
                                    None => Some(found.interface),
                                },
                            )
                        } else {
                            Program::Return(
                                Err(GamepadError::ReportDescriptor(found.interface, error)),
                            )
                        },
                        Ok(bytes) => probe::judge(
                            bytes,
                            |layout: D, verdict: Verdict|
                                if verdict.is_gamepad {
                                    probe::act(
                                        ProbeOp::Idle(device, found.interface),
                                        |idle: Result<(), TransferError>|
                                            Program::Return(
                                                Ok(
                                                    Some(
                                                        new_gamepad(
                                                            device,
                                                            found,
                                                            layout,
                                                            verdict,
                                                            bytes,
                                                        ),
                                                    ),
                                                ),
                                            ),
                                    )
                                } else {
                                    search_program(device, candidates, at + 1, stalled)
                                },
                        ),
                    },
            )
        }
    }
}

/// Bring a device up as a gamepad, if it is one: read its configuration, and if
/// it has a HID interface, select the configuration and look for an interface
/// whose report descriptor is that of a game controller.
pub open spec fn gamepad_program<D>(device: ControlEndpoint) -> ProbeProgram<
    D,
    Result<Option<GamepadState<D>>, GamepadError>,
> {
    probe::read(
        ProbeOp::Configuration(device),
        |read: Result<Seq<u8>, TransferError>|
            match read {
                Err(error) => Program::Return(Err(GamepadError::ConfigurationDescriptor(error))),
                Ok(config) => if hid::hid_interface(config, Wanted::Any) is None
                    || !descriptor::is_configuration(config) {
                    Program::Return(Ok(None))
                } else {
                    probe::act(
                        ProbeOp::Select(device, config[5]),
                        |selected: Result<(), TransferError>|
                            match selected {
                                Err(error) => Program::Return(
                                    Err(GamepadError::SetConfiguration(error)),
                                ),
                                Ok(_) => search_program(
                                    device,
                                    hid::hid_interfaces(config),
                                    0,
                                    None,
                                ),
                            },
                    )
                },
            },
    )
}

/// A report, of the bytes that came.
pub open spec fn report_in(verdict: Verdict, bytes: Seq<u8>) -> (u8, Seq<u8>) {
    if verdict.uses_report_ids {
        (bytes[0], bytes.skip(1))
    } else {
        (0, bytes)
    }
}

/// The bytes of a report, as they came.
pub open spec fn report_bytes(verdict: Verdict, id: u8, payload: Seq<u8>) -> Seq<u8> {
    if verdict.uses_report_ids {
        seq![id] + payload
    } else {
        payload
    }
}

/// A buffer with some bytes put over its front; the rest is as it was.
pub open spec fn over_front(buf: Seq<u8>, bytes: Seq<u8>) -> Seq<u8> {
    bytes + buf.skip(bytes.len() as int)
}

proof fn lemma_over_front(buf: Seq<u8>, window: Seq<u8>, received: int)
    requires
        0 <= received <= window.len() <= buf.len(),
        window.skip(received) == buf.take(window.len() as int).skip(received),
    ensures
        window + buf.skip(window.len() as int) == over_front(buf, window.take(received)),
        received == 0 ==> window + buf.skip(window.len() as int) == buf,
{
    assert(window =~= window.take(received) + window.skip(received));
    assert(window + buf.skip(window.len() as int) =~= over_front(buf, window.take(received)));
    if received == 0 {
        assert(over_front(buf, window.take(received)) =~= buf);
    }
}

/// How much of a report is read into a buffer.
pub open spec fn report_len<D>(state: GamepadState<D>, room: nat) -> nat {
    let packet = state.endpoint.max_packet_size as nat;
    let fits = if room < packet {
        room
    } else {
        packet
    };
    if fits < MAX_TRANSFER_LEN {
        fits
    } else {
        MAX_TRANSFER_LEN as nat
    }
}

/// What came of asking a gamepad: its state, and the report, if one came.
pub type Polled<D> = (GamepadState<D>, Result<Option<(u8, Seq<u8>)>, TransferError>);

/// Ask a gamepad for a report. A NAK, like an empty report, means that there is
/// nothing new.
pub open spec fn poll_program<D>(state: GamepadState<D>, room: nat) -> UsbProgram<Polled<D>> {
    Program::Request(
        Transfer::InterruptIn(
            state.endpoint,
            state.report_endpoint,
            state.toggle,
            report_len(state, room) as usize,
        ),
        |reply: Reply|
            match reply {
                Reply::Bytes(Ok(bytes)) => {
                    let moved = GamepadState { toggle: !state.toggle, ..state };
                    if bytes.len() == 0 {
                        Program::Return((moved, Ok(None)))
                    } else {
                        Program::Return((moved, Ok(Some(report_in(state.verdict, bytes)))))
                    }
                },
                Reply::Bytes(Err(error)) => if error == TransferError::Nak {
                    Program::Return((state, Ok(None)))
                } else {
                    Program::Return((state, Err(error)))
                },
                _ => Program::Stuck,
            },
    )
}

/// The result of bringing a gamepad up, as a value.
pub open spec fn outcome<D>(result: Result<Option<Gamepad<D>>, GamepadError>) -> Result<
    Option<GamepadState<D>>,
    GamepadError,
> {
    match result {
        Ok(Some(gamepad)) => Ok(Some(gamepad@)),
        Ok(None) => Ok(None),
        Err(error) => Err(error),
    }
}

impl<D> Gamepad<D> {
    /// What is kept of the report descriptor fits.
    pub closed spec fn wf(&self) -> bool {
        self.raw_descriptor_len <= MAX_REPORT_DESCRIPTOR
    }

    /// Brings `device` up as a gamepad, or says that it is none.
    pub fn from_device<H: Dwc2Registers, P: ReportParser<D>>(
        channel: &mut Channel<H>,
        probe: &mut Probe<P, D>,
        device: Device,
    ) -> (result: Result<Option<Gamepad<D>>, GamepadError>)
        ensures
            result matches Ok(Some(gamepad)) ==> gamepad.wf(),
            gamepad_program(device.endpoint).ran(old(probe)@, final(probe)@, outcome(result)),
            probe::carried_out(
                old(probe).trials(),
                final(probe).trials(),
                old(channel)@,
                final(channel)@,
            ),
    {
        assert(probe::carried_out(probe.trials(), probe.trials(), channel@, channel@));
        let mut buffer: [u8; 256] = [0;256];
        let len: usize = match probe.configuration(channel, device.endpoint, &mut buffer) {
            Ok(len) => len,
            Err(error) => return Err(GamepadError::ConfigurationDescriptor(error)),
        };
        let config = vstd::slice::slice_subrange(buffer.as_slice(), 0, len);
        assert(config@ =~= buffer@.take(len as int));
        if HidInterface::find(config, Wanted::Any).is_none() {
            return Ok(None);
        }
        let value: u8 = match ConfigurationDescriptor::parse(config) {
            Some(parsed) => parsed.value(),
            None => return Ok(None),
        };
        match probe.select(channel, device.endpoint, value) {
            Ok(()) => {},
            Err(error) => return Err(GamepadError::SetConfiguration(error)),
        }
        let candidates: Vec<HidInterface> = HidInterface::all(config);
        Self::search(
            channel,
            probe,
            device.endpoint,
            &candidates,
            Ghost(old(probe).trials()),
            Ghost(old(channel)@),
        )
    }

    fn search<H: Dwc2Registers, P: ReportParser<D>>(
        channel: &mut Channel<H>,
        probe: &mut Probe<P, D>,
        device: ControlEndpoint,
        candidates: &Vec<HidInterface>,
        before: Ghost<Seq<Trial<D>>>,
        start: Ghost<UsbHistory>,
    ) -> (result: Result<Option<Gamepad<D>>, GamepadError>)
        requires
            probe::carried_out(before@, old(probe).trials(), start@, old(channel)@),
        ensures
            result matches Ok(Some(gamepad)) ==> gamepad.wf(),
            search_program(device, candidates@, 0, None).ran(
                old(probe)@,
                final(probe)@,
                outcome(result),
            ),
            probe::carried_out(before@, final(probe).trials(), start@, final(channel)@),
    {
        let ghost whole = search_program::<D>(device, candidates@, 0, None);
        let mut at: usize = 0;
        let mut stalled: Option<u8> = None;
        proof {
            crate::program::begin(probe@, whole);
        }
        loop
            invariant
                whole == search_program::<D>(device, candidates@, 0, None),
                at <= candidates@.len(),
                whole.leads(
                    old(probe)@,
                    probe@,
                    search_program(device, candidates@, at as int, stalled),
                ),
                probe::carried_out(before@, probe.trials(), start@, channel@),
            decreases candidates@.len() - at,
        {
            if at == candidates.len() {
                return match stalled {
                    Some(interface) => Err(
                        GamepadError::ReportDescriptor(interface, TransferError::Stall),
                    ),
                    None => Ok(None),
                };
            }
            let interface: HidInterface = candidates[at];
            at = at + 1;
            if interface.report_descriptor_len == 0 {
                continue;
            }
            let to_read: usize = if interface.report_descriptor_len as usize
                > MAX_REPORT_DESCRIPTOR {
                MAX_REPORT_DESCRIPTOR
            } else {
                interface.report_descriptor_len as usize
            };
            let mut raw_descriptor: [u8; 256] = [0;256];
            let (window, _rest) = raw_descriptor.split_at_mut(to_read);
            let read = probe.report_descriptor(channel, device, interface.interface, window);
            let ghost bytes = window@;
            let received: usize = match read {
                Ok(received) => received,
                Err(TransferError::Stall) => {
                    if stalled.is_none() {
                        stalled = Some(interface.interface);
                    }
                    continue;
                },
                Err(error) => {
                    return Err(GamepadError::ReportDescriptor(interface.interface, error));
                },
            };
            let descriptor = vstd::slice::slice_subrange(raw_descriptor.as_slice(), 0, received);
            assert(descriptor@ =~= bytes.take(received as int));
            assert(raw_descriptor@.take(received as int) =~= bytes.take(received as int));
            let ghost trials = probe.trials();
            let (layout, verdict) = probe.judge(descriptor);
            assert(probe::stepped(trials, probe.trials(), channel@, channel@));
            if !verdict.is_gamepad {
                continue;
            }
            let _ = probe.idle(channel, device, interface.interface);
            let gamepad = Gamepad {
                endpoint: pipe_for(device, &interface),
                interface: interface.interface,
                report_endpoint: interface.endpoint,
                poll_interval_ms: poll_interval_ms(&device, interface.interval),
                toggle: false,
                descriptor: layout,
                verdict,
                raw_descriptor,
                raw_descriptor_len: received,
            };
            return Ok(Some(gamepad));
        }
    }

    /// The number of the gamepad's interface.
    pub fn interface(&self) -> (interface: u8)
        ensures
            interface == self@.interface,
    {
        self.interface
    }

    /// The number of its endpoint for reports.
    pub fn report_endpoint(&self) -> (endpoint: u8)
        ensures
            endpoint == self@.report_endpoint,
    {
        self.report_endpoint
    }

    /// The largest packet of that endpoint.
    pub fn max_packet_size(&self) -> (size: u16)
        ensures
            size == self@.endpoint.max_packet_size,
    {
        self.endpoint.max_packet_size
    }

    /// How long to wait between two polls, in milliseconds.
    pub fn poll_interval_ms(&self) -> (ms: u32)
        ensures
            ms == self@.poll_interval_ms,
    {
        self.poll_interval_ms
    }

    /// The layout of its reports.
    pub fn report_descriptor(&self) -> (layout: &D)
        ensures
            *layout == self@.layout,
    {
        &self.descriptor
    }

    /// Its report descriptor, as it was read.
    pub fn report_descriptor_bytes(&self) -> (bytes: &[u8])
        requires
            self.wf(),
        ensures
            bytes@ == self@.descriptor_bytes,
    {
        let bytes = vstd::slice::slice_subrange(
            self.raw_descriptor.as_slice(),
            0,
            self.raw_descriptor_len,
        );
        assert(bytes@ =~= self@.descriptor_bytes);
        bytes
    }

    /// Asks the gamepad once, reading into `buf`; gives a report, if one came.
    pub fn poll<'a, H: Dwc2Registers>(
        &mut self,
        channel: &mut Channel<H>,
        buf: &'a mut [u8],
    ) -> (result: Result<Option<Report<'a>>, TransferError>)
        ensures
            final(self).wf() == old(self).wf(),
            poll_program(old(self)@, old(buf)@.len()).ran(
                old(channel)@,
                final(channel)@,
                (
                    final(self)@,
                    match result {
                        Ok(Some(report)) => Ok(Some((report.id, report.payload@))),
                        Ok(None) => Ok(None),
                        Err(error) => Err(error),
                    },
                ),
            ),
            final(buf)@ == match result {
                Ok(Some(report)) => over_front(
                    old(buf)@,
                    report_bytes(old(self)@.verdict, report.id, report.payload@),
                ),
                _ => old(buf)@,
            },
    {
        let room: usize = buf.len();
        let packet: usize = self.endpoint.max_packet_size as usize;
        let fits: usize = if room < packet {
            room
        } else {
            packet
        };
        let to_read: usize = if fits < MAX_TRANSFER_LEN {
            fits
        } else {
            MAX_TRANSFER_LEN
        };
        let (window, _rest) = buf.split_at_mut(to_read);
        let received: usize = match channel.interrupt_in(
            self.endpoint,
            self.report_endpoint,
            &mut self.toggle,
            window,
        ) {
            Ok(received) => received,
            Err(TransferError::Nak) => return Ok(None),
            Err(error) => return Err(error),
        };
        let ghost bytes = window@.take(received as int);
        proof {
            lemma_over_front(old(buf)@, window@, received as int);
        }
        if received == 0 {
            return Ok(None);
        }
        if self.verdict.uses_report_ids {
            let payload = vstd::slice::slice_subrange(window, 1, received);
            assert(payload@ =~= bytes.skip(1));
            assert(report_bytes(self@.verdict, window@[0], payload@) =~= bytes);
            Ok(Some(Report { id: window[0], payload }))
        } else {
            let payload = vstd::slice::slice_subrange(window, 0, received);
            assert(payload@ =~= bytes);
            Ok(Some(Report { id: 0, payload }))
        }
    }
}

} // verus!

//! Control transfers on endpoint 0, and the standard, class and vendor requests
//! that the drivers here make with them.
//!
//! A control transfer is a SETUP packet that says what is asked, an optional data
//! stage, and an empty packet the other way that ends it. A stage that the device
//! answers with NAK is tried again, up to [`MAX_NAK_RETRIES`] times in all.

use vstd::prelude::*;

use crate::bytes;
use crate::bytes::{u16_bytes, u16_from};
use crate::program::Program;
use crate::usb::descriptor;
use crate::usb::descriptor::DeviceDescriptor;
use crate::usb::dwc2::hardware::Dwc2Registers;
use crate::usb::dwc2::{
    Channel, ControlEndpoint, Reply, Transfer, TransferError, UsbProgram, MAX_TRANSFER_LEN,
};

pub mod patience;
pub mod requests;
pub mod stages;

verus! {

broadcast use crate::program::group_program;

/// How often a stage is tried.
pub const MAX_NAK_RETRIES: u32 = 10_000;

/// How often a descriptor is asked for.
pub const DESCRIPTOR_TRIES: u32 = 3;

/// The pause between two tries, in milliseconds.
pub const DESCRIPTOR_RETRY_MS: u32 = 5;

/// The time a device gets to take its new address, in milliseconds.
pub const SET_ADDRESS_RECOVERY_MS: u32 = 2;

/// Standard request: read a status.
pub const REQUEST_GET_STATUS: u8 = 0x00;

/// Standard request: clear a feature.
pub const REQUEST_CLEAR_FEATURE: u8 = 0x01;

/// Standard request: set a feature.
pub const REQUEST_SET_FEATURE: u8 = 0x03;

/// Standard request: take an address.
pub const REQUEST_SET_ADDRESS: u8 = 0x05;

/// Standard request: read a descriptor.
pub const REQUEST_GET_DESCRIPTOR: u8 = 0x06;

/// Standard request: take a configuration.
pub const REQUEST_SET_CONFIGURATION: u8 = 0x09;

/// Hub port feature: reset.
pub const PORT_FEATURE_RESET: u16 = 4;

/// Hub port feature: power.
pub const PORT_FEATURE_POWER: u16 = 8;

/// Hub port feature: the connection has changed.
pub const PORT_FEATURE_C_CONNECTION: u16 = 16;

/// Hub port feature: a reset has ended.
pub const PORT_FEATURE_C_RESET: u16 = 20;

/// A request, as the SETUP packet holds it.
#[derive(Clone, Copy, Debug, PartialEq, Eq, Structural)]
pub struct Setup {
    pub request_type: u8,
    pub request: u8,
    pub value: u16,
    pub index: u16,
    pub length: u16,
}

impl Setup {
    /// The eight bytes of the SETUP packet.
    pub open spec fn packet(self) -> Seq<u8> {
        seq![self.request_type, self.request] + bytes::le16_bytes(self.value) + bytes::le16_bytes(
            self.index,
        ) + bytes::le16_bytes(self.length)
    }

    /// The eight bytes of the SETUP packet.
    pub fn to_bytes(self) -> (packet: [u8; 8])
        ensures
            packet@ == self.packet(),
    {
        let value: [u8; 2] = u16_bytes(self.value);
        let index: [u8; 2] = u16_bytes(self.index);
        let length: [u8; 2] = u16_bytes(self.length);
        let packet: [u8; 8] = [
            self.request_type,
            self.request,
            value[0],
            value[1],
            index[0],
            index[1],
            length[0],
            length[1],
        ];
        assert(packet@ =~= self.packet());
        packet
    }
}

/// Two different requests are never the same packet.
pub proof fn law_packet_tells_requests_apart(first: Setup, second: Setup)
    requires
        first.packet() == second.packet(),
    ensures
        first == second,
{
    let p = first.packet();
    let q = second.packet();
    assert(p[0] == q[0] && p[1] == q[1] && p[2] == q[2] && p[3] == q[3] && p[4] == q[4] && p[5]
        == q[5] && p[6] == q[6] && p[7] == q[7]);
    bytes::law_le16(first.value);
    bytes::law_le16(second.value);
    bytes::law_le16(first.index);
    bytes::law_le16(second.index);
    bytes::law_le16(first.length);
    bytes::law_le16(second.length);
}

/// Try a stage that moves nothing in until it is not answered with NAK.
pub open spec fn stage_program(stage: Transfer, tries: nat) -> UsbProgram<Result<(), TransferError>>
    decreases tries,
{
    if tries == 0 {
        Program::Return(Err(TransferError::NakTimeout))
    } else {
        Program::Request(
            stage,
            |reply: Reply|
                match reply {
                    Reply::Unit(result) => if result == Err::<(), TransferError>(
                        TransferError::Nak,
                    ) {
                        stage_program(stage, (tries - 1) as nat)
                    } else {
                        Program::Return(result)
                    },
                    _ => Program::Stuck,
                },
        )
    }
}

/// What came of a read: how much came in, or why not, and the buffer.
pub type Read = (Result<usize, TransferError>, Seq<u8>);

/// Try the data stage of a read until it is not answered with NAK. What comes in
/// goes over the front of `buf`.
pub open spec fn data_program(endpoint: ControlEndpoint, buf: Seq<u8>, tries: nat) -> UsbProgram<
    Read,
>
    decreases tries,
{
    if tries == 0 {
        Program::Return((Err(TransferError::NakTimeout), buf))
    } else {
        Program::Request(
            Transfer::DataIn(endpoint, buf.len() as usize),
            |reply: Reply|
                match reply {
                    Reply::Bytes(Ok(bytes)) => Program::Return(
                        (Ok(bytes.len() as usize), bytes + buf.skip(bytes.len() as int)),
                    ),
                    Reply::Bytes(Err(error)) => if error == TransferError::Nak {
                        data_program(endpoint, buf, (tries - 1) as nat)
                    } else {
                        Program::Return((Err(error), buf))
                    },
                    _ => Program::Stuck,
                },
        )
    }
}

/// `first`, and unless it fails, `rest`.
pub open spec fn and_then<S, T>(
    first: UsbProgram<Result<S, TransferError>>,
    rest: spec_fn(S) -> UsbProgram<Result<T, TransferError>>,
) -> UsbProgram<Result<T, TransferError>> {
    first.bind(
        |result: Result<S, TransferError>|
            match result {
                Ok(value) => rest(value),
                Err(error) => Program::Return(Err(error)),
            },
    )
}

/// A control read into `buf`.
pub open spec fn control_in_program(
    endpoint: ControlEndpoint,
    setup: Setup,
    buf: Seq<u8>,
) -> UsbProgram<Read> {
    stage_program(Transfer::Setup(endpoint, setup.packet()), MAX_NAK_RETRIES as nat).bind(
        |asked: Result<(), TransferError>|
            match asked {
                Err(error) => Program::Return((Err(error), buf)),
                Ok(()) => data_program(endpoint, buf, MAX_NAK_RETRIES as nat).bind(
                    |read: Read|
                        match read.0 {
                            Err(error) => Program::Return(read),
                            Ok(count) => stage_program(
                                Transfer::StatusOut(endpoint),
                                MAX_NAK_RETRIES as nat,
                            ).bind(
                                |ended: Result<(), TransferError>|
                                    match ended {
                                        Err(error) => Program::Return((Err(error), read.1)),
                                        Ok(()) => Program::Return(read),
                                    },
                            ),
                        },
                ),
            },
    )
}

/// A control transfer without data.
pub open spec fn no_data_program(endpoint: ControlEndpoint, setup: Setup) -> UsbProgram<
    Result<(), TransferError>,
> {
    and_then(
        stage_program(Transfer::Setup(endpoint, setup.packet()), MAX_NAK_RETRIES as nat),
        |asked: ()| stage_program(Transfer::StatusIn(endpoint), MAX_NAK_RETRIES as nat),
    )
}

/// A control write.
pub open spec fn control_out_program(
    endpoint: ControlEndpoint,
    setup: Setup,
    data: Seq<u8>,
) -> UsbProgram<Result<(), TransferError>> {
    and_then(
        stage_program(Transfer::Setup(endpoint, setup.packet()), MAX_NAK_RETRIES as nat),
        |asked: ()| data_out_program(endpoint, data),
    )
}

/// Send the data of a transfer, then ask for its status.
pub open spec fn data_out_program(endpoint: ControlEndpoint, data: Seq<u8>) -> UsbProgram<
    Result<(), TransferError>,
> {
    and_then(
        stage_program(Transfer::DataOut(endpoint, data), MAX_NAK_RETRIES as nat),
        |sent: ()| stage_program(Transfer::StatusIn(endpoint), MAX_NAK_RETRIES as nat),
    )
}

/// Wait for a number of milliseconds, then go on.
pub open spec fn pause<T>(ms: u32, rest: UsbProgram<T>) -> UsbProgram<T> {
    Program::Request(Transfer::DelayMs(ms as u64), |reply: Reply| rest)
}

/// Look at the clock, then go on with the time.
pub open spec fn clock<T>(rest: spec_fn(u64) -> UsbProgram<T>) -> UsbProgram<T> {
    Program::Request(
        Transfer::Now,
        |reply: Reply|
            match reply {
                Reply::Time(micros) => rest(micros),
                _ => Program::Stuck,
            },
    )
}

/// Read a descriptor into `buf`; a failed read is tried again, after a pause.
pub open spec fn descriptor_program(
    endpoint: ControlEndpoint,
    setup: Setup,
    buf: Seq<u8>,
    tries: nat,
) -> UsbProgram<Read>
    decreases tries,
{
    control_in_program(endpoint, setup, buf).bind(
        |read: Read|
            if read.0 is Ok || tries <= 1 {
                Program::Return(read)
            } else {
                pause(
                    DESCRIPTOR_RETRY_MS,
                    descriptor_program(endpoint, setup, read.1, (tries - 1) as nat),
                )
            },
    )
}

/// The request for a descriptor.
pub open spec fn descriptor_setup(
    request_type: u8,
    descriptor_type: u8,
    index: u8,
    length: u16,
) -> Setup {
    Setup {
        request_type,
        request: REQUEST_GET_DESCRIPTOR,
        value: (descriptor_type * 256 + index) as u16,
        index: 0,
        length,
    }
}

/// A buffer of zeros.
pub open spec fn zeros(len: nat) -> Seq<u8> {
    Seq::new(len, |i: int| 0u8)
}

/// The buffer of a read that did not fail.
pub open spec fn buffer_of(program: UsbProgram<Read>) -> UsbProgram<
    Result<Seq<u8>, TransferError>,
> {
    program.bind(
        |read: Read|
            match read.0 {
                Ok(count) => Program::Return(Ok(read.1)),
                Err(error) => Program::Return(Err(error)),
            },
    )
}

/// Read the first eight bytes of a device's descriptor, which every device can
/// send in one packet.
pub open spec fn header_program(device: ControlEndpoint) -> UsbProgram<
    Result<Seq<u8>, TransferError>,
> {
    buffer_of(
        descriptor_program(
            ControlEndpoint { max_packet_size: 8, ..device },
            descriptor_setup(0x80, 1, 0, 8),
            zeros(8),
            DESCRIPTOR_TRIES as nat,
        ),
    )
}

/// Read a device's descriptor: its front first, for the packet size.
pub open spec fn device_program(device: ControlEndpoint) -> UsbProgram<
    Result<Seq<u8>, TransferError>,
> {
    and_then(
        header_program(device),
        |header: Seq<u8>|
            buffer_of(
                descriptor_program(
                    ControlEndpoint { max_packet_size: header[7] as u16, ..device },
                    descriptor_setup(0x80, 1, 0, 18),
                    zeros(18),
                    DESCRIPTOR_TRIES as nat,
                ),
            ),
    )
}

/// Give a device its address, and time to take it.
pub open spec fn set_address_program(device: ControlEndpoint, new_address: u8) -> UsbProgram<
    Result<(), TransferError>,
> {
    and_then(
        no_data_program(
            device,
            Setup {
                request_type: 0,
                request: REQUEST_SET_ADDRESS,
                value: new_address as u16,
                index: 0,
                length: 0,
            },
        ),
        |done: ()| pause(SET_ADDRESS_RECOVERY_MS, Program::Return(Ok(()))),
    )
}

/// A device as it is reached at its new address.
pub open spec fn addressed(
    probe: ControlEndpoint,
    new_address: u8,
    descriptor: DeviceDescriptor,
) -> ControlEndpoint {
    ControlEndpoint {
        address: new_address,
        max_packet_size: descriptor.max_packet_size0 as u16,
        ..probe
    }
}

/// Find out what a new device is, and give it its address.
pub open spec fn probe_program(probe: ControlEndpoint, new_address: u8) -> UsbProgram<
    Result<(ControlEndpoint, DeviceDescriptor), TransferError>,
> {
    and_then(
        device_program(probe),
        |bytes: Seq<u8>|
            and_then(
                set_address_program(probe, new_address),
                |done: ()|
                    Program::Return(
                        Ok(
                            (
                                addressed(probe, new_address, descriptor::device_of(bytes)),
                                descriptor::device_of(bytes),
                            ),
                        ),
                    ),
            ),
    )
}

/// The bytes of a configuration to read, from its header, into `room` bytes.
pub open spec fn configuration_len(header: Seq<u8>, room: int) -> int {
    let total = bytes::le16(header[2], header[3]) as int;
    if total <= room {
        total
    } else {
        room
    }
}

/// Read a configuration: its header first, for its total length.
pub open spec fn configuration_program(
    device: ControlEndpoint,
    index: u8,
    buf: Seq<u8>,
) -> UsbProgram<Read> {
    descriptor_program(
        device,
        descriptor_setup(0x80, 2, index, 9),
        zeros(9),
        DESCRIPTOR_TRIES as nat,
    ).bind(
        |header: Read|
            match header.0 {
                Err(error) => Program::Return((Err(error), buf)),
                Ok(count) => {
                    let len = configuration_len(header.1, buf.len() as int);
                    descriptor_program(
                        device,
                        descriptor_setup(0x80, 2, index, len as u16),
                        buf.take(len),
                        DESCRIPTOR_TRIES as nat,
                    ).bind(
                        |whole: Read| Program::Return((whole.0, whole.1 + buf.skip(len))),
                    )
                },
            },
    )
}

/// Select a configuration.
pub open spec fn set_configuration_program(
    device: ControlEndpoint,
    configuration_value: u8,
) -> UsbProgram<Result<(), TransferError>> {
    no_data_program(
        device,
        Setup {
            request_type: 0,
            request: REQUEST_SET_CONFIGURATION,
            value: configuration_value as u16,
            index: 0,
            length: 0,
        },
    )
}

/// A request of a hub about one of its ports, without data.
pub open spec fn port_setup(request: u8, feature: u16, port: u8) -> Setup {
    Setup { request_type: 0x23, request, value: feature, index: port as u16, length: 0 }
}

/// The request for the status of a hub's port.
pub open spec fn port_status_setup(port: u8) -> Setup {
    Setup {
        request_type: 0xA3,
        request: REQUEST_GET_STATUS,
        value: 0,
        index: port as u16,
        length: 4,
    }
}

/// Read the status of a hub's port, and what of it has changed.
pub open spec fn port_status_program(hub: ControlEndpoint, port: u8) -> UsbProgram<
    Result<(u16, u16), TransferError>,
> {
    control_in_program(hub, port_status_setup(port), zeros(4)).bind(
        |read: Read|
            Program::Return(
                match read.0 {
                    Ok(count) => Ok(
                        (
                            bytes::le16(read.1[0], read.1[1]),
                            bytes::le16(read.1[2], read.1[3]),
                        ),
                    ),
                    Err(error) => Err(error),
                },
            ),
    )
}

/// A hub as these requests reach it when only its address and speed are given.
pub open spec fn plain_hub(hub_address: u8, low_speed: bool) -> ControlEndpoint {
    ControlEndpoint { address: hub_address, low_speed, max_packet_size: 8, split: None }
}

/// The stages of a control transfer that move nothing in.
#[derive(Clone, Copy)]
enum Stage<'a> {
    Setup(&'a [u8; 8]),
    DataOut(&'a [u8]),
    StatusIn,
    StatusOut,
}

impl<'a> Stage<'a> {
    spec fn transfer(self, endpoint: ControlEndpoint) -> Transfer {
        match self {
            Stage::Setup(packet) => Transfer::Setup(endpoint, packet@),
            Stage::DataOut(data) => Transfer::DataOut(endpoint, data@),
            Stage::StatusIn => Transfer::StatusIn(endpoint),
            Stage::StatusOut => Transfer::StatusOut(endpoint),
        }
    }
}

fn retry_stage<H: Dwc2Registers>(
    channel: &mut Channel<H>,
    endpoint: ControlEndpoint,
    stage: Stage<'_>,
) -> (result: Result<(), TransferError>)
    requires
        stage matches Stage::DataOut(data) ==> data@.len() <= MAX_TRANSFER_LEN,
    ensures
        stage_program(stage.transfer(endpoint), MAX_NAK_RETRIES as nat).ran(
            old(channel)@,
            final(channel)@,
            result,
        ),
{
    proof {
        crate::program::begin(
            channel@,
            stage_program(stage.transfer(endpoint), MAX_NAK_RETRIES as nat),
        );
    }
    let mut tries: u32 = MAX_NAK_RETRIES;
    while tries > 0
        invariant
            stage matches Stage::DataOut(data) ==> data@.len() <= MAX_TRANSFER_LEN,
            stage_program(stage.transfer(endpoint), MAX_NAK_RETRIES as nat).leads(
                old(channel)@,
                channel@,
                stage_program(stage.transfer(endpoint), tries as nat),
            ),
        decreases tries,
    {
        let result: Result<(), TransferError> = match stage {
            Stage::Setup(packet) => channel.control_setup(endpoint, packet),
            Stage::DataOut(data) => channel.control_data_out(endpoint, data),
            Stage::StatusIn => channel.control_status_in(endpoint),
            Stage::StatusOut => channel.control_status_out(endpoint),
        };
        match result {
            Err(TransferError::Nak) => {},
            other => return other,
        }
        tries = tries - 1;
    }
    Err(TransferError::NakTimeout)
}

fn retry_data<H: Dwc2Registers>(
    channel: &mut Channel<H>,
    endpoint: ControlEndpoint,
    buf: &mut [u8],
) -> (result: Result<usize, TransferError>)
    requires
        old(buf)@.len() <= MAX_TRANSFER_LEN,
    ensures
        final(buf)@.len() == old(buf)@.len(),
        result matches Ok(count) ==> count <= old(buf)@.len(),
        data_program(endpoint, old(buf)@, MAX_NAK_RETRIES as nat).ran(
            old(channel)@,
            final(channel)@,
            (result, final(buf)@),
        ),
{
    let ghost whole = data_program(endpoint, buf@, MAX_NAK_RETRIES as nat);
    proof {
        crate::program::begin(channel@, whole);
    }
    let mut tries: u32 = MAX_NAK_RETRIES;
    while tries > 0
        invariant
            buf@ == old(buf)@,
            buf@.len() <= MAX_TRANSFER_LEN,
            whole == data_program(endpoint, old(buf)@, MAX_NAK_RETRIES as nat),
            whole.leads(
                old(channel)@,
                channel@,
                data_program(endpoint, buf@, tries as nat),
            ),
        decreases tries,
    {
        match channel.control_data_in(endpoint, buf) {
            Err(TransferError::Nak) => {},
            Err(error) => return Err(error),
            Ok(count) => {
                assert(buf@ =~= buf@.take(count as int) + old(buf)@.skip(count as int)) by {
                    assert(buf@.skip(count as int) == old(buf)@.skip(count as int));
                    assert(buf@ =~= buf@.take(count as int) + buf@.skip(count as int));
                }
                return Ok(count);
            },
        }
        tries = tries - 1;
    }
    Err(TransferError::NakTimeout)
}

pub(crate) fn control_in<H: Dwc2Registers>(
    channel: &mut Channel<H>,
    endpoint: ControlEndpoint,
    setup: Setup,
    buf: &mut [u8],
) -> (result: Result<usize, TransferError>)
    requires
        old(buf)@.len() <= MAX_TRANSFER_LEN,
    ensures
        final(buf)@.len() == old(buf)@.len(),
        result matches Ok(count) ==> count <= old(buf)@.len(),
        control_in_program(endpoint, setup, old(buf)@).ran(
            old(channel)@,
            final(channel)@,
            (result, final(buf)@),
        ),
{
    let packet: [u8; 8] = setup.to_bytes();
    match retry_stage(channel, endpoint, Stage::Setup(&packet)) {
        Ok(()) => {},
        Err(error) => return Err(error),
    }
    let received: usize = match retry_data(channel, endpoint, buf) {
        Ok(received) => received,
        Err(error) => return Err(error),
    };
    match retry_stage(channel, endpoint, Stage::StatusOut) {
        Ok(()) => Ok(received),
        Err(error) => Err(error),
    }
}

pub(crate) fn control_no_data<H: Dwc2Registers>(
    channel: &mut Channel<H>,
    endpoint: ControlEndpoint,
    setup: Setup,
) -> (result: Result<(), TransferError>)
    ensures
        no_data_program(endpoint, setup).ran(old(channel)@, final(channel)@, result),
{
    let packet: [u8; 8] = setup.to_bytes();
    match retry_stage(channel, endpoint, Stage::Setup(&packet)) {
        Ok(()) => {},
        Err(error) => return Err(error),
    }
    retry_stage(channel, endpoint, Stage::StatusIn)
}

#[verifier::spinoff_prover]
pub(crate) fn control_out<H: Dwc2Registers>(
    channel: &mut Channel<H>,
    endpoint: ControlEndpoint,
    setup: Setup,
    data: &[u8],
) -> (result: Result<(), TransferError>)
    requires
        data@.len() <= MAX_TRANSFER_LEN,
    ensures
        control_out_program(endpoint, setup, data@).ran(old(channel)@, final(channel)@, result),
{
    let packet: [u8; 8] = setup.to_bytes();
    match retry_stage(channel, endpoint, Stage::Setup(&packet)) {
        Ok(()) => {},
        Err(error) => return Err(error),
    }
    match retry_stage(channel, endpoint, Stage::DataOut(data)) {
        Ok(()) => {},
        Err(error) => return Err(error),
    }
    retry_stage(channel, endpoint, Stage::StatusIn)
}

fn descriptor_in<H: Dwc2Registers>(
    channel: &mut Channel<H>,
    endpoint: ControlEndpoint,
    setup: Setup,
    buf: &mut [u8],
) -> (result: Result<usize, TransferError>)
    requires
        old(buf)@.len() <= MAX_TRANSFER_LEN,
    ensures
        final(buf)@.len() == old(buf)@.len(),
        result matches Ok(count) ==> count <= old(buf)@.len(),
        descriptor_program(endpoint, setup, old(buf)@, DESCRIPTOR_TRIES as nat).ran(
            old(channel)@,
            final(channel)@,
            (result, final(buf)@),
        ),
{
    let ghost whole = descriptor_program(endpoint, setup, buf@, DESCRIPTOR_TRIES as nat);
    proof {
        crate::program::begin(channel@, whole);
    }
    let mut tries: u32 = DESCRIPTOR_TRIES;
    loop
        invariant
            1 <= tries <= DESCRIPTOR_TRIES,
            buf@.len() == old(buf)@.len(),
            buf@.len() <= MAX_TRANSFER_LEN,
            whole == descriptor_program(endpoint, setup, old(buf)@, DESCRIPTOR_TRIES as nat),
            whole.leads(
                old(channel)@,
                channel@,
                descriptor_program(endpoint, setup, buf@, tries as nat),
            ),
        decreases tries,
    {
        let result = control_in(channel, endpoint, setup, buf);
        if result.is_ok() || tries <= 1 {
            return result;
        }
        channel.delay_ms(DESCRIPTOR_RETRY_MS);
        tries = tries - 1;
    }
}

fn get_descriptor_setup(request_type: u8, descriptor_type: u8, index: u8, length: u16) -> (setup:
    Setup)
    ensures
        setup == descriptor_setup(request_type, descriptor_type, index, length),
{
    Setup {
        request_type,
        request: REQUEST_GET_DESCRIPTOR,
        value: descriptor_type as u16 * 256 + index as u16,
        index: 0,
        length,
    }
}

/// Reads the first eight bytes of a device's descriptor, the last of which is
/// the packet size of its endpoint 0.
pub fn get_device_descriptor_header<H: Dwc2Registers>(
    channel: &mut Channel<H>,
    device: ControlEndpoint,
) -> (result: Result<[u8; 8], TransferError>)
    ensures
        header_program(device).ran(
            old(channel)@,
            final(channel)@,
            match result {
                Ok(header) => Ok(header@),
                Err(error) => Err(error),
            },
        ),
{
    let endpoint = ControlEndpoint {
        address: device.address,
        low_speed: device.low_speed,
        max_packet_size: 8,
        split: device.split,
    };
    let setup = get_descriptor_setup(0x80, 1, 0, 8);
    let mut descriptor: [u8; 8] = [0;8];
    assert(descriptor@ =~= zeros(8));
    match descriptor_in(channel, endpoint, setup, &mut descriptor) {
        Ok(_) => Ok(descriptor),
        Err(error) => Err(error),
    }
}

/// Reads a device's descriptor.
pub fn get_device_descriptor<H: Dwc2Registers>(
    channel: &mut Channel<H>,
    device: ControlEndpoint,
) -> (result: Result<[u8; 18], TransferError>)
    ensures
        device_program(device).ran(
            old(channel)@,
            final(channel)@,
            match result {
                Ok(descriptor) => Ok(descriptor@),
                Err(error) => Err(error),
            },
        ),
{
    let header: [u8; 8] = match get_device_descriptor_header(channel, device) {
        Ok(header) => header,
        Err(error) => return Err(error),
    };
    let endpoint = ControlEndpoint {
        address: device.address,
        low_speed: device.low_speed,
        max_packet_size: header[7] as u16,
        split: device.split,
    };
    let setup = get_descriptor_setup(0x80, 1, 0, 18);
    let mut descriptor: [u8; 18] = [0;18];
    assert(descriptor@ =~= zeros(18));
    match descriptor_in(channel, endpoint, setup, &mut descriptor) {
        Ok(_) => Ok(descriptor),
        Err(error) => Err(error),
    }
}

/// Finds out what the device at the default address is, and gives it
/// `new_address`.
pub fn probe_and_address<H: Dwc2Registers>(
    channel: &mut Channel<H>,
    probe: ControlEndpoint,
    new_address: u8,
) -> (result: Result<(ControlEndpoint, DeviceDescriptor), TransferError>)
    ensures
        probe_program(probe, new_address).ran(old(channel)@, final(channel)@, result),
        result matches Ok(found) ==> found.0.address == new_address,
{
    let bytes: [u8; 18] = match get_device_descriptor(channel, probe) {
        Ok(bytes) => bytes,
        Err(error) => return Err(error),
    };
    let descriptor = DeviceDescriptor::from_bytes(&bytes);
    match set_address(channel, probe, new_address) {
        Ok(()) => {},
        Err(error) => return Err(error),
    }
    let endpoint = ControlEndpoint {
        address: new_address,
        low_speed: probe.low_speed,
        max_packet_size: descriptor.max_packet_size0 as u16,
        split: probe.split,
    };
    Ok((endpoint, descriptor))
}

/// Reads configuration `index` of a device into `buf`, with the interfaces and
/// endpoints that belong to it, as much as fits, and says how much came.
pub fn get_configuration_descriptor<H: Dwc2Registers>(
    channel: &mut Channel<H>,
    device: ControlEndpoint,
    index: u8,
    buf: &mut [u8],
) -> (result: Result<usize, TransferError>)
    requires
        old(buf)@.len() <= MAX_TRANSFER_LEN,
    ensures
        final(buf)@.len() == old(buf)@.len(),
        result matches Ok(count) ==> count <= old(buf)@.len(),
        configuration_program(device, index, old(buf)@).ran(
            old(channel)@,
            final(channel)@,
            (result, final(buf)@),
        ),
{
    let mut header: [u8; 9] = [0;9];
    assert(header@ =~= zeros(9));
    let setup = get_descriptor_setup(0x80, 2, index, 9);
    match descriptor_in(channel, device, setup, &mut header) {
        Ok(_) => {},
        Err(error) => return Err(error),
    }

    let total_length: usize = u16_from(header[2], header[3]) as usize;
    let to_read: usize = if total_length <= buf.len() {
        total_length
    } else {
        buf.len()
    };
    assert(to_read == configuration_len(header@, buf@.len() as int));

    let setup = get_descriptor_setup(0x80, 2, index, to_read as u16);
    let ghost before = buf@;
    assert(before.subrange(0, to_read as int) =~= before.take(to_read as int));
    assert(before.subrange(to_read as int, before.len() as int) =~= before.skip(to_read as int));
    let (front, _) = buf.split_at_mut(to_read);
    descriptor_in(channel, device, setup, front)
}

/// Reads a hub's class descriptor into `buf`, and says how much came.
pub fn get_hub_descriptor<H: Dwc2Registers>(
    channel: &mut Channel<H>,
    device: ControlEndpoint,
    buf: &mut [u8],
) -> (result: Result<usize, TransferError>)
    requires
        old(buf)@.len() <= MAX_TRANSFER_LEN,
    ensures
        final(buf)@.len() == old(buf)@.len(),
        result matches Ok(count) ==> count <= old(buf)@.len(),
        descriptor_program(
            device,
            descriptor_setup(0xA0, 0x29, 0, old(buf)@.len() as u16),
            old(buf)@,
            DESCRIPTOR_TRIES as nat,
        ).ran(old(channel)@, final(channel)@, (result, final(buf)@)),
{
    let setup = get_descriptor_setup(0xA0, 0x29, 0, buf.len() as u16);
    descriptor_in(channel, device, setup, buf)
}

/// The request for the report descriptor of a HID interface.
pub open spec fn report_setup(interface: u8, length: u16) -> Setup {
    Setup { index: interface as u16, ..descriptor_setup(0x81, 0x22, 0, length) }
}

/// Reads the report descriptor of a HID interface into `buf`, and says how much
/// came.
pub fn get_report_descriptor<H: Dwc2Registers>(
    channel: &mut Channel<H>,
    device: ControlEndpoint,
    interface: u8,
    buf: &mut [u8],
) -> (result: Result<usize, TransferError>)
    requires
        old(buf)@.len() <= MAX_TRANSFER_LEN,
    ensures
        final(buf)@.len() == old(buf)@.len(),
        result matches Ok(count) ==> count <= old(buf)@.len(),
        descriptor_program(
            device,
            report_setup(interface, old(buf)@.len() as u16),
            old(buf)@,
            DESCRIPTOR_TRIES as nat,
        ).ran(old(channel)@, final(channel)@, (result, final(buf)@)),
{
    let mut setup = get_descriptor_setup(0x81, 0x22, 0, buf.len() as u16);
    setup.index = interface as u16;
    descriptor_in(channel, device, setup, buf)
}

/// Gives a device its address.
pub fn set_address<H: Dwc2Registers>(
    channel: &mut Channel<H>,
    device: ControlEndpoint,
    new_address: u8,
) -> (result: Result<(), TransferError>)
    ensures
        set_address_program(device, new_address).ran(old(channel)@, final(channel)@, result),
{
    let setup = Setup {
        request_type: 0,
        request: REQUEST_SET_ADDRESS,
        value: new_address as u16,
        index: 0,
        length: 0,
    };
    match control_no_data(channel, device, setup) {
        Ok(()) => {},
        Err(error) => return Err(error),
    }
    channel.delay_ms(SET_ADDRESS_RECOVERY_MS);
    Ok(())
}

/// Selects a device's configuration.
pub fn set_configuration<H: Dwc2Registers>(
    channel: &mut Channel<H>,
    device: ControlEndpoint,
    configuration_value: u8,
) -> (result: Result<(), TransferError>)
    ensures
        set_configuration_program(device, configuration_value).ran(
            old(channel)@,
            final(channel)@,
            result,
        ),
{
    let setup = Setup {
        request_type: 0,
        request: REQUEST_SET_CONFIGURATION,
        value: configuration_value as u16,
        index: 0,
        length: 0,
    };
    control_no_data(channel, device, setup)
}

/// A vendor request that reads.
pub open spec fn vendor_in_setup(request: u8, value: u16, index: u16, length: u16) -> Setup {
    Setup { request_type: 0xC0, request, value, index, length }
}

/// A vendor request that writes.
pub open spec fn vendor_out_setup(request: u8, value: u16, index: u16, length: u16) -> Setup {
    Setup { request_type: 0x40, request, value, index, length }
}

/// The SETUP packet of a vendor request that moves `length` bytes.
pub fn vendor_setup(reads: bool, request: u8, value: u16, index: u16, length: u16) -> (setup: Setup)
    ensures
        setup == if reads {
            vendor_in_setup(request, value, index, length)
        } else {
            vendor_out_setup(request, value, index, length)
        },
{
    let request_type: u8 = if reads {
        0xC0
    } else {
        0x40
    };
    Setup { request_type, request, value, index, length }
}

/// Makes a vendor request that reads into `buf`, and says how much came.
pub fn vendor_in<H: Dwc2Registers>(
    channel: &mut Channel<H>,
    device: ControlEndpoint,
    request: u8,
    value: u16,
    index: u16,
    buf: &mut [u8],
) -> (result: Result<usize, TransferError>)
    requires
        old(buf)@.len() <= MAX_TRANSFER_LEN,
    ensures
        final(buf)@.len() == old(buf)@.len(),
        result matches Ok(count) ==> count <= old(buf)@.len(),
        control_in_program(
            device,
            vendor_in_setup(request, value, index, old(buf)@.len() as u16),
            old(buf)@,
        ).ran(old(channel)@, final(channel)@, (result, final(buf)@)),
{
    let setup = vendor_setup(true, request, value, index, buf.len() as u16);
    control_in(channel, device, setup, buf)
}

/// Makes a vendor request that writes `data`.
pub fn vendor_out<H: Dwc2Registers>(
    channel: &mut Channel<H>,
    device: ControlEndpoint,
    request: u8,
    value: u16,
    index: u16,
    data: &[u8],
) -> (result: Result<(), TransferError>)
    requires
        data@.len() <= MAX_TRANSFER_LEN,
    ensures
        control_out_program(
            device,
            vendor_out_setup(request, value, index, data@.len() as u16),
            data@,
        ).ran(old(channel)@, final(channel)@, result),
{
    let setup = vendor_setup(false, request, value, index, data.len() as u16);
    control_out(channel, device, setup, data)
}

/// Selects the boot (0) or report (1) protocol of a HID interface.
pub fn set_protocol<H: Dwc2Registers>(
    channel: &mut Channel<H>,
    device: ControlEndpoint,
    interface: u8,
    protocol: u8,
) -> (result: Result<(), TransferError>)
    ensures
        no_data_program(
            device,
            Setup {
                request_type: 0x21,
                request: 0x0b,
                value: protocol as u16,
                index: interface as u16,
                length: 0,
            },
        ).ran(old(channel)@, final(channel)@, result),
{
    let setup = Setup {
        request_type: 0x21,
        request: 0x0b,
        value: protocol as u16,
        index: interface as u16,
        length: 0,
    };
    control_no_data(channel, device, setup)
}

/// Says how often a HID interface repeats a report that has not changed; 0 means
/// never.
pub fn set_idle<H: Dwc2Registers>(
    channel: &mut Channel<H>,
    device: ControlEndpoint,
    interface: u8,
    duration: u8,
) -> (result: Result<(), TransferError>)
    ensures
        no_data_program(
            device,
            Setup {
                request_type: 0x21,
                request: 0x0a,
                value: (duration * 256) as u16,
                index: interface as u16,
                length: 0,
            },
        ).ran(old(channel)@, final(channel)@, result),
{
    let setup = Setup {
        request_type: 0x21,
        request: 0x0a,
        value: duration as u16 * 256,
        index: interface as u16,
        length: 0,
    };
    control_no_data(channel, device, setup)
}

pub(crate) fn port_request<H: Dwc2Registers>(
    channel: &mut Channel<H>,
    hub: ControlEndpoint,
    request: u8,
    feature: u16,
    port: u8,
) -> (result: Result<(), TransferError>)
    ensures
        no_data_program(hub, port_setup(request, feature, port)).ran(
            old(channel)@,
            final(channel)@,
            result,
        ),
{
    let setup = Setup {
        request_type: 0x23,
        request,
        value: feature,
        index: port as u16,
        length: 0,
    };
    control_no_data(channel, hub, setup)
}

pub(crate) fn port_status<H: Dwc2Registers>(
    channel: &mut Channel<H>,
    hub: ControlEndpoint,
    port: u8,
) -> (result: Result<(u16, u16), TransferError>)
    ensures
        port_status_program(hub, port).ran(old(channel)@, final(channel)@, result),
{
    let setup = Setup {
        request_type: 0xA3,
        request: REQUEST_GET_STATUS,
        value: 0,
        index: port as u16,
        length: 4,
    };
    let mut status: [u8; 4] = [0;4];
    assert(status@ =~= zeros(4));
    match control_in(channel, hub, setup, &mut status) {
        Ok(_) => Ok((u16_from(status[0], status[1]), u16_from(status[2], status[3]))),
        Err(error) => Err(error),
    }
}

/// Powers a port of a hub.
pub fn set_port_power<H: Dwc2Registers>(
    channel: &mut Channel<H>,
    hub_address: u8,
    port: u8,
    low_speed: bool,
) -> (result: Result<(), TransferError>)
    ensures
        no_data_program(
            plain_hub(hub_address, low_speed),
            port_setup(REQUEST_SET_FEATURE, PORT_FEATURE_POWER, port),
        ).ran(old(channel)@, final(channel)@, result),
{
    let endpoint = ControlEndpoint {
        address: hub_address,
        low_speed,
        max_packet_size: 8,
        split: None,
    };
    port_request(channel, endpoint, REQUEST_SET_FEATURE, PORT_FEATURE_POWER, port)
}

/// The status of a port of a hub, and what of it has changed.
pub fn get_port_status<H: Dwc2Registers>(
    channel: &mut Channel<H>,
    hub_address: u8,
    port: u8,
    low_speed: bool,
) -> (result: Result<(u16, u16), TransferError>)
    ensures
        port_status_program(plain_hub(hub_address, low_speed), port).ran(
            old(channel)@,
            final(channel)@,
            result,
        ),
{
    let endpoint = ControlEndpoint {
        address: hub_address,
        low_speed,
        max_packet_size: 8,
        split: None,
    };
    port_status(channel, endpoint, port)
}

/// Starts a reset of a port of a hub.
pub fn set_port_reset<H: Dwc2Registers>(
    channel: &mut Channel<H>,
    hub_address: u8,
    port: u8,
    low_speed: bool,
) -> (result: Result<(), TransferError>)
    ensures
        no_data_program(
            plain_hub(hub_address, low_speed),
            port_setup(REQUEST_SET_FEATURE, PORT_FEATURE_RESET, port),
        ).ran(old(channel)@, final(channel)@, result),
{
    let endpoint = ControlEndpoint {
        address: hub_address,
        low_speed,
        max_packet_size: 8,
        split: None,
    };
    port_request(channel, endpoint, REQUEST_SET_FEATURE, PORT_FEATURE_RESET, port)
}

/// Clears a feature of a port of a hub.
pub fn clear_port_feature<H: Dwc2Registers>(
    channel: &mut Channel<H>,
    hub_address: u8,
    port: u8,
    feature: u16,
    low_speed: bool,
) -> (result: Result<(), TransferError>)
    ensures
        no_data_program(
            plain_hub(hub_address, low_speed),
            port_setup(REQUEST_CLEAR_FEATURE, feature, port),
        ).ran(old(channel)@, final(channel)@, result),
{
    let endpoint = ControlEndpoint {
        address: hub_address,
        low_speed,
        max_packet_size: 8,
        split: None,
    };
    port_request(channel, endpoint, REQUEST_CLEAR_FEATURE, feature, port)
}

} // verus!

//! Human-interface devices: boot keyboards and mice, and gamepads.

use vstd::prelude::*;

use crate::bytes;
use crate::bytes::u16_from;
use crate::program::Program;
use crate::usb::control;
use crate::usb::control::{
    get_configuration_descriptor, set_configuration, set_idle, set_protocol, Setup,
};
use crate::usb::descriptor;
use crate::usb::descriptor::{
    ConfigurationDescriptor, Descriptors, EndpointDescriptor, InterfaceDescriptor,
};
use crate::usb::dwc2::hardware::Dwc2Registers;
use crate::usb::dwc2::{Channel, ControlEndpoint, TransferError, UsbProgram};

pub mod gamepad;
pub mod keyboard;
pub mod meaning;
pub mod mouse;
pub mod probe;

verus! {

broadcast use crate::program::group_program;

/// The class of HID interfaces.
pub const HID_CLASS: u8 = 3;

/// The subclass of interfaces that have a boot protocol.
pub const BOOT_INTERFACE_SUBCLASS: u8 = 1;

/// Selects the boot protocol.
pub const BOOT_PROTOCOL: u8 = 0;

/// The type of a HID class descriptor.
pub const HID_CLASS_DESCRIPTOR: u8 = 0x21;

/// The type of a HID report descriptor.
pub const HID_REPORT_DESCRIPTOR: u8 = 0x22;

/// A HID interface with an endpoint for its reports.
#[derive(Clone, Copy, Debug, PartialEq, Eq, Structural)]
pub struct HidInterface {
    /// The interface's number.
    pub interface: u8,
    /// The number of its interrupt IN endpoint.
    pub endpoint: u8,
    pub max_packet_size: u16,
    /// How often that endpoint wants to be asked, as its descriptor encodes it.
    pub interval: u8,
    /// The length of the report descriptor, 0 if none is declared.
    pub report_descriptor_len: u16,
}

/// Which HID interfaces are wanted.
#[derive(Clone, Copy, Debug, PartialEq, Eq, Structural)]
pub enum Wanted {
    /// Every one.
    Any,
    /// Those of a boot protocol.
    Boot(u8),
}

impl Wanted {
    /// Whether an interface is wanted.
    pub open spec fn accepts(self, interface: Seq<u8>) -> bool {
        match self {
            Wanted::Any => true,
            Wanted::Boot(protocol) => interface[6] == BOOT_INTERFACE_SUBCLASS && interface[7]
                == protocol,
        }
    }

    fn takes(self, interface: &InterfaceDescriptor<'_>) -> (taken: bool)
        requires
            descriptor::is_interface(interface@),
        ensures
            taken == self.accepts(interface@),
    {
        match self {
            Wanted::Any => true,
            Wanted::Boot(protocol) => is_boot_interface(interface, protocol),
        }
    }
}

fn is_boot_interface(interface: &InterfaceDescriptor<'_>, protocol: u8) -> (boot: bool)
    requires
        descriptor::is_interface(interface@),
    ensures
        boot == (interface@[6] == BOOT_INTERFACE_SUBCLASS && interface@[7] == protocol),
{
    interface.subclass() == BOOT_INTERFACE_SUBCLASS && interface.protocol() == protocol
}

/// The length of the report descriptor among `count` three-byte entries of a HID class
/// descriptor's table, from `offset` on; 0 if there is none.
pub open spec fn report_len(class: Seq<u8>, offset: int, count: nat) -> u16
    decreases count,
{
    if count == 0 || offset + 3 > class.len() {
        0
    } else if class[offset] == HID_REPORT_DESCRIPTOR {
        bytes::le16(class[offset + 1], class[offset + 2])
    } else {
        report_len(class, offset + 3, (count - 1) as nat)
    }
}

/// The length of the report descriptor that a HID class descriptor declares: its byte 5
/// says how many entries its table has, and the table follows.
pub open spec fn declared_len(class: Seq<u8>) -> u16 {
    if class.len() < 6 {
        0
    } else {
        report_len(class, 6, class[5] as nat)
    }
}

fn report_descriptor_len_of(class: &[u8]) -> (len: u16)
    ensures
        len == declared_len(class@),
{
    if class.len() < 6 {
        return 0;
    }
    let mut left: u8 = class[5];
    let mut offset: usize = 6;
    while left > 0 && class.len() - offset >= 3
        invariant
            6 <= offset <= class@.len(),
            declared_len(class@) == report_len(class@, offset as int, left as nat),
        decreases left,
    {
        if class[offset] == HID_REPORT_DESCRIPTOR {
            return u16_from(class[offset + 1], class[offset + 2]);
        }
        offset = offset + 3;
        left = left - 1;
    }
    0
}

/// The interface that a walk through a configuration is in.
pub struct Current {
    pub number: u8,
    /// Whether it is a HID interface that is wanted.
    pub wanted: bool,
    pub report_descriptor_len: u16,
}

/// Before the first interface.
pub open spec fn outside() -> Current {
    Current { number: 0, wanted: false, report_descriptor_len: 0 }
}

/// The walk past one more descriptor.
pub open spec fn walked_past(current: Current, wanted: Wanted, item: Seq<u8>) -> Current {
    if descriptor::is_interface(item) {
        Current {
            number: item[2],
            wanted: item[5] == HID_CLASS && wanted.accepts(item),
            report_descriptor_len: 0,
        }
    } else if current.wanted && item[1] == HID_CLASS_DESCRIPTOR {
        Current { report_descriptor_len: declared_len(item), ..current }
    } else {
        current
    }
}

/// Whether a descriptor is that of the endpoint for reports of a wanted interface.
pub open spec fn is_report_endpoint(current: Current, item: Seq<u8>) -> bool {
    &&& !descriptor::is_interface(item)
    &&& current.wanted
    &&& item[1] != HID_CLASS_DESCRIPTOR
    &&& descriptor::is_endpoint(item)
    &&& descriptor::endpoint_in(item)
    &&& descriptor::endpoint_kind(item, 3)
}

/// The interface that a walk is in, whose endpoint for reports is `item`.
pub open spec fn described(current: Current, item: Seq<u8>) -> HidInterface {
    HidInterface {
        interface: current.number,
        endpoint: descriptor::endpoint_number(item),
        max_packet_size: descriptor::endpoint_packet_size(item),
        interval: item[6],
        report_descriptor_len: current.report_descriptor_len,
    }
}

/// The first wanted HID interface with an endpoint for reports, in the
/// descriptors from `at` on.
pub open spec fn find_from(
    all: Seq<Seq<u8>>,
    wanted: Wanted,
    current: Current,
    at: int,
) -> Option<HidInterface>
    decreases all.len() - at,
{
    if at < 0 || at >= all.len() {
        None
    } else if is_report_endpoint(current, all[at]) {
        Some(described(current, all[at]))
    } else {
        find_from(all, wanted, walked_past(current, wanted, all[at]), at + 1)
    }
}

/// The first wanted HID interface of a configuration that has an endpoint for
/// reports.
pub open spec fn hid_interface(config: Seq<u8>, wanted: Wanted) -> Option<HidInterface> {
    find_from(descriptor::descriptors(config, 0), wanted, outside(), 0)
}

/// Whether an interface of this number is among some.
pub open spec fn listed(found: Seq<HidInterface>, number: u8) -> bool {
    exists|i: int| 0 <= i < found.len() && (#[trigger] found[i]).interface == number
}

/// What a walk adds to the interfaces that it has found.
pub open spec fn found_at(
    found: Seq<HidInterface>,
    current: Current,
    item: Seq<u8>,
) -> Seq<HidInterface> {
    if is_report_endpoint(current, item) && !listed(found, current.number) {
        found.push(described(current, item))
    } else {
        found
    }
}

/// The HID interfaces with an endpoint for reports that a walk finds in the descriptors
/// from `at` on, behind those that it has found, each once.
pub open spec fn collect(
    all: Seq<Seq<u8>>,
    current: Current,
    at: int,
    found: Seq<HidInterface>,
) -> Seq<HidInterface>
    decreases all.len() - at,
{
    if at < 0 || at >= all.len() {
        found
    } else {
        collect(
            all,
            walked_past(current, Wanted::Any, all[at]),
            at + 1,
            found_at(found, current, all[at]),
        )
    }
}

/// The HID interfaces of a configuration that have an endpoint for reports, in the order
/// in which they are declared. Further settings of an interface are not listed.
pub open spec fn hid_interfaces(config: Seq<u8>) -> Seq<HidInterface> {
    collect(descriptor::descriptors(config, 0), outside(), 0, Seq::empty())
}

/// Where a walk is in front of a descriptor.
pub open spec fn walked_to(all: Seq<Seq<u8>>, at: int) -> Current
    decreases at,
{
    if at <= 0 {
        outside()
    } else {
        walked_past(walked_to(all, at - 1), Wanted::Any, all[at - 1])
    }
}

/// No two are the same interface.
pub open spec fn all_different(found: Seq<HidInterface>) -> bool {
    forall|i: int, j: int|
        0 <= i < j < found.len() ==> (#[trigger] found[i]).interface != (#[trigger] found[
            j]).interface
}

/// No HID interface with an endpoint for reports is left out, wherever and under whatever
/// number it is declared, and none is listed twice.
pub proof fn law_no_interface_is_left_out(config: Seq<u8>, at: int)
    requires
        0 <= at < descriptor::descriptors(config, 0).len(),
        is_report_endpoint(
            walked_to(descriptor::descriptors(config, 0), at),
            descriptor::descriptors(config, 0)[at],
        ),
    ensures
        listed(hid_interfaces(config), walked_to(descriptor::descriptors(config, 0), at).number),
        all_different(hid_interfaces(config)),
{
    lemma_collected(descriptor::descriptors(config, 0), 0, Seq::empty(), at);
}

proof fn lemma_collected(all: Seq<Seq<u8>>, from: int, found: Seq<HidInterface>, at: int)
    requires
        0 <= from <= all.len(),
        0 <= at < all.len(),
        all_different(found),
        is_report_endpoint(walked_to(all, at), all[at]),
        at < from ==> listed(found, walked_to(all, at).number),
    ensures
        listed(collect(all, walked_to(all, from), from, found), walked_to(all, at).number),
        all_different(collect(all, walked_to(all, from), from, found)),
    decreases all.len() - from,
{
    if from < all.len() {
        let current = walked_to(all, from);
        let more = found_at(found, current, all[from]);
        let number = walked_to(all, at).number;
        if at < from {
            let i = choose|i: int| 0 <= i < found.len() && (#[trigger] found[i]).interface == number;
            assert(more[i].interface == number);
        } else if at == from && !listed(found, number) {
            assert(more.last().interface == number);
        }
        assert(all_different(more)) by {
            assert forall|i: int, j: int| 0 <= i < j < more.len() implies (
            #[trigger] more[i]).interface != (#[trigger] more[j]).interface by {
                if j < found.len() {
                    assert(found[i].interface != found[j].interface);
                } else {
                    assert(found[i] == more[i]);
                }
            }
        }
        lemma_collected(all, from + 1, more, at);
    }
}

fn is_listed(found: &Vec<HidInterface>, number: u8) -> (is: bool)
    ensures
        is == listed(found@, number),
{
    let mut index: usize = 0;
    while index < found.len()
        invariant
            index <= found.len(),
            forall|i: int| 0 <= i < index ==> (#[trigger] found@[i]).interface != number,
        decreases found.len() - index,
    {
        if found[index].interface == number {
            return true;
        }
        index = index + 1;
    }
    false
}

impl HidInterface {
    /// The first wanted HID interface of a configuration that has an endpoint
    /// for reports.
    pub fn find(config: &[u8], wanted: Wanted) -> (found: Option<HidInterface>)
        ensures
            found == hid_interface(config@, wanted),
    {
        let ghost all = descriptor::descriptors(config@, 0);
        let ghost mut at: int = 0;
        let mut interface: u8 = 0;
        let mut matches: bool = false;
        let mut report_descriptor_len: u16 = 0;
        let mut walk = Descriptors::new(config);
        assert(all.skip(0) =~= all);
        loop
            invariant
                walk.wf(),
                all == descriptor::descriptors(config@, 0),
                0 <= at <= all.len(),
                walk@ == all.skip(at),
                hid_interface(config@, wanted) == find_from(
                    all,
                    wanted,
                    Current { number: interface, wanted: matches, report_descriptor_len },
                    at,
                ),
            decreases walk.left(),
        {
            match walk.next() {
                Some(item) => {
                    proof {
                        assert(all.skip(at)[0] == all[at]);
                        assert(all.skip(at).skip(1) =~= all.skip(at + 1));
                    }
                    match InterfaceDescriptor::parse(item) {
                        Some(found) => {
                            interface = found.number();
                            matches = found.class() == HID_CLASS && wanted.takes(&found);
                            report_descriptor_len = 0;
                        },
                        None => {
                            if matches && item[1] == HID_CLASS_DESCRIPTOR {
                                report_descriptor_len = report_descriptor_len_of(item);
                            } else if matches {
                                match EndpointDescriptor::parse(item) {
                                    Some(endpoint) => {
                                        if endpoint.is_in() && endpoint.is_interrupt() {
                                            return Some(
                                                HidInterface {
                                                    interface,
                                                    endpoint: endpoint.number(),
                                                    max_packet_size: endpoint.max_packet_size(),
                                                    interval: endpoint.interval(),
                                                    report_descriptor_len,
                                                },
                                            );
                                        }
                                    },
                                    None => {},
                                }
                            }
                        },
                    }
                    proof {
                        at = at + 1;
                    }
                },
                None => return None,
            }
        }
    }

    /// The HID interfaces of a configuration that have an endpoint for reports, in the
    /// order in which they are declared.
    pub fn all(config: &[u8]) -> (found: Vec<HidInterface>)
        ensures
            found@ == hid_interfaces(config@),
    {
        let ghost all = descriptor::descriptors(config@, 0);
        let ghost mut at: int = 0;
        let mut found: Vec<HidInterface> = Vec::new();
        let mut interface: u8 = 0;
        let mut is_hid: bool = false;
        let mut report_descriptor_len: u16 = 0;
        let mut walk = Descriptors::new(config);
        assert(all.skip(0) =~= all);
        loop
            invariant
                walk.wf(),
                all == descriptor::descriptors(config@, 0),
                0 <= at <= all.len(),
                walk@ == all.skip(at),
                hid_interfaces(config@) == collect(
                    all,
                    Current { number: interface, wanted: is_hid, report_descriptor_len },
                    at,
                    found@,
                ),
            decreases walk.left(),
        {
            match walk.next() {
                Some(item) => {
                    proof {
                        assert(all.skip(at)[0] == all[at]);
                        assert(all.skip(at).skip(1) =~= all.skip(at + 1));
                    }
                    match InterfaceDescriptor::parse(item) {
                        Some(opened) => {
                            interface = opened.number();
                            is_hid = opened.class() == HID_CLASS;
                            report_descriptor_len = 0;
                        },
                        None => {
                            if is_hid && item[1] == HID_CLASS_DESCRIPTOR {
                                report_descriptor_len = report_descriptor_len_of(item);
                            } else if is_hid {
                                match EndpointDescriptor::parse(item) {
                                    Some(endpoint) => {
                                        if endpoint.is_in() && endpoint.is_interrupt()
                                            && !is_listed(&found, interface) {
                                            found.push(
                                                HidInterface {
                                                    interface,
                                                    endpoint: endpoint.number(),
                                                    max_packet_size: endpoint.max_packet_size(),
                                                    interval: endpoint.interval(),
                                                    report_descriptor_len,
                                                },
                                            );
                                        }
                                    },
                                    None => {},
                                }
                            }
                        },
                    }
                    proof {
                        at = at + 1;
                    }
                },
                None => return found,
            }
        }
    }
}

/// The request that selects the protocol of an interface.
pub open spec fn protocol_setup(interface: u8, protocol: u8) -> Setup {
    Setup {
        request_type: 0x21,
        request: 0x0b,
        value: protocol as u16,
        index: interface as u16,
        length: 0,
    }
}

/// The request that an interface report changes only.
pub open spec fn idle_setup(interface: u8) -> Setup {
    Setup { request_type: 0x21, request: 0x0a, value: 0, index: interface as u16, length: 0 }
}

/// Bring a device up as a boot device: read its configuration, and if it has an
/// interface of that boot protocol, select the configuration and the boot
/// protocol, and ask for reports of changes only. Whether that last request
/// succeeds does not matter.
pub open spec fn boot_program(endpoint: ControlEndpoint, protocol: u8) -> UsbProgram<
    Result<Option<HidInterface>, TransferError>,
> {
    control::configuration_program(endpoint, 0, control::zeros(64)).bind(
        |read: control::Read|
            match read.0 {
                Err(error) => Program::Return(Err(error)),
                Ok(len) => {
                    let config = read.1.take(len as int);
                    match hid_interface(config, Wanted::Boot(protocol)) {
                        None => Program::Return(Ok(None)),
                        Some(found) => if !descriptor::is_configuration(config) {
                            Program::Return(Ok(None))
                        } else {
                            control::and_then(
                                control::set_configuration_program(endpoint, config[5]),
                                |selected: ()|
                                    control::and_then(
                                        control::no_data_program(
                                            endpoint,
                                            protocol_setup(found.interface, BOOT_PROTOCOL),
                                        ),
                                        |booted: ()|
                                            control::no_data_program(
                                                endpoint,
                                                idle_setup(found.interface),
                                            ).bind(
                                                |idle: Result<(), TransferError>|
                                                    Program::Return(Ok(Some(found))),
                                            ),
                                    ),
                            )
                        },
                    }
                },
            },
    )
}

pub(crate) fn bring_up_boot<H: Dwc2Registers>(
    channel: &mut Channel<H>,
    endpoint: ControlEndpoint,
    protocol: u8,
) -> (result: Result<Option<HidInterface>, TransferError>)
    ensures
        boot_program(endpoint, protocol).ran(old(channel)@, final(channel)@, result),
{
    let mut buffer: [u8; 64] = [0;64];
    assert(buffer@ =~= control::zeros(64));
    let len: usize = match get_configuration_descriptor(channel, endpoint, 0, &mut buffer) {
        Ok(len) => len,
        Err(error) => return Err(error),
    };
    let config = vstd::slice::slice_subrange(buffer.as_slice(), 0, len);
    assert(config@ =~= buffer@.take(len as int));
    let found: HidInterface = match HidInterface::find(config, Wanted::Boot(protocol)) {
        Some(found) => found,
        None => return Ok(None),
    };
    let value: u8 = match ConfigurationDescriptor::parse(config) {
        Some(parsed) => parsed.value(),
        None => return Ok(None),
    };
    match set_configuration(channel, endpoint, value) {
        Ok(()) => {},
        Err(error) => return Err(error),
    }
    match set_protocol(channel, endpoint, found.interface, BOOT_PROTOCOL) {
        Ok(()) => {},
        Err(error) => return Err(error),
    }
    let _ = set_idle(channel, endpoint, found.interface, 0);
    Ok(Some(found))
}

/// The reports of an interface, as they are reached on a device.
pub open spec fn report_pipe(device: ControlEndpoint, found: HidInterface) -> ControlEndpoint {
    ControlEndpoint { max_packet_size: found.max_packet_size, ..device }
}

pub(crate) fn pipe_for(device: ControlEndpoint, found: &HidInterface) -> (pipe: ControlEndpoint)
    ensures
        pipe == report_pipe(device, *found),
{
    ControlEndpoint {
        address: device.address,
        low_speed: device.low_speed,
        max_packet_size: found.max_packet_size,
        split: device.split,
    }
}

} // verus!

//! The USB drivers against a simulated controller, hubs and devices.

use std::cell::RefCell;
use std::collections::{HashMap, VecDeque};
use std::ops::ControlFlow;
use std::rc::Rc;

use rpi_hal::usb::bus::Bus;
use rpi_hal::usb::chip::{full_duplex, link_up, mac_of, mac_words};
use rpi_hal::usb::control::{
    clear_port_feature, get_configuration_descriptor, get_device_descriptor,
    get_device_descriptor_header, get_hub_descriptor, get_port_status, get_report_descriptor,
    probe_and_address, set_address, set_configuration, set_idle, set_port_power, set_port_reset,
    set_protocol, vendor_in, vendor_out, Setup,
};
use rpi_hal::usb::control::stages::{ControlRunner, Direction, Next as NextStage, Stage};
use rpi_hal::usb::descriptor::{
    find_bulk_endpoints, BulkEndpoint, ConfigurationDescriptor, Descriptors, DeviceDescriptor,
    EndpointDescriptor, InterfaceDescriptor,
};
use rpi_hal::usb::dwc2::asynch::{Errand, Finding, Next, TransactionRunner};
use rpi_hal::usb::dwc2::hardware::{
    Change, CharacterFields, Dwc2Registers, Field, PortBits, SizeFields, SplitFields,
};
use rpi_hal::usb::dwc2::{
    Channel, ControlEndpoint, DataPid, Dwc2Host, EndpointType, SplitTarget, Transaction,
    TransferError, HCINT_ACK, HCINT_BBERR, HCINT_CHH, HCINT_DTERR, HCINT_FRMOR, HCINT_NAK,
    HCINT_NYET, HCINT_STALL, HCINT_TXERR, HCINT_XFRC,
};
use rpi_hal::usb::ethernet::{id_of, Ethernet, IdRevision};
use rpi_hal::usb::hid::gamepad::{Gamepad, GamepadError};
use rpi_hal::usb::hid::keyboard::{KeyEvent, Keyboard};
use rpi_hal::usb::hid::mouse::{Button, Mouse};
use rpi_hal::usb::hid::probe::{Probe, ReportParser, Verdict};
use rpi_hal::usb::hid::{HidInterface, Wanted};
use rpi_hal::usb::hub::{find_status_endpoint, Hub, PortStatus};
use rpi_hal::usb::lan7800::{self, Lan7800};
use rpi_hal::usb::lan9514::batch::{FrameBatch, Lan9514Phy};
use rpi_hal::usb::lan9514::{self, Lan9514};
use rpi_hal::usb::power::{Mailbox, MailboxError, PowerDeviceId, PowerSwitch};
use rpi_hal::usb::session::{BusListener, Device, Event};
use rpi_hal::usb::{enumerate, power_on, DeviceListener, EnumerationError};

/// Where data for the controller is staged, and where data from it lands.
const STAGING: u32 = 0x0010_0000;
const LANDING: u32 = 0x0020_0000;

/// A port of a simulated hub.
#[derive(Clone, Copy, Default)]
struct Port {
    status: u16,
    change: u16,
    device: Option<usize>,
}

/// A simulated device.
#[derive(Default)]
struct Gadget {
    /// `None` before it has been reset.
    address: Option<u8>,
    descriptor: [u8; 18],
    config: Vec<u8>,
    report: Vec<u8>,
    hub: Vec<u8>,
    ports: Vec<Port>,
    registers: HashMap<u16, u32>,
    phy: HashMap<u8, u32>,
    stuck: Vec<u16>,
    refuses: Vec<u8>,
    refuses_report: bool,
    /// The interface whose report descriptor it does not give.
    hides: Option<u16>,
    interrupts: VecDeque<Vec<u8>>,
    bulk_in: VecDeque<Vec<u8>>,
    bulk_out: Vec<Vec<u8>>,
    requests: Vec<[u8; 8]>,
    setup: [u8; 8],
    reply: Vec<u8>,
    sent: Vec<u8>,
}

#[derive(Clone, Copy)]
struct ChannelState {
    size: SizeFields,
    split: Option<SplitFields>,
    dma: u32,
    hcint: u32,
    left: u32,
    pid: u8,
    started: Option<CharacterFields>,
}

struct World {
    time: u64,
    frame: u32,
    changes: Vec<Change>,
    delays: Vec<u64>,
    staged: Vec<u8>,
    landed: Vec<u8>,
    channels: Vec<ChannelState>,
    gadgets: Vec<Gadget>,
    connected: bool,
    enabled: bool,
    speed: u32,
    count: u32,
    halts: VecDeque<u32>,
    /// Resets and new addresses, in the order in which they came about.
    log: Vec<&'static str>,
}

#[derive(Clone)]
struct Sim(Rc<RefCell<World>>);

impl Sim {
    fn new(gadgets: Vec<Gadget>) -> Sim {
        let idle = ChannelState {
            size: SizeFields { bytes: 0, packets: 0, pid: 0 },
            split: None,
            dma: 0,
            hcint: 0,
            left: 0,
            pid: 0,
            started: None,
        };
        Sim(Rc::new(RefCell::new(World {
            time: 0,
            frame: 0,
            changes: Vec::new(),
            delays: Vec::new(),
            staged: Vec::new(),
            landed: vec![0; 8192],
            channels: vec![idle; 16],
            gadgets,
            connected: true,
            enabled: true,
            speed: 0,
            count: 7,
            halts: VecDeque::new(),
            log: Vec::new(),
        })))
    }

    fn host(&self) -> Dwc2Host<Sim> {
        Dwc2Host::init(self.clone())
    }

    fn channel(&self) -> Channel<Sim> {
        self.host().alloc_channel().unwrap()
    }

    fn halt_with(&self, halts: &[u32]) {
        self.0.borrow_mut().halts = halts.iter().copied().collect();
    }

    fn starts(&self) -> Vec<CharacterFields> {
        let world = self.0.borrow();
        let mut found = Vec::new();
        for change in world.changes.iter() {
            if let Change::Start { character, .. } = change {
                found.push(*character);
            }
        }
        found
    }

    fn forget(&self) {
        let mut world = self.0.borrow_mut();
        world.changes.clear();
        world.delays.clear();
    }

    fn requests(&self, gadget: usize) -> Vec<[u8; 8]> {
        self.0.borrow().gadgets[gadget].requests.clone()
    }
}

impl Gadget {
    /// What it answers to a request for data, unless it stalls.
    fn answer(&mut self) -> Option<Vec<u8>> {
        let setup = self.setup;
        if self.refuses.contains(&setup[1]) {
            return None;
        }
        let length = usize::from(u16::from_le_bytes([setup[6], setup[7]]));
        let index = u16::from_le_bytes([setup[4], setup[5]]);
        let mut data = match (setup[0], setup[1], setup[3]) {
            (0x80, 6, 1) => self.descriptor.to_vec(),
            (0x80, 6, 2) => self.config.clone(),
            (0x81, 6, 0x22) if !self.refuses_report && self.hides != Some(index) => {
                self.report.clone()
            }
            (0xa0, 6, 0x29) => self.hub.clone(),
            (0xa3, 0, _) => {
                let port = self.ports[usize::from(index) - 1];
                let mut bytes = port.status.to_le_bytes().to_vec();
                bytes.extend_from_slice(&port.change.to_le_bytes());
                bytes
            }
            (0xc0, 0xa1, _) => {
                let mut value = *self.registers.get(&index).unwrap_or(&0);
                if index == 0x18 {
                    value = self.bulk_in.len() as u32;
                }
                value.to_le_bytes().to_vec()
            }
            _ => return None,
        };
        data.truncate(length);
        Some(data)
    }

    /// Takes a request without data, or one whose data has come.
    fn obey(&mut self, gadget: usize) -> (bool, Option<usize>) {
        let setup = self.setup;
        if self.refuses.contains(&setup[1]) {
            return (false, None);
        }
        let value = u16::from_le_bytes([setup[2], setup[3]]);
        let index = u16::from_le_bytes([setup[4], setup[5]]);
        match (setup[0], setup[1]) {
            (0x00, 5) => self.address = Some(value as u8),
            (0x23, 3) if value == 4 => {
                let port = &mut self.ports[usize::from(index) - 1];
                port.status |= 0x0002;
                port.change |= 0x0010;
                return (true, port.device);
            }
            (0x23, 1) => {
                let port = &mut self.ports[usize::from(index) - 1];
                if value == 16 {
                    port.change &= !0x0001;
                }
                if value == 20 {
                    port.change &= !0x0010;
                }
            }
            (0x40, 0xa0) => {
                let word = u32::from_le_bytes([self.sent[0], self.sent[1], self.sent[2], self.sent[3]]);
                self.write_register(gadget, index, word);
            }
            _ => {}
        }
        (true, None)
    }

    fn write_register(&mut self, _gadget: usize, register: u16, word: u32) {
        let gigabit = self.descriptor[10..12] == [0x00, 0x78];
        let (access, data) = if gigabit { (0x120, 0x124) } else { (0x114, 0x118) };
        let mut word = word;
        if register == access && !self.stuck.contains(&register) {
            let which = ((word >> 6) & 0x1f) as u8;
            if word & 2 != 0 {
                let value = *self.registers.get(&data).unwrap_or(&0);
                self.phy.insert(which, value);
            } else {
                let value = *self.phy.get(&which).unwrap_or(&0);
                self.registers.insert(data, value);
            }
            word &= !1;
        }
        if gigabit && register == 0x010 && !self.stuck.contains(&register) {
            word &= !2;
        }
        if gigabit && register == 0x014 && !self.stuck.contains(&register) {
            word = (word & !0x10) | 0x80;
        }
        self.registers.insert(register, word);
    }
}

impl World {
    fn find(&self, address: u8) -> Option<usize> {
        self.gadgets.iter().position(|gadget| gadget.address == Some(address))
    }

    /// Runs a channel, and gives the interrupts that it halts with.
    fn run(&mut self, channel: usize, character: CharacterFields) -> u32 {
        if let Some(halt) = self.halts.pop_front() {
            return halt;
        }
        let state = self.channels[channel];
        if let Some(split) = state.split {
            if !split.complete {
                return HCINT_CHH | HCINT_ACK;
            }
        }
        let Some(which) = self.find(character.device_address) else {
            return HCINT_CHH | HCINT_TXERR;
        };
        let size = state.size.bytes as usize;
        let from = (state.dma & 0x3fff_ffff) as usize;
        let mut moved = size;
        if character.direction_in {
            let data: Option<Vec<u8>> = match character.endpoint_type {
                0 if size > 0 => {
                    let gadget = &mut self.gadgets[which];
                    if gadget.reply.is_empty() {
                        match gadget.answer() {
                            Some(reply) => gadget.reply = reply,
                            None => return HCINT_CHH | HCINT_STALL,
                        }
                    }
                    let count = size.min(gadget.reply.len());
                    Some(gadget.reply.drain(..count).collect())
                }
                0 => {
                    let (taken, reset) = self.gadgets[which].obey(which);
                    if !taken {
                        return HCINT_CHH | HCINT_STALL;
                    }
                    if let Some(device) = reset {
                        self.gadgets[device].address = Some(0);
                        self.log.push("reset");
                    }
                    if self.gadgets[which].setup[..2] == [0x00, 5] {
                        self.log.push("address");
                    }
                    Some(Vec::new())
                }
                2 => self.gadgets[which].bulk_in.pop_front(),
                _ => self.gadgets[which].interrupts.pop_front(),
            };
            let Some(data) = data else {
                return HCINT_CHH | HCINT_NAK;
            };
            if data.len() > size {
                return HCINT_CHH | HCINT_BBERR;
            }
            if !data.is_empty() {
                let at = from - LANDING as usize;
                self.landed[at..at + data.len()].copy_from_slice(&data);
            }
            moved = data.len();
        } else {
            let data: Vec<u8> = if size == 0 {
                Vec::new()
            } else {
                let at = from - STAGING as usize;
                self.staged[at..at + size].to_vec()
            };
            let gadget = &mut self.gadgets[which];
            if state.size.pid == 3 {
                gadget.setup.copy_from_slice(&data);
                gadget.reply.clear();
                gadget.sent.clear();
                let setup = gadget.setup;
                gadget.requests.push(setup);
            } else if character.endpoint_type == 2 {
                gadget.bulk_out.push(data);
            } else {
                gadget.sent.extend_from_slice(&data);
            }
        }
        let packet = usize::from(character.max_packet_size).max(1);
        let packets = moved.div_ceil(packet).max(1);
        let state = &mut self.channels[channel];
        state.left = (size - moved) as u32;
        if packets % 2 == 1 && state.size.pid != 3 {
            state.pid = 2 - state.size.pid;
        } else {
            state.pid = state.size.pid;
        }
        HCINT_CHH | HCINT_XFRC | HCINT_ACK
    }
}

impl Dwc2Registers for Sim {
    fn handle(&self) -> Self {
        self.clone()
    }

    fn read(&mut self, field: Field) -> u32 {
        let mut world = self.0.borrow_mut();
        match field {
            Field::AhbIdle => 1,
            Field::CoreReset | Field::RxFlush | Field::TxFlush => 0,
            Field::HostChannelCount => world.count,
            Field::PortConnected => u32::from(world.connected),
            Field::PortEnabled => u32::from(world.enabled),
            Field::PortSpeed => world.speed,
            Field::FrameNumber => {
                world.frame = (world.frame + 1) % 0x4000;
                world.frame
            }
            Field::Interrupts(channel) => {
                // A channel that has been started runs when it is next looked at.
                let which = usize::from(channel);
                if let Some(character) = world.channels[which].started.take() {
                    let hcint = world.run(which, character);
                    world.channels[which].hcint = hcint;
                }
                world.channels[which].hcint
            }
            Field::BytesLeft(channel) => world.channels[usize::from(channel)].left,
            Field::NextPid(channel) => u32::from(world.channels[usize::from(channel)].pid),
            Field::GlobalInterrupts | Field::ChannelInterrupts => 0,
        }
    }

    fn apply(&mut self, change: Change) {
        let mut world = self.0.borrow_mut();
        world.changes.push(change);
        match change {
            Change::Port(bits) if bits.reset => {
                world.log.push("reset");
                if !world.gadgets.is_empty() {
                    world.gadgets[0].address = Some(0);
                }
            }
            Change::AckInterrupts { channel, bits } => {
                world.channels[usize::from(channel)].hcint &= !bits;
            }
            Change::Split { channel, split } => world.channels[usize::from(channel)].split = split,
            Change::DmaAddress { channel, bus_address } => {
                world.channels[usize::from(channel)].dma = bus_address;
            }
            Change::TransferSize { channel, size } => {
                let state = &mut world.channels[usize::from(channel)];
                state.size = size;
                state.left = size.bytes;
            }
            Change::Start { channel, character } => {
                world.channels[usize::from(channel)].started = Some(character);
            }
            Change::Disable { channel } => {
                world.channels[usize::from(channel)].hcint |= HCINT_CHH;
            }
            _ => {}
        }
    }

    fn now_micros(&mut self) -> u64 {
        let mut world = self.0.borrow_mut();
        world.time += 100;
        world.time
    }

    fn delay_micros(&mut self, micros: u64) {
        let mut world = self.0.borrow_mut();
        world.time += micros;
        world.delays.push(micros);
    }

    fn stage(&mut self, data: &[u8]) -> u32 {
        self.0.borrow_mut().staged = data.to_vec();
        STAGING
    }

    fn landing(&mut self, len: usize) -> u32 {
        let mut world = self.0.borrow_mut();
        for byte in world.landed[..len].iter_mut() {
            *byte = 0xee;
        }
        LANDING
    }

    fn fetch(&mut self, len: usize) -> Vec<u8> {
        self.0.borrow().landed[..len].to_vec()
    }
}

fn described(class: u8, packet: u8, vendor: u16, product: u16) -> [u8; 18] {
    let [v0, v1] = vendor.to_le_bytes();
    let [p0, p1] = product.to_le_bytes();
    [18, 1, 0, 2, class, 0, 0, packet, v0, v1, p0, p1, 0, 1, 1, 2, 3, 1]
}

fn keyboard() -> Gadget {
    Gadget {
        descriptor: described(0, 8, 0x046d, 0xc31c),
        config: vec![
            9, 2, 34, 0, 1, 7, 0, 0xa0, 50, //
            9, 4, 2, 0, 1, 3, 1, 1, 0, //
            9, 0x21, 0x10, 1, 0, 1, 0x22, 63, 0, //
            7, 5, 0x81, 3, 8, 0, 10,
        ],
        ..Gadget::default()
    }
}

fn mouse() -> Gadget {
    Gadget {
        descriptor: described(0, 8, 0x046d, 0xc05a),
        config: vec![
            9, 2, 34, 0, 1, 1, 0, 0xa0, 50, //
            9, 4, 0, 0, 1, 3, 1, 2, 0, //
            9, 0x21, 0x10, 1, 0, 1, 0x22, 46, 0, //
            7, 5, 0x82, 3, 4, 0, 10,
        ],
        ..Gadget::default()
    }
}

fn hub(ports: Vec<Port>) -> Gadget {
    Gadget {
        descriptor: described(9, 64, 0x0424, 0x9514),
        config: vec![
            9, 2, 25, 0, 1, 1, 0, 0xe0, 1, //
            9, 4, 0, 0, 1, 9, 0, 0, 0, //
            7, 5, 0x81, 3, 1, 0, 12,
        ],
        hub: vec![9, 0x29, ports.len() as u8, 0, 0, 50, 1, 0, 0xff],
        ports,
        ..Gadget::default()
    }
}

fn plugged(device: usize, speed: u16) -> Port {
    Port { status: 0x0101 | speed, change: 1, device: Some(device) }
}

const LOW_SPEED: u16 = 0x0200;
const HIGH_SPEED: u16 = 0x0400;

fn endpoint(address: u8, max_packet_size: u16) -> ControlEndpoint {
    ControlEndpoint { address, low_speed: false, max_packet_size, split: None }
}

fn behind(address: u8, max_packet_size: u16, hub_address: u8, port: u8) -> ControlEndpoint {
    ControlEndpoint {
        address,
        low_speed: true,
        max_packet_size,
        split: Some(SplitTarget { hub_address, port }),
    }
}

fn at_address(address: u8, gadget: Gadget) -> Gadget {
    Gadget { address: Some(address), ..gadget }
}

#[test]
fn bringing_the_controller_up_lays_out_the_fifos_and_powers_the_port() {
    let sim = Sim::new(Vec::new());
    let mut host = sim.host();
    assert_eq!(host.num_channels(), 8);
    let powered = PortBits {
        power: true,
        reset: false,
        connect_detected: false,
        enable_changed: false,
        overcurrent_changed: false,
    };
    assert_eq!(
        sim.0.borrow().changes,
        vec![
            Change::StartCoreReset,
            Change::UngateClocks,
            Change::RxFifo { depth: 0x400 },
            Change::NonPeriodicTxFifo { start: 0x400, depth: 0x400 },
            Change::PeriodicTxFifo { start: 0x800, depth: 0x400 },
            Change::FlushRxFifo,
            Change::FlushTxFifo { number: 0x10 },
            Change::ForceHostMode,
            Change::EnableDmaAndInterrupts,
            Change::SofMask { unmasked: false },
            Change::UnmaskInterrupts { bits: 0x0300_0000 },
            Change::NoOtgCapabilities,
            Change::Port(powered),
        ]
    );
    assert_eq!(sim.0.borrow().delays, vec![3_000, 25_000]);
    assert!(host.port_connected());
    assert!(host.port_enabled());
    assert_eq!(host.port_speed(), 0);
    assert_eq!(host.global().0.borrow().count, 7);
    assert_eq!(host.host().0.borrow().count, 7);
}

#[test]
fn no_more_channels_are_used_than_can_be_managed() {
    let sim = Sim::new(Vec::new());
    sim.0.borrow_mut().count = 31;
    assert_eq!(sim.host().num_channels(), 12);
    sim.0.borrow_mut().count = 0;
    assert_eq!(sim.host().num_channels(), 1);
}

#[test]
fn a_full_speed_root_port_gets_the_slower_clock() {
    let sim = Sim::new(Vec::new());
    let mut host = sim.host();
    sim.forget();
    host.reset_port();
    assert_eq!(sim.0.borrow().changes.len(), 3);
    assert_eq!(sim.0.borrow().delays, vec![50_000, 10_000]);
    sim.0.borrow_mut().speed = 1;
    sim.forget();
    host.reset_port();
    assert_eq!(
        sim.0.borrow().changes[3..],
        [Change::PhyClock { select: 1 }, Change::FrameInterval { clocks: 48_000 }]
    );
}

#[test]
fn the_lowest_free_channel_is_handed_out_and_comes_back() {
    let sim = Sim::new(Vec::new());
    sim.0.borrow_mut().count = 2;
    let mut host = sim.host();
    let first = host.alloc_channel().unwrap();
    let second = host.alloc_channel().unwrap();
    let third = host.alloc_channel().unwrap();
    assert_eq!((first.index(), second.index(), third.index()), (0, 1, 2));
    assert!(host.alloc_channel().is_none());
    host.free_channel(second);
    assert_eq!(host.alloc_channel().unwrap().index(), 1);
    assert!(host.alloc_channel().is_none());
}

#[test]
fn a_setup_packet_is_little_endian() {
    let setup = Setup { request_type: 0x80, request: 6, value: 0x0102, index: 0x0304, length: 0x0506 };
    assert_eq!(setup.to_bytes(), [0x80, 6, 2, 1, 4, 3, 6, 5]);
}

#[test]
fn descriptors_are_read_in_three_stages() {
    let sim = Sim::new(vec![at_address(5, keyboard())]);
    let mut channel = sim.channel();
    let device = endpoint(5, 8);
    assert_eq!(get_device_descriptor_header(&mut channel, device).unwrap(), described(0, 8, 0x046d, 0xc31c)[..8]);
    let whole = get_device_descriptor(&mut channel, device).unwrap();
    let told = DeviceDescriptor::from_bytes(&whole);
    assert_eq!(told.max_packet_size0, 8);
    assert_eq!((told.vendor_id, told.product_id), (0x046d, 0xc31c));
    assert_eq!(told.device_class, 0);
    let mut config = [0u8; 64];
    assert_eq!(get_configuration_descriptor(&mut channel, device, 0, &mut config), Ok(34));
    assert_eq!(config[..34], keyboard().config[..]);
    assert_eq!(
        sim.requests(0),
        vec![
            [0x80, 6, 0, 1, 0, 0, 8, 0],
            [0x80, 6, 0, 1, 0, 0, 8, 0],
            [0x80, 6, 0, 1, 0, 0, 18, 0],
            [0x80, 6, 0, 2, 0, 0, 9, 0],
            [0x80, 6, 0, 2, 0, 0, 34, 0],
        ]
    );
    assert_eq!(channel.last_interrupt() & HCINT_XFRC, HCINT_XFRC);
}

#[test]
fn a_configuration_is_cut_off_where_the_buffer_ends() {
    let sim = Sim::new(vec![at_address(5, keyboard())]);
    let mut channel = sim.channel();
    let mut config = [0u8; 20];
    assert_eq!(get_configuration_descriptor(&mut channel, endpoint(5, 8), 0, &mut config), Ok(20));
    assert_eq!(config[..], keyboard().config[..20]);
    assert_eq!(sim.requests(0)[1], [0x80, 6, 0, 2, 0, 0, 20, 0]);
}

#[test]
fn a_configuration_that_ends_early_is_told_as_it_came() {
    let mut gadget = at_address(5, keyboard());
    gadget.config.truncate(27);
    let sim = Sim::new(vec![gadget]);
    let mut channel = sim.channel();
    let mut config = [0xeeu8; 64];
    assert_eq!(get_configuration_descriptor(&mut channel, endpoint(5, 8), 0, &mut config), Ok(27));
    assert_eq!(config[..27], keyboard().config[..27]);
    assert_eq!(config[27..], [0xee; 37]);
    assert_eq!(sim.requests(0)[1], [0x80, 6, 0, 2, 0, 0, 34, 0]);
}

#[test]
fn a_hub_whose_configuration_is_too_short_is_left_alone() {
    let mut gadget = at_address(5, hub(vec![Port::default(); 4]));
    gadget.config = vec![9, 2, 5, 0, 1];
    let sim = Sim::new(vec![gadget]);
    let mut channel = sim.channel();
    assert_eq!(
        Hub::configure(&mut channel, endpoint(5, 64), true).err(),
        Some(EnumerationError::MalformedDescriptor)
    );
    assert!(sim.requests(0).iter().all(|request| request[1] == 6));
}

#[test]
fn requests_without_data_say_what_they_should() {
    let sim = Sim::new(vec![at_address(5, hub(vec![Port::default(); 4]))]);
    let mut channel = sim.channel();
    let device = endpoint(5, 64);
    assert_eq!(set_configuration(&mut channel, device, 3), Ok(()));
    assert_eq!(set_protocol(&mut channel, device, 2, 0), Ok(()));
    assert_eq!(set_idle(&mut channel, device, 2, 4), Ok(()));
    assert_eq!(set_port_power(&mut channel, 5, 4, false), Ok(()));
    assert_eq!(set_port_reset(&mut channel, 5, 4, false), Ok(()));
    assert_eq!(get_port_status(&mut channel, 5, 4, false), Ok((0x0002, 0x0010)));
    assert_eq!(clear_port_feature(&mut channel, 5, 4, 20, false), Ok(()));
    assert_eq!(get_port_status(&mut channel, 5, 4, false), Ok((0x0002, 0)));
    assert_eq!(set_address(&mut channel, device, 9), Ok(()));
    assert_eq!(sim.0.borrow().gadgets[0].address, Some(9));
    assert_eq!(
        sim.requests(0),
        vec![
            [0x00, 9, 3, 0, 0, 0, 0, 0],
            [0x21, 0x0b, 0, 0, 2, 0, 0, 0],
            [0x21, 0x0a, 0, 4, 2, 0, 0, 0],
            [0x23, 3, 8, 0, 4, 0, 0, 0],
            [0x23, 3, 4, 0, 4, 0, 0, 0],
            [0xa3, 0, 0, 0, 4, 0, 4, 0],
            [0x23, 1, 20, 0, 4, 0, 0, 0],
            [0xa3, 0, 0, 0, 4, 0, 4, 0],
            [0x00, 5, 9, 0, 0, 0, 0, 0],
        ]
    );
    assert_eq!(sim.0.borrow().delays.last(), Some(&2_000));
}

#[test]
fn hub_and_report_descriptors_are_asked_of_their_classes() {
    let mut gadget = at_address(5, hub(vec![Port::default(); 3]));
    gadget.report = vec![5, 1, 9, 5];
    let sim = Sim::new(vec![gadget]);
    let mut channel = sim.channel();
    let mut buf = [0u8; 16];
    assert_eq!(get_hub_descriptor(&mut channel, endpoint(5, 64), &mut buf), Ok(9));
    assert_eq!(buf[..9], [9, 0x29, 3, 0, 0, 50, 1, 0, 0xff]);
    assert_eq!(get_report_descriptor(&mut channel, endpoint(5, 64), 2, &mut buf), Ok(4));
    assert_eq!(buf[..4], [5, 1, 9, 5]);
    assert_eq!(sim.requests(0)[0], [0xa0, 6, 0, 0x29, 0, 0, 16, 0]);
    assert_eq!(sim.requests(0)[1], [0x81, 6, 0, 0x22, 2, 0, 16, 0]);
}

#[test]
fn vendor_requests_move_data_both_ways() {
    let sim = Sim::new(vec![at_address(5, keyboard())]);
    let mut channel = sim.channel();
    assert_eq!(vendor_out(&mut channel, endpoint(5, 8), 0xa0, 0, 0x104, &[1, 2, 3, 4]), Ok(()));
    assert_eq!(sim.0.borrow().gadgets[0].registers[&0x104], 0x0403_0201);
    let mut word = [0u8; 4];
    assert_eq!(vendor_in(&mut channel, endpoint(5, 8), 0xa1, 0, 0x104, &mut word), Ok(4));
    assert_eq!(word, [1, 2, 3, 4]);
    assert_eq!(sim.requests(0)[0], [0x40, 0xa0, 0, 0, 4, 1, 4, 0]);
    assert_eq!(sim.requests(0)[1], [0xc0, 0xa1, 0, 0, 4, 1, 4, 0]);
}

#[test]
fn a_refused_request_is_a_stall() {
    let mut gadget = at_address(5, keyboard());
    gadget.refuses = vec![9, 6];
    let sim = Sim::new(vec![gadget]);
    let mut channel = sim.channel();
    assert_eq!(set_configuration(&mut channel, endpoint(5, 8), 1), Err(TransferError::Stall));
    assert_eq!(
        get_device_descriptor_header(&mut channel, endpoint(5, 8)),
        Err(TransferError::Stall)
    );
}

#[test]
fn a_new_device_is_described_then_addressed() {
    let mut gadget = hub(Vec::new());
    gadget.address = Some(0);
    let sim = Sim::new(vec![gadget]);
    let mut channel = sim.channel();
    let (found, told) = probe_and_address(&mut channel, endpoint(0, 8), 6).unwrap();
    assert_eq!(found, endpoint(6, 64));
    assert_eq!(told.device_class, 9);
    assert_eq!(
        sim.requests(0),
        vec![
            [0x80, 6, 0, 1, 0, 0, 8, 0],
            [0x80, 6, 0, 1, 0, 0, 18, 0],
            [0x00, 5, 6, 0, 0, 0, 0, 0],
        ]
    );
}

#[test]
fn each_reason_to_halt_is_told_apart() {
    let sim = Sim::new(vec![at_address(5, keyboard())]);
    let mut channel = sim.channel();
    let mut buf = [0u8; 8];
    let cases = [
        (HCINT_STALL | HCINT_NAK, TransferError::Stall),
        (HCINT_TXERR | HCINT_BBERR, TransferError::TransactionError),
        (HCINT_BBERR | HCINT_FRMOR, TransferError::Babble),
        (HCINT_FRMOR | HCINT_DTERR, TransferError::FrameOverrun),
        (HCINT_DTERR | HCINT_NAK, TransferError::DataToggleError),
        (HCINT_NAK, TransferError::Nak),
        (HCINT_NYET, TransferError::Nak),
        (HCINT_TXERR | HCINT_NYET, TransferError::TransactionError),
        (0, TransferError::Halted),
    ];
    for (hcint, error) in cases {
        sim.halt_with(&[hcint | HCINT_CHH]);
        let mut toggle = true;
        let result = channel.interrupt_in(endpoint(5, 8), 1, &mut toggle, &mut buf);
        assert_eq!(result, Err(error));
        assert!(toggle);
        assert_eq!(channel.last_interrupt(), hcint | HCINT_CHH);
    }
}

#[test]
fn a_channel_that_does_not_halt_is_stopped() {
    let sim = Sim::new(vec![at_address(5, keyboard())]);
    let mut channel = sim.channel();
    sim.halt_with(&[HCINT_ACK]);
    let mut toggle = false;
    let mut buf = [0u8; 8];
    let result = channel.interrupt_in(endpoint(5, 8), 1, &mut toggle, &mut buf);
    assert_eq!(result, Err(TransferError::Timeout));
    assert!(sim.0.borrow().changes.contains(&Change::Disable { channel: 0 }));
    assert_eq!(sim.0.borrow().time, 28_000 + 50_300);
}

#[test]
fn a_stage_that_is_not_ready_is_tried_again() {
    let sim = Sim::new(vec![at_address(5, keyboard())]);
    let mut channel = sim.channel();
    let nak = HCINT_CHH | HCINT_NAK;
    sim.halt_with(&[nak, nak, nak]);
    assert_eq!(set_configuration(&mut channel, endpoint(5, 8), 1), Ok(()));
    assert_eq!(sim.starts().len(), 3 + 2);
}

#[test]
fn a_stage_that_is_never_ready_times_out() {
    let sim = Sim::new(vec![at_address(5, keyboard())]);
    let mut channel = sim.channel();
    sim.halt_with(&vec![HCINT_CHH | HCINT_NAK; 20_000]);
    assert_eq!(
        set_configuration(&mut channel, endpoint(5, 8), 1),
        Err(TransferError::NakTimeout)
    );
    assert_eq!(20_000 - sim.0.borrow().halts.len(), 10_000);
}

#[test]
fn a_packet_behind_a_translator_is_split() {
    let sim = Sim::new(vec![at_address(7, keyboard())]);
    let mut channel = sim.channel();
    sim.forget();
    let header = get_device_descriptor_header(&mut channel, behind(7, 8, 2, 3)).unwrap();
    assert_eq!(header, described(0, 8, 0x046d, 0xc31c)[..8]);
    let world = sim.0.borrow();
    let mut splits = Vec::new();
    for change in world.changes.iter() {
        if let Change::Split { split, .. } = change {
            splits.push(*split);
        }
    }
    let part = |complete: bool| Some(SplitFields { hub_address: 2, port: 3, position: 3, complete });
    assert_eq!(splits, vec![part(false), part(true), part(false), part(true), part(false), part(true)]);
}

#[test]
fn a_long_transfer_behind_a_translator_goes_packet_by_packet() {
    let sim = Sim::new(vec![at_address(7, keyboard())]);
    let mut channel = sim.channel();
    sim.forget();
    assert_eq!(
        get_device_descriptor(&mut channel, behind(7, 8, 2, 3)).unwrap(),
        described(0, 8, 0x046d, 0xc31c)
    );
    let world = sim.0.borrow();
    let mut sizes = Vec::new();
    for change in world.changes.iter() {
        if let Change::TransferSize { size, .. } = change {
            sizes.push((size.bytes, size.pid));
        }
    }
    assert_eq!(
        sizes,
        vec![
            (8, 3), (8, 3), (8, 2), (8, 2), (0, 2), (0, 2), //
            (8, 3), (8, 3), (8, 2), (8, 2), (8, 0), (8, 0), (2, 2), (2, 2), //
            (0, 2), (0, 2),
        ]
    );
}

#[test]
fn a_translator_that_is_not_done_is_asked_again() {
    let sim = Sim::new(vec![at_address(7, keyboard())]);
    let mut channel = sim.channel();
    sim.forget();
    let ack = HCINT_CHH | HCINT_ACK;
    let nyet = HCINT_CHH | HCINT_NYET;
    sim.halt_with(&[ack, nyet, nyet]);
    assert_eq!(channel.control_setup(behind(7, 8, 2, 3), &[0, 9, 1, 0, 0, 0, 0, 0]), Ok(()));
    assert_eq!(sim.starts().len(), 4);
    assert_eq!(sim.0.borrow().delays, vec![625, 625]);
    sim.halt_with(&[ack, nyet, nyet, nyet, nyet, nyet, nyet, nyet, nyet, nyet]);
    assert_eq!(
        channel.control_setup(behind(7, 8, 2, 3), &[0, 9, 1, 0, 0, 0, 0, 0]),
        Err(TransferError::Nak)
    );
    assert_eq!(sim.0.borrow().halts.len(), 1);
}

#[test]
fn an_error_ends_a_split_though_the_device_is_not_ready_either() {
    let cases = [
        (HCINT_STALL | HCINT_NAK, TransferError::Stall),
        (HCINT_TXERR | HCINT_NYET, TransferError::TransactionError),
        (HCINT_BBERR | HCINT_NAK, TransferError::Babble),
    ];
    for (hcint, error) in cases {
        let sim = Sim::new(vec![at_address(5, keyboard())]);
        let mut channel = sim.channel();
        sim.halt_with(&[HCINT_CHH | HCINT_ACK, HCINT_CHH | hcint]);
        assert_eq!(
            set_configuration(&mut channel, behind(5, 8, 1, 3), 1),
            Err(error)
        );
        assert_eq!(sim.starts().len(), 2);
    }
}

#[test]
fn a_periodic_split_keeps_to_its_microframes() {
    let mut gadget = at_address(7, keyboard());
    gadget.interrupts.push_back(vec![0, 0, 4, 0, 0, 0, 0, 0]);
    let sim = Sim::new(vec![gadget]);
    let mut channel = sim.channel();
    sim.forget();
    // The current microframe is 5, so the start split goes out in 7, not in 6, and
    // the first complete split two later.
    sim.0.borrow_mut().frame = 4;
    let mut toggle = false;
    let mut buf = [0u8; 8];
    assert_eq!(channel.interrupt_in(behind(7, 8, 2, 3), 1, &mut toggle, &mut buf), Ok(8));
    assert!(toggle);
    assert_eq!(buf, [0, 0, 4, 0, 0, 0, 0, 0]);
    let starts = sim.starts();
    assert_eq!((starts[0].odd_frame, starts[1].odd_frame), (true, true));
    assert_eq!(starts.len(), 2);
}

#[test]
fn a_periodic_split_gives_up_after_its_tries() {
    let sim = Sim::new(vec![at_address(7, keyboard())]);
    let mut channel = sim.channel();
    sim.forget();
    let ack = HCINT_CHH | HCINT_ACK;
    let nyet = HCINT_CHH | HCINT_NYET;
    sim.halt_with(&[ack, nyet, nyet, nyet, nyet, nyet]);
    let mut toggle = false;
    let mut buf = [0u8; 8];
    assert_eq!(
        channel.interrupt_in(behind(7, 8, 2, 3), 1, &mut toggle, &mut buf),
        Err(TransferError::Nak)
    );
    assert!(!toggle);
    // The start split went out in microframe 2; four complete splits follow.
    assert_eq!(sim.starts().len(), 5);
}

#[test]
fn an_awaited_transaction_makes_the_launches_of_a_polled_one() {
    let halts = [HCINT_CHH | HCINT_ACK, HCINT_CHH | HCINT_NYET, HCINT_CHH | HCINT_XFRC];
    let sim = Sim::new(vec![at_address(7, keyboard())]);
    let mut channel = sim.channel();
    sim.forget();
    sim.0.borrow_mut().frame = 4;
    sim.halt_with(&halts);
    let mut toggle = false;
    let mut buf = [0u8; 8];
    let polled = channel.interrupt_in(behind(7, 8, 2, 3), 1, &mut toggle, &mut buf);
    let mut launches = Vec::new();
    let (mut complete, mut bytes) = (false, 0);
    for change in sim.0.borrow().changes.iter() {
        match change {
            Change::Split { split: Some(split), .. } => complete = split.complete,
            Change::TransferSize { size, .. } => bytes = size.bytes,
            Change::Start { character, .. } => {
                launches.push((complete, bytes, character.odd_frame));
            }
            _ => {}
        }
    }

    let txn = Transaction {
        endpoint_number: 1,
        endpoint_type: EndpointType::Interrupt,
        direction_in: true,
        pid: DataPid::Data0,
        transfer_size: 8,
        dma_address: LANDING,
    };
    let mut runner = TransactionRunner::new(behind(7, 8, 2, 3), txn);
    let mut halts = halts.iter();
    let mut frame = 4;
    let mut awaited = Vec::new();
    let verdict = loop {
        match runner.next() {
            Next::Over(verdict) => break verdict,
            Next::Run(Errand::Look) => {
                frame += 1;
                runner.tell(Finding::Microframe(frame));
            }
            Next::Run(Errand::Await(_)) => runner.tell(Finding::Arrived),
            Next::Run(Errand::Launch { packet, complete, odd }) => {
                awaited.push((complete, packet.transfer_size, odd.unwrap()));
                runner.tell(Finding::Halted(*halts.next().unwrap()));
            }
            Next::Run(Errand::Interpret { .. }) => runner.tell(Finding::Moved(Ok(0))),
        }
    };
    assert_eq!(awaited, launches);
    assert_eq!(awaited, vec![(false, 8, true), (true, 8, true), (true, 8, false)]);
    assert_eq!((verdict, polled), (Ok(0), Ok(0)));
}

#[test]
fn an_awaited_read_makes_the_stages_of_a_polled_one() {
    let nak = HCINT_CHH | HCINT_NAK;
    let sim = Sim::new(vec![at_address(5, keyboard())]);
    let mut channel = sim.channel();
    sim.forget();
    sim.halt_with(&[nak, nak]);
    let mut word = [0u8; 4];
    let polled = vendor_in(&mut channel, endpoint(5, 8), 0xa1, 0, 0x104, &mut word);
    let inward: Vec<bool> = sim.starts().iter().map(|start| start.direction_in).collect();

    let mut runner = ControlRunner::new(Direction::Read);
    let mut awaited = Vec::new();
    for moved in [Err(TransferError::Nak), Err(TransferError::Nak), Ok(0), Ok(4), Ok(0)] {
        match runner.next() {
            NextStage::Run(stage) => awaited.push(stage == Stage::DataIn),
            NextStage::Over(_) => panic!(),
        }
        runner.tell(moved);
    }
    assert_eq!(awaited, inward);
    assert_eq!(runner.next(), NextStage::Over(Ok(4)));
    assert_eq!(polled, Ok(4));
}

#[test]
fn bulk_transfers_keep_the_toggle_that_the_controller_tells() {
    let mut gadget = at_address(5, keyboard());
    gadget.bulk_in.push_back(vec![7; 100]);
    let sim = Sim::new(vec![gadget]);
    let mut channel = sim.channel();
    let mut toggle = false;
    assert_eq!(channel.bulk_out(endpoint(5, 64), 2, &mut toggle, &[1; 65]), Ok(65));
    assert!(!toggle);
    assert_eq!(channel.bulk_out(endpoint(5, 64), 2, &mut toggle, &[1; 64]), Ok(64));
    assert!(toggle);
    let mut buf = [0u8; 512];
    assert_eq!(channel.bulk_in(endpoint(5, 64), 1, &mut toggle, &mut buf), Ok(100));
    assert_eq!(buf[..100], [7; 100]);
    assert_eq!(buf[100], 0);
    assert!(toggle);
    assert_eq!(
        channel.bulk_in(endpoint(5, 64), 1, &mut toggle, &mut buf),
        Err(TransferError::Nak)
    );
    let gadget = &sim.0.borrow().gadgets[0];
    assert_eq!((gadget.bulk_out[0].len(), gadget.bulk_out[1].len()), (65, 64));
}

#[test]
fn addresses_are_told_to_the_controller_past_the_cache() {
    let sim = Sim::new(vec![at_address(5, keyboard())]);
    let mut channel = sim.channel();
    sim.forget();
    assert_eq!(channel.control_setup(endpoint(5, 8), &[0, 9, 1, 0, 0, 0, 0, 0]), Ok(()));
    assert!(sim.0.borrow().changes.contains(&Change::DmaAddress {
        channel: 0,
        bus_address: 0xc000_0000 | STAGING,
    }));
    channel.delay_ms(7);
    assert_eq!(sim.0.borrow().delays, vec![7_000]);
    let before = channel.now_micros();
    assert_eq!(channel.now_micros(), before + 100);
}

/// What the application heard, and how much more it wants to hear.
#[derive(Default)]
struct Diary {
    events: Vec<Event>,
    patience: Option<usize>,
}

impl BusListener<Sim> for Diary {
    fn on_event(&mut self, _channel: &mut Channel<Sim>, event: Event) -> ControlFlow<()> {
        self.events.push(event);
        if self.patience == Some(self.events.len()) {
            return ControlFlow::Break(());
        }
        ControlFlow::Continue(())
    }
}

/// Hub, port, depth and address of each event; a device that went has no depth.
fn places(events: &[Event]) -> Vec<(u8, u8, Option<u8>, u8)> {
    let mut all = Vec::new();
    for event in events {
        all.push(match event {
            Event::Attached(device) => {
                (device.hub_address, device.port, Some(device.depth), device.endpoint.address)
            }
            Event::Detached { hub_address, port, address } => (*hub_address, *port, None, *address),
        });
    }
    all
}

/// A hub with a keyboard on port 1 and, on port 3, a hub with a mouse on port 2.
fn tree() -> Sim {
    Sim::new(vec![
        hub(vec![plugged(1, LOW_SPEED), Port::default(), plugged(2, HIGH_SPEED)]),
        keyboard(),
        hub(vec![Port::default(), plugged(3, LOW_SPEED)]),
        mouse(),
    ])
}

#[test]
fn the_bus_is_walked_from_the_root_down() {
    let sim = tree();
    let mut bus = Bus::new(sim.host());
    let mut diary = Diary::default();
    assert_eq!(bus.enumerate(&mut diary), Ok(()));
    assert_eq!(
        places(&diary.events),
        vec![(1, 1, Some(0), 2), (1, 3, Some(0), 3), (3, 2, Some(1), 4)]
    );
    let Event::Attached(board) = diary.events[0] else { panic!("no keyboard") };
    assert_eq!(board.endpoint, behind(2, 8, 1, 1));
    assert_eq!(board.descriptor.product_id, 0xc31c);
    let Event::Attached(inner) = diary.events[1] else { panic!("no hub") };
    assert_eq!(inner.endpoint, endpoint(3, 64));
    let Event::Attached(pointer) = diary.events[2] else { panic!("no mouse") };
    assert_eq!(pointer.endpoint, behind(4, 8, 3, 2));
    assert_eq!(bus.host().num_channels(), 8);
    let mut host = bus.into_host();
    assert_eq!(host.alloc_channel().unwrap().index(), 0);
}

#[test]
fn what_is_unplugged_is_told_from_the_leaves_up_and_its_addresses_are_used_again() {
    let sim = tree();
    let mut bus = Bus::new(sim.host());
    let mut diary = Diary::default();
    assert_eq!(bus.enumerate(&mut diary), Ok(()));
    diary.events.clear();
    assert_eq!(bus.poll(&mut diary), Ok(()));
    assert_eq!(diary.events, vec![]);

    sim.0.borrow_mut().gadgets[0].ports[2] = Port { status: 0x0100, change: 1, device: None };
    assert_eq!(bus.poll(&mut diary), Ok(()));
    assert_eq!(places(&diary.events), vec![(3, 2, None, 4), (1, 3, None, 3)]);

    diary.events.clear();
    sim.0.borrow_mut().gadgets[0].ports[1] = plugged(3, LOW_SPEED);
    assert_eq!(bus.poll(&mut diary), Ok(()));
    assert_eq!(places(&diary.events), vec![(1, 2, Some(0), 3)]);
}

#[test]
fn a_device_that_cannot_be_brought_up_is_left_alone_until_it_is_unplugged() {
    let sim = Sim::new(vec![hub(vec![plugged(1, LOW_SPEED)]), keyboard()]);
    sim.0.borrow_mut().gadgets[1].refuses = vec![6];
    let mut bus = Bus::new(sim.host());
    let mut diary = Diary::default();
    assert_eq!(bus.enumerate(&mut diary), Ok(()));
    sim.0.borrow_mut().gadgets[1].refuses = vec![];
    assert_eq!(bus.poll(&mut diary), Ok(()));
    assert_eq!(diary.events, vec![]);
    let kept = sim.0.borrow().gadgets[0].ports[0];
    sim.0.borrow_mut().gadgets[0].ports[0] = Port { status: 0x0100, change: 1, device: None };
    assert_eq!(bus.poll(&mut diary), Ok(()));
    assert_eq!(diary.events, vec![]);
    sim.0.borrow_mut().gadgets[0].ports[0] = kept;
    assert_eq!(bus.poll(&mut diary), Ok(()));
    assert_eq!(places(&diary.events), vec![(1, 1, Some(0), 2)]);
}

#[test]
fn an_application_that_has_heard_enough_ends_the_walk() {
    let sim = tree();
    let mut bus = Bus::new(sim.host());
    let mut diary = Diary { events: Vec::new(), patience: Some(1) };
    assert_eq!(bus.enumerate(&mut diary), Ok(()));
    assert_eq!(places(&diary.events), vec![(1, 1, Some(0), 2)]);
}

#[test]
fn the_reasons_for_enumeration_to_fail_are_told_apart() {
    let sim = tree();
    sim.0.borrow_mut().connected = false;
    let mut bus = Bus::new(sim.host());
    let mut diary = Diary::default();
    assert_eq!(bus.enumerate(&mut diary), Err(EnumerationError::NotConnected));

    let sim = tree();
    sim.0.borrow_mut().enabled = false;
    let mut bus = Bus::new(sim.host());
    assert_eq!(bus.enumerate(&mut diary), Err(EnumerationError::PortNotEnabled));

    let sim = tree();
    sim.0.borrow_mut().count = 0;
    let mut bus = Bus::new(sim.host());
    let only = bus.alloc_channel().unwrap();
    assert_eq!(bus.enumerate(&mut diary), Err(EnumerationError::OutOfChannels));
    // No hub is known, so there is nothing to look at.
    assert_eq!(bus.poll(&mut diary), Ok(()));
    bus.free_channel(only);
    assert_eq!(bus.enumerate(&mut diary), Ok(()));
    let only = bus.alloc_channel().unwrap();
    assert_eq!(bus.poll(&mut diary), Err(EnumerationError::OutOfChannels));
    bus.free_channel(only);
    assert_eq!(bus.poll(&mut diary), Ok(()));

    let sim = tree();
    sim.0.borrow_mut().gadgets[0].refuses = vec![5];
    let mut bus = Bus::new(sim.host());
    assert_eq!(
        bus.enumerate(&mut diary),
        Err(EnumerationError::Transfer(TransferError::Stall))
    );
    assert_eq!(
        EnumerationError::from(TransferError::Babble),
        EnumerationError::Transfer(TransferError::Babble)
    );

    let sim = tree();
    sim.0.borrow_mut().gadgets[0].hub.truncate(5);
    let mut bus = Bus::new(sim.host());
    assert_eq!(bus.enumerate(&mut diary), Err(EnumerationError::MalformedDescriptor));
}

#[test]
fn enumerating_again_forgets_what_was_known_even_if_it_fails() {
    let sim = tree();
    let mut bus = Bus::new(sim.host());
    let mut diary = Diary::default();
    assert_eq!(bus.enumerate(&mut diary), Ok(()));
    let attached = diary.events.len();
    sim.0.borrow_mut().connected = false;
    assert_eq!(bus.enumerate(&mut diary), Err(EnumerationError::NotConnected));
    sim.forget();
    assert_eq!(bus.poll(&mut diary), Ok(()));
    assert!(sim.starts().is_empty());
    sim.0.borrow_mut().connected = true;
    sim.0.borrow_mut().gadgets.iter_mut().for_each(|gadget| gadget.address = None);
    assert_eq!(bus.enumerate(&mut diary), Ok(()));
    assert_eq!(diary.events.len(), 2 * attached);
    assert_eq!(diary.events[..attached], diary.events[attached..]);
}

#[test]
fn more_hubs_than_can_be_tracked_end_the_walk() {
    let mut gadgets = vec![hub((1..=8).map(|device| plugged(device, HIGH_SPEED)).collect())];
    for _ in 0..8 {
        gadgets.push(hub(Vec::new()));
    }
    let sim = Sim::new(gadgets);
    let mut bus = Bus::new(sim.host());
    let mut diary = Diary::default();
    assert_eq!(bus.enumerate(&mut diary), Err(EnumerationError::TooManyHubs));
    assert_eq!(diary.events.len(), 8);
    assert_eq!(bus.poll(&mut diary), Ok(()));
}

#[test]
fn hubs_are_walked_to_a_depth_of_five() {
    let mut gadgets = Vec::new();
    for device in 1..8 {
        gadgets.push(hub(vec![plugged(device, HIGH_SPEED)]));
    }
    gadgets.push(keyboard());
    let sim = Sim::new(gadgets);
    let mut bus = Bus::new(sim.host());
    let mut diary = Diary::default();
    assert_eq!(bus.enumerate(&mut diary), Ok(()));
    assert_eq!(
        places(&diary.events),
        vec![(1, 1, Some(0), 2), (2, 1, Some(1), 3), (3, 1, Some(2), 4), (4, 1, Some(3), 5), (5, 1, Some(4), 6)]
    );
}

struct Finder {
    found: Rc<RefCell<Vec<u8>>>,
}

impl DeviceListener<Sim> for Finder {
    fn on_device(&mut self, _channel: &mut Channel<Sim>, device: Device) -> ControlFlow<()> {
        self.found.borrow_mut().push(device.endpoint.address);
        ControlFlow::Continue(())
    }
}

#[test]
fn a_listener_for_devices_hears_of_each_once() {
    let sim = tree();
    let found = Rc::new(RefCell::new(Vec::new()));
    let (mut bus, result) = enumerate(sim.host(), Finder { found: found.clone() });
    assert_eq!(result, Ok(()));
    assert_eq!(*found.borrow(), vec![2, 3, 4]);
    assert!(bus.alloc_channel().is_some());
}

#[test]
fn a_hub_says_how_its_ports_are() {
    let sim = Sim::new(vec![at_address(4, hub(vec![plugged(1, LOW_SPEED), Port::default()])), keyboard()]);
    let mut channel = sim.channel();
    sim.forget();
    let found = Hub::configure(&mut channel, endpoint(4, 64), true).unwrap();
    assert_eq!(sim.0.borrow().delays, vec![200_000]);
    assert_eq!(found.status_endpoint(), Some((1, 1)));
    assert_eq!(found.endpoint(), endpoint(4, 64));
    let status = found.port_status(&mut channel, 1).unwrap();
    assert_eq!(status, PortStatus(0x0301));
    assert!(status.connected() && status.low_speed() && !status.enabled() && !status.high_speed());
    let status = found.reset_port(&mut channel, 1).unwrap();
    assert!(status.enabled());
    assert_eq!(sim.0.borrow().gadgets[0].ports[0].change, 0);
    assert_eq!(found.split_target(1, &status), Some(SplitTarget { hub_address: 4, port: 1 }));
    assert_eq!(found.split_target(1, &PortStatus(0x0503)), None);
    let slow = Hub::configure(&mut channel, endpoint(4, 64), false).unwrap();
    assert_eq!(slow.split_target(1, &status), None);
    sim.0.borrow_mut().gadgets[0].config[1] = 4;
    assert_eq!(
        Hub::configure(&mut channel, endpoint(4, 64), true).err(),
        Some(EnumerationError::MalformedDescriptor)
    );
}

#[test]
fn descriptors_are_walked_by_their_lengths() {
    let config = keyboard().config;
    let mut walk = Descriptors::new(&config);
    let first = walk.next().unwrap();
    assert_eq!(ConfigurationDescriptor::parse(first).unwrap().value(), 7);
    let second = walk.next().unwrap();
    let interface = InterfaceDescriptor::parse(second).unwrap();
    assert_eq!((interface.number(), interface.class(), interface.subclass(), interface.protocol()), (2, 3, 1, 1));
    assert!(ConfigurationDescriptor::parse(second).is_none());
    assert_eq!(walk.next().unwrap()[1], 0x21);
    let last = EndpointDescriptor::parse(walk.next().unwrap()).unwrap();
    assert_eq!((last.number(), last.max_packet_size(), last.interval()), (1, 8, 10));
    assert!(last.is_in() && last.is_interrupt() && !last.is_bulk());
    assert!(walk.next().is_none());
}

#[test]
fn a_walk_of_descriptors_ends_where_one_makes_no_sense() {
    let mut walk = Descriptors::new(&[1, 2, 3]);
    assert!(walk.next().is_none());
    let mut walk = Descriptors::new(&[3, 4, 0, 9, 5]);
    assert_eq!(walk.next(), Some(&[3u8, 4, 0][..]));
    assert!(walk.next().is_none());
    assert!(walk.next().is_none());
}

#[test]
fn the_first_bulk_pair_of_an_interface_is_found() {
    let config = network(0x7800).config;
    let (inward, outward) = find_bulk_endpoints(&config).unwrap();
    assert_eq!(inward, BulkEndpoint { number: 1, max_packet_size: 512, toggle: false });
    assert_eq!(outward, BulkEndpoint { number: 2, max_packet_size: 512, toggle: false });
    assert!(find_bulk_endpoints(&keyboard().config).is_none());
    assert_eq!(find_status_endpoint(&hub(Vec::new()).config), Some((1, 1)));
    assert_eq!(find_status_endpoint(&config), Some((3, 16)));
}

#[test]
fn hid_interfaces_are_found_by_what_is_wanted() {
    let config = keyboard().config;
    let found = HidInterface::find(&config, Wanted::Boot(1)).unwrap();
    assert_eq!(
        found,
        HidInterface {
            interface: 2,
            endpoint: 1,
            max_packet_size: 8,
            interval: 10,
            report_descriptor_len: 63,
        }
    );
    assert_eq!(HidInterface::find(&config, Wanted::Any), Some(found));
    assert_eq!(HidInterface::all(&config), vec![found]);
    assert_eq!(HidInterface::find(&config, Wanted::Boot(2)), None);
    assert_eq!(HidInterface::find(&network(0x7800).config, Wanted::Any), None);
    assert_eq!(HidInterface::all(&network(0x7800).config), vec![]);
}

#[test]
fn every_hid_interface_is_listed_once_in_the_order_of_the_block() {
    let config = [
        9, 2, 71, 0, 2, 1, 0, 0xa0, 50, //
        9, 4, 1, 0, 2, 3, 0, 0, 0, //
        9, 0x21, 0x10, 1, 0, 1, 0x22, 7, 0, //
        7, 5, 0x84, 3, 16, 0, 4, //
        7, 5, 0x85, 3, 16, 0, 4, //
        9, 4, 1, 1, 1, 3, 0, 0, 0, //
        7, 5, 0x86, 3, 16, 0, 4, //
        9, 4, 0, 0, 1, 3, 0, 0, 0, //
        7, 5, 0x81, 3, 8, 0, 10,
    ];
    let found = HidInterface::all(&config);
    let told: Vec<(u8, u8, u16)> =
        found.iter().map(|one| (one.interface, one.endpoint, one.report_descriptor_len)).collect();
    assert_eq!(told, vec![(1, 4, 7), (0, 1, 0)]);
}

#[test]
fn a_report_descriptor_counts_only_if_it_is_in_the_table() {
    let config = |entries: u8| {
        [
            9, 2, 37, 0, 1, 1, 0, 0xa0, 50, //
            9, 4, 0, 0, 1, 3, 0, 0, 0, //
            12, 0x21, 0x10, 1, 0, entries, 0x23, 9, 0, 0x22, 63, 1, //
            7, 5, 0x81, 3, 8, 0, 10,
        ]
    };
    let told = |entries: u8| {
        HidInterface::find(&config(entries), Wanted::Any).unwrap().report_descriptor_len
    };
    assert_eq!([told(0), told(1), told(2), told(3)], [0, 0, 319, 319]);
}

fn found_at(address: u8, gadget: &Gadget) -> Device {
    Device {
        port: 1,
        hub_address: 1,
        depth: 0,
        endpoint: endpoint(address, 8),
        descriptor: DeviceDescriptor::from_bytes(&gadget.descriptor),
    }
}

#[test]
fn a_keyboard_tells_which_keys_changed() {
    let sim = Sim::new(vec![at_address(5, keyboard())]);
    let mut channel = sim.channel();
    let mut board = Keyboard::from_device(&mut channel, found_at(5, &keyboard())).unwrap().unwrap();
    assert_eq!((board.interface(), board.report_endpoint(), board.max_packet_size()), (2, 1, 8));
    assert_eq!(
        sim.requests(0)[2..],
        [
            [0x00, 9, 7, 0, 0, 0, 0, 0],
            [0x21, 0x0b, 0, 0, 2, 0, 0, 0],
            [0x21, 0x0a, 0, 0, 2, 0, 0, 0],
        ]
    );
    assert!(board.poll(&mut channel).unwrap().is_none());
    let pushes: [[u8; 8]; 3] = [[2, 0, 4, 5, 0, 0, 0, 0], [0, 0, 5, 6, 0, 0, 0, 0], [0, 0, 5, 6, 0, 0, 0, 0]];
    let mut all = Vec::new();
    for push in pushes {
        sim.0.borrow_mut().gadgets[0].interrupts.push_back(push.to_vec());
        let events = board.poll(&mut channel).unwrap().unwrap();
        assert_eq!(events.report().boot_report(), push);
        let mut iter = events.iter();
        while let Some(event) = iter.next() {
            all.push(event);
        }
    }
    assert_eq!(
        all,
        vec![
            KeyEvent::Pressed(4),
            KeyEvent::Pressed(5),
            KeyEvent::Released(4),
            KeyEvent::Pressed(6),
        ]
    );
    sim.0.borrow_mut().gadgets[0].interrupts.push_back(vec![0, 0, 4]);
    assert!(board.poll(&mut channel).unwrap().is_none());
    sim.halt_with(&[HCINT_CHH | HCINT_STALL]);
    assert_eq!(board.poll(&mut channel).err(), Some(TransferError::Stall));
}

#[test]
fn a_mouse_is_not_a_keyboard() {
    let sim = Sim::new(vec![at_address(5, mouse())]);
    let mut channel = sim.channel();
    assert!(Keyboard::from_device(&mut channel, found_at(5, &mouse())).unwrap().is_none());
    assert!(Mouse::from_device(&mut channel, found_at(5, &mouse())).unwrap().is_some());
    sim.0.borrow_mut().gadgets[0].refuses = vec![6];
    assert_eq!(
        Mouse::from_device(&mut channel, found_at(5, &mouse())).err(),
        Some(TransferError::Stall)
    );
}

#[test]
fn a_mouse_tells_movement_and_buttons() {
    let sim = Sim::new(vec![at_address(5, mouse())]);
    let mut channel = sim.channel();
    let mut pointer = Mouse::from_device(&mut channel, found_at(5, &mouse())).unwrap().unwrap();
    assert_eq!((pointer.interface(), pointer.report_endpoint(), pointer.max_packet_size()), (0, 2, 4));
    assert!(pointer.poll(&mut channel).unwrap().is_none());
    let report = vec![0b101, 0xff, 0x80, 0x01];
    sim.0.borrow_mut().gadgets[0].interrupts.push_back(report);
    let update = pointer.poll(&mut channel).unwrap().unwrap();
    assert_eq!((update.report().x, update.report().y, update.report().wheel), (-1, -128, 1));
    let mut events = update.button_events();
    assert_eq!(events.next(), Some(rpi_hal::usb::hid::mouse::ButtonEvent::Pressed(Button::Left)));
    assert_eq!(events.next(), Some(rpi_hal::usb::hid::mouse::ButtonEvent::Pressed(Button::Middle)));
    assert_eq!(events.next(), None);
    sim.0.borrow_mut().gadgets[0].interrupts.push_back(vec![0b100, 0, 0]);
    let update = pointer.poll(&mut channel).unwrap().unwrap();
    assert_eq!(update.report().wheel, 0);
    let mut events = update.button_events();
    assert_eq!(events.next(), Some(rpi_hal::usb::hid::mouse::ButtonEvent::Released(Button::Left)));
    assert_eq!(events.next(), None);
}

/// Takes a report descriptor for a gamepad if its first byte says so, and for one
/// with report numbers if its second does.
struct Reader;

impl ReportParser<usize> for Reader {
    fn parse(&mut self, descriptor: &[u8]) -> (usize, Verdict) {
        let verdict = Verdict {
            is_gamepad: descriptor.first() == Some(&5),
            uses_report_ids: descriptor.get(1) == Some(&1),
        };
        (descriptor.len(), verdict)
    }
}

fn pad(report: Vec<u8>) -> Gadget {
    Gadget {
        descriptor: described(0, 8, 0x054c, 0x09cc),
        config: vec![
            9, 2, 34, 0, 1, 1, 0, 0xa0, 50, //
            9, 4, 1, 0, 1, 3, 0, 0, 0, //
            9, 0x21, 0x10, 1, 0, 1, 0x22, report.len() as u8, 0, //
            7, 5, 0x84, 3, 16, 0, 4,
        ],
        report,
        ..Gadget::default()
    }
}

#[test]
fn a_gamepad_is_known_by_its_report_descriptor() {
    let sim = Sim::new(vec![at_address(5, pad(vec![5, 1, 9]))]);
    let mut channel = sim.channel();
    let mut probe = Probe::new(Reader);
    let mut found: Gamepad<usize> =
        Gamepad::from_device(&mut channel, &mut probe, found_at(5, &pad(vec![]))).unwrap().unwrap();
    assert_eq!((found.interface(), found.report_endpoint(), found.max_packet_size()), (1, 4, 16));
    assert_eq!(found.report_descriptor(), &3);
    assert_eq!(found.report_descriptor_bytes(), &[5, 1, 9]);
    assert_eq!(found.poll_interval_ms(), 1);
    let mut buf = [0u8; 64];
    assert!(found.poll(&mut channel, &mut buf).unwrap().is_none());
    sim.0.borrow_mut().gadgets[0].interrupts.push_back(vec![9, 1, 2]);
    let report = found.poll(&mut channel, &mut buf).unwrap().unwrap();
    assert_eq!((report.id, report.payload), (9, &[1u8, 2][..]));
    sim.halt_with(&[HCINT_CHH | HCINT_TXERR]);
    assert_eq!(found.poll(&mut channel, &mut buf).err(), Some(TransferError::TransactionError));
}

#[test]
fn a_gamepad_without_report_numbers_reports_as_number_zero() {
    let sim = Sim::new(vec![at_address(5, pad(vec![5, 2, 9]))]);
    let mut channel = sim.channel();
    let mut probe = Probe::new(Reader);
    let mut found: Gamepad<usize> =
        Gamepad::from_device(&mut channel, &mut probe, found_at(5, &pad(vec![]))).unwrap().unwrap();
    let mut buf = [0u8; 64];
    sim.0.borrow_mut().gadgets[0].interrupts.push_back(vec![9, 1, 2]);
    let report = found.poll(&mut channel, &mut buf).unwrap().unwrap();
    assert_eq!((report.id, report.payload), (0, &[9u8, 1, 2][..]));
    assert_eq!(buf[3..], [0u8; 61]);
}

#[test]
fn an_interface_that_hides_its_reports_does_not_hide_a_gamepad_declared_behind_it() {
    let mut gadget = at_address(5, pad(vec![5, 1, 9]));
    gadget.config = vec![
        9, 2, 59, 0, 2, 1, 0, 0xa0, 50, //
        9, 4, 1, 0, 1, 3, 0, 0, 0, //
        9, 0x21, 0x10, 1, 0, 1, 0x22, 3, 0, //
        7, 5, 0x84, 3, 16, 0, 4, //
        9, 4, 0, 0, 1, 3, 0, 0, 0, //
        9, 0x21, 0x10, 1, 0, 1, 0x22, 3, 0, //
        7, 5, 0x81, 3, 16, 0, 4,
    ];
    gadget.hides = Some(1);
    let sim = Sim::new(vec![gadget]);
    let mut channel = sim.channel();
    let mut probe = Probe::new(Reader);
    let found: Gamepad<usize> =
        Gamepad::from_device(&mut channel, &mut probe, found_at(5, &pad(vec![]))).unwrap().unwrap();
    assert_eq!((found.interface(), found.report_endpoint()), (0, 1));

    sim.0.borrow_mut().gadgets[0].hides = None;
    sim.0.borrow_mut().gadgets[0].refuses_report = true;
    let result: Result<Option<Gamepad<usize>>, GamepadError> =
        Gamepad::from_device(&mut channel, &mut probe, found_at(5, &pad(vec![])));
    assert_eq!(result.err(), Some(GamepadError::ReportDescriptor(1, TransferError::Stall)));
}

#[test]
fn the_steps_of_finding_a_gamepad_can_fail() {
    let cases = [
        (0u8, None),
        (6, Some(GamepadError::ConfigurationDescriptor(TransferError::Stall))),
        (9, Some(GamepadError::SetConfiguration(TransferError::Stall))),
    ];
    for (refused, error) in cases {
        let mut gadget = at_address(5, pad(vec![7, 1, 9]));
        gadget.refuses = vec![refused];
        let sim = Sim::new(vec![gadget]);
        let mut channel = sim.channel();
        let mut probe = Probe::new(Reader);
        let result: Result<Option<Gamepad<usize>>, GamepadError> =
            Gamepad::from_device(&mut channel, &mut probe, found_at(5, &pad(vec![])));
        match result {
            Ok(found) => assert!(found.is_none() && error.is_none()),
            Err(told) => assert_eq!(Some(told), error),
        }
    }
}

#[test]
fn a_report_descriptor_that_is_refused_is_told_at_the_end() {
    let mut gadget = at_address(5, pad(vec![5, 1, 9]));
    gadget.refuses_report = true;
    let sim = Sim::new(vec![gadget]);
    let mut channel = sim.channel();
    let mut probe = Probe::new(Reader);
    let result: Result<Option<Gamepad<usize>>, GamepadError> =
        Gamepad::from_device(&mut channel, &mut probe, found_at(5, &pad(vec![])));
    assert_eq!(result.err(), Some(GamepadError::ReportDescriptor(1, TransferError::Stall)));
}

/// An Ethernet chip.
fn network(product: u16) -> Gadget {
    Gadget {
        descriptor: described(0xff, 64, 0x0424, product),
        config: vec![
            9, 2, 39, 0, 1, 1, 0, 0xe0, 1, //
            9, 4, 0, 0, 3, 0xff, 0, 0xff, 0, //
            7, 5, 0x81, 2, 0, 2, 0, //
            7, 5, 0x02, 2, 0, 2, 0, //
            7, 5, 0x83, 3, 16, 0, 4,
        ],
        ..Gadget::default()
    }
}

const MAC: [u8; 6] = [0xb8, 0x27, 0xeb, 0x12, 0x34, 0x56];

#[test]
fn an_ethernet_address_is_two_words_and_comes_back() {
    assert_eq!(mac_words(&MAC), (0x12eb_27b8, 0x0000_5634));
    assert_eq!(mac_of(0x12eb_27b8, 0xffff_5634), MAC);
    assert!(link_up(0x0004) && !link_up(0xfffb));
    assert!(full_duplex(0x0140, 0x0040) && full_duplex(0x0100, 0x0100));
    assert!(!full_duplex(0x0100, 0x0040));
    assert_eq!(id_of(0x7800_0002), IdRevision { id: 0x7800, revision: 2 });
}

#[test]
fn a_lan7800_is_started_and_moves_frames() {
    let sim = Sim::new(vec![at_address(5, network(0x7800))]);
    let mut channel = sim.channel();
    let device = found_at(5, &network(0x7800));
    assert!(Lan9514::from_device(&mut channel, device).unwrap().is_none());
    let mut chip = Lan7800::from_device(&mut channel, device).unwrap().unwrap();
    assert_eq!(chip.endpoint(), device.endpoint);
    assert_eq!((chip.bulk_in_max_packet_size(), chip.bulk_out_max_packet_size()), (512, 512));
    sim.0.borrow_mut().gadgets[0].registers.insert(0, 0x7800_0002);
    assert_eq!(chip.id_revision(&mut channel), Ok(IdRevision { id: 0x7800, revision: 2 }));
    assert_eq!(chip.start(&mut channel, MAC), Ok(()));
    assert_eq!(chip.mac_address(&mut channel), Ok(MAC));
    {
        let world = sim.0.borrow();
        let registers = &world.gadgets[0].registers;
        assert_eq!(registers[&0x118], 0x0000_5634);
        assert_eq!(registers[&0x11c], 0x12eb_27b8);
        assert_eq!(registers[&0x400], 0x8000_5634);
        assert_eq!(registers[&0x404], 0x12eb_27b8);
        assert_eq!(registers[&0x0b0], 0x0000_0402);
        assert_eq!(registers[&0x104] & 1, 1);
        assert_eq!(registers[&0x108] & 1, 1);
        assert_eq!(registers[&0x0c0] & 0x8000_0000, 0x8000_0000);
        assert_eq!(registers[&0x0c4] & 0x8000_0000, 0x8000_0000);
    }
    assert_eq!(chip.set_all_multicast(&mut channel, true), Ok(()));
    assert_eq!(chip.set_promiscuous(&mut channel, true), Ok(()));
    assert_eq!(sim.0.borrow().gadgets[0].registers[&0x0b0], 0x0000_0702);
    assert_eq!(chip.set_all_multicast(&mut channel, false), Ok(()));
    assert_eq!(sim.0.borrow().gadgets[0].registers[&0x0b0], 0x0000_0502);
    assert_eq!(chip.phy_write(&mut channel, 1, 0x0024), Ok(()));
    assert_eq!(chip.phy_read(&mut channel, 1), Ok(0x0024));
    assert_eq!(chip.is_link_up(&mut channel), Ok(true));
    assert_eq!(chip.phy_write(&mut channel, 4, 0x0140), Ok(()));
    assert_eq!(chip.is_full_duplex(&mut channel), Ok(false));
    assert_eq!(chip.phy_write(&mut channel, 5, 0x0100), Ok(()));
    assert_eq!(chip.is_full_duplex(&mut channel), Ok(true));

    assert_eq!(chip.send_frame(&mut channel, &[9; 60]), Ok(()));
    assert_eq!(
        sim.0.borrow().gadgets[0].bulk_out[0][..10],
        [60, 0, 0x40, 0, 0, 0, 0, 0, 9, 9]
    );

    // Two frames with an errored one between them; each starts on a word.
    let mut transfer = Vec::new();
    for (length, fault, byte) in [(16u32, 0u32, 1u8), (16, 0x0010_0000, 2), (21, 0, 3)] {
        transfer.extend_from_slice(&(length | fault).to_le_bytes());
        transfer.extend_from_slice(&[0; 6]);
        transfer.extend_from_slice(&vec![byte; length as usize]);
        while transfer.len() % 4 != 0 {
            transfer.push(0);
        }
    }
    sim.0.borrow_mut().gadgets[0].bulk_in.push_back(transfer.clone());
    let mut frames = chip.receive_frames(&mut channel).unwrap();
    assert_eq!(frames.as_bytes(), &transfer[..]);
    assert_eq!(frames.next(), Some(&[1u8; 12][..]));
    assert_eq!(frames.next(), Some(&[3u8; 17][..]));
    assert_eq!(frames.next(), None);
    let mut frames = chip.receive_frames(&mut channel).unwrap();
    assert_eq!(frames.next(), None);
    let (rx, tx) = chip.split();
    assert!(rx.receive_frames(&mut channel).unwrap().next().is_none());
    assert_eq!(tx.send_frame(&mut channel, &[8; 14]), Ok(()));
}

#[test]
fn a_lan7800_that_stays_in_reset_times_out() {
    let mut gadget = at_address(5, network(0x7800));
    gadget.stuck = vec![0x010];
    let sim = Sim::new(vec![gadget]);
    let mut channel = sim.channel();
    let mut chip = Lan7800::from_endpoint(&mut channel, endpoint(5, 64)).unwrap().unwrap();
    assert_eq!(chip.reset(&mut channel), Err(TransferError::Timeout));
}

#[test]
fn a_lan9514_is_started_and_moves_frames() {
    let sim = Sim::new(vec![at_address(5, network(0xec00))]);
    let mut channel = sim.channel();
    let device = found_at(5, &network(0xec00));
    assert!(Lan7800::from_device(&mut channel, device).unwrap().is_none());
    let mut chip = Lan9514::from_device(&mut channel, device).unwrap().unwrap();
    assert_eq!(chip.start(&mut channel, MAC), Ok(()));
    assert_eq!(chip.mac_address(&mut channel), Ok(MAC));
    {
        let world = sim.0.borrow();
        let registers = &world.gadgets[0].registers;
        assert_eq!(registers[&0x104], 0x0000_5634);
        assert_eq!(registers[&0x108], 0x12eb_27b8);
        assert_eq!(registers[&0x100], 0x0010_000c);
        assert_eq!(registers[&0x10], 0x0000_0004);
        assert_eq!(registers[&0x24], 0x0111_0000);
    }
    assert_eq!(chip.set_duplex(&mut channel, false), Ok(()));
    assert_eq!(sim.0.borrow().gadgets[0].registers[&0x100], 0x0080_000c);
    assert_eq!(chip.set_duplex(&mut channel, true), Ok(()));
    assert_eq!(chip.set_all_multicast(&mut channel, true), Ok(()));
    assert_eq!(sim.0.borrow().gadgets[0].registers[&0x100], 0x0018_000c);
    assert_eq!(chip.is_link_up(&mut channel), Ok(false));
    sim.0.borrow_mut().gadgets[0].phy.insert(1, 0x0004);
    assert_eq!(chip.is_link_up(&mut channel), Ok(true));

    assert_eq!(chip.send_frame(&mut channel, &[9; 60]), Ok(()));
    assert_eq!(
        sim.0.borrow().gadgets[0].bulk_out[0][..10],
        [60, 0x30, 0, 0, 60, 0, 0, 0, 9, 9]
    );
    let transfer = lan9514_transfer();
    sim.0.borrow_mut().gadgets[0].bulk_in.push_back(transfer.clone());
    let mut frames = chip.receive_frames(&mut channel).unwrap();
    assert_eq!(frames.as_bytes(), &transfer[..]);
    assert_eq!(frames.next(), Some(&[1u8; 12][..]));
    assert_eq!(frames.next(), Some(&[3u8; 17][..]));
    assert_eq!(frames.next(), None);
    sim.halt_with(&[HCINT_CHH | HCINT_STALL]);
    assert_eq!(chip.receive_frames(&mut channel).err(), Some(TransferError::Stall));
}

/// Two good frames with an errored one between them, their checksums included.
fn lan9514_transfer() -> Vec<u8> {
    let mut transfer = Vec::new();
    for (length, fault, byte) in [(16u32, 0u32, 1u8), (16, 0x8000, 2), (21, 0, 3)] {
        transfer.extend_from_slice(&(length << 16 | fault).to_le_bytes());
        transfer.extend_from_slice(&vec![byte; length as usize]);
        while transfer.len() % 4 != 0 {
            transfer.push(0);
        }
    }
    transfer
}

#[test]
fn a_batch_hands_its_frames_out_one_by_one() {
    let mut batch = FrameBatch::new();
    assert!(batch.next_pending().is_none());
    batch.fill(&lan9514_transfer());
    assert_eq!(batch.next_pending(), Some(&[1u8; 12][..]));
    assert_eq!(batch.take().unwrap().bytes(), &[1u8; 12][..]);
    assert_eq!(batch.take().unwrap().bytes(), &[3u8; 17][..]);
    assert!(batch.take().is_none());
    assert!(batch.next_pending().is_none());
}

#[test]
fn a_phy_receives_from_its_batch_before_it_asks_the_chip() {
    let sim = Sim::new(vec![at_address(5, network(0xec00))]);
    let mut channel = sim.channel();
    let chip = Lan9514::from_endpoint(&mut channel, endpoint(5, 64)).unwrap().unwrap();
    let mut phy = Lan9514Phy::new(chip, channel);
    sim.0.borrow_mut().gadgets[0].bulk_in.push_back(lan9514_transfer());
    assert_eq!(phy.receive().unwrap().bytes(), &[1u8; 12][..]);
    assert!(sim.0.borrow().gadgets[0].bulk_in.is_empty());
    assert_eq!(phy.receive().unwrap().bytes(), &[3u8; 17][..]);
    assert!(phy.receive().is_none());
    let mut leave = phy.transmit();
    leave.prepare(20).copy_from_slice(&[4; 20]);
    leave.send(20);
    assert_eq!(sim.0.borrow().gadgets[0].bulk_out[0][8..], [4; 20]);
}

fn mtu_of<H: Dwc2Registers, E: Ethernet<H>>(_chip: &E) -> usize {
    E::mtu()
}

#[test]
fn both_chips_are_ethernet_and_can_be_used_alike() {
    let sim = Sim::new(vec![at_address(5, network(0xec00))]);
    let mut channel = sim.channel();
    let chip = Lan9514::from_endpoint(&mut channel, endpoint(5, 64)).unwrap().unwrap();
    assert_eq!(mtu_of::<Sim, Lan9514>(&chip), 1514);
    assert_eq!(lan7800::MTU, lan9514::MTU);
}

struct Firmware(Result<bool, MailboxError>, Vec<bool>);

impl Mailbox for Firmware {
    fn set_power_state(&mut self, device: PowerDeviceId, on: bool) -> Result<bool, MailboxError> {
        assert!(matches!(device, PowerDeviceId::UsbHcd));
        self.1.push(on);
        self.0
    }
}

#[test]
fn the_controller_is_powered_if_the_firmware_says_so() {
    for (answer, powered) in [(Ok(true), true), (Ok(false), false), (Err(MailboxError), false)] {
        let mut switch = PowerSwitch::new(Firmware(answer, Vec::new()));
        assert_eq!(power_on(&mut switch), powered);
        assert_eq!(switch.release().1, vec![true]);
    }
}

#[test]
fn a_device_has_its_address_before_the_next_is_reset() {
    let sim = tree();
    let mut bus = Bus::new(sim.host());
    assert_eq!(bus.enumerate(&mut Diary::default()), Ok(()));
    let log = sim.0.borrow().log.clone();
    assert_eq!(log, ["reset", "address"].repeat(4));
}

/// The channel that a change is about.
fn channel_of(change: Change) -> Option<u8> {
    match change {
        Change::ChannelMask { channel, .. }
        | Change::AckInterrupts { channel, .. }
        | Change::InterruptMask { channel, .. }
        | Change::Split { channel, .. }
        | Change::DmaAddress { channel, .. }
        | Change::TransferSize { channel, .. }
        | Change::Start { channel, .. }
        | Change::Disable { channel } => Some(channel),
        _ => None,
    }
}

#[test]
fn a_transfer_keeps_to_its_channel() {
    let sim = Sim::new(vec![at_address(5, keyboard())]);
    let mut host = sim.host();
    let _first = host.alloc_channel().unwrap();
    let mut second = host.alloc_channel().unwrap();
    sim.forget();
    let mut buffer = [0u8; 8];
    let mut toggle = false;
    get_device_descriptor(&mut second, endpoint(5, 8)).unwrap();
    let _ = second.interrupt_in(behind(5, 8, 2, 3), 1, &mut toggle, &mut buffer);
    let _ = second.bulk_out(endpoint(5, 8), 2, &mut toggle, &[1, 2, 3]);
    let changes = sim.0.borrow().changes.clone();
    assert!(changes.len() > 20);
    for change in changes {
        assert_eq!(channel_of(change), Some(1));
    }
}

#[test]
fn an_application_that_has_heard_enough_is_still_told_of_all_that_went() {
    let sim = tree();
    let mut bus = Bus::new(sim.host());
    let mut diary = Diary::default();
    assert_eq!(bus.enumerate(&mut diary), Ok(()));
    let mut hasty = Diary { events: Vec::new(), patience: Some(1) };
    sim.0.borrow_mut().gadgets[0].ports[2] = Port { status: 0x0100, change: 1, device: None };
    let _ = bus.poll(&mut hasty);
    assert_eq!(places(&hasty.events), vec![(3, 2, None, 4), (1, 3, None, 3)]);
}

//! The transport against firmware that reads and writes the same memory.

use std::cell::RefCell;
use std::rc::Rc;

use rpi_hal::vchiq::memory::{SharedPlatform, SharedPort};
use rpi_hal::vchiq::{Error, Event, ServiceId, SharedMemory, Stats, Vchiq};

const BASE: u32 = 0x0030_0000;
const MASTER: u32 = 32;
const SLAVE: u32 = 404;

struct Firmware {
    memory: Vec<u8>,
    log: Vec<String>,
    time: u64,
    uncached: Result<u32, u32>,
    status: Result<u32, u32>,
    starts: bool,
    connects: bool,
    /// How far the messages of the other side have been read.
    rx_pos: u32,
    /// How far messages have been written.
    tx_pos: u32,
    /// What services were called for, and what was said to them.
    heard: Vec<(u32, Vec<u8>)>,
    echoes: bool,
    /// Whether messages are read as soon as anything at all has been written.
    eager: bool,
}

#[derive(Clone)]
struct Side(Rc<RefCell<Firmware>>);

impl Firmware {
    fn word(&self, offset: u32) -> u32 {
        let at = offset as usize;
        u32::from_le_bytes([
            self.memory[at],
            self.memory[at + 1],
            self.memory[at + 2],
            self.memory[at + 3],
        ])
    }

    fn set(&mut self, offset: u32, value: u32) {
        let at = offset as usize;
        self.memory[at..at + 4].copy_from_slice(&value.to_le_bytes());
    }

    /// Writes a message, after padding if it would not fit into its slot.
    fn say(&mut self, id: u32, payload: &[u8]) {
        let space = (payload.len() as u32 + 15) & !7;
        let room = 4096 - self.tx_pos % 4096;
        if space > room {
            let at = self.place(self.tx_pos);
            self.set(at, 0);
            self.set(at + 4, room - 8);
            self.tx_pos += room;
        }
        let at = self.place(self.tx_pos);
        self.set(at, id);
        self.set(at + 4, payload.len() as u32);
        for (index, byte) in payload.iter().enumerate() {
            self.memory[at as usize + 8 + index] = *byte;
        }
        self.tx_pos += space;
        let tx_pos = self.tx_pos;
        self.set(MASTER + 28, tx_pos);
    }

    /// Where a position in this side's messages is.
    fn place(&self, pos: u32) -> u32 {
        let slot = self.word(MASTER + 72 + (pos / 4096 % 64) * 4);
        slot * 4096 + pos % 4096
    }

    /// Reads what the other side has written, and answers.
    fn serve(&mut self) {
        while self.rx_pos != self.word(SLAVE + 28) {
            let slot = self.word(SLAVE + 72 + (self.rx_pos / 4096 % 64) * 4);
            let at = slot * 4096 + self.rx_pos % 4096;
            let id = self.word(at);
            let len = self.word(at + 4);
            let start = (at + 8) as usize;
            let payload = self.memory[start..start + len as usize].to_vec();
            self.rx_pos += (len + 15) & !7;
            let port = id >> 12 & 0xfff;
            self.heard.push((id, payload.clone()));
            match id >> 24 {
                1 if self.connects => self.say(1 << 24, &[]),
                2 if payload[..4] == *b"none".iter().rev().copied().collect::<Vec<u8>>() => {
                    self.say(4 << 24 | port, &[]);
                }
                2 if payload[..4] == *b"mute" => {}
                2 => self.say(3 << 24 | (40 + port) << 12 | port, &[]),
                5 if self.echoes => self.say(5 << 24 | (40 + port) << 12 | port, &payload),
                6 => self.say(8 << 24 | port, &payload[4..8]),
                7 => self.say(9 << 24 | port, &payload[4..8]),
                _ => {}
            }
        }
    }
}

impl Side {
    fn new() -> Side {
        Side(Rc::new(RefCell::new(Firmware {
            memory: vec![0; 0x20_0000],
            log: Vec::new(),
            time: 0,
            uncached: Ok(0),
            status: Ok(0),
            starts: true,
            connects: true,
            rx_pos: 0,
            tx_pos: 0,
            heard: Vec::new(),
            echoes: true,
            eager: false,
        })))
    }

    fn link(&self) -> Result<Vchiq<Side>, Error> {
        let port = SharedPort::new(self.clone());
        Vchiq::new(SharedMemory::default(), port).map_err(|failed| failed.0)
    }

    /// A transport with a service open on it.
    fn service(&self) -> (Vchiq<Side>, ServiceId) {
        let mut vchiq = self.link().ok().unwrap();
        vchiq.connect().unwrap();
        let service = vchiq.open_service(*b"mmal", 16, 10).unwrap();
        (vchiq, service)
    }
}

impl SharedPlatform for Side {
    fn locate(&mut self, _memory: &SharedMemory) -> u32 {
        BASE
    }

    fn set_uncached(&mut self, address: u32, len: u32) -> Result<u32, u32> {
        assert_eq!((address, len), (BASE, 0x20_0000));
        self.0.borrow().uncached
    }

    fn hand_over(&mut self, bus_address: u32) -> Result<u32, u32> {
        assert_eq!(bus_address, 0xc000_0000 | BASE);
        let mut firmware = self.0.borrow_mut();
        let first = firmware.word(MASTER + 4);
        let last = firmware.word(MASTER + 8);
        for (position, slot) in (first..=last).enumerate() {
            firmware.set(MASTER + 72 + position as u32 * 4, slot);
        }
        let count = last - first + 1;
        firmware.set(MASTER + 44, count);
        firmware.set(MASTER + 16, 1);
        let starts = u32::from(firmware.starts);
        firmware.set(MASTER, starts);
        firmware.status
    }

    fn read(&mut self, address: u32) -> u32 {
        self.0.borrow().word(address - BASE)
    }

    fn write(&mut self, address: u32, value: u32) {
        self.0.borrow_mut().set(address - BASE, value);
        if self.0.borrow().eager {
            self.0.borrow_mut().serve();
        }
    }

    fn read_half(&mut self, address: u32) -> u16 {
        let firmware = self.0.borrow();
        let at = (address - BASE) as usize;
        u16::from_le_bytes([firmware.memory[at], firmware.memory[at + 1]])
    }

    fn write_half(&mut self, address: u32, value: u16) {
        let mut firmware = self.0.borrow_mut();
        let at = (address - BASE) as usize;
        firmware.memory[at..at + 2].copy_from_slice(&value.to_le_bytes());
    }

    fn read_byte(&mut self, address: u32) -> u8 {
        self.0.borrow().memory[(address - BASE) as usize]
    }

    fn write_byte(&mut self, address: u32, value: u8) {
        self.0.borrow_mut().memory[(address - BASE) as usize] = value;
        if self.0.borrow().eager {
            self.0.borrow_mut().serve();
        }
    }

    fn barrier(&mut self) {}

    fn ring_doorbell(&mut self) {
        self.0.borrow_mut().log.push(format!("doorbell"));
    }

    fn now_micros(&mut self) -> u64 {
        let mut firmware = self.0.borrow_mut();
        firmware.time += 1000;
        firmware.serve();
        firmware.time
    }

    fn clean_range(&mut self, address: u32, len: usize) {
        self.0.borrow_mut().log.push(format!("clean {address:x} {len}"));
    }

    fn invalidate_range(&mut self, address: u32, len: usize) {
        self.0.borrow_mut().log.push(format!("invalidate {address:x} {len}"));
    }

    fn clean_invalidate_range(&mut self, address: u32, len: usize) {
        self.0.borrow_mut().log.push(format!("both {address:x} {len}"));
    }
}

#[test]
fn slot_zero_says_how_the_memory_is_shared() {
    let side = Side::new();
    assert!(side.link().is_ok());
    let firmware = side.0.borrow();
    assert_eq!(firmware.word(0), 0x5643_4849);
    assert_eq!(firmware.word(4), 0x0003_0008);
    assert_eq!(
        (firmware.word(8), firmware.word(12), firmware.word(16), firmware.word(20)),
        (1288, 4096, 128, 64)
    );
    assert_eq!(firmware.word(24), 0xc000_0000 | BASE + 65 * 4096);
    assert_eq!(firmware.word(28), 64);
    // Each side's sync slot and the slots for its messages.
    assert_eq!(
        (firmware.word(MASTER + 12), firmware.word(MASTER + 4), firmware.word(MASTER + 8)),
        (1, 2, 32)
    );
    assert_eq!(
        (firmware.word(SLAVE + 12), firmware.word(SLAVE + 4), firmware.word(SLAVE + 8)),
        (33, 34, 64)
    );
    assert_eq!((firmware.word(SLAVE + 72), firmware.word(SLAVE + 72 + 30 * 4)), (34, 64));
    assert_eq!(firmware.word(SLAVE + 44), 31);
    assert_eq!(firmware.word(SLAVE), 1);
}

#[test]
fn bringing_the_transport_up_can_fail() {
    let side = Side::new();
    side.0.borrow_mut().uncached = Err(3);
    assert_eq!(side.link().err(), Some(Error::Mmu(3)));

    let side = Side::new();
    side.0.borrow_mut().status = Err(4);
    assert_eq!(side.link().err(), Some(Error::Mailbox(4)));

    let side = Side::new();
    side.0.borrow_mut().status = Ok(5);
    assert_eq!(side.link().err(), Some(Error::SlotsRejected(5)));

    let side = Side::new();
    side.0.borrow_mut().starts = false;
    assert_eq!(side.link().err(), Some(Error::FirmwareNotReady));

    let side = Side::new();
    side.0.borrow_mut().connects = false;
    assert_eq!(side.link().ok().unwrap().connect(), Err(Error::Timeout));
}

#[test]
fn a_transport_that_did_not_come_up_can_be_tried_again() {
    let side = Side::new();
    side.0.borrow_mut().status = Ok(5);
    let port = SharedPort::new(side.clone());
    let (error, port) = Vchiq::new(SharedMemory::default(), port).err().unwrap();
    assert_eq!(error, Error::SlotsRejected(5));
    side.0.borrow_mut().status = Ok(0);
    assert!(Vchiq::new(SharedMemory::default(), port).is_ok());
}

#[test]
fn a_service_is_opened_by_name() {
    let side = Side::new();
    let mut vchiq = side.link().ok().unwrap();
    assert_eq!(vchiq.open_service(*b"mmal", 16, 10).err(), Some(Error::NotConnected));
    vchiq.connect().unwrap();
    vchiq.open_service(*b"mmal", 16, 10).unwrap();
    let firmware = side.0.borrow();
    assert_eq!(firmware.heard[0], (1 << 24, vec![]));
    assert_eq!(
        firmware.heard[1],
        (2 << 24, vec![b'l', b'a', b'm', b'm', 1, 0, 0, 0, 16, 0, 10, 0])
    );
    drop(firmware);
    assert_eq!(
        vchiq.stats(),
        Stats { messages_sent: 2, messages_received: 2, ..Stats::default() }
    );
    assert!(side.0.borrow().log.contains(&format!("doorbell")));
}

#[test]
fn services_can_be_refused_or_run_out() {
    let side = Side::new();
    let mut vchiq = side.link().ok().unwrap();
    vchiq.connect().unwrap();
    assert_eq!(vchiq.open_service(*b"none", 1, 1).err(), Some(Error::ServiceRefused));
    assert_eq!(vchiq.open_service(*b"etum", 1, 1).err(), Some(Error::Timeout));
    for _ in 0..4 {
        assert!(vchiq.open_service(*b"mmal", 1, 1).is_ok());
    }
    assert_eq!(vchiq.open_service(*b"mmal", 1, 1).err(), Some(Error::TooManyServices));
}

#[test]
fn a_service_that_was_told_as_closed_makes_room_for_another() {
    let side = Side::new();
    let mut vchiq = side.link().ok().unwrap();
    vchiq.connect().unwrap();
    let mut none = [0u8; 0];
    let mut services = Vec::new();
    for _ in 0..4 {
        services.push(vchiq.open_service(*b"mmal", 1, 1).unwrap());
    }
    // As long as the firmware has not answered, the ports are in use.
    for service in services.iter() {
        vchiq.close_service(*service).unwrap();
    }
    assert_eq!(vchiq.open_service(*b"mmal", 1, 1).err(), Some(Error::TooManyServices));
    for port in 0..4 {
        side.0.borrow_mut().say(4 << 24 | (40 + port) << 12 | port, &[]);
    }
    for service in services.iter() {
        assert_eq!(vchiq.poll(&mut none), Ok(Some(Event::ServiceClosed(*service))));
        assert_eq!(vchiq.send(*service, &[1]), Err(Error::NotConnected));
    }
    for service in services.iter() {
        assert_eq!(vchiq.open_service(*b"mmal", 1, 1), Ok(*service));
    }
    // One that the firmware closes makes room, too.
    side.0.borrow_mut().say(4 << 24 | 42 << 12 | 2, &[]);
    assert_eq!(vchiq.poll(&mut none), Ok(Some(Event::ServiceClosed(services[2]))));
    assert_eq!(vchiq.open_service(*b"mmal", 1, 1), Ok(services[2]));
    assert_eq!(vchiq.open_service(*b"mmal", 1, 1).err(), Some(Error::TooManyServices));
}

#[test]
fn what_is_sent_is_heard_and_what_is_said_arrives() {
    let side = Side::new();
    let (mut vchiq, service) = side.service();
    vchiq.send(service, &[1, 2, 3, 4, 5]).unwrap();
    side.0.borrow_mut().serve();
    assert_eq!(side.0.borrow().heard[2], (5 << 24 | 40, vec![1, 2, 3, 4, 5]));
    let mut buffer = [0xee; 8];
    assert_eq!(vchiq.poll(&mut buffer), Ok(Some(Event::Message { service, len: 5 })));
    assert_eq!(buffer, [1, 2, 3, 4, 5, 0xee, 0xee, 0xee]);
    assert_eq!(vchiq.poll(&mut buffer), Ok(None));
    vchiq.send(service, &[7; 20]).unwrap();
    side.0.borrow_mut().serve();
    let mut small = [0u8; 4];
    assert_eq!(vchiq.poll(&mut small), Ok(Some(Event::Message { service, len: 20 })));
    assert_eq!(small, [7; 4]);
    assert_eq!(vchiq.stats().data_received, 2);
}

#[test]
fn a_message_never_straddles_two_slots() {
    let side = Side::new();
    let (mut vchiq, service) = side.service();
    side.0.borrow_mut().echoes = false;
    for round in 0..60u8 {
        vchiq.send(service, &[round; 1500]).unwrap();
        side.0.borrow_mut().serve();
        // The firmware hands every slot back as soon as it has read it.
        let mut firmware = side.0.borrow_mut();
        let recycled = 31 + firmware.rx_pos / 4096;
        for position in 31..recycled {
            let slot = firmware.word(SLAVE + 72 + (position - 31) % 64 * 4);
            firmware.set(SLAVE + 72 + position % 64 * 4, slot);
        }
        firmware.set(SLAVE + 44, recycled);
        drop(firmware);
        let mut none = [0u8; 0];
        assert_eq!(vchiq.poll(&mut none), Ok(None));
    }
    let firmware = side.0.borrow();
    let mut data = Vec::new();
    for (id, payload) in firmware.heard.iter() {
        if id >> 24 == 5 {
            data.push(payload.clone());
        }
    }
    assert_eq!(data.len(), 60);
    for (round, payload) in data.iter().enumerate() {
        assert_eq!(*payload, vec![round as u8; 1500]);
    }
}

#[test]
fn slots_run_out_if_the_firmware_does_not_read() {
    let side = Side::new();
    let (mut vchiq, service) = side.service();
    let mut sent = 0;
    while vchiq.send(service, &[0; 4088]).is_ok() {
        sent += 1;
    }
    // One slot is begun by the messages that opened the service.
    assert_eq!(sent, 30);
    assert_eq!(vchiq.send(service, &[0; 4088]), Err(Error::OutOfSlots));
    assert_eq!(vchiq.send(service, &[0; 4089]), Err(Error::MessageTooLong));
}

#[test]
fn a_slot_that_has_been_read_is_handed_back() {
    let side = Side::new();
    let (mut vchiq, service) = side.service();
    side.0.borrow_mut().say(5 << 24 | 40 << 12, &[1; 3000]);
    side.0.borrow_mut().say(5 << 24 | 40 << 12, &[2; 3000]);
    let mut buffer = [0u8; 3000];
    assert_eq!(vchiq.poll(&mut buffer), Ok(Some(Event::Message { service, len: 3000 })));
    assert_eq!(vchiq.stats().slots_recycled, 0);
    assert_eq!(vchiq.poll(&mut buffer), Ok(Some(Event::Message { service, len: 3000 })));
    assert_eq!(buffer, [2; 3000]);
    assert_eq!(vchiq.stats().slots_recycled, 1);
    let firmware = side.0.borrow();
    assert_eq!(firmware.word(MASTER + 44), 32);
    assert_eq!(firmware.word(MASTER + 72 + 31 * 4), 2);
    // The padding was skipped, and counted.
    drop(firmware);
    assert_eq!(vchiq.stats().messages_skipped, 1);
    assert_eq!(vchiq.stats().last_skipped_type, 0);
}

#[test]
fn bulk_transfers_are_done_in_the_order_they_were_asked_for() {
    let side = Side::new();
    let (mut vchiq, service) = side.service();
    vchiq.bulk_transmit(service, 0x0100_0010, 5000, 11).unwrap();
    vchiq.bulk_receive(service, 0x0200_0000, 4096, 12).unwrap();
    vchiq.bulk_transmit(service, 0x0110_0000, 16, 13).unwrap();
    {
        let firmware = side.0.borrow();
        // The page list of the first: its length, its kind with the offset in the
        // first page, and the pages.
        let list = 67 * 4096;
        assert_eq!(firmware.word(list), 5000);
        assert_eq!(firmware.word(list + 4), 0x0010_0000);
        assert_eq!(firmware.word(list + 8), 0xc100_0001);
        let list = 67 * 4096 + 4 * 64;
        assert_eq!(firmware.word(list), 4096);
        assert_eq!(firmware.word(list + 4), 1);
        assert_eq!(firmware.word(list + 8), 0xc200_0000);
        assert!(firmware.log.contains(&format!("clean 1000010 5000")));
        assert!(firmware.log.contains(&format!("both 2000000 4096")));
    }
    side.0.borrow_mut().serve();
    let mut none = [0u8; 0];
    assert_eq!(
        vchiq.poll(&mut none),
        Ok(Some(Event::BulkTransmitDone { context: 11, actual: 5000 }))
    );
    assert_eq!(
        vchiq.poll(&mut none),
        Ok(Some(Event::BulkReceiveDone { context: 12, actual: 4096 }))
    );
    assert_eq!(
        vchiq.poll(&mut none),
        Ok(Some(Event::BulkTransmitDone { context: 13, actual: 16 }))
    );
    assert!(side.0.borrow().log.contains(&format!("invalidate 2000000 4096")));
    let stats = vchiq.stats();
    assert_eq!((stats.bulk_transmits, stats.bulk_transmits_done), (2, 2));
    assert_eq!((stats.bulk_receives, stats.bulk_receives_done), (1, 1));
}

#[test]
fn only_so_many_bulk_transfers_fit_in_flight() {
    let side = Side::new();
    let (mut vchiq, service) = side.service();
    for context in 0..4 {
        vchiq.bulk_transmit(service, 0x0100_0000, 16, context).unwrap();
        vchiq.bulk_receive(service, 0x0100_0000, 16, context).unwrap();
    }
    assert_eq!(
        vchiq.bulk_transmit(service, 0x0100_0000, 16, 9),
        Err(Error::TooManyBulks { receive: false })
    );
    assert_eq!(
        vchiq.bulk_receive(service, 0x0100_0000, 16, 9),
        Err(Error::TooManyBulks { receive: true })
    );
    assert_eq!(
        vchiq.bulk_receive(service, 0x0100_0000, 0, 9),
        Err(Error::TooManyBulks { receive: true })
    );
}

#[test]
fn a_transfer_that_could_not_be_asked_for_is_not_in_flight() {
    let side = Side::new();
    let (mut vchiq, service) = side.service();
    side.0.borrow_mut().echoes = false;
    while vchiq.send(service, &[0; 4088]).is_ok() {}
    for _ in 0..5 {
        assert_eq!(
            vchiq.bulk_transmit(service, 0x0100_0000, 16, 1),
            Err(Error::OutOfSlots)
        );
        assert_eq!(
            vchiq.bulk_receive(service, 0x0100_0000, 16, 2),
            Err(Error::OutOfSlots)
        );
    }
    assert_eq!((vchiq.stats().bulk_transmits, vchiq.stats().bulk_receives), (0, 0));
    // Once the firmware has read its messages, the same request goes through, and the
    // completion is of that one.
    {
        let mut firmware = side.0.borrow_mut();
        firmware.serve();
        let first = firmware.word(SLAVE + 72);
        firmware.set(SLAVE + 72 + 31 * 4, first);
        firmware.set(SLAVE + 44, 32);
    }
    let mut none = [0u8; 0];
    assert_eq!(vchiq.poll(&mut none), Ok(None));
    vchiq.bulk_transmit(service, 0x0100_0000, 16, 3).unwrap();
    let written = side.0.borrow().word(SLAVE + 28);
    side.0.borrow_mut().rx_pos = written;
    side.0.borrow_mut().say(9 << 24, &16u32.to_le_bytes());
    assert_eq!(
        vchiq.poll(&mut none),
        Ok(Some(Event::BulkTransmitDone { context: 3, actual: 16 }))
    );
    assert_eq!((vchiq.stats().bulk_transmits, vchiq.stats().bulk_transmits_done), (1, 1));
    side.0.borrow_mut().say(8 << 24, &16u32.to_le_bytes());
    assert_eq!(vchiq.poll(&mut none), Err(Error::Protocol));
}

#[test]
fn a_completion_that_nobody_asked_for_is_an_error() {
    let mut none = [0u8; 0];
    for id in [8u32 << 24, 9 << 24, 6 << 24, 7 << 24] {
        let side = Side::new();
        let (mut vchiq, _) = side.service();
        side.0.borrow_mut().say(id, &[0; 8]);
        assert_eq!(vchiq.poll(&mut none), Err(Error::Protocol));
    }
}

#[test]
fn a_transfer_that_was_aborted_moved_nothing() {
    let side = Side::new();
    let (mut vchiq, service) = side.service();
    side.0.borrow_mut().echoes = false;
    vchiq.bulk_receive(service, 0x0100_0000, 16, 9).unwrap();
    let written = side.0.borrow().word(SLAVE + 28);
    side.0.borrow_mut().rx_pos = written;
    side.0.borrow_mut().say(8 << 24, &0xffff_ffffu32.to_le_bytes());
    let mut none = [0u8; 0];
    assert_eq!(
        vchiq.poll(&mut none),
        Ok(Some(Event::BulkReceiveDone { context: 9, actual: 0 }))
    );
}

#[test]
fn a_service_that_is_closed_takes_no_more() {
    let side = Side::new();
    let (mut vchiq, service) = side.service();
    side.0.borrow_mut().say(4 << 24 | 40 << 12, &[]);
    let mut none = [0u8; 0];
    assert_eq!(vchiq.poll(&mut none), Ok(Some(Event::ServiceClosed(service))));
    side.0.borrow_mut().serve();
    assert_eq!(side.0.borrow().heard.last(), Some(&(4 << 24 | 40, vec![])));
    assert_eq!(vchiq.send(service, &[1]), Err(Error::NotConnected));
    assert_eq!(vchiq.bulk_transmit(service, 0x1000, 4, 1), Err(Error::NotConnected));
    assert_eq!(vchiq.bulk_transmit(service, 0x1000, 0, 1), Err(Error::NotConnected));

    let (mut vchiq, service) = Side::new().service();
    assert_eq!(vchiq.close_service(service), Ok(()));
    assert_eq!(vchiq.send(service, &[1]), Err(Error::NotConnected));
}

#[test]
fn messages_for_nobody_are_passed_over() {
    let side = Side::new();
    let (mut vchiq, service) = side.service();
    side.0.borrow_mut().say(5 << 24 | 9, &[1]);
    side.0.borrow_mut().say(3 << 24 | 1, &[]);
    side.0.borrow_mut().say(4 << 24 | 99, &[]);
    side.0.borrow_mut().say(17 << 24, &[]);
    side.0.borrow_mut().say(5 << 24, &[6]);
    let mut buffer = [0u8; 1];
    assert_eq!(vchiq.poll(&mut buffer), Ok(Some(Event::Message { service, len: 1 })));
    assert_eq!(buffer, [6]);
    assert_eq!(vchiq.stats().messages_skipped, 1);
    assert_eq!(vchiq.stats().last_skipped_type, 17);
}

#[test]
fn a_transfer_in_flight_keeps_its_page_list() {
    let side = Side::new();
    let (mut vchiq, service) = side.service();
    vchiq.bulk_transmit(service, 0x0100_0000, 100, 1).unwrap();
    vchiq.bulk_transmit(service, 0x0200_0000, 200, 2).unwrap();
    let written = side.0.borrow().word(SLAVE + 28);
    side.0.borrow_mut().rx_pos = written;
    side.0.borrow_mut().say(9 << 24, &100u32.to_le_bytes());
    let mut none = [0u8; 0];
    assert_eq!(
        vchiq.poll(&mut none),
        Ok(Some(Event::BulkTransmitDone { context: 1, actual: 100 }))
    );
    // The second transfer is now the oldest, but its page list is still the second.
    vchiq.bulk_transmit(service, 0x0300_0000, 300, 3).unwrap();
    let firmware = side.0.borrow();
    let lists = 67 * 4096;
    assert_eq!((firmware.word(lists), firmware.word(lists + 64)), (300, 200));
    drop(firmware);
    side.0.borrow_mut().serve();
    let firmware = side.0.borrow();
    let (id, payload) = firmware.heard.last().unwrap();
    assert_eq!(*id, 7 << 24 | 40);
    assert_eq!(payload[..4], (0xc000_0000 | BASE + lists).to_le_bytes());
}

#[test]
fn firmware_that_looks_after_every_write_sees_whole_messages_only() {
    let side = Side::new();
    let (mut vchiq, service) = side.service();
    {
        let mut firmware = side.0.borrow_mut();
        firmware.echoes = false;
        firmware.eager = true;
        firmware.heard.clear();
    }
    for length in [1usize, 8, 100, 3000, 2000, 4088] {
        vchiq.send(service, &vec![length as u8; length]).unwrap();
    }
    let firmware = side.0.borrow();
    let mut lengths = Vec::new();
    for (id, payload) in firmware.heard.iter() {
        if id >> 24 == 5 {
            assert!(payload.iter().all(|byte| *byte == payload.len() as u8));
            lengths.push(payload.len());
        }
    }
    assert_eq!(lengths, vec![1, 8, 100, 3000, 2000, 4088]);
}

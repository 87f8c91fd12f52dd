//! The LAN9514, a USB hub with an Ethernet chip behind it.

use vstd::prelude::*;

use crate::bytes;
use crate::bytes::{u32_bytes, u32_from};
use crate::program::Program;
use crate::usb::chip;
use crate::usb::chip::{
    full_duplex, link_up, mac_of, mac_words, phy_read_steps, phy_read_two_steps, switch_steps,
    Instruction, Mii, PHY_REG_ADVERTISE, PHY_REG_LINK_PARTNER, PHY_REG_STATUS,
};
use crate::usb::control;
use crate::usb::descriptor::BulkEndpoint;
use crate::usb::dwc2::hardware::Dwc2Registers;
use crate::usb::dwc2::{Channel, ControlEndpoint, Reply, Transfer, TransferError, UsbProgram};
use crate::usb::ethernet;
use crate::usb::ethernet::{id_of, Ethernet, FrameWalk, IdRevision};
use crate::usb::pipe;
use crate::usb::pipe::{adopt, attach, PipeState, RxPipe, TxPipe, FRAME_BUFFER_SIZE, MAX_STAGED};
use crate::usb::session::Device;

pub mod batch;
pub mod faults;

verus! {

broadcast use crate::program::group_program;

pub const VENDOR_ID: u16 = 0x0424;

pub const PRODUCT_ID: u16 = 0xEC00;

/// The longest Ethernet frame, without its CRC.
pub const MTU: usize = 1514;

pub const REG_ID_REV: u16 = 0x00;

pub const REG_TX_CFG: u16 = 0x10;

pub const REG_HW_CFG: u16 = 0x14;

pub const REG_RX_FIFO_INF: u16 = 0x18;

pub const REG_LED_GPIO_CFG: u16 = 0x24;

pub const REG_MAC_CR: u16 = 0x100;

pub const REG_ADDRH: u16 = 0x104;

pub const REG_ADDRL: u16 = 0x108;

pub const REG_MII_ADDR: u16 = 0x114;

pub const REG_MII_DATA: u16 = 0x118;

/// With nothing to deliver the chip answers with an empty packet, not NAK.
pub const HW_CFG_BIR: u32 = 0x0000_1000;

/// Bytes between the status of a frame and the frame.
pub const HW_CFG_RXDOFF: u32 = 0x0000_0600;

/// The LEDs show speed, link and duplex.
pub const LED_GPIO_CFG_LEDS: u32 = 0x0111_0000;

/// The receiver does not hear the transmitter.
pub const MAC_CR_RCVOWN: u32 = 0x0080_0000;

/// Full duplex.
pub const MAC_CR_FDPX: u32 = 0x0010_0000;

/// Let every multicast in.
pub const MAC_CR_MCPAS: u32 = 0x0008_0000;

/// Full duplex, with the transmitter and the receiver enabled.
pub const MAC_CR_START: u32 = 0x0010_000C;

/// The path to the transmitter is enabled.
pub const TX_CFG_ON: u32 = 0x0000_0004;

/// The frame is the whole of a transfer: its first segment and its last.
pub const TX_CMD_A_WHOLE: u32 = 0x0000_3000;

/// Something is wrong with a received frame.
pub const RX_STATUS_ERROR: u32 = 0x0000_8000;

/// The bytes in front of a frame that is received.
pub const RX_STATUS_SIZE: usize = 4;

/// Where the PHY is reached.
pub open spec fn mii() -> Mii {
    Mii { access: REG_MII_ADDR, data: REG_MII_DATA }
}

/// The next multiple of four.
pub open spec fn aligned(at: int) -> int {
    at + (4 - at % 4) % 4
}

/// The frames in a received transfer from a place on. Each has a status in front
/// that tells its length, with its CRC, and whether anything is wrong with it;
/// such a frame is left out. A length that cannot be ends the transfer.
#[verifier::opaque]
pub open spec fn frames_in(buffer: Seq<u8>, at: int) -> Seq<Seq<u8>>
    decreases buffer.len() + 4 - at,
{
    if at < 0 || at + RX_STATUS_SIZE > buffer.len() {
        Seq::empty()
    } else {
        let status = bytes::le32(buffer[at], buffer[at + 1], buffer[at + 2], buffer[at + 3]);
        let length = status as int / 65536 % 0x4000;
        let start = at + RX_STATUS_SIZE;
        if length <= 4 || length > MTU + 4 || start + length > buffer.len() {
            Seq::empty()
        } else {
            let rest = frames_in(buffer, aligned(start + length));
            if status & RX_STATUS_ERROR != 0 {
                rest
            } else {
                seq![buffer.subrange(start, start + length - 4)] + rest
            }
        }
    }
}

/// A frame as the chip delivers it.
pub struct Delivered {
    pub frame: Seq<u8>,
    /// What else the status says: that nothing is wrong, among others.
    pub note: u16,
    pub crc: Seq<u8>,
    /// What is between this frame and the next.
    pub filler: Seq<u8>,
}

impl Delivered {
    /// The status of it.
    pub open spec fn status(self) -> u32 {
        ((self.frame.len() + 4) * 65536 + self.note) as u32
    }

    /// The parts have the lengths that they have on the wire, and nothing is wrong.
    pub open spec fn wf(self) -> bool {
        &&& 1 <= self.frame.len() <= MTU
        &&& self.note < RX_STATUS_ERROR
        &&& self.crc.len() == 4
        &&& self.filler.len() == (4 - self.frame.len() as int % 4) % 4
    }

    /// The bytes of it.
    #[verifier::opaque]
    pub open spec fn wire(self) -> Seq<u8> {
        bytes::le32_bytes(self.status()) + self.frame + self.crc + self.filler
    }
}

/// A transfer with these frames.
pub open spec fn delivery(all: Seq<Delivered>) -> Seq<u8>
    decreases all.len(),
{
    if all.len() == 0 {
        Seq::empty()
    } else {
        all[0].wire() + delivery(all.skip(1))
    }
}

/// Every frame that a transfer delivers is found, in order, and nothing else.
pub proof fn law_every_frame_is_found(all: Seq<Delivered>)
    requires
        forall|i: int| 0 <= i < all.len() ==> (#[trigger] all[i]).wf(),
    ensures
        frames_in(delivery(all), 0) == all.map_values(|one: Delivered| one.frame),
{
    lemma_found_behind(Seq::empty(), all);
    assert(Seq::<u8>::empty() + delivery(all) =~= delivery(all));
}

proof fn lemma_first_found(buffer: Seq<u8>, at: int, one: Delivered)
    requires
        one.wf(),
        0 <= at,
        at % 4 == 0,
        at + one.wire().len() <= buffer.len(),
        buffer.subrange(at, at + one.wire().len()) == one.wire(),
    ensures
        frames_in(buffer, at) == seq![one.frame] + frames_in(buffer, at + one.wire().len()),
        one.wire().len() % 4 == 0,
{
    reveal(Delivered::wire);
    reveal(frames_in);
    let wire = one.wire();
    let status = one.status();
    let header = bytes::le32_bytes(status);
    let length = one.frame.len() + 4;
    let start = at + 4;
    assert forall|i: int| 0 <= i < wire.len() implies #[trigger] buffer[at + i] == wire[i] by {
        assert(buffer.subrange(at, at + wire.len())[i] == wire[i]);
    }
    assert(buffer[at + 0] == header[0]);
    assert(buffer[at + 1] == header[1]);
    assert(buffer[at + 2] == header[2]);
    assert(buffer[at + 3] == header[3]);
    bytes::law_le32(status);
    assert(status % 65536 == one.note);
    assert(status / 65536 == length);
    assert(status & 0x8000 == 0) by (bit_vector)
        requires
            status % 65536 < 0x8000u32,
    ;
    assert(at + wire.len() == aligned(start + length));
    assert(buffer.subrange(start, start + length - 4) =~= one.frame) by {
        let found = buffer.subrange(start, start + length - 4);
        assert forall|i: int| 0 <= i < one.frame.len() implies found[i] == one.frame[i] by {
            assert(buffer[at + (4 + i)] == wire[4 + i]);
        }
    }
}

proof fn lemma_found_behind(before: Seq<u8>, all: Seq<Delivered>)
    requires
        before.len() % 4 == 0,
        forall|i: int| 0 <= i < all.len() ==> (#[trigger] all[i]).wf(),
    ensures
        frames_in(before + delivery(all), before.len() as int) == all.map_values(
            |one: Delivered| one.frame,
        ),
    decreases all.len(),
{
    let buffer = before + delivery(all);
    let at = before.len() as int;
    let frames = all.map_values(|one: Delivered| one.frame);
    if all.len() == 0 {
        reveal(frames_in);
        assert(frames =~= Seq::empty());
    } else {
        let one = all[0];
        assert(one.wf());
        let rest = all.skip(1);
        assert forall|i: int| 0 <= i < rest.len() implies (#[trigger] rest[i]).wf() by {
            assert(all[i + 1].wf());
        }
        let next = before + one.wire();
        assert(delivery(all) == one.wire() + delivery(rest));
        pipe::lemma_in_between(before, one.wire(), delivery(rest));
        lemma_first_found(buffer, at, one);
        lemma_found_behind(next, rest);
        assert(frames =~= seq![one.frame] + rest.map_values(|one: Delivered| one.frame));
    }
}

/// Goes through the frames of a received transfer.
pub struct Frames<'a> {
    buffer: &'a [u8],
    offset: usize,
}

impl<'a> View for Frames<'a> {
    /// The frames still to come.
    type V = Seq<Seq<u8>>;

    closed spec fn view(&self) -> Seq<Seq<u8>> {
        frames_in(self.buffer@, self.offset as int)
    }
}

impl<'a> Frames<'a> {
    /// The whole transfer.
    pub closed spec fn transfer(&self) -> Seq<u8> {
        self.buffer@
    }

    /// Bounds the frames still to come.
    pub closed spec fn left(&self) -> int {
        self.buffer@.len() - self.offset
    }

    /// At the beginning of a transfer.
    pub fn new(buffer: &'a [u8]) -> (frames: Self)
        ensures
            frames@ == frames_in(buffer@, 0),
            frames.transfer() == buffer@,
    {
        Frames { buffer, offset: 0 }
    }

    /// The whole transfer.
    pub fn as_bytes(&self) -> (bytes: &'a [u8])
        ensures
            bytes@ == self.transfer(),
    {
        self.buffer
    }

    /// The next frame.
    pub fn next(&mut self) -> (frame: Option<&'a [u8]>)
        ensures
            final(self).transfer() == old(self).transfer(),
            match frame {
                Some(frame) => {
                    &&& old(self)@.len() > 0
                    &&& frame@ == old(self)@[0]
                    &&& frame@.len() <= MTU
                    &&& final(self)@ == old(self)@.skip(1)
                    &&& 0 <= final(self).left() < old(self).left()
                },
                None => old(self)@.len() == 0 && final(self)@.len() == 0,
            },
    {
        loop
            invariant
                self.buffer == old(self).buffer,
                self@ == old(self)@,
                self.left() <= old(self).left(),
            decreases self.left(),
        {
            proof {
                reveal(frames_in);
            }
            let all: usize = self.buffer.len();
            if self.offset > all || all - self.offset < RX_STATUS_SIZE {
                return None;
            }
            let at: usize = self.offset;
            let status: u32 = u32_from(
                self.buffer[at],
                self.buffer[at + 1],
                self.buffer[at + 2],
                self.buffer[at + 3],
            );
            let length: usize = (status / 65536 % 0x4000) as usize;
            let room: usize = all - at - RX_STATUS_SIZE;
            if length <= 4 || length > MTU + 4 || length > room {
                self.offset = all;
                return None;
            }
            let start: usize = at + RX_STATUS_SIZE;
            let end: usize = start + length - 4;
            let filler: usize = (4 - (start + length) % 4) % 4;
            let ghost next = aligned(start + length);
            self.offset = if filler > room - length {
                all
            } else {
                start + length + filler
            };
            assert(frames_in(self.buffer@, next) == self@);
            let ghost whole = old(self)@;
            assert(whole == frames_in(self.buffer@, at as int));
            if status & RX_STATUS_ERROR == 0 {
                let frame = vstd::slice::slice_subrange(self.buffer, start, end);
                assert(old(self)@ =~= seq![frame@] + self@);
                assert(self@ =~= old(self)@.skip(1));
                return Some(frame);
            }
        }
    }
}

/// The header of a frame that is sent.
pub open spec fn tx_header(length: int) -> Seq<u8> {
    bytes::le32_bytes((TX_CMD_A_WHOLE + length) as u32) + bytes::le32_bytes(length as u32)
}

/// What the chip reads from the header of a frame: in both words, in their low eleven bits,
/// the length of the frame that follows; and in the first, that this is its first segment
/// (bit 13) and its last (bit 12), and nothing else.
pub proof fn law_header_tells_the_length(length: int)
    requires
        0 <= length < 2048,
    ensures
        tx_header(length).len() == 8,
        ({
            let h = tx_header(length);
            let first = bytes::le32(h[0], h[1], h[2], h[3]) as int;
            let second = bytes::le32(h[4], h[5], h[6], h[7]) as int;
            &&& first % 2048 == length
            &&& second % 2048 == length
            &&& first / 4096 % 2 == 1
            &&& first / 8192 % 2 == 1
            &&& first / 2048 == 6
            &&& second / 2048 == 0
        }),
{
    bytes::law_le32((TX_CMD_A_WHOLE + length) as u32);
    bytes::law_le32(length as u32);
}

/// A frame is sent in one transfer to the chip's bulk endpoint, with the toggle that is due:
/// eight bytes of header, and behind them the frame as it is. The length in the header is
/// that of what is behind it.
pub proof fn law_frame_behind_its_header(state: PipeState, frame: Seq<u8>)
    requires
        frame.len() <= MAX_STAGED,
    ensures
        ({
            &&& pipe::send_program(state, tx_header(frame.len() as int) + frame) matches
                Program::Request(transfer, next)
            &&& transfer matches Transfer::BulkOut(endpoint, number, toggle, packet)
            &&& endpoint == (ControlEndpoint {
                address: state.device.address,
                low_speed: state.device.low_speed,
                max_packet_size: state.bulk.max_packet_size,
                split: state.device.split,
            })
            &&& number == state.bulk.number
            &&& toggle == state.bulk.toggle
            &&& packet.len() == 8 + frame.len()
            &&& packet.skip(8) == frame
            &&& bytes::le32(packet[0], packet[1], packet[2], packet[3]) % 2048 == packet.len() - 8
            &&& bytes::le32(packet[4], packet[5], packet[6], packet[7]) % 2048 == packet.len() - 8
        }),
{
    law_header_tells_the_length(frame.len() as int);
    assert((tx_header(frame.len() as int) + frame).skip(8) =~= frame);
}

/// The header of a frame of this length.
pub fn header_for(length: usize) -> (header: [u8; 8])
    requires
        length <= MAX_STAGED,
    ensures
        header@ == tx_header(length as int),
{
    let a: [u8; 4] = u32_bytes(TX_CMD_A_WHOLE + length as u32);
    let b: [u8; 4] = u32_bytes(length as u32);
    let header: [u8; 8] = [a[0], a[1], a[2], a[3], b[0], b[1], b[2], b[3]];
    assert(header@ =~= tx_header(length as int));
    header
}

/// Set the MAC address.
pub open spec fn mac_script(mac: Seq<u8>) -> Seq<Instruction> {
    seq![
        Instruction::Write { register: REG_ADDRL, value: chip::mac_low(mac) },
        Instruction::Write { register: REG_ADDRH, value: chip::mac_high(mac) },
    ]
}

/// Read the MAC address.
pub open spec fn read_mac_script() -> Seq<Instruction> {
    seq![
        Instruction::Read { register: REG_ADDRL },
        Instruction::Read { register: REG_ADDRH },
    ]
}

/// Set the MAC address; have frames come right behind their status, and an empty packet
/// where there is none; light the LEDs; enable the chip, full duplex.
pub open spec fn start_script(mac: Seq<u8>) -> Seq<Instruction> {
    mac_script(mac) + seq![
        Instruction::Read { register: REG_HW_CFG },
        Instruction::WriteBack { register: REG_HW_CFG, clear: HW_CFG_RXDOFF, set: HW_CFG_BIR },
        Instruction::Write { register: REG_LED_GPIO_CFG, value: LED_GPIO_CFG_LEDS },
        Instruction::Write { register: REG_MAC_CR, value: MAC_CR_START },
        Instruction::Write { register: REG_TX_CFG, value: TX_CFG_ON },
    ]
}

/// Have the MAC run full duplex, or half.
pub open spec fn duplex_script(full: bool) -> Seq<Instruction> {
    seq![
        Instruction::Read { register: REG_MAC_CR },
        if full {
            Instruction::WriteBack { register: REG_MAC_CR, clear: MAC_CR_RCVOWN, set: MAC_CR_FDPX }
        } else {
            Instruction::WriteBack { register: REG_MAC_CR, clear: MAC_CR_FDPX, set: MAC_CR_RCVOWN }
        },
    ]
}

/// The script that sets the MAC address.
pub fn mac_steps(mac: &[u8; 6]) -> (script: [Instruction; 2])
    ensures
        script@ == mac_script(mac@),
{
    let (low, high): (u32, u32) = mac_words(mac);
    let script = [
        Instruction::Write { register: REG_ADDRL, value: low },
        Instruction::Write { register: REG_ADDRH, value: high },
    ];
    assert(script@ =~= mac_script(mac@));
    script
}

/// The script that reads the MAC address.
pub fn read_mac_steps() -> (script: [Instruction; 2])
    ensures
        script@ == read_mac_script(),
{
    let script = [
        Instruction::Read { register: REG_ADDRL },
        Instruction::Read { register: REG_ADDRH },
    ];
    assert(script@ =~= read_mac_script());
    script
}

/// The script that starts the chip.
pub fn start_steps(mac: &[u8; 6]) -> (script: [Instruction; 7])
    ensures
        script@ == start_script(mac@),
{
    let address: [Instruction; 2] = mac_steps(mac);
    let script = [
        address[0],
        address[1],
        Instruction::Read { register: REG_HW_CFG },
        Instruction::WriteBack { register: REG_HW_CFG, clear: HW_CFG_RXDOFF, set: HW_CFG_BIR },
        Instruction::Write { register: REG_LED_GPIO_CFG, value: LED_GPIO_CFG_LEDS },
        Instruction::Write { register: REG_MAC_CR, value: MAC_CR_START },
        Instruction::Write { register: REG_TX_CFG, value: TX_CFG_ON },
    ];
    assert(script@ =~= start_script(mac@));
    script
}

/// The script that has the MAC run full duplex, or half.
pub fn duplex_steps(full: bool) -> (script: [Instruction; 2])
    ensures
        script@ == duplex_script(full),
{
    let script = [
        Instruction::Read { register: REG_MAC_CR },
        if full {
            Instruction::WriteBack { register: REG_MAC_CR, clear: MAC_CR_RCVOWN, set: MAC_CR_FDPX }
        } else {
            Instruction::WriteBack { register: REG_MAC_CR, clear: MAC_CR_FDPX, set: MAC_CR_RCVOWN }
        },
    ];
    assert(script@ =~= duplex_script(full));
    script
}

/// The receiving half of a LAN9514.
pub struct Lan9514Rx {
    pipe: RxPipe,
}

impl View for Lan9514Rx {
    type V = PipeState;

    closed spec fn view(&self) -> PipeState {
        self.pipe@
    }
}

/// What became of the receiving half, and the transfer that came.
pub type Caught = (PipeState, Result<Seq<u8>, TransferError>);

/// Receive the frames that are waiting. The chip is asked first whether there are
/// any: without one it would not answer a transfer.
pub open spec fn receive_frames_program(endpoint: ControlEndpoint, state: PipeState) -> UsbProgram<
    Caught,
> {
    chip::read_program(endpoint, REG_RX_FIFO_INF).bind(
        |waiting: Result<u32, TransferError>|
            match waiting {
                Err(error) => Program::Return((state, Err(error))),
                Ok(value) => if value == 0 {
                    Program::Return((state, Ok(Seq::empty())))
                } else {
                    pipe::receive_program(state)
                },
            },
    )
}

/// The chip is asked first whether any frame is waiting, and a transfer is made only if one
/// is.
pub proof fn law_asked_before_received(endpoint: ControlEndpoint, state: PipeState, waiting: u32)
    ensures
        ({
            let program = receive_frames_program(endpoint, state);
            let data = seq![
                (waiting % 256) as u8,
                (waiting / 256 % 256) as u8,
                (waiting / 65536 % 256) as u8,
                (waiting / 0x100_0000) as u8,
            ];
            let answers = control::requests::read_answers(data);
            let asked = seq![
                Transfer::Setup(endpoint, seq![0xC0, 0xA1, 0, 0, 0x18, 0, 4, 0]),
                Transfer::DataIn(endpoint, 4),
                Transfer::StatusOut(endpoint),
            ];
            &&& waiting == 0 ==> program.asked(answers) == asked && program.given(answers)
                == UsbProgram::<Caught>::Return((state, Ok(Seq::empty())))
            &&& waiting != 0 ==> program.asked(answers) == asked.push(
                Transfer::BulkIn(state.endpoint(), state.bulk.number, state.bulk.toggle, 2048),
            )
        }),
{
    chip::bits::law_register_transfers(endpoint, REG_RX_FIFO_INF, waiting);
    let data = seq![
        (waiting % 256) as u8,
        (waiting / 256 % 256) as u8,
        (waiting / 65536 % 256) as u8,
        (waiting / 0x100_0000) as u8,
    ];
    let answers = control::requests::read_answers(data);
    let rest = |waiting: Result<u32, TransferError>|
        match waiting {
            Err(error) => Program::Return((state, Err(error))),
            Ok(value) => if value == 0 {
                Program::Return((state, Ok(Seq::empty())))
            } else {
                pipe::receive_program(state)
            },
        };
    let read = chip::read_program(endpoint, REG_RX_FIFO_INF);
    crate::program::lemma_given_in_turn(read, rest, answers, Seq::empty(), Ok(waiting));
    assert(answers + Seq::<crate::usb::dwc2::Reply>::empty() =~= answers);
    assert(receive_frames_program(endpoint, state) == read.bind(rest));
    let asked = read.asked(answers);
    assert(asked + Seq::<Transfer>::empty() =~= asked);
    let bulk = Transfer::BulkIn(state.endpoint(), state.bulk.number, state.bulk.toggle, 2048);
    assert(asked + seq![bulk] =~= asked.push(bulk));
}

/// A received transfer, or why there is none, as a value.
pub open spec fn caught(result: Result<Frames<'_>, TransferError>) -> Result<
    Seq<u8>,
    TransferError,
> {
    match result {
        Ok(frames) => Ok(frames.transfer()),
        Err(error) => Err(error),
    }
}

impl Lan9514Rx {
    /// What is in the buffer.
    pub closed spec fn contents(&self) -> Seq<u8> {
        self.pipe.contents()
    }

    /// The pipe, for a transfer that somebody else makes.
    pub fn pipe(&mut self) -> (pipe: &mut RxPipe)
        ensures
            pipe@ == old(self)@,
            pipe.contents() == old(self).contents(),
            final(self)@ == final(pipe)@,
            final(self).contents() == final(pipe).contents(),
    {
        &mut self.pipe
    }

    /// The frames in the first `received` bytes of the buffer.
    pub fn frames(&self, received: usize) -> (frames: Frames<'_>)
        ensures
            frames@ == frames_in(pipe::front(self.contents(), received), 0),
            frames.transfer() == pipe::front(self.contents(), received),
    {
        Frames::new(self.pipe.first(received))
    }
}

/// The sending half of a LAN9514.
pub struct Lan9514Tx {
    pipe: TxPipe,
}

impl View for Lan9514Tx {
    type V = PipeState;

    closed spec fn view(&self) -> PipeState {
        self.pipe@
    }
}

impl Lan9514Tx {
    /// The pipe, for a transfer that somebody else makes.
    pub fn pipe(&mut self) -> (pipe: &mut TxPipe)
        ensures
            pipe@ == old(self)@,
            final(self)@ == final(pipe)@,
    {
        &mut self.pipe
    }

    /// Sends a frame.
    pub fn send_frame<H: Dwc2Registers>(&mut self, channel: &mut Channel<H>, frame: &[u8]) -> (result:
        Result<(), TransferError>)
        requires
            frame@.len() <= MAX_STAGED,
        ensures
            pipe::send_program(old(self)@, tx_header(frame@.len() as int) + frame@).ran(
                old(channel)@,
                final(channel)@,
                (final(self)@, result),
            ),
    {
        let header: [u8; 8] = header_for(frame.len());
        self.pipe.send(channel, header, frame)
    }
}

/// A LAN9514.
pub struct Lan9514 {
    endpoint: ControlEndpoint,
    rx: Lan9514Rx,
    tx: Lan9514Tx,
}

/// A LAN9514 as a value.
pub struct Lan9514State {
    /// Its endpoint 0.
    pub endpoint: ControlEndpoint,
    pub rx: PipeState,
    pub tx: PipeState,
}

impl View for Lan9514 {
    type V = Lan9514State;

    closed spec fn view(&self) -> Lan9514State {
        Lan9514State { endpoint: self.endpoint, rx: self.rx@, tx: self.tx@ }
    }
}

/// A chip with these bulk endpoints.
pub open spec fn new_chip(
    endpoint: ControlEndpoint,
    pair: (BulkEndpoint, BulkEndpoint),
) -> Lan9514State {
    Lan9514State {
        endpoint,
        rx: PipeState { device: endpoint, bulk: pair.0 },
        tx: PipeState { device: endpoint, bulk: pair.1 },
    }
}

/// A chip that was found, if one was.
pub open spec fn found_chip(endpoint: ControlEndpoint, pair: pipe::Pair) -> Result<
    Option<Lan9514State>,
    TransferError,
> {
    match pair {
        Ok(Some(pair)) => Ok(Some(new_chip(endpoint, pair))),
        Ok(None) => Ok(None),
        Err(error) => Err(error),
    }
}

/// A chip that was found, as a value.
pub open spec fn chip_found(result: Result<Option<Lan9514>, TransferError>) -> Result<
    Option<Lan9514State>,
    TransferError,
> {
    match result {
        Ok(Some(chip)) => Ok(Some(chip@)),
        Ok(None) => Ok(None),
        Err(error) => Err(error),
    }
}

/// Take a device over, if it is a LAN9514.
pub open spec fn from_device_program(device: Device) -> UsbProgram<
    Result<Option<Lan9514State>, TransferError>,
> {
    if device.descriptor.vendor_id != VENDOR_ID || device.descriptor.product_id != PRODUCT_ID {
        Program::Return(Ok(None))
    } else {
        pipe::attach_program(device.endpoint).bind(
            |pair: pipe::Pair| Program::Return(found_chip(device.endpoint, pair)),
        )
    }
}

/// Take a chip over whose configuration has been selected.
pub open spec fn from_endpoint_program(endpoint: ControlEndpoint) -> UsbProgram<
    Result<Option<Lan9514State>, TransferError>,
> {
    pipe::adopt_program(endpoint).bind(
        |pair: pipe::Pair| Program::Return(found_chip(endpoint, pair)),
    )
}

/// The chip is told by the two numbers in its device descriptor; a device with others is asked
/// nothing. It receives over the bulk endpoint that goes into the host, which is the first of
/// the pair, and sends over the other.
pub proof fn law_chip_found(device: Device, answers: Seq<Reply>, pair: pipe::Pair)
    ensures
        ({
            let program = from_device_program(device);
            let attach = pipe::attach_program(device.endpoint);
            let adopt = pipe::adopt_program(device.endpoint);
            let adopted = from_endpoint_program(device.endpoint);
            let ours = device.descriptor.vendor_id == 0x0424 && device.descriptor.product_id
                == 0xEC00;
            let right = |result: Result<Option<Lan9514State>, TransferError>|
                match pair {
                    Err(error) => result == Err::<Option<Lan9514State>, TransferError>(error),
                    Ok(None) => result == Ok::<Option<Lan9514State>, TransferError>(None),
                    Ok(Some(both)) => result matches Ok(Some(chip)) && chip.endpoint
                        == device.endpoint && chip.rx.bulk == both.0 && chip.tx.bulk == both.1
                        && chip.rx.device == device.endpoint && chip.tx.device == device.endpoint,
                };
            &&& !ours ==> program == UsbProgram::<
                Result<Option<Lan9514State>, TransferError>,
            >::Return(Ok(None))
            &&& ours && attach.given(answers) == UsbProgram::<pipe::Pair>::Return(pair)
                ==> program.asked(answers) == attach.asked(answers) && (program.given(
                answers,
            ) matches Program::Return(result) && right(result))
            &&& adopt.given(answers) == UsbProgram::<pipe::Pair>::Return(pair) ==> adopted.asked(
                answers,
            ) == adopt.asked(answers) && (adopted.given(answers) matches Program::Return(result)
                && right(result))
        }),
{
    let told = |pair: pipe::Pair|
        UsbProgram::<Result<Option<Lan9514State>, TransferError>>::Return(
            found_chip(device.endpoint, pair),
        );
    let none = Seq::<Reply>::empty();
    assert(answers + none =~= answers);
    let attach = pipe::attach_program(device.endpoint);
    let adopt = pipe::adopt_program(device.endpoint);
    broadcast use crate::program::lemma_bind_same;

    if attach.given(answers) == UsbProgram::<pipe::Pair>::Return(pair) {
        crate::program::lemma_given_in_turn(attach, told, answers, none, pair);
        assert(attach.asked(answers) + told(pair).asked(none) =~= attach.asked(answers));
    }
    if adopt.given(answers) == UsbProgram::<pipe::Pair>::Return(pair) {
        crate::program::lemma_given_in_turn(adopt, told, answers, none, pair);
        assert(adopt.asked(answers) + told(pair).asked(none) =~= adopt.asked(answers));
    }
}

/// The MAC address of the result of reading it, as a value.
pub open spec fn mac_read(result: Result<[u8; 6], TransferError>) -> Result<
    Seq<u8>,
    TransferError,
> {
    match result {
        Ok(mac) => Ok(mac@),
        Err(error) => Err(error),
    }
}

impl Lan9514 {
    /// Takes `device` over, or says that it is no LAN9514.
    pub fn from_device<H: Dwc2Registers>(channel: &mut Channel<H>, device: Device) -> (result:
        Result<Option<Lan9514>, TransferError>)
        ensures
            from_device_program(device).ran(
                old(channel)@,
                final(channel)@,
                chip_found(result),
            ),
    {
        if device.descriptor.vendor_id != VENDOR_ID || device.descriptor.product_id != PRODUCT_ID {
            return Ok(None);
        }
        match attach(channel, device.endpoint) {
            Ok(Some((bulk_in, bulk_out))) => Ok(
                Some(Lan9514::new(device.endpoint, bulk_in, bulk_out)),
            ),
            Ok(None) => Ok(None),
            Err(error) => Err(error),
        }
    }

    /// Takes a chip over whose configuration has been selected.
    pub fn from_endpoint<H: Dwc2Registers>(
        channel: &mut Channel<H>,
        endpoint: ControlEndpoint,
    ) -> (result: Result<Option<Lan9514>, TransferError>)
        ensures
            from_endpoint_program(endpoint).ran(
                old(channel)@,
                final(channel)@,
                chip_found(result),
            ),
    {
        match adopt(channel, endpoint) {
            Ok(Some((bulk_in, bulk_out))) => Ok(Some(Lan9514::new(endpoint, bulk_in, bulk_out))),
            Ok(None) => Ok(None),
            Err(error) => Err(error),
        }
    }

    fn new(endpoint: ControlEndpoint, bulk_in: BulkEndpoint, bulk_out: BulkEndpoint) -> (chip:
        Lan9514)
        ensures
            chip@ == new_chip(endpoint, (bulk_in, bulk_out)),
    {
        Lan9514 {
            endpoint,
            rx: Lan9514Rx { pipe: RxPipe::new(endpoint, bulk_in) },
            tx: Lan9514Tx { pipe: TxPipe::new(endpoint, bulk_out) },
        }
    }

    /// The chip's endpoint 0.
    pub fn endpoint(&self) -> (endpoint: ControlEndpoint)
        ensures
            endpoint == self@.endpoint,
    {
        self.endpoint
    }

    /// Reads a register.
    pub fn read_register<H: Dwc2Registers>(&self, channel: &mut Channel<H>, register: u16) -> (result:
        Result<u32, TransferError>)
        ensures
            chip::read_program(self@.endpoint, register).ran(
                old(channel)@,
                final(channel)@,
                result,
            ),
    {
        chip::read_register(channel, self.endpoint, register)
    }

    /// Writes a register.
    pub fn write_register<H: Dwc2Registers>(
        &self,
        channel: &mut Channel<H>,
        register: u16,
        value: u32,
    ) -> (result: Result<(), TransferError>)
        ensures
            chip::write_program(self@.endpoint, register, value).ran(
                old(channel)@,
                final(channel)@,
                result,
            ),
    {
        chip::write_register(channel, self.endpoint, register, value)
    }

    /// What the chip says that it is.
    pub fn id_revision<H: Dwc2Registers>(&self, channel: &mut Channel<H>) -> (result: Result<
        IdRevision,
        TransferError,
    >)
        ensures
            control::and_then(
                chip::read_program(self@.endpoint, REG_ID_REV),
                |value: u32| Program::Return(Ok(ethernet::id_in(value))),
            ).ran(old(channel)@, final(channel)@, result),
    {
        match self.read_register(channel, REG_ID_REV) {
            Ok(value) => Ok(id_of(value)),
            Err(error) => Err(error),
        }
    }

    /// Gives the chip its MAC address.
    pub fn set_mac_address<H: Dwc2Registers>(
        &self,
        channel: &mut Channel<H>,
        mac: [u8; 6],
    ) -> (result: Result<(), TransferError>)
        ensures
            chip::do_program(self@.endpoint, mac_script(mac@)).ran(
                old(channel)@,
                final(channel)@,
                result,
            ),
    {
        chip::do_script(channel, self.endpoint, &mac_steps(&mac))
    }

    /// The chip's MAC address.
    pub fn mac_address<H: Dwc2Registers>(&self, channel: &mut Channel<H>) -> (result: Result<
        [u8; 6],
        TransferError,
    >)
        ensures
            chip::answer_program(
                self@.endpoint,
                read_mac_script(),
                |low: u32, high: u32| chip::mac_in(low, high),
            ).ran(old(channel)@, final(channel)@, mac_read(result)),
    {
        match chip::ask(channel, self.endpoint, &read_mac_steps()) {
            Ok((low, high)) => Ok(mac_of(low, high)),
            Err(error) => Err(error),
        }
    }

    /// Gives the chip its MAC address, sets it up and enables it.
    pub fn start<H: Dwc2Registers>(&mut self, channel: &mut Channel<H>, mac: [u8; 6]) -> (result:
        Result<(), TransferError>)
        ensures
            final(self)@ == old(self)@,
            chip::do_program(old(self)@.endpoint, start_script(mac@)).ran(
                old(channel)@,
                final(channel)@,
                result,
            ),
    {
        chip::do_script(channel, self.endpoint, &start_steps(&mac))
    }

    /// The largest packet of the receiving pipe.
    pub fn bulk_in_max_packet_size(&self) -> (size: u16)
        ensures
            size == self@.rx.bulk.max_packet_size,
    {
        self.rx.pipe.max_packet_size()
    }

    /// The largest packet of the sending pipe.
    pub fn bulk_out_max_packet_size(&self) -> (size: u16)
        ensures
            size == self@.tx.bulk.max_packet_size,
    {
        self.tx.pipe.max_packet_size()
    }

    /// Whether the link is up.
    pub fn is_link_up<H: Dwc2Registers>(&self, channel: &mut Channel<H>) -> (result: Result<
        bool,
        TransferError,
    >)
        ensures
            chip::answer_program(
                self@.endpoint,
                chip::phy_read_script(mii(), PHY_REG_STATUS),
                |status: u32, unused: u32| chip::status_up(status),
            ).ran(old(channel)@, final(channel)@, result),
    {
        let mii = Mii { access: REG_MII_ADDR, data: REG_MII_DATA };
        match chip::ask(channel, self.endpoint, &phy_read_steps(mii, PHY_REG_STATUS)) {
            Ok((status, _)) => Ok(link_up(status)),
            Err(error) => Err(error),
        }
    }

    /// Whether the link is full duplex.
    pub fn is_full_duplex<H: Dwc2Registers>(&self, channel: &mut Channel<H>) -> (result: Result<
        bool,
        TransferError,
    >)
        ensures
            chip::answer_program(
                self@.endpoint,
                chip::phy_read_two_script(mii(), PHY_REG_ADVERTISE, PHY_REG_LINK_PARTNER),
                |ours: u32, theirs: u32| chip::both_full(ours, theirs),
            ).ran(old(channel)@, final(channel)@, result),
    {
        let mii = Mii { access: REG_MII_ADDR, data: REG_MII_DATA };
        let script = phy_read_two_steps(mii, PHY_REG_ADVERTISE, PHY_REG_LINK_PARTNER);
        match chip::ask(channel, self.endpoint, &script) {
            Ok((ours, theirs)) => Ok(full_duplex(ours, theirs)),
            Err(error) => Err(error),
        }
    }

    /// Lets every multicast in, or only what the filter lets in.
    pub fn set_all_multicast<H: Dwc2Registers>(
        &mut self,
        channel: &mut Channel<H>,
        pass: bool,
    ) -> (result: Result<(), TransferError>)
        ensures
            final(self)@ == old(self)@,
            chip::do_program(
                old(self)@.endpoint,
                chip::switch_script(REG_MAC_CR, MAC_CR_MCPAS, pass),
            ).ran(old(channel)@, final(channel)@, result),
    {
        chip::do_script(
            channel,
            self.endpoint,
            &switch_steps(REG_MAC_CR, MAC_CR_MCPAS, pass),
        )
    }

    /// Has the MAC run full duplex or half. With half duplex it does not hear
    /// itself.
    pub fn set_duplex<H: Dwc2Registers>(&mut self, channel: &mut Channel<H>, full: bool) -> (result:
        Result<(), TransferError>)
        ensures
            final(self)@ == old(self)@,
            chip::do_program(old(self)@.endpoint, duplex_script(full)).ran(
                old(channel)@,
                final(channel)@,
                result,
            ),
    {
        chip::do_script(channel, self.endpoint, &duplex_steps(full))
    }

    /// Sends a frame.
    pub fn send_frame<H: Dwc2Registers>(&mut self, channel: &mut Channel<H>, frame: &[u8]) -> (result:
        Result<(), TransferError>)
        requires
            frame@.len() <= MAX_STAGED,
        ensures
            final(self)@ == (Lan9514State { tx: final(self)@.tx, ..old(self)@ }),
            pipe::send_program(old(self)@.tx, tx_header(frame@.len() as int) + frame@).ran(
                old(channel)@,
                final(channel)@,
                (final(self)@.tx, result),
            ),
    {
        self.tx.send_frame(channel, frame)
    }

    /// Receives the frames that are waiting. They are gone with the next call.
    pub fn receive_frames<H: Dwc2Registers>(&mut self, channel: &mut Channel<H>) -> (result: Result<
        Frames<'_>,
        TransferError,
    >)
        ensures
            final(self)@ == (Lan9514State { rx: final(self)@.rx, ..old(self)@ }),
            result matches Ok(frames) ==> {
                &&& frames@ == frames_in(frames.transfer(), 0)
                &&& frames.transfer().len() <= FRAME_BUFFER_SIZE
            },
            receive_frames_program(old(self)@.endpoint, old(self)@.rx).ran(
                old(channel)@,
                final(channel)@,
                (final(self)@.rx, caught(result)),
            ),
    {
        match self.read_register(channel, REG_RX_FIFO_INF) {
            Ok(waiting) => {
                if waiting == 0 {
                    let bytes = self.rx.pipe.first(0);
                    assert(bytes@ =~= Seq::<u8>::empty());
                    return Ok(Frames::new(bytes));
                }
            },
            Err(error) => return Err(error),
        }
        match self.rx.pipe.receive(channel) {
            Ok(received) => {
                let bytes = self.rx.pipe.first(received);
                Ok(Frames::new(bytes))
            },
            Err(error) => Err(error),
        }
    }

    /// The two directions, each to be driven on a channel of its own.
    pub fn split(&mut self) -> (halves: (&mut Lan9514Rx, &mut Lan9514Tx))
        ensures
            halves.0@ == old(self)@.rx,
            halves.1@ == old(self)@.tx,
            final(self)@ == (Lan9514State {
                endpoint: old(self)@.endpoint,
                rx: final(halves.0)@,
                tx: final(halves.1)@,
            }),
    {
        (&mut self.rx, &mut self.tx)
    }
}

impl<'a> FrameWalk<'a> for Frames<'a> {
    open spec fn waiting(&self) -> Seq<Seq<u8>> {
        self@
    }

    fn next_frame(&mut self) -> (frame: Option<&'a [u8]>) {
        self.next()
    }
}

impl<H: Dwc2Registers> Ethernet<H> for Lan9514 {
    type Frames<'a> = Frames<'a>;

    type State = Lan9514State;

    open spec fn state(&self) -> Lan9514State {
        self@
    }

    open spec fn id_program(state: Lan9514State) -> UsbProgram<Result<IdRevision, TransferError>> {
        control::and_then(
            chip::read_program(state.endpoint, REG_ID_REV),
            |value: u32| Program::Return(Ok(ethernet::id_in(value))),
        )
    }

    open spec fn start_program(state: Lan9514State, mac: Seq<u8>) -> UsbProgram<
        Result<(), TransferError>,
    > {
        chip::do_program(state.endpoint, start_script(mac))
    }

    open spec fn link_program(state: Lan9514State) -> UsbProgram<Result<bool, TransferError>> {
        chip::answer_program(
            state.endpoint,
            chip::phy_read_script(mii(), PHY_REG_STATUS),
            |status: u32, unused: u32| chip::status_up(status),
        )
    }

    open spec fn duplex_program(state: Lan9514State) -> UsbProgram<Result<bool, TransferError>> {
        chip::answer_program(
            state.endpoint,
            chip::phy_read_two_script(mii(), PHY_REG_ADVERTISE, PHY_REG_LINK_PARTNER),
            |ours: u32, theirs: u32| chip::both_full(ours, theirs),
        )
    }

    open spec fn multicast_program(state: Lan9514State, pass: bool) -> UsbProgram<
        Result<(), TransferError>,
    > {
        chip::do_program(state.endpoint, chip::switch_script(REG_MAC_CR, MAC_CR_MCPAS, pass))
    }

    open spec fn send_program(state: Lan9514State, frame: Seq<u8>) -> UsbProgram<
        (Lan9514State, Result<(), TransferError>),
    > {
        pipe::send_program(state.tx, tx_header(frame.len() as int) + frame).bind(
            |sent: pipe::Sent| Program::Return((Lan9514State { tx: sent.0, ..state }, sent.1)),
        )
    }

    open spec fn receive_program(state: Lan9514State) -> UsbProgram<
        (Lan9514State, Result<Seq<Seq<u8>>, TransferError>),
    > {
        receive_frames_program(state.endpoint, state.rx).bind(
            |caught: Caught|
                Program::Return(
                    (
                        Lan9514State { rx: caught.0, ..state },
                        match caught.1 {
                            Ok(transfer) => Ok(frames_in(transfer, 0)),
                            Err(error) => Err(error),
                        },
                    ),
                ),
        )
    }

    fn mtu() -> (mtu: usize) {
        MTU
    }

    fn id_revision(&self, channel: &mut Channel<H>) -> (result: Result<IdRevision, TransferError>) {
        Lan9514::id_revision(self, channel)
    }

    fn start(&mut self, channel: &mut Channel<H>, mac: [u8; 6]) -> (result: Result<
        (),
        TransferError,
    >) {
        Lan9514::start(self, channel, mac)
    }

    fn is_link_up(&self, channel: &mut Channel<H>) -> (result: Result<bool, TransferError>) {
        Lan9514::is_link_up(self, channel)
    }

    fn is_full_duplex(&self, channel: &mut Channel<H>) -> (result: Result<bool, TransferError>) {
        Lan9514::is_full_duplex(self, channel)
    }

    fn set_all_multicast(&mut self, channel: &mut Channel<H>, pass: bool) -> (result: Result<
        (),
        TransferError,
    >) {
        Lan9514::set_all_multicast(self, channel, pass)
    }

    fn send_frame(&mut self, channel: &mut Channel<H>, frame: &[u8]) -> (result: Result<
        (),
        TransferError,
    >) {
        Lan9514::send_frame(self, channel, frame)
    }

    fn receive_frames(&mut self, channel: &mut Channel<H>) -> (result: Result<
        Frames<'_>,
        TransferError,
    >) {
        Lan9514::receive_frames(self, channel)
    }
}

} // verus!

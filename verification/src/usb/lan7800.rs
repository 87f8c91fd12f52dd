//! The LAN7800, a gigabit Ethernet chip.

use vstd::prelude::*;

use crate::bytes;
use crate::bytes::{u32_bytes, u32_from};
use crate::program::Program;
use crate::usb::chip;
use crate::usb::chip::{
    full_duplex, link_up, mac_of, mac_words, phy_read_steps, phy_read_two_steps, phy_write_steps,
    switch_steps, Instruction, Mii, PHY_REG_ADVERTISE, PHY_REG_LINK_PARTNER, PHY_REG_STATUS,
};
use crate::usb::control;
use crate::usb::descriptor::BulkEndpoint;
use crate::usb::dwc2::hardware::Dwc2Registers;
use crate::usb::dwc2::{Channel, ControlEndpoint, Reply, Transfer, TransferError, UsbProgram};
use crate::usb::ethernet;
use crate::usb::ethernet::{id_of, Ethernet, FrameWalk, IdRevision};
use crate::usb::pipe;
use crate::usb::pipe::{adopt, attach, PipeState, RxPipe, TxPipe, MAX_STAGED};
use crate::usb::session::Device;

pub mod faults;

verus! {

broadcast use crate::program::group_program;

pub const VENDOR_ID: u16 = 0x0424;

pub const PRODUCT_ID: u16 = 0x7800;

/// The longest Ethernet frame, without its CRC.
pub const MTU: usize = 1514;

pub const REG_ID_REV: u16 = 0x000;

pub const REG_INT_STS: u16 = 0x00C;

pub const REG_HW_CFG: u16 = 0x010;

pub const REG_PMT_CTL: u16 = 0x014;

pub const REG_USB_CFG0: u16 = 0x080;

pub const REG_RFE_CTL: u16 = 0x0B0;

pub const REG_FCT_RX_CTL: u16 = 0x0C0;

pub const REG_FCT_TX_CTL: u16 = 0x0C4;

pub const REG_FCT_FLOW: u16 = 0x0D0;

pub const REG_MAC_CR: u16 = 0x100;

pub const REG_MAC_RX: u16 = 0x104;

pub const REG_MAC_TX: u16 = 0x108;

pub const REG_FLOW: u16 = 0x10C;

pub const REG_RX_ADDRH: u16 = 0x118;

pub const REG_RX_ADDRL: u16 = 0x11C;

pub const REG_MII_ACC: u16 = 0x120;

pub const REG_MII_DATA: u16 = 0x124;

pub const REG_MAF_HI0: u16 = 0x400;

pub const REG_MAF_LO0: u16 = 0x404;

/// The chip is being reset.
pub const HW_CFG_LRST: u32 = 0x0000_0002;

/// Several frames may share a transfer from the chip.
pub const HW_CFG_MEF: u32 = 0x0000_0010;

/// The clocks of the PHY, 125 and 25 MHz, and both LEDs.
pub const HW_CFG_CLOCKS_AND_LEDS: u32 = 0x0330_0000;

/// The PHY is being reset.
pub const PMT_CTL_PHY_RST: u32 = 0x0000_0010;

/// The chip is ready.
pub const PMT_CTL_READY: u32 = 0x0000_0080;

/// With nothing to deliver the chip answers NAK, not an empty packet.
pub const USB_CFG_BIR: u32 = 0x0000_0040;

/// Let broadcasts in, and what is addressed to an entry of the filter.
pub const RFE_CTL_DEFAULT: u32 = 0x0000_0402;

/// Let every multicast in.
pub const RFE_CTL_MCAST_EN: u32 = 0x0000_0200;

/// Let every unicast in.
pub const RFE_CTL_UCAST_EN: u32 = 0x0000_0100;

/// A FIFO is enabled.
pub const FCT_CTL_EN: u32 = 0x8000_0000;

/// Speed and duplex follow the PHY; its interface is GMII.
pub const MAC_CR_AUTO: u32 = 0x0008_1800;

/// Energy-efficient Ethernet.
pub const MAC_CR_EEE_EN: u32 = 0x0002_0000;

/// The receiver is enabled.
pub const MAC_RX_RXEN: u32 = 0x0000_0001;

/// The transmitter is enabled.
pub const MAC_TX_TXEN: u32 = 0x0000_0001;

/// Where the largest frame is.
pub const MAC_RX_MAX_SIZE_MASK: u32 = 0x3FFF_0000;

/// The largest frame: with a VLAN tag and its CRC 1522 bytes, in its place.
pub const MAC_RX_MAX_SIZE: u32 = 0x05F2_0000;

/// An entry of the filter is in use.
pub const MAF_HI_VALID: u32 = 0x8000_0000;

/// The control register of the PHY.
pub const PHY_REG_CONTROL: u8 = 0x00;

/// The gigabit control register of the PHY.
pub const PHY_REG_GIGABIT_CONTROL: u8 = 0x09;

/// All but what the control register of the PHY keeps: its upper half is none,
/// and power-down and isolation end.
pub const BMCR_DROPPED: u32 = 0xFFFF_0C00;

/// Negotiate, and start over.
pub const BMCR_NEGOTIATE: u32 = 0x0000_1200;

/// The bytes in front of a frame that is received.
pub const RX_COMMAND_SIZE: usize = 10;

/// The ways in which a received frame can be wrong.
pub const RX_CMD_A_ERRORS: u32 = 0xC03F_0000;

/// The chip appends the CRC.
pub const TX_CMD_A_FCS: u32 = 0x0040_0000;

/// Where the PHY is reached.
pub open spec fn mii() -> Mii {
    Mii { access: REG_MII_ACC, data: REG_MII_DATA }
}

/// The bytes between a frame of this length, with its CRC, and the next command: each
/// command is two bytes off a multiple of four.
pub open spec fn filler_len(length: int) -> int {
    (4 - (length + 2) % 4) % 4
}

/// The frames in a received transfer from a place on. Each has a command in front
/// that tells its length, with its CRC, and whether anything is wrong with it;
/// such a frame is left out. A length that cannot be ends the transfer.
#[verifier::opaque]
pub open spec fn frames_in(buffer: Seq<u8>, at: int) -> Seq<Seq<u8>>
    decreases buffer.len() + 4 - at,
{
    if at < 0 || at + RX_COMMAND_SIZE > buffer.len() {
        Seq::empty()
    } else {
        let command = bytes::le32(buffer[at], buffer[at + 1], buffer[at + 2], buffer[at + 3]);
        let length = command as int % 0x4000;
        let start = at + RX_COMMAND_SIZE;
        if length <= 4 || length > MTU + 4 || start + length > buffer.len() {
            Seq::empty()
        } else {
            let rest = frames_in(buffer, start + length + filler_len(length));
            if command & RX_CMD_A_ERRORS != 0 {
                rest
            } else {
                seq![buffer.subrange(start, start + length - 4)] + rest
            }
        }
    }
}

/// A frame as the chip delivers it.
pub struct Delivered {
    pub frame: Seq<u8>,
    /// What else the chip says of it: six bytes.
    pub note: Seq<u8>,
    pub crc: Seq<u8>,
    /// What is between this frame and the next.
    pub filler: Seq<u8>,
}

impl Delivered {
    /// The parts have the lengths that they have on the wire.
    pub open spec fn wf(self) -> bool {
        &&& 1 <= self.frame.len() <= MTU
        &&& self.note.len() == 6
        &&& self.crc.len() == 4
        &&& self.filler.len() == filler_len(self.frame.len() as int + 4)
    }

    /// The bytes of it.
    pub open spec fn wire(self) -> Seq<u8> {
        bytes::le32_bytes((self.frame.len() + 4) as u32) + self.note + self.frame + self.crc
            + self.filler
    }
}

/// A transfer with these frames.
pub open spec fn delivery(all: Seq<Delivered>) -> Seq<u8>
    decreases all.len(),
{
    if all.len() == 0 {
        Seq::empty()
    } else {
        all[0].wire() + delivery(all.skip(1))
    }
}

/// Every frame that a transfer delivers is found, in order, and nothing else.
pub proof fn law_every_frame_is_found(all: Seq<Delivered>)
    requires
        forall|i: int| 0 <= i < all.len() ==> (#[trigger] all[i]).wf(),
    ensures
        frames_in(delivery(all), 0) == all.map_values(|one: Delivered| one.frame),
{
    lemma_found_behind(Seq::empty(), all);
    assert(Seq::<u8>::empty() + delivery(all) =~= delivery(all));
}

proof fn lemma_first_found(buffer: Seq<u8>, at: int, one: Delivered)
    requires
        one.wf(),
        0 <= at,
        at + one.wire().len() <= buffer.len(),
        buffer.subrange(at, at + one.wire().len()) == one.wire(),
    ensures
        frames_in(buffer, at) == seq![one.frame] + frames_in(buffer, at + one.wire().len()),
{
    reveal(frames_in);
    let wire = one.wire();
    let command = (one.frame.len() + 4) as u32;
    let header = bytes::le32_bytes(command);
    let length = command as int;
    let start = at + 10;
    assert forall|i: int| 0 <= i < wire.len() implies #[trigger] buffer[at + i] == wire[i] by {
        assert(buffer.subrange(at, at + wire.len())[i] == wire[i]);
    }
    assert(buffer[at + 0] == header[0]);
    assert(buffer[at + 1] == header[1]);
    assert(buffer[at + 2] == header[2]);
    assert(buffer[at + 3] == header[3]);
    bytes::law_le32(command);
    assert(command & 0xC03F_0000 == 0) by (bit_vector)
        requires
            command <= 1518u32,
    ;
    assert(wire.len() == 10 + length + filler_len(length));
    assert(buffer.subrange(start, start + length - 4) =~= one.frame) by {
        let found = buffer.subrange(start, start + length - 4);
        assert forall|i: int| 0 <= i < one.frame.len() implies found[i] == one.frame[i] by {
            assert(buffer[at + (10 + i)] == wire[10 + i]);
        }
    }
}

proof fn lemma_found_behind(before: Seq<u8>, all: Seq<Delivered>)
    requires
        forall|i: int| 0 <= i < all.len() ==> (#[trigger] all[i]).wf(),
    ensures
        frames_in(before + delivery(all), before.len() as int) == all.map_values(
            |one: Delivered| one.frame,
        ),
    decreases all.len(),
{
    let buffer = before + delivery(all);
    let at = before.len() as int;
    let frames = all.map_values(|one: Delivered| one.frame);
    if all.len() == 0 {
        reveal(frames_in);
        assert(frames =~= Seq::empty());
    } else {
        let one = all[0];
        assert(one.wf());
        let rest = all.skip(1);
        assert forall|i: int| 0 <= i < rest.len() implies (#[trigger] rest[i]).wf() by {
            assert(all[i + 1].wf());
        }
        let next = before + one.wire();
        pipe::lemma_in_between(before, one.wire(), delivery(rest));
        lemma_first_found(buffer, at, one);
        lemma_found_behind(next, rest);
        assert(frames =~= seq![one.frame] + rest.map_values(|one: Delivered| one.frame));
    }
}

/// Goes through the frames of a received transfer.
pub struct Frames<'a> {
    buffer: &'a [u8],
    offset: usize,
}

impl<'a> View for Frames<'a> {
    /// The frames still to come.
    type V = Seq<Seq<u8>>;

    closed spec fn view(&self) -> Seq<Seq<u8>> {
        frames_in(self.buffer@, self.offset as int)
    }
}

impl<'a> Frames<'a> {
    /// The whole transfer.
    pub closed spec fn transfer(&self) -> Seq<u8> {
        self.buffer@
    }

    /// Bounds the frames still to come.
    pub closed spec fn left(&self) -> int {
        self.buffer@.len() - self.offset
    }

    /// At the beginning of a transfer.
    pub fn new(buffer: &'a [u8]) -> (frames: Self)
        ensures
            frames@ == frames_in(buffer@, 0),
            frames.transfer() == buffer@,
    {
        Frames { buffer, offset: 0 }
    }

    /// The whole transfer.
    pub fn as_bytes(&self) -> (bytes: &'a [u8])
        ensures
            bytes@ == self.transfer(),
    {
        self.buffer
    }

    /// The next frame.
    pub fn next(&mut self) -> (frame: Option<&'a [u8]>)
        ensures
            final(self).transfer() == old(self).transfer(),
            match frame {
                Some(frame) => {
                    &&& old(self)@.len() > 0
                    &&& frame@ == old(self)@[0]
                    &&& final(self)@ == old(self)@.skip(1)
                    &&& 0 <= final(self).left() < old(self).left()
                },
                None => old(self)@.len() == 0 && final(self)@.len() == 0,
            },
    {
        loop
            invariant
                self.buffer == old(self).buffer,
                self@ == old(self)@,
                self.left() <= old(self).left(),
            decreases self.left(),
        {
            proof {
                reveal(frames_in);
            }
            let all: usize = self.buffer.len();
            if self.offset > all || all - self.offset < RX_COMMAND_SIZE {
                return None;
            }
            let at: usize = self.offset;
            let command: u32 = u32_from(
                self.buffer[at],
                self.buffer[at + 1],
                self.buffer[at + 2],
                self.buffer[at + 3],
            );
            let length: usize = (command % 0x4000) as usize;
            let room: usize = all - at - RX_COMMAND_SIZE;
            if length <= 4 || length > MTU + 4 || length > room {
                self.offset = all;
                return None;
            }
            let start: usize = at + RX_COMMAND_SIZE;
            let end: usize = start + length - 4;
            let filler: usize = (4 - (length + 2) % 4) % 4;
            let ghost next = start + length + filler_len(length as int);
            self.offset = if filler > room - length {
                all
            } else {
                start + length + filler
            };
            assert(frames_in(self.buffer@, next) == self@);
            let ghost whole = old(self)@;
            assert(whole == frames_in(self.buffer@, at as int));
            if command & RX_CMD_A_ERRORS == 0 {
                let frame = vstd::slice::slice_subrange(self.buffer, start, end);
                assert(old(self)@ =~= seq![frame@] + self@);
                assert(self@ =~= old(self)@.skip(1));
                return Some(frame);
            }
        }
    }
}

/// The header of a frame that is sent.
pub open spec fn tx_header(length: int) -> Seq<u8> {
    bytes::le32_bytes((TX_CMD_A_FCS + length) as u32) + bytes::le32_bytes(0)
}

/// What the chip reads from the header of a frame: in the low twenty bits of the first word
/// the length of the frame that follows, and that it is to append the CRC (bit 22); nothing
/// else, in either word.
pub proof fn law_header_tells_the_length(length: int)
    requires
        0 <= length < 0x10_0000,
    ensures
        tx_header(length).len() == 8,
        ({
            let h = tx_header(length);
            let first = bytes::le32(h[0], h[1], h[2], h[3]) as int;
            let second = bytes::le32(h[4], h[5], h[6], h[7]) as int;
            &&& first % 0x10_0000 == length
            &&& first / 0x40_0000 == 1
            &&& first / 0x10_0000 == 4
            &&& second == 0
        }),
{
    bytes::law_le32((TX_CMD_A_FCS + length) as u32);
    bytes::law_le32(0);
}

/// A frame is sent in one transfer to the chip's bulk endpoint, with the toggle that is due:
/// eight bytes of header, and behind them the frame as it is. The length in the header is
/// that of what is behind it.
pub proof fn law_frame_behind_its_header(state: PipeState, frame: Seq<u8>)
    requires
        frame.len() <= MAX_STAGED,
    ensures
        ({
            &&& pipe::send_program(state, tx_header(frame.len() as int) + frame) matches
                Program::Request(transfer, next)
            &&& transfer matches Transfer::BulkOut(endpoint, number, toggle, packet)
            &&& endpoint == (ControlEndpoint {
                address: state.device.address,
                low_speed: state.device.low_speed,
                max_packet_size: state.bulk.max_packet_size,
                split: state.device.split,
            })
            &&& number == state.bulk.number
            &&& toggle == state.bulk.toggle
            &&& packet.len() == 8 + frame.len()
            &&& packet.skip(8) == frame
            &&& bytes::le32(packet[0], packet[1], packet[2], packet[3]) % 0x10_0000 == packet.len()
                - 8
        }),
{
    law_header_tells_the_length(frame.len() as int);
    assert((tx_header(frame.len() as int) + frame).skip(8) =~= frame);
}

/// The header of a frame of this length.
pub fn header_for(length: usize) -> (header: [u8; 8])
    requires
        length <= MAX_STAGED,
    ensures
        header@ == tx_header(length as int),
{
    let command: [u8; 4] = u32_bytes(TX_CMD_A_FCS + length as u32);
    let header: [u8; 8] = [command[0], command[1], command[2], command[3], 0, 0, 0, 0];
    assert(header@ =~= tx_header(length as int));
    header
}

/// Reset the chip, with everything set up but its MAC address and its FIFOs.
/// With nothing to deliver it answers NAK if a transfer is to wait for a frame
/// (`parked`), else an empty packet. The PHY offers no gigabit.
pub open spec fn reset_script(parked: bool) -> Seq<Instruction> {
    seq![
        Instruction::Read { register: REG_HW_CFG },
        Instruction::WriteBack { register: REG_HW_CFG, clear: 0, set: HW_CFG_LRST },
        Instruction::Await { register: REG_HW_CFG, clear: HW_CFG_LRST, set: 0 },
        Instruction::Read { register: REG_USB_CFG0 },
        if parked {
            Instruction::WriteBack { register: REG_USB_CFG0, clear: 0, set: USB_CFG_BIR }
        } else {
            Instruction::WriteBack { register: REG_USB_CFG0, clear: USB_CFG_BIR, set: 0 }
        },
        Instruction::Read { register: REG_HW_CFG },
        Instruction::WriteBack {
            register: REG_HW_CFG,
            clear: HW_CFG_MEF,
            set: HW_CFG_CLOCKS_AND_LEDS,
        },
        Instruction::Write { register: REG_INT_STS, value: 0xFFFF_FFFF },
        Instruction::Write { register: REG_FLOW, value: 0 },
        Instruction::Write { register: REG_FCT_FLOW, value: 0 },
        Instruction::Write { register: REG_RFE_CTL, value: RFE_CTL_DEFAULT },
        Instruction::Read { register: REG_PMT_CTL },
        Instruction::WriteBack { register: REG_PMT_CTL, clear: 0, set: PMT_CTL_PHY_RST },
        Instruction::Await { register: REG_PMT_CTL, clear: PMT_CTL_PHY_RST, set: PMT_CTL_READY },
        Instruction::Read { register: REG_MAC_CR },
        Instruction::WriteBack { register: REG_MAC_CR, clear: MAC_CR_EEE_EN, set: MAC_CR_AUTO },
        Instruction::Read { register: REG_MAC_RX },
        Instruction::WriteBack {
            register: REG_MAC_RX,
            clear: MAC_RX_MAX_SIZE_MASK,
            set: MAC_RX_MAX_SIZE,
        },
    ]
}

/// Have the PHY negotiate anew, without gigabit.
pub open spec fn negotiate_script() -> Seq<Instruction> {
    chip::phy_write_script(mii(), PHY_REG_GIGABIT_CONTROL, 0) + chip::phy_read_script(
        mii(),
        PHY_REG_CONTROL,
    ) + seq![
        chip::mii_idle(mii()),
        Instruction::WriteBack { register: REG_MII_DATA, clear: BMCR_DROPPED, set: BMCR_NEGOTIATE },
        Instruction::Write {
            register: REG_MII_ACC,
            value: chip::mii_select(PHY_REG_CONTROL) | chip::MII_WRITE | chip::MII_BUSY,
        },
        chip::mii_idle(mii()),
    ]
}

/// Set the MAC address: that of the station, and the first entry of the filter.
pub open spec fn mac_script(mac: Seq<u8>) -> Seq<Instruction> {
    seq![
        Instruction::Write { register: REG_RX_ADDRL, value: chip::mac_low(mac) },
        Instruction::Write { register: REG_RX_ADDRH, value: chip::mac_high(mac) },
        Instruction::Write { register: REG_MAF_LO0, value: chip::mac_low(mac) },
        Instruction::Write {
            register: REG_MAF_HI0,
            value: (chip::mac_high(mac) + MAF_HI_VALID) as u32,
        },
    ]
}

/// Read the MAC address.
pub open spec fn read_mac_script() -> Seq<Instruction> {
    seq![
        Instruction::Read { register: REG_RX_ADDRL },
        Instruction::Read { register: REG_RX_ADDRH },
    ]
}

/// Enable the FIFOs, the receiver and the transmitter.
pub open spec fn enable_script() -> Seq<Instruction> {
    seq![
        Instruction::Read { register: REG_FCT_RX_CTL },
        Instruction::WriteBack { register: REG_FCT_RX_CTL, clear: 0, set: FCT_CTL_EN },
        Instruction::Read { register: REG_FCT_TX_CTL },
        Instruction::WriteBack { register: REG_FCT_TX_CTL, clear: 0, set: FCT_CTL_EN },
        Instruction::Read { register: REG_MAC_RX },
        Instruction::WriteBack { register: REG_MAC_RX, clear: 0, set: MAC_RX_RXEN },
        Instruction::Read { register: REG_MAC_TX },
        Instruction::WriteBack { register: REG_MAC_TX, clear: 0, set: MAC_TX_TXEN },
    ]
}

/// The script that resets the chip.
pub fn reset_steps(parked: bool) -> (script: [Instruction; 18])
    ensures
        script@ == reset_script(parked),
{
    let script = [
        Instruction::Read { register: REG_HW_CFG },
        Instruction::WriteBack { register: REG_HW_CFG, clear: 0, set: HW_CFG_LRST },
        Instruction::Await { register: REG_HW_CFG, clear: HW_CFG_LRST, set: 0 },
        Instruction::Read { register: REG_USB_CFG0 },
        if parked {
            Instruction::WriteBack { register: REG_USB_CFG0, clear: 0, set: USB_CFG_BIR }
        } else {
            Instruction::WriteBack { register: REG_USB_CFG0, clear: USB_CFG_BIR, set: 0 }
        },
        Instruction::Read { register: REG_HW_CFG },
        Instruction::WriteBack {
            register: REG_HW_CFG,
            clear: HW_CFG_MEF,
            set: HW_CFG_CLOCKS_AND_LEDS,
        },
        Instruction::Write { register: REG_INT_STS, value: 0xFFFF_FFFF },
        Instruction::Write { register: REG_FLOW, value: 0 },
        Instruction::Write { register: REG_FCT_FLOW, value: 0 },
        Instruction::Write { register: REG_RFE_CTL, value: RFE_CTL_DEFAULT },
        Instruction::Read { register: REG_PMT_CTL },
        Instruction::WriteBack { register: REG_PMT_CTL, clear: 0, set: PMT_CTL_PHY_RST },
        Instruction::Await { register: REG_PMT_CTL, clear: PMT_CTL_PHY_RST, set: PMT_CTL_READY },
        Instruction::Read { register: REG_MAC_CR },
        Instruction::WriteBack { register: REG_MAC_CR, clear: MAC_CR_EEE_EN, set: MAC_CR_AUTO },
        Instruction::Read { register: REG_MAC_RX },
        Instruction::WriteBack {
            register: REG_MAC_RX,
            clear: MAC_RX_MAX_SIZE_MASK,
            set: MAC_RX_MAX_SIZE,
        },
    ];
    assert(script@ =~= reset_script(parked));
    script
}

/// The script that has the PHY negotiate anew.
pub fn negotiate_steps() -> (script: [Instruction; 12])
    ensures
        script@ == negotiate_script(),
{
    let mii = Mii { access: REG_MII_ACC, data: REG_MII_DATA };
    let one: [Instruction; 4] = phy_write_steps(mii, PHY_REG_GIGABIT_CONTROL, 0);
    let two: [Instruction; 4] = phy_read_steps(mii, PHY_REG_CONTROL);
    let three: [Instruction; 4] = phy_write_steps(mii, PHY_REG_CONTROL, 0);
    let script = [
        one[0],
        one[1],
        one[2],
        one[3],
        two[0],
        two[1],
        two[2],
        two[3],
        three[0],
        Instruction::WriteBack { register: REG_MII_DATA, clear: BMCR_DROPPED, set: BMCR_NEGOTIATE },
        three[2],
        three[3],
    ];
    assert(script@ =~= negotiate_script());
    script
}

/// The script that sets the MAC address.
pub fn mac_steps(mac: &[u8; 6]) -> (script: [Instruction; 4])
    ensures
        script@ == mac_script(mac@),
{
    let (low, high): (u32, u32) = mac_words(mac);
    let script = [
        Instruction::Write { register: REG_RX_ADDRL, value: low },
        Instruction::Write { register: REG_RX_ADDRH, value: high },
        Instruction::Write { register: REG_MAF_LO0, value: low },
        Instruction::Write { register: REG_MAF_HI0, value: high + MAF_HI_VALID },
    ];
    assert(script@ =~= mac_script(mac@));
    script
}

/// The script that reads the MAC address.
pub fn read_mac_steps() -> (script: [Instruction; 2])
    ensures
        script@ == read_mac_script(),
{
    let script = [
        Instruction::Read { register: REG_RX_ADDRL },
        Instruction::Read { register: REG_RX_ADDRH },
    ];
    assert(script@ =~= read_mac_script());
    script
}

/// The script that enables the chip.
pub fn enable_steps() -> (script: [Instruction; 8])
    ensures
        script@ == enable_script(),
{
    let script = [
        Instruction::Read { register: REG_FCT_RX_CTL },
        Instruction::WriteBack { register: REG_FCT_RX_CTL, clear: 0, set: FCT_CTL_EN },
        Instruction::Read { register: REG_FCT_TX_CTL },
        Instruction::WriteBack { register: REG_FCT_TX_CTL, clear: 0, set: FCT_CTL_EN },
        Instruction::Read { register: REG_MAC_RX },
        Instruction::WriteBack { register: REG_MAC_RX, clear: 0, set: MAC_RX_RXEN },
        Instruction::Read { register: REG_MAC_TX },
        Instruction::WriteBack { register: REG_MAC_TX, clear: 0, set: MAC_TX_TXEN },
    ];
    assert(script@ =~= enable_script());
    script
}

/// Reset a chip whose receives are parked, and have its PHY negotiate.
pub open spec fn parked_reset_script() -> Seq<Instruction> {
    reset_script(true) + negotiate_script()
}

/// Reset a chip whose receives are parked, give it its MAC address, and enable it.
pub open spec fn parked_start_script(mac: Seq<u8>) -> Seq<Instruction> {
    parked_reset_script() + mac_script(mac) + enable_script()
}

/// A chip that is to be polled and one whose receives are parked are started alike, but
/// for what an empty bulk read is answered.
pub proof fn law_parked_start(mac: Seq<u8>, place: int)
    ensures
        ({
            let parked = parked_start_script(mac);
            let polled = reset_script(false) + negotiate_script() + mac_script(mac)
                + enable_script();
            &&& parked.len() == polled.len()
            &&& 0 <= place < parked.len() && parked[place] != polled[place] ==> {
                &&& parked[place] == Instruction::WriteBack {
                    register: REG_USB_CFG0,
                    clear: 0,
                    set: USB_CFG_BIR,
                }
                &&& polled[place] == Instruction::WriteBack {
                    register: REG_USB_CFG0,
                    clear: USB_CFG_BIR,
                    set: 0,
                }
            }
        }),
{
}

/// The script that resets a chip whose receives are parked.
pub fn parked_reset_steps() -> (script: Vec<Instruction>)
    ensures
        script@ == parked_reset_script(),
{
    let mut script: Vec<Instruction> = Vec::new();
    script.extend_from_slice(&reset_steps(true));
    script.extend_from_slice(&negotiate_steps());
    assert(script@ =~= parked_reset_script());
    script
}

/// The script that starts a chip whose receives are parked.
pub fn parked_start_steps(mac: &[u8; 6]) -> (script: Vec<Instruction>)
    ensures
        script@ == parked_start_script(mac@),
{
    let mut script: Vec<Instruction> = parked_reset_steps();
    script.extend_from_slice(&mac_steps(mac));
    script.extend_from_slice(&enable_steps());
    assert(script@ =~= parked_start_script(mac@));
    script
}

/// The receiving half of a LAN7800.
pub struct Lan7800Rx {
    pipe: RxPipe,
}

impl View for Lan7800Rx {
    type V = PipeState;

    closed spec fn view(&self) -> PipeState {
        self.pipe@
    }
}

/// What became of the receiving half, and the frames that came.
pub type Caught = (PipeState, Result<Seq<Seq<u8>>, TransferError>);

/// Receive the frames that a bulk transfer carries.
pub open spec fn receive_frames_program(state: PipeState) -> UsbProgram<Caught> {
    pipe::receive_program(state).bind(
        |received: pipe::Received|
            Program::Return(
                (
                    received.0,
                    match received.1 {
                        Ok(bytes) => Ok(frames_in(bytes, 0)),
                        Err(error) => Err(error),
                    },
                ),
            ),
    )
}

/// The frames of a received transfer, or why there are none, as values.
pub open spec fn caught(result: Result<Frames<'_>, TransferError>) -> Result<
    Seq<Seq<u8>>,
    TransferError,
> {
    match result {
        Ok(frames) => Ok(frames@),
        Err(error) => Err(error),
    }
}

impl Lan7800Rx {
    /// What is in the buffer.
    pub closed spec fn contents(&self) -> Seq<u8> {
        self.pipe.contents()
    }

    /// The pipe, for a transfer that somebody else makes.
    pub fn pipe(&mut self) -> (pipe: &mut RxPipe)
        ensures
            pipe@ == old(self)@,
            pipe.contents() == old(self).contents(),
            final(self)@ == final(pipe)@,
            final(self).contents() == final(pipe).contents(),
    {
        &mut self.pipe
    }

    /// The frames in the first `received` bytes of the buffer.
    pub fn frames(&self, received: usize) -> (frames: Frames<'_>)
        ensures
            frames@ == frames_in(pipe::front(self.contents(), received), 0),
            frames.transfer() == pipe::front(self.contents(), received),
    {
        Frames::new(self.pipe.first(received))
    }

    /// Receives the frames that a bulk transfer carries. They are gone with the next
    /// call.
    pub fn receive_frames<H: Dwc2Registers>(&mut self, channel: &mut Channel<H>) -> (result: Result<
        Frames<'_>,
        TransferError,
    >)
        ensures
            receive_frames_program(old(self)@).ran(
                old(channel)@,
                final(channel)@,
                (final(self)@, caught(result)),
            ),
    {
        match self.pipe.receive(channel) {
            Ok(received) => {
                let bytes = self.pipe.first(received);
                Ok(Frames::new(bytes))
            },
            Err(error) => Err(error),
        }
    }
}

/// The sending half of a LAN7800.
pub struct Lan7800Tx {
    pipe: TxPipe,
}

impl View for Lan7800Tx {
    type V = PipeState;

    closed spec fn view(&self) -> PipeState {
        self.pipe@
    }
}

impl Lan7800Tx {
    /// The pipe, for a transfer that somebody else makes.
    pub fn pipe(&mut self) -> (pipe: &mut TxPipe)
        ensures
            pipe@ == old(self)@,
            final(self)@ == final(pipe)@,
    {
        &mut self.pipe
    }

    /// Sends a frame.
    pub fn send_frame<H: Dwc2Registers>(&mut self, channel: &mut Channel<H>, frame: &[u8]) -> (result:
        Result<(), TransferError>)
        requires
            frame@.len() <= MAX_STAGED,
        ensures
            pipe::send_program(old(self)@, tx_header(frame@.len() as int) + frame@).ran(
                old(channel)@,
                final(channel)@,
                (final(self)@, result),
            ),
    {
        let header: [u8; 8] = header_for(frame.len());
        self.pipe.send(channel, header, frame)
    }
}

/// A LAN7800.
pub struct Lan7800 {
    endpoint: ControlEndpoint,
    rx: Lan7800Rx,
    tx: Lan7800Tx,
}

/// A LAN7800 as a value.
pub struct Lan7800State {
    /// Its endpoint 0.
    pub endpoint: ControlEndpoint,
    pub rx: PipeState,
    pub tx: PipeState,
}

impl View for Lan7800 {
    type V = Lan7800State;

    closed spec fn view(&self) -> Lan7800State {
        Lan7800State { endpoint: self.endpoint, rx: self.rx@, tx: self.tx@ }
    }
}

/// A chip with these bulk endpoints.
pub open spec fn new_chip(
    endpoint: ControlEndpoint,
    pair: (BulkEndpoint, BulkEndpoint),
) -> Lan7800State {
    Lan7800State {
        endpoint,
        rx: PipeState { device: endpoint, bulk: pair.0 },
        tx: PipeState { device: endpoint, bulk: pair.1 },
    }
}

/// A chip that was found, if one was.
pub open spec fn found_chip(endpoint: ControlEndpoint, pair: pipe::Pair) -> Result<
    Option<Lan7800State>,
    TransferError,
> {
    match pair {
        Ok(Some(pair)) => Ok(Some(new_chip(endpoint, pair))),
        Ok(None) => Ok(None),
        Err(error) => Err(error),
    }
}

/// A chip that was found, as a value.
pub open spec fn chip_found(result: Result<Option<Lan7800>, TransferError>) -> Result<
    Option<Lan7800State>,
    TransferError,
> {
    match result {
        Ok(Some(chip)) => Ok(Some(chip@)),
        Ok(None) => Ok(None),
        Err(error) => Err(error),
    }
}

/// Take a device over, if it is a LAN7800.
pub open spec fn from_device_program(device: Device) -> UsbProgram<
    Result<Option<Lan7800State>, TransferError>,
> {
    if device.descriptor.vendor_id != VENDOR_ID || device.descriptor.product_id != PRODUCT_ID {
        Program::Return(Ok(None))
    } else {
        pipe::attach_program(device.endpoint).bind(
            |pair: pipe::Pair| Program::Return(found_chip(device.endpoint, pair)),
        )
    }
}

/// Take a chip over whose configuration has been selected.
pub open spec fn from_endpoint_program(endpoint: ControlEndpoint) -> UsbProgram<
    Result<Option<Lan7800State>, TransferError>,
> {
    pipe::adopt_program(endpoint).bind(
        |pair: pipe::Pair| Program::Return(found_chip(endpoint, pair)),
    )
}

/// The chip is told by the two numbers in its device descriptor; a device with others is asked
/// nothing. It receives over the bulk endpoint that goes into the host, which is the first of
/// the pair, and sends over the other.
pub proof fn law_chip_found(device: Device, answers: Seq<Reply>, pair: pipe::Pair)
    ensures
        ({
            let program = from_device_program(device);
            let attach = pipe::attach_program(device.endpoint);
            let adopt = pipe::adopt_program(device.endpoint);
            let adopted = from_endpoint_program(device.endpoint);
            let ours = device.descriptor.vendor_id == 0x0424 && device.descriptor.product_id
                == 0x7800;
            let right = |result: Result<Option<Lan7800State>, TransferError>|
                match pair {
                    Err(error) => result == Err::<Option<Lan7800State>, TransferError>(error),
                    Ok(None) => result == Ok::<Option<Lan7800State>, TransferError>(None),
                    Ok(Some(both)) => result matches Ok(Some(chip)) && chip.endpoint
                        == device.endpoint && chip.rx.bulk == both.0 && chip.tx.bulk == both.1
                        && chip.rx.device == device.endpoint && chip.tx.device == device.endpoint,
                };
            &&& !ours ==> program == UsbProgram::<
                Result<Option<Lan7800State>, TransferError>,
            >::Return(Ok(None))
            &&& ours && attach.given(answers) == UsbProgram::<pipe::Pair>::Return(pair)
                ==> program.asked(answers) == attach.asked(answers) && (program.given(
                answers,
            ) matches Program::Return(result) && right(result))
            &&& adopt.given(answers) == UsbProgram::<pipe::Pair>::Return(pair) ==> adopted.asked(
                answers,
            ) == adopt.asked(answers) && (adopted.given(answers) matches Program::Return(result)
                && right(result))
        }),
{
    let told = |pair: pipe::Pair|
        UsbProgram::<Result<Option<Lan7800State>, TransferError>>::Return(
            found_chip(device.endpoint, pair),
        );
    let none = Seq::<Reply>::empty();
    assert(answers + none =~= answers);
    let attach = pipe::attach_program(device.endpoint);
    let adopt = pipe::adopt_program(device.endpoint);
    broadcast use crate::program::lemma_bind_same;

    if attach.given(answers) == UsbProgram::<pipe::Pair>::Return(pair) {
        crate::program::lemma_given_in_turn(attach, told, answers, none, pair);
        assert(attach.asked(answers) + told(pair).asked(none) =~= attach.asked(answers));
    }
    if adopt.given(answers) == UsbProgram::<pipe::Pair>::Return(pair) {
        crate::program::lemma_given_in_turn(adopt, told, answers, none, pair);
        assert(adopt.asked(answers) + told(pair).asked(none) =~= adopt.asked(answers));
    }
}

/// Reset the chip and have it negotiate.
pub open spec fn reset_program(endpoint: ControlEndpoint) -> UsbProgram<Result<(), TransferError>> {
    control::and_then(
        chip::do_program(endpoint, reset_script(false)),
        |reset: ()| chip::do_program(endpoint, negotiate_script()),
    )
}

/// Reset the chip, give it its MAC address, and enable it.
pub open spec fn start_program(endpoint: ControlEndpoint, mac: Seq<u8>) -> UsbProgram<
    Result<(), TransferError>,
> {
    control::and_then(
        reset_program(endpoint),
        |reset: ()|
            control::and_then(
                chip::do_program(endpoint, mac_script(mac)),
                |addressed: ()| chip::do_program(endpoint, enable_script()),
            ),
    )
}

/// The MAC address of the result of reading it, as a value.
pub open spec fn mac_read(result: Result<[u8; 6], TransferError>) -> Result<
    Seq<u8>,
    TransferError,
> {
    match result {
        Ok(mac) => Ok(mac@),
        Err(error) => Err(error),
    }
}

impl Lan7800 {
    /// Takes `device` over, or says that it is no LAN7800.
    pub fn from_device<H: Dwc2Registers>(channel: &mut Channel<H>, device: Device) -> (result:
        Result<Option<Lan7800>, TransferError>)
        ensures
            from_device_program(device).ran(
                old(channel)@,
                final(channel)@,
                chip_found(result),
            ),
    {
        if device.descriptor.vendor_id != VENDOR_ID || device.descriptor.product_id != PRODUCT_ID {
            return Ok(None);
        }
        match attach(channel, device.endpoint) {
            Ok(Some((bulk_in, bulk_out))) => Ok(
                Some(Lan7800::new(device.endpoint, bulk_in, bulk_out)),
            ),
            Ok(None) => Ok(None),
            Err(error) => Err(error),
        }
    }

    /// Takes a chip over whose configuration has been selected.
    pub fn from_endpoint<H: Dwc2Registers>(
        channel: &mut Channel<H>,
        endpoint: ControlEndpoint,
    ) -> (result: Result<Option<Lan7800>, TransferError>)
        ensures
            from_endpoint_program(endpoint).ran(
                old(channel)@,
                final(channel)@,
                chip_found(result),
            ),
    {
        match adopt(channel, endpoint) {
            Ok(Some((bulk_in, bulk_out))) => Ok(Some(Lan7800::new(endpoint, bulk_in, bulk_out))),
            Ok(None) => Ok(None),
            Err(error) => Err(error),
        }
    }

    fn new(endpoint: ControlEndpoint, bulk_in: BulkEndpoint, bulk_out: BulkEndpoint) -> (chip:
        Lan7800)
        ensures
            chip@ == new_chip(endpoint, (bulk_in, bulk_out)),
    {
        Lan7800 {
            endpoint,
            rx: Lan7800Rx { pipe: RxPipe::new(endpoint, bulk_in) },
            tx: Lan7800Tx { pipe: TxPipe::new(endpoint, bulk_out) },
        }
    }

    /// The chip's endpoint 0.
    pub fn endpoint(&self) -> (endpoint: ControlEndpoint)
        ensures
            endpoint == self@.endpoint,
    {
        self.endpoint
    }

    /// Reads a register.
    pub fn read_register<H: Dwc2Registers>(&self, channel: &mut Channel<H>, register: u16) -> (result:
        Result<u32, TransferError>)
        ensures
            chip::read_program(self@.endpoint, register).ran(
                old(channel)@,
                final(channel)@,
                result,
            ),
    {
        chip::read_register(channel, self.endpoint, register)
    }

    /// Writes a register.
    pub fn write_register<H: Dwc2Registers>(
        &self,
        channel: &mut Channel<H>,
        register: u16,
        value: u32,
    ) -> (result: Result<(), TransferError>)
        ensures
            chip::write_program(self@.endpoint, register, value).ran(
                old(channel)@,
                final(channel)@,
                result,
            ),
    {
        chip::write_register(channel, self.endpoint, register, value)
    }

    /// What the chip says that it is.
    pub fn id_revision<H: Dwc2Registers>(&self, channel: &mut Channel<H>) -> (result: Result<
        IdRevision,
        TransferError,
    >)
        ensures
            control::and_then(
                chip::read_program(self@.endpoint, REG_ID_REV),
                |value: u32| Program::Return(Ok(ethernet::id_in(value))),
            ).ran(old(channel)@, final(channel)@, result),
    {
        match self.read_register(channel, REG_ID_REV) {
            Ok(value) => Ok(id_of(value)),
            Err(error) => Err(error),
        }
    }

    /// Gives the chip its MAC address.
    pub fn set_mac_address<H: Dwc2Registers>(
        &mut self,
        channel: &mut Channel<H>,
        mac: [u8; 6],
    ) -> (result: Result<(), TransferError>)
        ensures
            final(self)@ == old(self)@,
            chip::do_program(old(self)@.endpoint, mac_script(mac@)).ran(
                old(channel)@,
                final(channel)@,
                result,
            ),
    {
        chip::do_script(channel, self.endpoint, &mac_steps(&mac))
    }

    /// The chip's MAC address.
    pub fn mac_address<H: Dwc2Registers>(&self, channel: &mut Channel<H>) -> (result: Result<
        [u8; 6],
        TransferError,
    >)
        ensures
            chip::answer_program(
                self@.endpoint,
                read_mac_script(),
                |low: u32, high: u32| chip::mac_in(low, high),
            ).ran(old(channel)@, final(channel)@, mac_read(result)),
    {
        match chip::ask(channel, self.endpoint, &read_mac_steps()) {
            Ok((low, high)) => Ok(mac_of(low, high)),
            Err(error) => Err(error),
        }
    }

    /// Resets the chip, with everything set up but its MAC address and its FIFOs.
    pub fn reset<H: Dwc2Registers>(&mut self, channel: &mut Channel<H>) -> (result: Result<
        (),
        TransferError,
    >)
        ensures
            final(self)@ == old(self)@,
            reset_program(old(self)@.endpoint).ran(old(channel)@, final(channel)@, result),
    {
        match chip::do_script(channel, self.endpoint, &reset_steps(false)) {
            Ok(()) => self.start_autonegotiation(channel),
            Err(error) => Err(error),
        }
    }

    fn start_autonegotiation<H: Dwc2Registers>(&self, channel: &mut Channel<H>) -> (result: Result<
        (),
        TransferError,
    >)
        ensures
            chip::do_program(self@.endpoint, negotiate_script()).ran(
                old(channel)@,
                final(channel)@,
                result,
            ),
    {
        chip::do_script(channel, self.endpoint, &negotiate_steps())
    }

    /// Resets the chip, gives it its MAC address, and enables it.
    pub fn start<H: Dwc2Registers>(&mut self, channel: &mut Channel<H>, mac: [u8; 6]) -> (result:
        Result<(), TransferError>)
        ensures
            final(self)@ == old(self)@,
            start_program(old(self)@.endpoint, mac@).ran(old(channel)@, final(channel)@, result),
    {
        match self.reset(channel) {
            Ok(()) => {},
            Err(error) => return Err(error),
        }
        match self.set_mac_address(channel, mac) {
            Ok(()) => {},
            Err(error) => return Err(error),
        }
        chip::do_script(channel, self.endpoint, &enable_steps())
    }

    /// The largest packet of the receiving pipe.
    pub fn bulk_in_max_packet_size(&self) -> (size: u16)
        ensures
            size == self@.rx.bulk.max_packet_size,
    {
        self.rx.pipe.max_packet_size()
    }

    /// The largest packet of the sending pipe.
    pub fn bulk_out_max_packet_size(&self) -> (size: u16)
        ensures
            size == self@.tx.bulk.max_packet_size,
    {
        self.tx.pipe.max_packet_size()
    }

    /// Whether the link is up.
    pub fn is_link_up<H: Dwc2Registers>(&self, channel: &mut Channel<H>) -> (result: Result<
        bool,
        TransferError,
    >)
        ensures
            chip::answer_program(
                self@.endpoint,
                chip::phy_read_script(mii(), PHY_REG_STATUS),
                |status: u32, unused: u32| chip::status_up(status),
            ).ran(old(channel)@, final(channel)@, result),
    {
        let mii = Mii { access: REG_MII_ACC, data: REG_MII_DATA };
        match chip::ask(channel, self.endpoint, &phy_read_steps(mii, PHY_REG_STATUS)) {
            Ok((status, _)) => Ok(link_up(status)),
            Err(error) => Err(error),
        }
    }

    /// Whether the link is full duplex.
    pub fn is_full_duplex<H: Dwc2Registers>(&self, channel: &mut Channel<H>) -> (result: Result<
        bool,
        TransferError,
    >)
        ensures
            chip::answer_program(
                self@.endpoint,
                chip::phy_read_two_script(mii(), PHY_REG_ADVERTISE, PHY_REG_LINK_PARTNER),
                |ours: u32, theirs: u32| chip::both_full(ours, theirs),
            ).ran(old(channel)@, final(channel)@, result),
    {
        let mii = Mii { access: REG_MII_ACC, data: REG_MII_DATA };
        let script = phy_read_two_steps(mii, PHY_REG_ADVERTISE, PHY_REG_LINK_PARTNER);
        match chip::ask(channel, self.endpoint, &script) {
            Ok((ours, theirs)) => Ok(full_duplex(ours, theirs)),
            Err(error) => Err(error),
        }
    }

    /// Lets every multicast in, or only what the filter lets in.
    pub fn set_all_multicast<H: Dwc2Registers>(
        &mut self,
        channel: &mut Channel<H>,
        pass: bool,
    ) -> (result: Result<(), TransferError>)
        ensures
            final(self)@ == old(self)@,
            chip::do_program(
                old(self)@.endpoint,
                chip::switch_script(REG_RFE_CTL, RFE_CTL_MCAST_EN, pass),
            ).ran(old(channel)@, final(channel)@, result),
    {
        chip::do_script(
            channel,
            self.endpoint,
            &switch_steps(REG_RFE_CTL, RFE_CTL_MCAST_EN, pass),
        )
    }

    /// Lets every unicast in, or only what the filter lets in.
    pub fn set_promiscuous<H: Dwc2Registers>(
        &mut self,
        channel: &mut Channel<H>,
        pass: bool,
    ) -> (result: Result<(), TransferError>)
        ensures
            final(self)@ == old(self)@,
            chip::do_program(
                old(self)@.endpoint,
                chip::switch_script(REG_RFE_CTL, RFE_CTL_UCAST_EN, pass),
            ).ran(old(channel)@, final(channel)@, result),
    {
        chip::do_script(
            channel,
            self.endpoint,
            &switch_steps(REG_RFE_CTL, RFE_CTL_UCAST_EN, pass),
        )
    }

    /// Sends a frame.
    pub fn send_frame<H: Dwc2Registers>(&mut self, channel: &mut Channel<H>, frame: &[u8]) -> (result:
        Result<(), TransferError>)
        requires
            frame@.len() <= MAX_STAGED,
        ensures
            final(self)@ == (Lan7800State { tx: final(self)@.tx, ..old(self)@ }),
            pipe::send_program(old(self)@.tx, tx_header(frame@.len() as int) + frame@).ran(
                old(channel)@,
                final(channel)@,
                (final(self)@.tx, result),
            ),
    {
        self.tx.send_frame(channel, frame)
    }

    /// Receives the frames that a bulk transfer carries. They are gone with the next
    /// call.
    pub fn receive_frames<H: Dwc2Registers>(&mut self, channel: &mut Channel<H>) -> (result: Result<
        Frames<'_>,
        TransferError,
    >)
        ensures
            final(self)@ == (Lan7800State { rx: final(self)@.rx, ..old(self)@ }),
            receive_frames_program(old(self)@.rx).ran(
                old(channel)@,
                final(channel)@,
                (final(self)@.rx, caught(result)),
            ),
    {
        self.rx.receive_frames(channel)
    }

    /// Reads a register of the PHY.
    pub fn phy_read<H: Dwc2Registers>(&self, channel: &mut Channel<H>, index: u8) -> (result: Result<
        u16,
        TransferError,
    >)
        ensures
            chip::answer_program(
                self@.endpoint,
                chip::phy_read_script(mii(), index),
                |value: u32, unused: u32| (value % 65536) as u16,
            ).ran(old(channel)@, final(channel)@, result),
    {
        let mii = Mii { access: REG_MII_ACC, data: REG_MII_DATA };
        match chip::ask(channel, self.endpoint, &phy_read_steps(mii, index)) {
            Ok((value, _)) => Ok((value % 65536) as u16),
            Err(error) => Err(error),
        }
    }

    /// Writes a register of the PHY.
    pub fn phy_write<H: Dwc2Registers>(
        &self,
        channel: &mut Channel<H>,
        index: u8,
        value: u16,
    ) -> (result: Result<(), TransferError>)
        ensures
            chip::do_program(
                self@.endpoint,
                chip::phy_write_script(mii(), index, value),
            ).ran(old(channel)@, final(channel)@, result),
    {
        let mii = Mii { access: REG_MII_ACC, data: REG_MII_DATA };
        chip::do_script(channel, self.endpoint, &phy_write_steps(mii, index, value))
    }

    /// The two directions, each to be driven on a channel of its own.
    pub fn split(&mut self) -> (halves: (&mut Lan7800Rx, &mut Lan7800Tx))
        ensures
            halves.0@ == old(self)@.rx,
            halves.1@ == old(self)@.tx,
            final(self)@ == (Lan7800State {
                endpoint: old(self)@.endpoint,
                rx: final(halves.0)@,
                tx: final(halves.1)@,
            }),
    {
        (&mut self.rx, &mut self.tx)
    }
}

impl<'a> FrameWalk<'a> for Frames<'a> {
    open spec fn waiting(&self) -> Seq<Seq<u8>> {
        self@
    }

    fn next_frame(&mut self) -> (frame: Option<&'a [u8]>) {
        self.next()
    }
}

impl<H: Dwc2Registers> Ethernet<H> for Lan7800 {
    type Frames<'a> = Frames<'a>;

    type State = Lan7800State;

    open spec fn state(&self) -> Lan7800State {
        self@
    }

    open spec fn id_program(state: Lan7800State) -> UsbProgram<Result<IdRevision, TransferError>> {
        control::and_then(
            chip::read_program(state.endpoint, REG_ID_REV),
            |value: u32| Program::Return(Ok(ethernet::id_in(value))),
        )
    }

    open spec fn start_program(state: Lan7800State, mac: Seq<u8>) -> UsbProgram<
        Result<(), TransferError>,
    > {
        start_program(state.endpoint, mac)
    }

    open spec fn link_program(state: Lan7800State) -> UsbProgram<Result<bool, TransferError>> {
        chip::answer_program(
            state.endpoint,
            chip::phy_read_script(mii(), PHY_REG_STATUS),
            |status: u32, unused: u32| chip::status_up(status),
        )
    }

    open spec fn duplex_program(state: Lan7800State) -> UsbProgram<Result<bool, TransferError>> {
        chip::answer_program(
            state.endpoint,
            chip::phy_read_two_script(mii(), PHY_REG_ADVERTISE, PHY_REG_LINK_PARTNER),
            |ours: u32, theirs: u32| chip::both_full(ours, theirs),
        )
    }

    open spec fn multicast_program(state: Lan7800State, pass: bool) -> UsbProgram<
        Result<(), TransferError>,
    > {
        chip::do_program(state.endpoint, chip::switch_script(REG_RFE_CTL, RFE_CTL_MCAST_EN, pass))
    }

    open spec fn send_program(state: Lan7800State, frame: Seq<u8>) -> UsbProgram<
        (Lan7800State, Result<(), TransferError>),
    > {
        pipe::send_program(state.tx, tx_header(frame.len() as int) + frame).bind(
            |sent: pipe::Sent| Program::Return((Lan7800State { tx: sent.0, ..state }, sent.1)),
        )
    }

    open spec fn receive_program(state: Lan7800State) -> UsbProgram<
        (Lan7800State, Result<Seq<Seq<u8>>, TransferError>),
    > {
        receive_frames_program(state.rx).bind(
            |caught: Caught|
                Program::Return((Lan7800State { rx: caught.0, ..state }, caught.1)),
        )
    }

    fn mtu() -> (mtu: usize) {
        MTU
    }

    fn id_revision(&self, channel: &mut Channel<H>) -> (result: Result<IdRevision, TransferError>) {
        Lan7800::id_revision(self, channel)
    }

    fn start(&mut self, channel: &mut Channel<H>, mac: [u8; 6]) -> (result: Result<
        (),
        TransferError,
    >) {
        Lan7800::start(self, channel, mac)
    }

    fn is_link_up(&self, channel: &mut Channel<H>) -> (result: Result<bool, TransferError>) {
        Lan7800::is_link_up(self, channel)
    }

    fn is_full_duplex(&self, channel: &mut Channel<H>) -> (result: Result<bool, TransferError>) {
        Lan7800::is_full_duplex(self, channel)
    }

    fn set_all_multicast(&mut self, channel: &mut Channel<H>, pass: bool) -> (result: Result<
        (),
        TransferError,
    >) {
        Lan7800::set_all_multicast(self, channel, pass)
    }

    fn send_frame(&mut self, channel: &mut Channel<H>, frame: &[u8]) -> (result: Result<
        (),
        TransferError,
    >) {
        Lan7800::send_frame(self, channel, frame)
    }

    fn receive_frames(&mut self, channel: &mut Channel<H>) -> (result: Result<
        Frames<'_>,
        TransferError,
    >) {
        Lan7800::receive_frames(self, channel)
    }
}

} // verus!

//! What a USB Ethernet chip looks like from above, whichever it is.

use vstd::prelude::*;

use crate::usb::dwc2::hardware::Dwc2Registers;
use crate::usb::dwc2::{Channel, TransferError, UsbProgram};

verus! {

/// What a chip says that it is.
#[derive(Clone, Copy, Debug, PartialEq, Eq, Structural)]
pub struct IdRevision {
    /// Which chip.
    pub id: u16,
    /// Which revision of it.
    pub revision: u16,
}

/// What an identity register holds.
pub open spec fn id_in(value: u32) -> IdRevision {
    IdRevision { id: (value / 65536) as u16, revision: (value % 65536) as u16 }
}

/// The chip's number is the upper half of the register, and its revision the lower.
pub proof fn law_id(value: u32)
    ensures
        id_in(value).id * 65536 + id_in(value).revision == value,
{
}

/// Takes an identity register apart.
pub fn id_of(value: u32) -> (id: IdRevision)
    ensures
        id == id_in(value),
{
    IdRevision { id: (value / 65536) as u16, revision: (value % 65536) as u16 }
}

/// The frames of a received transfer, to go through.
pub trait FrameWalk<'a>: Sized {
    /// The frames still to come.
    spec fn waiting(&self) -> Seq<Seq<u8>>;

    /// The next frame.
    fn next_frame(&mut self) -> (frame: Option<&'a [u8]>)
        ensures
            match frame {
                Some(frame) => {
                    &&& old(self).waiting().len() > 0
                    &&& frame@ == old(self).waiting()[0]
                    &&& final(self).waiting() == old(self).waiting().skip(1)
                },
                None => old(self).waiting().len() == 0 && final(self).waiting().len() == 0,
            },
    ;
}

/// A USB Ethernet chip that has been taken over. What it is asked to do, and what
/// became of it, is said by the programs of the chip.
pub trait Ethernet<H: Dwc2Registers>: Sized {
    /// The frames of a received transfer.
    type Frames<'a>: FrameWalk<'a> where Self: 'a;

    /// The chip as a value.
    type State;

    /// The chip as a value.
    spec fn state(&self) -> Self::State;

    /// Ask the chip what it is.
    spec fn id_program(state: Self::State) -> UsbProgram<Result<IdRevision, TransferError>>;

    /// Start the chip with a MAC address.
    spec fn start_program(state: Self::State, mac: Seq<u8>) -> UsbProgram<
        Result<(), TransferError>,
    >;

    /// Ask whether the link is up.
    spec fn link_program(state: Self::State) -> UsbProgram<Result<bool, TransferError>>;

    /// Ask whether the link is full duplex.
    spec fn duplex_program(state: Self::State) -> UsbProgram<Result<bool, TransferError>>;

    /// Let every multicast in, or not.
    spec fn multicast_program(state: Self::State, pass: bool) -> UsbProgram<
        Result<(), TransferError>,
    >;

    /// Send a frame.
    spec fn send_program(state: Self::State, frame: Seq<u8>) -> UsbProgram<
        (Self::State, Result<(), TransferError>),
    >;

    /// Receive frames.
    spec fn receive_program(state: Self::State) -> UsbProgram<
        (Self::State, Result<Seq<Seq<u8>>, TransferError>),
    >;

    /// The longest Ethernet frame, without its CRC.
    fn mtu() -> (mtu: usize)
        ensures
            mtu == 1514,
    ;

    /// What the chip says that it is.
    fn id_revision(&self, channel: &mut Channel<H>) -> (result: Result<IdRevision, TransferError>)
        ensures
            Self::id_program(self.state()).ran(old(channel)@, final(channel)@, result),
    ;

    /// Starts the chip with a MAC address.
    fn start(&mut self, channel: &mut Channel<H>, mac: [u8; 6]) -> (result: Result<
        (),
        TransferError,
    >)
        ensures
            final(self).state() == old(self).state(),
            Self::start_program(old(self).state(), mac@).ran(
                old(channel)@,
                final(channel)@,
                result,
            ),
    ;

    /// Whether the link is up.
    fn is_link_up(&self, channel: &mut Channel<H>) -> (result: Result<bool, TransferError>)
        ensures
            Self::link_program(self.state()).ran(old(channel)@, final(channel)@, result),
    ;

    /// Whether the link is full duplex.
    fn is_full_duplex(&self, channel: &mut Channel<H>) -> (result: Result<bool, TransferError>)
        ensures
            Self::duplex_program(self.state()).ran(old(channel)@, final(channel)@, result),
    ;

    /// Lets every multicast in, or only what the filter lets in.
    fn set_all_multicast(&mut self, channel: &mut Channel<H>, pass: bool) -> (result: Result<
        (),
        TransferError,
    >)
        ensures
            final(self).state() == old(self).state(),
            Self::multicast_program(old(self).state(), pass).ran(
                old(channel)@,
                final(channel)@,
                result,
            ),
    ;

    /// Sends a frame.
    fn send_frame(&mut self, channel: &mut Channel<H>, frame: &[u8]) -> (result: Result<
        (),
        TransferError,
    >)
        requires
            frame@.len() <= 2040,
        ensures
            Self::send_program(old(self).state(), frame@).ran(
                old(channel)@,
                final(channel)@,
                (final(self).state(), result),
            ),
    ;

    /// Receives frames.
    fn receive_frames(&mut self, channel: &mut Channel<H>) -> (result: Result<
        Self::Frames<'_>,
        TransferError,
    >)
        ensures
            Self::receive_program(old(self).state()).ran(
                old(channel)@,
                final(channel)@,
                (
                    final(self).state(),
                    match result {
                        Ok(frames) => Ok(frames.waiting()),
                        Err(error) => Err(error),
                    },
                ),
            ),
    ;
}

} // verus!

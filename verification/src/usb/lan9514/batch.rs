//! A LAN9514 that hands out one frame at a time, as a network stack wants them.

use vstd::prelude::*;

use crate::program::Program;
use crate::usb::dwc2::hardware::Dwc2Registers;
use crate::usb::dwc2::{Channel, UsbHistory, UsbProgram};
use crate::usb::lan9514;
use crate::usb::lan9514::{Frames, Lan9514, Lan9514State, MTU};
use crate::usb::pipe;
use crate::usb::pipe::{PipeState, FRAME_BUFFER_SIZE};

verus! {

broadcast use crate::program::group_program;

/// The size of the buffer for a frame to send.
pub const TX_SCRATCH_SIZE: usize = 1516;

/// There are no more frames in a transfer than bytes.
pub proof fn lemma_frames_fit(buffer: Seq<u8>, at: int)
    requires
        0 <= at,
    ensures
        lan9514::frames_in(buffer, at).len() <= if at <= buffer.len() {
            buffer.len() - at
        } else {
            0
        },
    decreases buffer.len() + 4 - at,
{
    reveal(lan9514::frames_in);
    if at + 4 <= buffer.len() {
        let status = crate::bytes::le32(
            buffer[at],
            buffer[at + 1],
            buffer[at + 2],
            buffer[at + 3],
        );
        let length = status as int / 65536 % 0x4000;
        if 4 < length <= MTU + 4 && at + 4 + length <= buffer.len() {
            lemma_frames_fit(buffer, lan9514::aligned(at + 4 + length));
        }
    }
}

/// The frames of one transfer, of which some have been handed out.
pub struct FrameBatch {
    bytes: [u8; 2048],
    filled: usize,
    served: usize,
}

impl View for FrameBatch {
    /// The frames that have not been handed out.
    type V = Seq<Seq<u8>>;

    closed spec fn view(&self) -> Seq<Seq<u8>> {
        self.all().skip(self.served as int)
    }
}

impl FrameBatch {
    closed spec fn all(&self) -> Seq<Seq<u8>> {
        lan9514::frames_in(self.bytes@.take(self.filled as int), 0)
    }

    /// No more frames have been handed out than there were.
    pub closed spec fn wf(&self) -> bool {
        &&& self.filled <= FRAME_BUFFER_SIZE
        &&& self.served <= self.all().len()
    }

    /// An empty batch.
    pub fn new() -> (batch: Self)
        ensures
            batch.wf(),
            batch@ == Seq::<Seq<u8>>::empty(),
    {
        let batch = FrameBatch { bytes: [0;2048], filled: 0, served: 0 };
        proof {
            reveal(lan9514::frames_in);
        }
        assert(batch.all() =~= Seq::<Seq<u8>>::empty());
        assert(batch@ =~= Seq::<Seq<u8>>::empty());
        batch
    }

    /// The next frame to hand out.
    pub fn next_pending(&self) -> (frame: Option<&[u8]>)
        requires
            self.wf(),
        ensures
            match frame {
                Some(frame) => self@.len() > 0 && frame@ == self@[0] && frame@.len() <= MTU,
                None => self@.len() == 0,
            },
    {
        let transfer = vstd::slice::slice_subrange(self.bytes.as_slice(), 0, self.filled);
        assert(transfer@ =~= self.bytes@.take(self.filled as int));
        let mut frames = Frames::new(transfer);
        let mut skipped: usize = 0;
        assert(self.all().skip(0) =~= self.all());
        while skipped < self.served
            invariant
                self.wf(),
                skipped <= self.served,
                frames@ == self.all().skip(skipped as int),
            decreases self.served - skipped,
        {
            let frame = frames.next();
            assert(frame is Some);
            assert(self.all().skip(skipped as int).skip(1) =~= self.all().skip(skipped + 1));
            skipped = skipped + 1;
        }
        frames.next()
    }

    /// Replaces the batch by the frames of a transfer.
    pub fn fill(&mut self, transfer: &[u8])
        requires
            transfer@.len() <= FRAME_BUFFER_SIZE,
        ensures
            final(self).wf(),
            final(self)@ == lan9514::frames_in(transfer@, 0),
    {
        let mut at: usize = 0;
        while at < transfer.len()
            invariant
                at <= transfer@.len() <= FRAME_BUFFER_SIZE,
                forall|i: int| 0 <= i < at ==> self.bytes@[i] == transfer@[i],
            decreases transfer@.len() - at,
        {
            self.bytes[at] = transfer[at];
            at = at + 1;
        }
        self.filled = transfer.len();
        self.served = 0;
        assert(self.bytes@.take(transfer@.len() as int) =~= transfer@);
        assert(self.all().skip(0) =~= self.all());
    }

    /// Takes the next frame out.
    pub fn take(&mut self) -> (frame: Option<Lan9514RxToken>)
        requires
            old(self).wf(),
        ensures
            final(self).wf(),
            match frame {
                Some(frame) => {
                    &&& old(self)@.len() > 0
                    &&& frame.wf()
                    &&& frame@ == old(self)@[0]
                    &&& final(self)@ == old(self)@.skip(1)
                },
                None => old(self)@.len() == 0 && final(self)@ == old(self)@,
            },
    {
        let frame: Lan9514RxToken = match self.next_pending() {
            Some(frame) => Lan9514RxToken::copied(frame),
            None => return None,
        };
        proof {
            lemma_frames_fit(self.bytes@.take(self.filled as int), 0);
        }
        self.served = self.served + 1;
        assert(old(self)@.skip(1) =~= self@);
        Some(frame)
    }
}

/// A frame that has been taken out of a batch.
pub struct Lan9514RxToken {
    buffer: [u8; 1514],
    len: usize,
}

impl View for Lan9514RxToken {
    type V = Seq<u8>;

    closed spec fn view(&self) -> Seq<u8> {
        self.buffer@.take(self.len as int)
    }
}

impl Lan9514RxToken {
    /// The frame fits into the buffer.
    pub closed spec fn wf(&self) -> bool {
        self.len <= MTU
    }

    fn copied(frame: &[u8]) -> (copy: Self)
        requires
            frame@.len() <= MTU,
        ensures
            copy.wf(),
            copy@ == frame@,
    {
        let mut buffer: [u8; 1514] = [0;1514];
        let mut at: usize = 0;
        while at < frame.len()
            invariant
                at <= frame@.len() <= MTU,
                forall|i: int| 0 <= i < at ==> buffer@[i] == frame@[i],
            decreases frame@.len() - at,
        {
            buffer[at] = frame[at];
            at = at + 1;
        }
        let copy = Lan9514RxToken { buffer, len: frame.len() };
        assert(copy@ =~= frame@);
        copy
    }

    /// The bytes of the frame.
    pub fn bytes(&self) -> (bytes: &[u8])
        requires
            self.wf(),
        ensures
            bytes@ == self@,
    {
        let bytes = vstd::slice::slice_subrange(self.buffer.as_slice(), 0, self.len);
        assert(bytes@ =~= self@);
        bytes
    }
}

/// A LAN9514 with a channel of its own.
pub struct Lan9514Phy<H> {
    lan9514: Lan9514,
    channel: Channel<H>,
    tx_scratch: [u8; 1516],
    batch: FrameBatch,
}

/// What is known of such a chip: the chip, and the frames that have come and not
/// been handed out.
pub struct PhyState {
    pub chip: Lan9514State,
    pub waiting: Seq<Seq<u8>>,
}

impl<H> View for Lan9514Phy<H> {
    type V = PhyState;

    closed spec fn view(&self) -> PhyState {
        PhyState { chip: self.lan9514@, waiting: self.batch@ }
    }
}

/// Hand out a frame. Only if none is waiting, the chip is asked for more.
pub open spec fn receive_program(state: PhyState) -> UsbProgram<(PhyState, Option<Seq<u8>>)> {
    if state.waiting.len() > 0 {
        Program::Return(handed_out(state))
    } else {
        refill_program(state).bind(|more: PhyState| Program::Return(handed_out(more)))
    }
}

/// Ask the chip for more frames.
pub open spec fn refill_program(state: PhyState) -> UsbProgram<PhyState> {
    lan9514::receive_frames_program(state.chip.endpoint, state.chip.rx).bind(
        |caught: lan9514::Caught|
            Program::Return(
                PhyState {
                    chip: Lan9514State { rx: caught.0, ..state.chip },
                    waiting: match caught.1 {
                        Ok(transfer) => lan9514::frames_in(transfer, 0),
                        Err(error) => state.waiting,
                    },
                },
            ),
    )
}

/// Hand out a frame, if one is waiting.
pub open spec fn handed_out(state: PhyState) -> (PhyState, Option<Seq<u8>>) {
    if state.waiting.len() > 0 {
        (served(state), Some(state.waiting[0]))
    } else {
        (state, None)
    }
}

/// One frame has been handed out.
pub open spec fn served(state: PhyState) -> PhyState {
    PhyState { waiting: state.waiting.skip(1), ..state }
}

/// A chip that has handed out so many of the frames that were waiting.
pub open spec fn served_often(state: PhyState, count: nat) -> PhyState
    decreases count,
{
    if count == 0 {
        state
    } else {
        served(served_often(state, (count - 1) as nat))
    }
}

/// No frame of a transfer is lost: they are handed out in the order in which they came,
/// and the chip is asked for nothing before that has been done.
pub proof fn law_no_frame_is_lost(state: PhyState, count: nat)
    requires
        count < state.waiting.len(),
    ensures
        receive_program(served_often(state, count)) == UsbProgram::<
            (PhyState, Option<Seq<u8>>),
        >::Return((served_often(state, count + 1), Some(state.waiting[count as int]))),
        served_often(state, count).waiting == state.waiting.skip(count as int),
    decreases count,
{
    if count == 0 {
        assert(state.waiting.skip(0) =~= state.waiting);
    } else {
        law_no_frame_is_lost(state, (count - 1) as nat);
        let before = served_often(state, (count - 1) as nat);
        assert(before.waiting.skip(1) =~= state.waiting.skip(count as int));
    }
    reveal_with_fuel(served_often, 2);
}

impl<H: Dwc2Registers> Lan9514Phy<H> {
    /// The batch is sound.
    pub closed spec fn wf(&self) -> bool {
        self.batch.wf()
    }

    /// The transfers that have been made.
    pub closed spec fn transfers(&self) -> UsbHistory {
        self.channel@
    }

    /// What is in the buffer for a frame to send.
    pub closed spec fn scratch(&self) -> Seq<u8> {
        self.tx_scratch@
    }

    /// Takes a chip over, with a channel.
    pub fn new(lan9514: Lan9514, channel: Channel<H>) -> (phy: Self)
        ensures
            phy.wf(),
            phy@ == (PhyState { chip: lan9514@, waiting: Seq::empty() }),
            phy.transfers() == channel@,
    {
        Lan9514Phy { lan9514, channel, tx_scratch: [0;1516], batch: FrameBatch::new() }
    }

    /// Hands out a frame, if there is one.
    pub fn receive(&mut self) -> (frame: Option<Lan9514RxToken>)
        requires
            old(self).wf(),
        ensures
            final(self).wf(),
            final(self).scratch() == old(self).scratch(),
            frame matches Some(frame) ==> frame.wf(),
            receive_program(old(self)@).ran(
                old(self).transfers(),
                final(self).transfers(),
                (
                    final(self)@,
                    match frame {
                        Some(frame) => Some(frame@),
                        None => None,
                    },
                ),
            ),
    {
        if self.batch.next_pending().is_none() {
            self.refill();
        }
        self.batch.take()
    }

    fn refill(&mut self)
        requires
            old(self).wf(),
        ensures
            final(self).wf(),
            final(self).scratch() == old(self).scratch(),
            refill_program(old(self)@).ran(
                old(self).transfers(),
                final(self).transfers(),
                final(self)@,
            ),
    {
        match self.lan9514.receive_frames(&mut self.channel) {
            Ok(frames) => self.batch.fill(frames.as_bytes()),
            Err(_) => {},
        }
    }

    /// Gives leave to send a frame.
    pub fn transmit(&mut self) -> (token: Lan9514TxToken<'_, H>)
        ensures
            *token.phy == *old(self),
            *final(self) == *final(token.phy),
    {
        Lan9514TxToken { phy: self }
    }

    fn prepare(&mut self, len: usize) -> (buffer: &mut [u8])
        requires
            old(self).wf(),
            len <= TX_SCRATCH_SIZE,
        ensures
            buffer@ == old(self).scratch().take(len as int),
            final(self).wf(),
            final(self)@ == old(self)@,
            final(self).transfers() == old(self).transfers(),
            final(self).scratch() == final(buffer)@ + old(self).scratch().skip(len as int),
    {
        let (buffer, _rest) = self.tx_scratch.split_at_mut(len);
        buffer
    }

    fn send(&mut self, len: usize)
        requires
            old(self).wf(),
            len <= TX_SCRATCH_SIZE,
        ensures
            final(self).wf(),
            final(self).scratch() == old(self).scratch(),
            final(self)@.waiting == old(self)@.waiting,
            final(self)@.chip == (Lan9514State { tx: final(self)@.chip.tx, ..old(self)@.chip }),
            send_program(old(self)@.chip.tx, old(self).scratch().take(len as int)).ran(
                old(self).transfers(),
                final(self).transfers(),
                final(self)@.chip.tx,
            ),
    {
        let frame = vstd::slice::slice_subrange(self.tx_scratch.as_slice(), 0, len);
        assert(frame@ =~= self.tx_scratch@.take(len as int));
        let _ = self.lan9514.send_frame(&mut self.channel, frame);
    }
}

/// Leave to send a frame.
pub struct Lan9514TxToken<'a, H> {
    pub phy: &'a mut Lan9514Phy<H>,
}

impl<'a, H: Dwc2Registers> Lan9514TxToken<'a, H> {
    /// The buffer for a frame of `len` bytes.
    pub fn prepare(&mut self, len: usize) -> (buffer: &mut [u8])
        requires
            old(self).phy.wf(),
            len <= TX_SCRATCH_SIZE,
        ensures
            buffer@ == old(self).phy.scratch().take(len as int),
            final(self).phy.wf(),
            final(self).phy@ == old(self).phy@,
            final(self).phy.transfers() == old(self).phy.transfers(),
            final(self).phy.scratch() == final(buffer)@ + old(self).phy.scratch().skip(len as int),
            *final(final(self).phy) == *final(old(self).phy),
    {
        self.phy.prepare(len)
    }

    /// Sends the first `len` bytes of that buffer. That they were not sent is not
    /// told.
    pub fn send(self, len: usize)
        requires
            old(self.phy).wf(),
            len <= TX_SCRATCH_SIZE,
        ensures
            final(self.phy).wf(),
            final(self.phy).scratch() == old(self.phy).scratch(),
            final(self.phy)@.waiting == old(self.phy)@.waiting,
            final(self.phy)@.chip == (Lan9514State {
                tx: final(self.phy)@.chip.tx,
                ..old(self.phy)@.chip
            }),
            send_program(old(self.phy)@.chip.tx, old(self.phy).scratch().take(len as int)).ran(
                old(self.phy).transfers(),
                final(self.phy).transfers(),
                final(self.phy)@.chip.tx,
            ),
    {
        self.phy.send(len);
    }
}

/// Send a frame, whatever comes of it.
pub open spec fn send_program(state: PipeState, frame: Seq<u8>) -> UsbProgram<PipeState> {
    pipe::send_program(state, lan9514::tx_header(frame.len() as int) + frame).bind(
        |sent: pipe::Sent| Program::Return(sent.0),
    )
}

} // verus!

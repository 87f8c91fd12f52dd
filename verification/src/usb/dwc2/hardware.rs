//! The controller as the driver sees it: named register fields, a clock, and
//! memory that the controller can reach by DMA.
//!
//! Each [`Change`] is one register write or one read-modify-write, with the
//! fields it touches by name. Where the fields lie in their registers is the
//! business of the [`Dwc2Registers`] implementation.

use vstd::prelude::*;

use crate::program::{Exchange, Program};

verus! {

/// A register field that can be read.
#[derive(Clone, Copy, Debug, PartialEq, Eq)]
pub enum Field {
    /// `GRSTCTL.AHBIDL`: the AHB master is idle.
    AhbIdle,
    /// `GRSTCTL.CSRST`: a core soft reset is under way.
    CoreReset,
    /// `GRSTCTL.RXFFLSH`: the receive FIFO is being flushed.
    RxFlush,
    /// `GRSTCTL.TXFFLSH`: a transmit FIFO is being flushed.
    TxFlush,
    /// The number of host channels, less one.
    HostChannelCount,
    /// `GINTSTS`, the whole register.
    GlobalInterrupts,
    /// `HPRT.PCSTS`: a device is connected to the root port.
    PortConnected,
    /// `HPRT.PENA`: the root port is enabled.
    PortEnabled,
    /// `HPRT.PSPD`: 0 high speed, 1 full speed, 2 low speed.
    PortSpeed,
    /// `HFNUM.FRNUM`: the number of the current microframe.
    FrameNumber,
    /// `HAINT`: one bit for each channel with an interrupt pending.
    ChannelInterrupts,
    /// `HCINT` of a channel, the whole register.
    Interrupts(u8),
    /// `HCTSIZ.XFRSIZ` of a channel: the bytes still to be moved.
    BytesLeft(u8),
    /// `HCTSIZ.DPID` of a channel.
    NextPid(u8),
}

/// What a write to `HPRT` sets; every other field is written as zero.
#[derive(Clone, Copy, Debug, PartialEq, Eq)]
pub struct PortBits {
    pub power: bool,
    pub reset: bool,
    /// Acknowledges a connect (`PCDET`).
    pub connect_detected: bool,
    /// Acknowledges an enable change (`PENCHNG`).
    pub enable_changed: bool,
    /// Acknowledges an overcurrent change (`POCCHNG`).
    pub overcurrent_changed: bool,
}

/// `HCSPLT` for a transaction behind a hub's transaction translator.
#[derive(Clone, Copy, Debug, PartialEq, Eq)]
pub struct SplitFields {
    pub hub_address: u8,
    pub port: u8,
    pub position: u8,
    pub complete: bool,
}

/// `HCTSIZ`.
#[derive(Clone, Copy, Debug, PartialEq, Eq)]
pub struct SizeFields {
    pub bytes: u32,
    pub packets: u16,
    pub pid: u8,
}

/// `HCCHAR` with `CHENA` set: writing it starts the channel.
#[derive(Clone, Copy, Debug, PartialEq, Eq)]
pub struct CharacterFields {
    pub max_packet_size: u16,
    pub endpoint_number: u8,
    pub direction_in: bool,
    pub low_speed: bool,
    pub endpoint_type: u8,
    pub multi_count: u8,
    pub device_address: u8,
    pub odd_frame: bool,
}

/// A register write, or a read-modify-write that leaves the other fields of its
/// register as they are.
#[derive(Clone, Copy, Debug, PartialEq, Eq)]
pub enum Change {
    /// Set `GRSTCTL.CSRST`.
    StartCoreReset,
    /// Write 0 to `PCGCCTL`.
    UngateClocks,
    /// Write `GRXFSIZ`: the receive FIFO's depth in words.
    RxFifo { depth: u16 },
    /// Write `GNPTXFSIZ`: the non-periodic transmit FIFO's place.
    NonPeriodicTxFifo { start: u16, depth: u16 },
    /// Write `HPTXFSIZ`: the periodic transmit FIFO's place.
    PeriodicTxFifo { start: u16, depth: u16 },
    /// Set `GRSTCTL.RXFFLSH`.
    FlushRxFifo,
    /// Set `GRSTCTL.TXFFLSH` with `TXFNUM`.
    FlushTxFifo { number: u8 },
    /// Set `GUSBCFG.FHMOD`.
    ForceHostMode,
    /// Set `DMAEN`, `AXI_WAIT` and `GINT` in `GAHBCFG`.
    EnableDmaAndInterrupts,
    /// Set or clear `GINTMSK.SOFM`.
    SofMask { unmasked: bool },
    /// Set the given bits of `GINTMSK`.
    UnmaskInterrupts { bits: u32 },
    /// Clear `HNPCAP` and `SRPCAP` in `GUSBCFG`.
    NoOtgCapabilities,
    /// Write the given bits, and no others, to `GINTSTS`.
    AckGlobal { bits: u32 },
    /// Write `HPRT`.
    Port(PortBits),
    /// Set `HCFG.FSLSPCS`.
    PhyClock { select: u8 },
    /// Write `HFIR`.
    FrameInterval { clocks: u16 },
    /// Set or clear a channel's bit in `HAINTMSK`.
    ChannelMask { channel: u8, unmasked: bool },
    /// Write `HCINT` of a channel.
    AckInterrupts { channel: u8, bits: u32 },
    /// Write `HCINTMSK` of a channel.
    InterruptMask { channel: u8, bits: u32 },
    /// Write `HCSPLT` of a channel: zero for a transaction that is not split.
    Split { channel: u8, split: Option<SplitFields> },
    /// Write `HCDMA` of a channel.
    DmaAddress { channel: u8, bus_address: u32 },
    /// Write `HCTSIZ` of a channel.
    TransferSize { channel: u8, size: SizeFields },
    /// Write `HCCHAR` of a channel.
    Start { channel: u8, character: CharacterFields },
    /// Set `CHDIS` and `CHENA` in `HCCHAR` of a channel.
    Disable { channel: u8 },
}

/// The hardware. Nothing is assumed of what it answers.
pub trait Dwc2Registers: Sized {
    /// Another handle to the same controller.
    fn handle(&self) -> Self;

    /// Reads a register field.
    fn read(&mut self, field: Field) -> u32;

    /// Makes a register write.
    fn apply(&mut self, change: Change);

    /// The time, in microseconds.
    fn now_micros(&mut self) -> u64;

    /// Waits.
    fn delay_micros(&mut self, micros: u64);

    /// Puts `data` where the controller can fetch it, writes it back from the
    /// cache, and gives its physical address.
    fn stage(&mut self, data: &[u8]) -> u32;

    /// The physical address of memory that up to `len` bytes can land in.
    fn landing(&mut self, len: usize) -> u32;

    /// The first `len` bytes of what landed, past any stale cache line.
    fn fetch(&mut self, len: usize) -> Vec<u8>;
}

/// Something asked of the hardware.
pub enum Op {
    Read(Field),
    Apply(Change),
    Now,
    Delay(u64),
    Stage(Seq<u8>),
    Landing(usize),
    Fetch(usize),
}

/// What the hardware answers.
pub enum Answer {
    Done,
    Word(u32),
    Time(u64),
    Bytes(Seq<u8>),
}

/// A program over the controller.
pub type HwProgram<T> = Program<Op, Answer, T>;

/// What has been done with the controller, oldest first.
pub type HwHistory = Seq<Exchange<Op, Answer>>;

/// Read `field`, then go on with its value.
pub open spec fn read<T>(field: Field, rest: spec_fn(u32) -> HwProgram<T>) -> HwProgram<T> {
    Program::Request(
        Op::Read(field),
        |answer: Answer|
            match answer {
                Answer::Word(value) => rest(value),
                _ => Program::Stuck,
            },
    )
}

/// Make a register write, then go on.
pub open spec fn apply<T>(change: Change, rest: HwProgram<T>) -> HwProgram<T> {
    Program::Request(Op::Apply(change), |answer: Answer| rest)
}

/// Look at the clock, then go on with the time.
pub open spec fn now<T>(rest: spec_fn(u64) -> HwProgram<T>) -> HwProgram<T> {
    Program::Request(
        Op::Now,
        |answer: Answer|
            match answer {
                Answer::Time(micros) => rest(micros),
                _ => Program::Stuck,
            },
    )
}

/// Wait, then go on.
pub open spec fn delay<T>(micros: u64, rest: HwProgram<T>) -> HwProgram<T> {
    Program::Request(Op::Delay(micros), |answer: Answer| rest)
}

/// Stage `data` for the controller, then go on with its address.
pub open spec fn stage<T>(data: Seq<u8>, rest: spec_fn(u32) -> HwProgram<T>) -> HwProgram<T> {
    Program::Request(
        Op::Stage(data),
        |answer: Answer|
            match answer {
                Answer::Word(address) => rest(address),
                _ => Program::Stuck,
            },
    )
}

/// Find memory for `len` bytes to land in, then go on with its address.
pub open spec fn landing<T>(len: usize, rest: spec_fn(u32) -> HwProgram<T>) -> HwProgram<T> {
    Program::Request(
        Op::Landing(len),
        |answer: Answer|
            match answer {
                Answer::Word(address) => rest(address),
                _ => Program::Stuck,
            },
    )
}

/// Take the first `len` bytes that landed, then go on with them.
pub open spec fn fetch<T>(len: usize, rest: spec_fn(Seq<u8>) -> HwProgram<T>) -> HwProgram<T> {
    Program::Request(
        Op::Fetch(len),
        |answer: Answer|
            match answer {
                Answer::Bytes(bytes) => rest(bytes),
                _ => Program::Stuck,
            },
    )
}

/// A handle to the controller, with the history of what was done through it. What is
/// recorded was done: each method asks the hardware once, and in its contract `asked` is
/// the handle before and after that call.
pub struct UsbPort<H> {
    hardware: H,
    history: Ghost<HwHistory>,
}

impl<H> View for UsbPort<H> {
    type V = HwHistory;

    closed spec fn view(&self) -> HwHistory {
        self.history@
    }
}

/// So many bytes of some: cut off, or filled up with zeros.
pub open spec fn fitted(bytes: Seq<u8>, len: nat) -> Seq<u8> {
    Seq::new(
        len,
        |i: int|
            if i < bytes.len() {
                bytes[i]
            } else {
                0
            },
    )
}

impl<H> UsbPort<H> {
    /// The handle.
    pub closed spec fn handle(&self) -> H {
        self.hardware
    }

    /// The handle, for what this driver does not cover.
    pub fn hardware(&self) -> (hardware: &H)
        ensures
            *hardware == self.handle(),
    {
        &self.hardware
    }
}

impl<H: Dwc2Registers> UsbPort<H> {
    /// Takes a handle over; nothing has been done through it yet.
    pub fn new(hardware: H) -> (port: Self)
        ensures
            port@ == HwHistory::empty(),
            port.handle() == hardware,
    {
        UsbPort { hardware, history: Ghost(Seq::empty()) }
    }

    /// Another handle to the same controller, with a history of its own.
    pub fn another(&self) -> (port: Self)
        ensures
            port@ == HwHistory::empty(),
            call_ensures(H::handle, (&self.handle(),), port.handle()),
    {
        UsbPort { hardware: self.hardware.handle(), history: Ghost(Seq::empty()) }
    }

    /// Reads a register field.
    pub fn read(&mut self, field: Field) -> (value: u32)
        ensures
            final(self)@ == old(self)@.push(
                Exchange { request: Op::Read(field), answer: Answer::Word(value) },
            ),
            exists|asked: &mut H|
                *asked == old(self).handle() && *final(asked) == final(self).handle()
                    && #[trigger] call_ensures(H::read, (asked, field), value),
    {
        let value: u32 = self.hardware.read(field);
        self.history = Ghost(
            self.history@.push(Exchange { request: Op::Read(field), answer: Answer::Word(value) }),
        );
        value
    }

    /// Makes a register write.
    pub fn apply(&mut self, change: Change)
        ensures
            final(self)@ == old(self)@.push(
                Exchange { request: Op::Apply(change), answer: Answer::Done },
            ),
            exists|asked: &mut H|
                *asked == old(self).handle() && *final(asked) == final(self).handle()
                    && #[trigger] call_ensures(H::apply, (asked, change), ()),
    {
        self.hardware.apply(change);
        self.history = Ghost(
            self.history@.push(Exchange { request: Op::Apply(change), answer: Answer::Done }),
        );
    }

    /// Looks at the clock.
    pub fn now(&mut self) -> (micros: u64)
        ensures
            final(self)@ == old(self)@.push(
                Exchange { request: Op::Now, answer: Answer::Time(micros) },
            ),
            exists|asked: &mut H|
                *asked == old(self).handle() && *final(asked) == final(self).handle()
                    && #[trigger] call_ensures(H::now_micros, (asked,), micros),
    {
        let micros: u64 = self.hardware.now_micros();
        self.history = Ghost(
            self.history@.push(Exchange { request: Op::Now, answer: Answer::Time(micros) }),
        );
        micros
    }

    /// Waits.
    pub fn delay(&mut self, micros: u64)
        ensures
            final(self)@ == old(self)@.push(
                Exchange { request: Op::Delay(micros), answer: Answer::Done },
            ),
            exists|asked: &mut H|
                *asked == old(self).handle() && *final(asked) == final(self).handle()
                    && #[trigger] call_ensures(H::delay_micros, (asked, micros), ()),
    {
        self.hardware.delay_micros(micros);
        self.history = Ghost(
            self.history@.push(Exchange { request: Op::Delay(micros), answer: Answer::Done }),
        );
    }

    /// Stages `data` for the controller.
    pub fn stage(&mut self, data: &[u8]) -> (address: u32)
        ensures
            final(self)@ == old(self)@.push(
                Exchange { request: Op::Stage(data@), answer: Answer::Word(address) },
            ),
            exists|asked: &mut H|
                *asked == old(self).handle() && *final(asked) == final(self).handle()
                    && #[trigger] call_ensures(H::stage, (asked, data), address),
    {
        let address: u32 = self.hardware.stage(data);
        self.history = Ghost(
            self.history@.push(
                Exchange { request: Op::Stage(data@), answer: Answer::Word(address) },
            ),
        );
        address
    }

    /// Finds memory for `len` bytes to land in.
    pub fn landing(&mut self, len: usize) -> (address: u32)
        ensures
            final(self)@ == old(self)@.push(
                Exchange { request: Op::Landing(len), answer: Answer::Word(address) },
            ),
            exists|asked: &mut H|
                *asked == old(self).handle() && *final(asked) == final(self).handle()
                    && #[trigger] call_ensures(H::landing, (asked, len), address),
    {
        let address: u32 = self.hardware.landing(len);
        self.history = Ghost(
            self.history@.push(
                Exchange { request: Op::Landing(len), answer: Answer::Word(address) },
            ),
        );
        address
    }

    /// Takes the first `len` bytes that landed. An answer of another length is
    /// cut off, or filled up with zeros.
    pub fn fetch(&mut self, len: usize) -> (bytes: Vec<u8>)
        ensures
            bytes@.len() == len,
            final(self)@ == old(self)@.push(
                Exchange { request: Op::Fetch(len), answer: Answer::Bytes(bytes@) },
            ),
            exists|asked: &mut H, landed: Vec<u8>|
                *asked == old(self).handle() && *final(asked) == final(self).handle() && bytes@
                    == fitted(landed@, len as nat) && #[trigger] call_ensures(
                    H::fetch,
                    (asked, len),
                    landed,
                ),
    {
        let mut bytes: Vec<u8> = self.hardware.fetch(len);
        let ghost landed = bytes;
        if bytes.len() > len {
            bytes.truncate(len);
            assert(fitted(bytes@, len as nat) =~= fitted(landed@, len as nat));
        }
        while bytes.len() < len
            invariant
                bytes@.len() <= len,
                fitted(bytes@, len as nat) == fitted(landed@, len as nat),
            decreases len - bytes@.len(),
        {
            bytes.push(0);
            assert(fitted(bytes@, len as nat) =~= fitted(landed@, len as nat));
        }
        assert(bytes@ =~= fitted(landed@, len as nat));
        self.history = Ghost(
            self.history@.push(
                Exchange { request: Op::Fetch(len), answer: Answer::Bytes(bytes@) },
            ),
        );
        bytes
    }
}

} // verus!

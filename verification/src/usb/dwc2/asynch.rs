//! Transfers that are awaited: who waits for what, what an interrupt makes of it,
//! and what a transaction does next.
//!
//! Nothing here waits. A [`SlotTable`] says which channel waits for its halt or for a
//! microframe, and [`SlotTable::on_irq`] finds out whose wait is over. A
//! [`TransactionRunner`] names the next step of a transaction, and is told what came
//! of it. Whoever runs tasks does the waiting in between.

use vstd::prelude::*;

use crate::program::Program;
use crate::usb::dwc2;
use crate::usb::dwc2::hardware;
use crate::usb::dwc2::hardware::{
    Answer, Change, Dwc2Registers, Field, HwProgram, Op, PortBits, UsbPort,
};
use crate::usb::dwc2::isolation;
use crate::usb::dwc2::{
    ControlEndpoint, DataPid, EndpointType, Transaction, TransferError, HCINT_ACK, HCINT_BBERR,
    HCINT_CHH, HCINT_NAK, HCINT_NYET, HCINT_STALL, HCINT_TXERR, HCINT_XFRC, MAX_CHANNELS,
    MAX_CSPLIT_POLLS,
};

pub mod courses;
pub mod service;

verus! {

broadcast use crate::program::group_program;

/// `GINTSTS`: a frame has started.
pub const GINTSTS_SOF: u32 = 0x0000_0008;

/// `GINTSTS`: something changed at the root port.
pub const GINTSTS_HPRTINT: u32 = 0x0100_0000;

/// The microframes between two tries of a complete split.
pub const CSPLIT_RETRY_MICROFRAMES: u8 = 5;

/// The longest wait that the microframe counter can tell from none.
pub const LONGEST_HOP: u32 = 7;

/// What the owner of a channel waits for.
#[derive(Clone, Copy, Debug, PartialEq, Eq, Structural)]
pub enum Wait {
    /// Nothing; the channel is somebody else's business.
    Idle,
    /// For the channel to halt.
    Halt,
    /// For a microframe.
    Frame(u8),
}

/// The wait on a channel.
#[derive(Clone, Copy, Debug, PartialEq, Eq, Structural)]
pub struct Slot {
    pub wait: Wait,
    /// What the channel's interrupts were, or 0 for a microframe, once the wait is over.
    pub ready: Option<u32>,
    /// The channel's interrupts at its last halt.
    pub last_hcint: u32,
    /// All interrupts that the channel ever had at a halt.
    pub seen_hcint: u32,
}

/// The waits, as a value.
#[verifier::ext_equal]
pub struct TableState {
    pub slots: Seq<Slot>,
    /// Something changed at the root port, and nobody has asked yet.
    pub port_pending: bool,
}

/// Who is to be woken.
#[verifier::ext_equal]
pub struct Woken {
    /// Who waits for a change at the root port.
    pub port: bool,
    /// Who waits on each channel.
    pub channels: Seq<bool>,
}

/// A slot that nothing has happened to.
pub open spec fn blank_slot() -> Slot {
    Slot { wait: Wait::Idle, ready: None, last_hcint: 0, seen_hcint: 0 }
}

/// Whether any channel from a place on waits for a microframe.
pub open spec fn frame_waiter(slots: Seq<Slot>, at: int) -> bool
    decreases slots.len() - at,
{
    if at < 0 || at >= slots.len() {
        false
    } else {
        slots[at].wait is Frame || frame_waiter(slots, at + 1)
    }
}

/// Whether a channel is among those with an interrupt.
pub open spec fn interrupting(halted: u32, channel: int) -> bool {
    halted & (1u32 << (channel as u32)) != 0
}

/// A slot whose channel has halted.
pub open spec fn halted_slot(slot: Slot, hcint: u32) -> Slot {
    Slot {
        wait: Wait::Idle,
        ready: Some(hcint),
        last_hcint: hcint,
        seen_hcint: slot.seen_hcint | hcint,
    }
}

/// A slot whose microframe has come.
pub open spec fn arrived_slot(slot: Slot) -> Slot {
    Slot { wait: Wait::Idle, ready: Some(0), ..slot }
}

/// A slot has forgotten no interrupt that it has seen.
pub open spec fn keeps_seen(before: Slot, after: Slot) -> bool {
    before.seen_hcint & after.seen_hcint == before.seen_hcint
}

proof fn lemma_keeps_seen()
    ensures
        forall|slot: Slot| #[trigger] keeps_seen(slot, slot),
        forall|slot: Slot, hcint: u32| #[trigger]
            keeps_seen(slot, halted_slot(slot, hcint)),
{
    assert forall|slot: Slot| #[trigger] keeps_seen(slot, slot) by {
        let seen = slot.seen_hcint;
        assert(seen & seen == seen) by (bit_vector);
    }
    assert forall|slot: Slot, hcint: u32| #[trigger] keeps_seen(slot, halted_slot(slot, hcint)) by {
        let seen = slot.seen_hcint;
        assert(seen & (seen | hcint) == seen) by (bit_vector);
    }
}

/// What an interrupt comes to.
pub type Served = (TableState, Woken);

/// Serve the channels from a place on: take note of the halts and of the microframe
/// that are waited for, and of nothing else.
pub open spec fn sweep_program(
    state: TableState,
    woken: Woken,
    halted: u32,
    sof: bool,
    frame: u8,
    at: int,
) -> HwProgram<Served>
    decreases state.slots.len() - at,
{
    if at < 0 || at >= state.slots.len() {
        if sof && !frame_waiter(state.slots, 0) {
            hardware::apply(
                Change::SofMask { unmasked: false },
                Program::Return((state, woken)),
            )
        } else {
            Program::Return((state, woken))
        }
    } else {
        let slot = state.slots[at];
        if slot.wait is Halt && interrupting(halted, at) {
            hardware::read(
                Field::Interrupts(at as u8),
                |hcint: u32|
                    if hcint & HCINT_CHH == 0 {
                        sweep_program(state, woken, halted, sof, frame, at + 1)
                    } else {
                        dwc2::ack_program(
                            at as u8,
                            sweep_program(
                                TableState {
                                    slots: state.slots.update(at, halted_slot(slot, hcint)),
                                    ..state
                                },
                                Woken { channels: woken.channels.update(at, true), ..woken },
                                halted,
                                sof,
                                frame,
                                at + 1,
                            ),
                        )
                    },
            )
        } else if slot.wait is Frame && sof && slot.wait == Wait::Frame(frame) {
            sweep_program(
                TableState { slots: state.slots.update(at, arrived_slot(slot)), ..state },
                Woken { channels: woken.channels.update(at, true), ..woken },
                halted,
                sof,
                frame,
                at + 1,
            )
        } else {
            sweep_program(state, woken, halted, sof, frame, at + 1)
        }
    }
}

/// The write that acknowledges a change at the root port, and keeps it powered.
pub open spec fn port_acknowledged() -> Change {
    Change::Port(
        PortBits {
            power: true,
            reset: false,
            connect_detected: true,
            enable_changed: true,
            overcurrent_changed: true,
        },
    )
}

/// Nobody is woken, but perhaps who waits for the root port.
pub open spec fn nobody(port: bool, channels: nat) -> Woken {
    Woken { port, channels: Seq::new(channels, |i: int| false) }
}

/// Acknowledge the start of a frame, and serve the channels if there is anything
/// to serve.
pub open spec fn channels_program(state: TableState, port: bool, halted: u32, sof: bool) -> HwProgram<
    Served,
> {
    let woken = nobody(port, state.slots.len());
    let serve = hardware::read(
        Field::FrameNumber,
        |number: u32|
            sweep_program(state, woken, halted, sof, dwc2::microframe_of(number), 0),
    );
    if sof {
        hardware::apply(Change::AckGlobal { bits: GINTSTS_SOF }, serve)
    } else if halted == 0 {
        Program::Return((state, woken))
    } else {
        serve
    }
}

/// Serve an interrupt of the controller: a change at the root port, the start of a
/// frame, and halted channels.
pub open spec fn irq_program(state: TableState) -> HwProgram<Served> {
    hardware::read(
        Field::ChannelInterrupts,
        |halted: u32|
            hardware::read(
                Field::GlobalInterrupts,
                |pending: u32|
                    {
                        let sof = pending & GINTSTS_SOF != 0;
                        if pending & GINTSTS_HPRTINT != 0 {
                            hardware::apply(
                                port_acknowledged(),
                                channels_program(
                                    TableState { port_pending: true, ..state },
                                    true,
                                    halted,
                                    sof,
                                ),
                            )
                        } else {
                            channels_program(state, false, halted, sof)
                        }
                    },
            ),
    )
}

/// With a channel waiting for something.
pub open spec fn armed(state: TableState, channel: int, wait: Wait) -> TableState {
    TableState {
        slots: state.slots.update(channel, Slot { wait, ready: None, ..state.slots[channel] }),
        ..state
    }
}

/// Have a channel wait: frames are announced if some channel waits for one, and
/// only a channel that waits for its halt may interrupt.
pub open spec fn arm_program(state: TableState, channel: int, wait: Wait) -> HwProgram<TableState> {
    let after = armed(state, channel, wait);
    hardware::apply(
        Change::SofMask { unmasked: frame_waiter(after.slots, 0) },
        hardware::apply(
            Change::ChannelMask { channel: channel as u8, unmasked: wait is Halt },
            Program::Return(after),
        ),
    )
}

/// Have a channel wait no longer; tell whether it still did.
pub open spec fn disarm_program(state: TableState, channel: int) -> HwProgram<(TableState, bool)> {
    let after = armed(state, channel, Wait::Idle);
    let rest = hardware::apply(
        Change::ChannelMask { channel: channel as u8, unmasked: false },
        Program::Return((after, state.slots[channel].wait !is Idle)),
    );
    if frame_waiter(after.slots, 0) {
        rest
    } else {
        hardware::apply(Change::SofMask { unmasked: false }, rest)
    }
}

/// Who waits on which channel, and for what.
pub struct SlotTable {
    slots: [Slot; 12],
    port_pending: bool,
}

impl View for SlotTable {
    type V = TableState;

    closed spec fn view(&self) -> TableState {
        TableState { slots: self.slots@, port_pending: self.port_pending }
    }
}

/// Whose wait is over.
pub struct Wakes {
    /// The wait for a change at the root port.
    pub port: bool,
    /// The wait on each channel.
    pub channels: [bool; 12],
}

impl View for Wakes {
    type V = Woken;

    open spec fn view(&self) -> Woken {
        Woken { port: self.port, channels: self.channels@ }
    }
}

impl SlotTable {
    /// Nobody waits.
    pub fn new() -> (table: Self)
        ensures
            table@ == (TableState {
                slots: Seq::new(12, |i: int| blank_slot()),
                port_pending: false,
            }),
    {
        let blank = Slot { wait: Wait::Idle, ready: None, last_hcint: 0, seen_hcint: 0 };
        let table = SlotTable { slots: [blank;12], port_pending: false };
        assert(table@.slots =~= Seq::new(12, |i: int| blank_slot()));
        table
    }

    fn any_frame_waiter(&self) -> (waits: bool)
        ensures
            waits == frame_waiter(self@.slots, 0),
    {
        let mut at: usize = 0;
        while at < 12
            invariant
                at <= 12,
                frame_waiter(self@.slots, 0) == frame_waiter(self@.slots, at as int),
            decreases 12 - at,
        {
            match self.slots[at].wait {
                Wait::Frame(_) => return true,
                _ => {},
            }
            at = at + 1;
        }
        false
    }

    /// Serves an interrupt of the controller; tells whose wait is over. A channel that
    /// nobody waits on is left alone.
    pub fn on_irq<H: Dwc2Registers>(&mut self, port: &mut UsbPort<H>) -> (wakes: Wakes)
        ensures
            irq_program(old(self)@).ran(old(port)@, final(port)@, (final(self)@, wakes@)),
            forall|i: int|
                0 <= i < 12 && old(self)@.slots[i].wait is Idle ==> #[trigger] final(self)@.slots[i]
                    == old(self)@.slots[i],
            forall|i: int|
                0 <= i < 12 && old(self)@.slots[i].wait is Idle ==> !#[trigger] wakes@.channels[i],
            forall|i: int|
                0 <= i < 12 && #[trigger] wakes@.channels[i] ==> final(self)@.slots[i].ready
                    is Some && final(self)@.slots[i].wait is Idle,
            forall|i: int|
                0 <= i < 12 ==> keeps_seen(old(self)@.slots[i], #[trigger] final(self)@.slots[i]),
    {
        let ghost whole = irq_program(self@);
        proof {
            crate::program::begin(port@, whole);
            lemma_keeps_seen();
        }
        let halted: u32 = port.read(Field::ChannelInterrupts);
        let pending: u32 = port.read(Field::GlobalInterrupts);
        let sof: bool = pending & GINTSTS_SOF != 0;
        let mut wakes = Wakes { port: false, channels: [false;12] };
        if pending & GINTSTS_HPRTINT != 0 {
            port.apply(
                Change::Port(
                    PortBits {
                        power: true,
                        reset: false,
                        connect_detected: true,
                        enable_changed: true,
                        overcurrent_changed: true,
                    },
                ),
            );
            self.port_pending = true;
            wakes.port = true;
        }
        assert(wakes@.channels =~= nobody(wakes.port, 12).channels);
        if sof {
            port.apply(Change::AckGlobal { bits: GINTSTS_SOF });
        }
        if halted == 0 && !sof {
            return wakes;
        }
        let frame: u8 = (port.read(Field::FrameNumber) % 8) as u8;
        let mut at: u8 = 0;
        while at < 12
            invariant
                at <= 12,
                whole == irq_program(old(self)@),
                whole.leads(
                    old(port)@,
                    port@,
                    sweep_program(self@, wakes@, halted, sof, frame, at as int),
                ),
                forall|i: int|
                    0 <= i < 12 && old(self)@.slots[i].wait is Idle ==> #[trigger] self@.slots[i]
                        == old(self)@.slots[i],
                forall|i: int|
                    0 <= i < 12 && old(
                        self,
                    )@.slots[i].wait is Idle ==> !#[trigger] wakes@.channels[i],
                forall|i: int| at <= i < 12 ==> self@.slots[i] == old(self)@.slots[i],
                forall|i: int|
                    0 <= i < 12 ==> keeps_seen(old(self)@.slots[i], #[trigger] self@.slots[i]),
                forall|i: int|
                    0 <= i < 12 && #[trigger] wakes@.channels[i] ==> self@.slots[i].ready is Some
                        && self@.slots[i].wait is Idle && i < at,
            decreases 12 - at,
        {
            let slot: Slot = self.slots[at as usize];
            proof {
                lemma_keeps_seen();
            }
            match slot.wait {
                Wait::Halt => {
                    if halted & (1u32 << (at as u32)) != 0 {
                        let hcint: u32 = port.read(Field::Interrupts(at));
                        if hcint & HCINT_CHH != 0 {
                            port.apply(Change::AckInterrupts { channel: at, bits: 0xffff_ffff });
                            self.slots[at as usize] =
                            Slot {
                                wait: Wait::Idle,
                                ready: Some(hcint),
                                last_hcint: hcint,
                                seen_hcint: slot.seen_hcint | hcint,
                            };
                            wakes.channels[at as usize] = true;
                        }
                    }
                },
                Wait::Frame(wanted) => {
                    if sof && wanted == frame {
                        self.slots[at as usize] =
                        Slot {
                            wait: Wait::Idle,
                            ready: Some(0),
                            last_hcint: slot.last_hcint,
                            seen_hcint: slot.seen_hcint,
                        };
                        wakes.channels[at as usize] = true;
                    }
                },
                Wait::Idle => {},
            }
            at = at + 1;
        }
        if sof && !self.any_frame_waiter() {
            port.apply(Change::SofMask { unmasked: false });
        }
        wakes
    }

    /// Has a channel wait; what it waited for before is forgotten.
    pub fn arm<H: Dwc2Registers>(&mut self, port: &mut UsbPort<H>, channel: usize, wait: Wait)
        requires
            channel < MAX_CHANNELS,
        ensures
            arm_program(old(self)@, channel as int, wait).ran(
                old(port)@,
                final(port)@,
                final(self)@,
            ),
    {
        self.slots[channel].wait = wait;
        self.slots[channel].ready = None;
        assert(self@.slots =~= armed(old(self)@, channel as int, wait).slots);
        let announced: bool = self.any_frame_waiter();
        port.apply(Change::SofMask { unmasked: announced });
        let unmasked: bool = match wait {
            Wait::Halt => true,
            _ => false,
        };
        port.apply(Change::ChannelMask { channel: channel as u8, unmasked });
    }

    /// Has a channel wait no longer; tells whether it still did.
    pub fn disarm<H: Dwc2Registers>(&mut self, port: &mut UsbPort<H>, channel: usize) -> (waited:
        bool)
        requires
            channel < MAX_CHANNELS,
        ensures
            disarm_program(old(self)@, channel as int).ran(
                old(port)@,
                final(port)@,
                (final(self)@, waited),
            ),
    {
        let waited: bool = match self.slots[channel].wait {
            Wait::Idle => false,
            _ => true,
        };
        self.slots[channel].wait = Wait::Idle;
        self.slots[channel].ready = None;
        assert(self@.slots =~= armed(old(self)@, channel as int, Wait::Idle).slots);
        if !self.any_frame_waiter() {
            port.apply(Change::SofMask { unmasked: false });
        }
        port.apply(Change::ChannelMask { channel: channel as u8, unmasked: false });
        waited
    }

    /// Takes what came of the wait on a channel, if it is over.
    pub fn take_ready(&mut self, channel: usize) -> (ready: Option<u32>)
        requires
            channel < MAX_CHANNELS,
        ensures
            ready == old(self)@.slots[channel as int].ready,
            final(self)@ == (TableState {
                slots: old(self)@.slots.update(
                    channel as int,
                    Slot { ready: None, ..old(self)@.slots[channel as int] },
                ),
                ..old(self)@
            }),
    {
        let ready: Option<u32> = self.slots[channel].ready;
        self.slots[channel].ready = None;
        ready
    }

    /// Takes note that a change at the root port was noticed; tells whether there was
    /// one.
    pub fn take_port_change(&mut self) -> (changed: bool)
        ensures
            changed == old(self)@.port_pending,
            final(self)@ == (TableState { port_pending: false, ..old(self)@ }),
    {
        let changed: bool = self.port_pending;
        self.port_pending = false;
        changed
    }

    /// Forgets a change at the root port.
    pub fn clear_port_change(&mut self)
        ensures
            final(self)@ == (TableState { port_pending: false, ..old(self)@ }),
    {
        self.port_pending = false;
    }

    /// The interrupts of a channel at its last halt; 0 for a channel that there is not.
    pub fn last_interrupt(&self, channel: usize) -> (hcint: u32)
        ensures
            hcint == if channel < MAX_CHANNELS {
                self@.slots[channel as int].last_hcint
            } else {
                0
            },
    {
        if channel >= 12 {
            return 0;
        }
        self.slots[channel].last_hcint
    }

    /// All interrupts that a channel ever had at a halt; 0 for a channel that there is
    /// not.
    pub fn seen_interrupts(&self, channel: usize) -> (hcint: u32)
        ensures
            hcint == if channel < MAX_CHANNELS {
                self@.slots[channel as int].seen_hcint
            } else {
                0
            },
    {
        if channel >= 12 {
            return 0;
        }
        self.slots[channel].seen_hcint
    }
}

/// Something that serving an interrupt may do without disturbing a channel that
/// nobody awaits: of the channels' own registers, it is only at those of channels
/// whose halt is awaited.
pub open spec fn spares(slots: Seq<Slot>, op: Op) -> bool {
    match op {
        Op::Read(Field::Interrupts(channel)) => channel < slots.len() && slots[channel as int].wait
            is Halt,
        Op::Apply(change) => match isolation::channel_of(change) {
            Some(channel) => channel < slots.len() && slots[channel as int].wait is Halt,
            None => true,
        },
        _ => true,
    }
}

proof fn lemma_sweep_spares(
    slots: Seq<Slot>,
    state: TableState,
    woken: Woken,
    halted: u32,
    sof: bool,
    frame: u8,
    at: int,
)
    requires
        0 <= at,
        slots.len() == state.slots.len() <= 255,
        forall|i: int| at <= i < slots.len() ==> slots[i] == state.slots[i],
    ensures
        sweep_program(state, woken, halted, sof, frame, at).every(|op: Op| spares(slots, op)),
    decreases slots.len() - at,
{
    let holds = |op: Op| spares(slots, op);
    let program = sweep_program(state, woken, halted, sof, frame, at);
    if at >= slots.len() {
        reveal_with_fuel(Program::every, 3);
    } else {
        let slot = state.slots[at];
        lemma_sweep_spares(slots, state, woken, halted, sof, frame, at + 1);
        let woken_here = Woken { channels: woken.channels.update(at, true), ..woken };
        if slot.wait is Halt && interrupting(halted, at) {
            let next = program->Request_1;
            assert forall|answer: Answer| (#[trigger] next(answer)).every(holds) by {
                match answer {
                    Answer::Word(hcint) => {
                        let after = TableState {
                            slots: state.slots.update(at, halted_slot(slot, hcint)),
                            ..state
                        };
                        lemma_sweep_spares(slots, after, woken_here, halted, sof, frame, at + 1);
                        reveal_with_fuel(Program::every, 2);
                    },
                    _ => {},
                }
            }
        } else {
            let after = TableState { slots: state.slots.update(at, arrived_slot(slot)), ..state };
            lemma_sweep_spares(slots, after, woken_here, halted, sof, frame, at + 1);
        }
    }
}

/// Serving an interrupt does not touch a channel whose halt nobody awaits: whoever
/// polls such a channel finds its registers as the channel left them.
pub proof fn law_interrupts_spare_polled_channels(state: TableState)
    requires
        state.slots.len() <= MAX_CHANNELS,
    ensures
        irq_program(state).every(|op: Op| spares(state.slots, op)),
{
    let holds = |op: Op| spares(state.slots, op);
    let program = irq_program(state);
    let with_halted = program->Request_1;
    assert forall|answer: Answer| (#[trigger] with_halted(answer)).every(holds) by {
        match answer {
            Answer::Word(halted) => {
                let with_pending = with_halted(answer)->Request_1;
                assert forall|answer: Answer| (#[trigger] with_pending(answer)).every(holds) by {
                    match answer {
                        Answer::Word(pending) => {
                            let sof = pending & GINTSTS_SOF != 0;
                            let noted = TableState { port_pending: true, ..state };
                            lemma_channels_spare(state, false, halted, sof);
                            lemma_channels_spare(noted, true, halted, sof);
                            reveal_with_fuel(Program::every, 2);
                        },
                        _ => {},
                    }
                }
            },
            _ => {},
        }
    }
}

proof fn lemma_channels_spare(state: TableState, port: bool, halted: u32, sof: bool)
    requires
        state.slots.len() <= MAX_CHANNELS,
    ensures
        channels_program(state, port, halted, sof).every(|op: Op| spares(state.slots, op)),
{
    let holds = |op: Op| spares(state.slots, op);
    let woken = nobody(port, state.slots.len());
    let serve = hardware::read(
        Field::FrameNumber,
        |number: u32|
            sweep_program(state, woken, halted, sof, dwc2::microframe_of(number), 0),
    );
    let next = serve->Request_1;
    assert forall|answer: Answer| (#[trigger] next(answer)).every(holds) by {
        match answer {
            Answer::Word(number) => {
                lemma_sweep_spares(
                    state.slots,
                    state,
                    woken,
                    halted,
                    sof,
                    dwc2::microframe_of(number),
                    0,
                );
            },
            _ => {},
        }
    }
    assert(serve.every(holds));
    reveal_with_fuel(Program::every, 2);
}

/// Something that a transaction needs done.
#[derive(Clone, Copy, Debug, PartialEq, Eq, Structural)]
pub enum Errand {
    /// Look which microframe it is.
    Look,
    /// Wait for a microframe.
    Await(u8),
    /// Start a packet on the channel, and wait for the channel to halt.
    Launch { packet: Transaction, complete: bool, odd: Option<bool> },
    /// Make out what a halt means.
    Interpret { hcint: u32, requested: usize },
}

/// What came of it.
#[derive(Clone, Copy, Debug, PartialEq, Eq)]
pub enum Finding {
    /// Which microframe it is.
    Microframe(u8),
    /// The microframe has come.
    Arrived,
    /// The interrupts of the channel that halted.
    Halted(u32),
    /// The bytes moved, or why not.
    Moved(Result<usize, TransferError>),
}

/// A program over such errands.
pub type TaskProgram<T> = Program<Errand, Finding, T>;

/// What a transaction comes to: the bytes moved, or why not.
pub type Verdict = Result<usize, TransferError>;

/// Look which microframe it is, then go on with its number.
pub open spec fn look<T>(rest: spec_fn(u8) -> TaskProgram<T>) -> TaskProgram<T> {
    Program::Request(
        Errand::Look,
        |finding: Finding|
            match finding {
                Finding::Microframe(frame) => rest((frame % 8) as u8),
                _ => Program::Stuck,
            },
    )
}

/// Wait for a microframe, unless it has come, then go on.
pub open spec fn be_in<T>(frame: u8, rest: TaskProgram<T>) -> TaskProgram<T> {
    look(
        |now: u8|
            if now == frame {
                rest
            } else {
                wait_for(frame, rest)
            },
    )
}

/// Wait for a microframe, then go on.
pub open spec fn wait_for<T>(frame: u8, rest: TaskProgram<T>) -> TaskProgram<T> {
    Program::Request(
        Errand::Await(frame),
        |finding: Finding|
            match finding {
                Finding::Arrived => rest,
                _ => Program::Stuck,
            },
    )
}

/// Start a packet, then go on with the channel's interrupts.
pub open spec fn launch<T>(
    packet: Transaction,
    complete: bool,
    odd: Option<bool>,
    rest: spec_fn(u32) -> TaskProgram<T>,
) -> TaskProgram<T> {
    Program::Request(
        Errand::Launch { packet, complete, odd },
        |finding: Finding|
            match finding {
                Finding::Halted(hcint) => rest(hcint),
                _ => Program::Stuck,
            },
    )
}

/// No more bytes than were asked for.
pub open spec fn bounded(verdict: Verdict, requested: usize) -> Verdict {
    match verdict {
        Ok(count) => Ok(dwc2::at_most(count, requested)),
        Err(error) => Err(error),
    }
}

/// Make out what a halt means.
pub open spec fn interpret(packet: Transaction, hcint: u32) -> TaskProgram<Verdict> {
    let requested = packet.transfer_size as usize;
    Program::Request(
        Errand::Interpret { hcint, requested },
        |finding: Finding|
            match finding {
                Finding::Moved(verdict) => Program::Return(bounded(verdict, requested)),
                _ => Program::Stuck,
            },
    )
}

/// What the packet under way is about.
#[derive(Clone, Copy, Debug, PartialEq, Eq, Structural)]
pub enum Job {
    /// Move a transaction that is not split; its microframe, if it is periodic.
    Whole(Option<u8>),
    /// Hand a packet to a translator.
    Split,
    /// Collect it, in the given try.
    Collect(u32),
    /// Hand a periodic packet to a translator, in a microframe.
    PeriodicSplit(u8),
    /// Collect it in a microframe, with so many tries left.
    PeriodicCollect(u8, u8),
}

/// The parity that the microframe of a job asks for.
pub open spec fn parity(job: Job) -> Option<bool> {
    match job {
        Job::Whole(Some(frame)) => Some(frame % 2 == 1),
        Job::PeriodicSplit(frame) => Some(frame % 2 == 1),
        Job::PeriodicCollect(frame, tries) => Some(frame % 2 == 1),
        _ => None,
    }
}

/// Whether a job collects a packet.
pub open spec fn collects(job: Job) -> bool {
    job is Collect || job is PeriodicCollect
}

/// Bounds the launches that follow a job.
pub open spec fn launches_after(job: Job) -> nat {
    match job {
        Job::Whole(_) => 0,
        Job::Split => 100,
        Job::Collect(attempt) => if attempt < MAX_CSPLIT_POLLS {
            (MAX_CSPLIT_POLLS - attempt) as nat
        } else {
            0
        },
        Job::PeriodicSplit(_) => 1000,
        Job::PeriodicCollect(frame, tries) => tries as nat,
    }
}

/// Start a job, and do what its halt asks for.
pub open spec fn job_program(packet: Transaction, job: Job) -> TaskProgram<Verdict>
    decreases launches_after(job),
{
    launch(
        packet,
        collects(job),
        parity(job),
        |hcint: u32|
            match job {
                Job::Whole(_) => interpret(packet, hcint),
                Job::Split => if hcint & HCINT_ACK == 0 {
                    interpret(packet, hcint)
                } else {
                    job_program(packet, Job::Collect(0))
                },
                Job::Collect(attempt) => if dwc2::not_yet(hcint) && attempt + 1
                    < MAX_CSPLIT_POLLS {
                    look(
                        |now: u8|
                            be_in(
                                dwc2::frames_on(now, CSPLIT_RETRY_MICROFRAMES as int),
                                job_program(packet, Job::Collect((attempt + 1) as u32)),
                            ),
                    )
                } else {
                    interpret(packet, hcint)
                },
                Job::PeriodicSplit(frame) => if hcint & HCINT_ACK == 0 {
                    interpret(packet, hcint)
                } else {
                    let first = dwc2::frames_on(frame, 2);
                    be_in(first, job_program(packet, first_collect(frame)))
                },
                Job::PeriodicCollect(frame, tries) => if dwc2::settled(hcint) {
                    interpret(packet, hcint)
                } else if hcint & (HCINT_NYET | HCINT_ACK) != 0 {
                    if tries == 0 {
                        Program::Return(Err(TransferError::Nak))
                    } else {
                        let next = dwc2::frames_on(frame, 1);
                        be_in(
                            next,
                            job_program(packet, Job::PeriodicCollect(next, (tries - 1) as u8)),
                        )
                    }
                } else if hcint & HCINT_NAK != 0 {
                    Program::Return(Err(TransferError::Nak))
                } else {
                    interpret(packet, hcint)
                },
            },
    )
}

/// The first collection of a packet that was handed over in a microframe.
pub open spec fn first_collect(frame: u8) -> Job {
    Job::PeriodicCollect(
        dwc2::frames_on(frame, 2),
        if frame != 5 {
            3
        } else {
            2
        },
    )
}

/// Move one packet through a translator.
pub open spec fn packet_program(packet: Transaction) -> TaskProgram<Verdict> {
    if packet.endpoint_type == EndpointType::Interrupt {
        look(
            |now: u8|
                {
                    let frame = dwc2::start_split_frame(now);
                    be_in(frame, job_program(packet, Job::PeriodicSplit(frame)))
                },
        )
    } else {
        job_program(packet, Job::Split)
    }
}

/// Move a transaction that is not split. A periodic one starts with a microframe.
pub open spec fn whole_program(txn: Transaction) -> TaskProgram<Verdict> {
    if txn.endpoint_type == EndpointType::Interrupt {
        look(
            |now: u8|
                {
                    let frame = dwc2::frames_on(now, 1);
                    be_in(frame, job_program(txn, Job::Whole(Some(frame))))
                },
        )
    } else {
        job_program(txn, Job::Whole(None))
    }
}

/// Go on after a packet: until a short one, or the end.
pub open spec fn after_packet(
    endpoint: ControlEndpoint,
    txn: Transaction,
    offset: u32,
    pid: DataPid,
    verdict: Verdict,
) -> TaskProgram<Verdict>
    decreases txn.transfer_size - offset, 0nat,
{
    let packet = dwc2::packet_at(endpoint, txn, offset, pid);
    match verdict {
        Err(error) => Program::Return(Err(error)),
        Ok(count) => {
            let reached = (offset + count) as u32;
            if count < packet.transfer_size || reached >= txn.transfer_size || reached <= offset {
                Program::Return(Ok(reached as usize))
            } else {
                packets_program(endpoint, txn, reached, pid.following())
            }
        },
    }
}

/// Move the rest of a transaction through a translator, a packet at a time.
pub open spec fn packets_program(
    endpoint: ControlEndpoint,
    txn: Transaction,
    offset: u32,
    pid: DataPid,
) -> TaskProgram<Verdict>
    decreases txn.transfer_size - offset, 2nat,
{
    from_packet(
        packet_program(dwc2::packet_at(endpoint, txn, offset, pid)),
        endpoint,
        txn,
        offset,
        pid,
    )
}

/// Finish a packet, and move the rest of its transaction.
pub open spec fn from_packet(
    rest: TaskProgram<Verdict>,
    endpoint: ControlEndpoint,
    txn: Transaction,
    offset: u32,
    pid: DataPid,
) -> TaskProgram<Verdict>
    decreases txn.transfer_size - offset, 1nat,
{
    rest.bind(|verdict: Verdict| after_packet(endpoint, txn, offset, pid, verdict))
}

/// Move a transaction, however its endpoint is reached.
pub open spec fn task_program(endpoint: ControlEndpoint, txn: Transaction) -> TaskProgram<Verdict> {
    if endpoint.split is None {
        whole_program(txn)
    } else {
        packets_program(endpoint, txn, 0, txn.pid)
    }
}

/// Where a runner is.
#[derive(Clone, Copy, Debug, PartialEq, Eq)]
enum Stage {
    /// About to look which microframe it is, to choose one for a transaction that is
    /// not split.
    Choose,
    /// The same for a packet.
    ChooseSplit,
    /// The same for another try.
    ChooseRetry(u32),
    /// About to look whether a job's microframe has come.
    Check(u8, Job),
    /// About to wait for it.
    Park(u8, Job),
    /// About to start a job.
    Start(Job),
    /// About to make out what a halt means.
    Conclude(u32),
    /// Done.
    Over(Verdict),
}

/// What a runner needs done next.
#[derive(Clone, Copy, Debug, PartialEq, Eq)]
pub enum Next {
    /// Run this errand, and tell what came of it.
    Run(Errand),
    /// The transaction is over.
    Over(Verdict),
}

/// Goes through a transaction, one errand at a time.
pub struct TransactionRunner {
    endpoint: ControlEndpoint,
    txn: Transaction,
    offset: u32,
    pid: DataPid,
    stage: Stage,
}

impl TransactionRunner {
    /// The packet under way.
    closed spec fn packet(&self) -> Transaction {
        if self.endpoint.split is None {
            self.txn
        } else {
            dwc2::packet_at(self.endpoint, self.txn, self.offset, self.pid)
        }
    }

    /// What is left of the packet under way.
    closed spec fn rest(&self) -> TaskProgram<Verdict> {
        let packet = self.packet();
        match self.stage {
            Stage::Choose => look(
                |now: u8|
                    {
                        let frame = dwc2::frames_on(now, 1);
                        be_in(frame, job_program(packet, Job::Whole(Some(frame))))
                    },
            ),
            Stage::ChooseSplit => look(
                |now: u8|
                    {
                        let frame = dwc2::start_split_frame(now);
                        be_in(frame, job_program(packet, Job::PeriodicSplit(frame)))
                    },
            ),
            Stage::ChooseRetry(attempt) => look(
                |now: u8|
                    be_in(
                        dwc2::frames_on(now, CSPLIT_RETRY_MICROFRAMES as int),
                        job_program(packet, Job::Collect(attempt)),
                    ),
            ),
            Stage::Check(frame, job) => be_in(frame, job_program(packet, job)),
            Stage::Park(frame, job) => wait_for(frame, job_program(packet, job)),
            Stage::Start(job) => job_program(packet, job),
            Stage::Conclude(hcint) => interpret(packet, hcint),
            Stage::Over(verdict) => Program::Return(verdict),
        }
    }

    /// What is left to do.
    pub closed spec fn program(&self) -> TaskProgram<Verdict> {
        match self.stage {
            Stage::Over(verdict) => Program::Return(verdict),
            _ => if self.endpoint.split is None {
                self.rest()
            } else {
                from_packet(self.rest(), self.endpoint, self.txn, self.offset, self.pid)
            },
        }
    }

    /// The packet under way is one that there is, and so is the microframe.
    pub closed spec fn wf(&self) -> bool {
        &&& self.offset <= self.txn.transfer_size
        &&& match self.stage {
            Stage::Check(frame, job) => frame < 8 && sound(job),
            Stage::Park(frame, job) => frame < 8 && sound(job),
            Stage::Start(job) => sound(job),
            Stage::ChooseRetry(attempt) => attempt < MAX_CSPLIT_POLLS,
            _ => true,
        }
    }

    /// At the beginning of a transaction.
    pub fn new(endpoint: ControlEndpoint, txn: Transaction) -> (runner: Self)
        ensures
            runner.wf(),
            runner.program() == task_program(endpoint, txn),
    {
        let stage = if endpoint.split.is_some() {
            Self::first_stage(&txn)
        } else if txn.endpoint_type == EndpointType::Interrupt {
            Stage::Choose
        } else {
            Stage::Start(Job::Whole(None))
        };
        TransactionRunner { endpoint, txn, offset: 0, pid: txn.pid, stage }
    }

    fn first_stage(txn: &Transaction) -> (stage: Stage)
        ensures
            stage == if txn.endpoint_type == EndpointType::Interrupt {
                Stage::ChooseSplit
            } else {
                Stage::Start(Job::Split)
            },
    {
        if txn.endpoint_type == EndpointType::Interrupt {
            Stage::ChooseSplit
        } else {
            Stage::Start(Job::Split)
        }
    }

    fn current_packet(&self) -> (packet: Transaction)
        requires
            self.wf(),
        ensures
            packet == self.packet(),
    {
        if self.endpoint.split.is_none() {
            return self.txn;
        }
        let size: u32 = if self.endpoint.max_packet_size == 0 {
            1
        } else {
            self.endpoint.max_packet_size as u32
        };
        let left: u32 = self.txn.transfer_size - self.offset;
        Transaction {
            endpoint_number: self.txn.endpoint_number,
            endpoint_type: self.txn.endpoint_type,
            direction_in: self.txn.direction_in,
            pid: self.pid,
            transfer_size: if left <= size {
                left
            } else {
                size
            },
            dma_address: self.txn.dma_address.wrapping_add(self.offset),
        }
    }

    /// What has to be done next.
    pub fn next(&self) -> (next: Next)
        requires
            self.wf(),
        ensures
            match next {
                Next::Run(errand) => self.program() matches Program::Request(request, rest)
                    && request == errand,
                Next::Over(verdict) => self.program() == Program::<
                    Errand,
                    Finding,
                    Verdict,
                >::Return(verdict),
            },
    {
        match self.stage {
            Stage::Choose | Stage::ChooseSplit | Stage::ChooseRetry(_) | Stage::Check(_, _) => {
                Next::Run(Errand::Look)
            },
            Stage::Park(frame, _) => Next::Run(Errand::Await(frame)),
            Stage::Start(job) => Next::Run(
                Errand::Launch {
                    packet: self.current_packet(),
                    complete: match job {
                        Job::Collect(_) => true,
                        Job::PeriodicCollect(_, _) => true,
                        _ => false,
                    },
                    odd: match job {
                        Job::Whole(Some(frame)) => Some(frame % 2 == 1),
                        Job::PeriodicSplit(frame) => Some(frame % 2 == 1),
                        Job::PeriodicCollect(frame, _) => Some(frame % 2 == 1),
                        _ => None,
                    },
                },
            ),
            Stage::Conclude(hcint) => Next::Run(
                Errand::Interpret {
                    hcint,
                    requested: self.current_packet().transfer_size as usize,
                },
            ),
            Stage::Over(verdict) => Next::Over(verdict),
        }
    }

    /// Takes note of what came of the errand that was to be run.
    pub fn tell(&mut self, finding: Finding)
        requires
            old(self).wf(),
            old(self).program() matches Program::Request(errand, rest) && answers(errand, finding),
        ensures
            final(self).wf(),
            old(self).program() matches Program::Request(errand, rest) && final(self).program()
                == rest(finding),
    {
        match (self.stage, finding) {
            (Stage::Choose, Finding::Microframe(now)) => {
                let frame: u8 = (now % 8 + 1) % 8;
                self.stage = Stage::Check(frame, Job::Whole(Some(frame)));
            },
            (Stage::ChooseSplit, Finding::Microframe(now)) => {
                let next: u8 = (now % 8 + 1) % 8;
                let frame: u8 = if next == 6 {
                    7
                } else {
                    next
                };
                self.stage = Stage::Check(frame, Job::PeriodicSplit(frame));
            },
            (Stage::ChooseRetry(attempt), Finding::Microframe(now)) => {
                let frame: u8 = (now % 8 + CSPLIT_RETRY_MICROFRAMES) % 8;
                self.stage = Stage::Check(frame, Job::Collect(attempt));
            },
            (Stage::Check(frame, job), Finding::Microframe(now)) => {
                if now % 8 == frame {
                    self.stage = Stage::Start(job);
                } else {
                    self.stage = Stage::Park(frame, job);
                }
            },
            (Stage::Park(_, job), Finding::Arrived) => {
                self.stage = Stage::Start(job);
            },
            (Stage::Start(job), Finding::Halted(hcint)) => {
                self.on_halt(job, hcint);
            },
            (Stage::Conclude(hcint), Finding::Moved(verdict)) => {
                self.on_moved(hcint, verdict);
            },
            _ => {},
        }
    }

    fn on_moved(&mut self, hcint: u32, verdict: Verdict)
        requires
            old(self).wf(),
            old(self).stage == Stage::Conclude(hcint),
        ensures
            final(self).wf(),
            old(self).program() matches Program::Request(errand, rest) && final(self).program()
                == rest(Finding::Moved(verdict)),
    {
        let requested: usize = self.current_packet().transfer_size as usize;
        let limited: Verdict = match verdict {
            Ok(count) => Ok(
                if count <= requested {
                    count
                } else {
                    requested
                },
            ),
            Err(error) => Err(error),
        };
        proof {
            assert(limited == bounded(verdict, requested));
            let ended = Program::<Errand, Finding, Verdict>::Return(limited);
            assert(from_packet(ended, self.endpoint, self.txn, self.offset, self.pid)
                == after_packet(self.endpoint, self.txn, self.offset, self.pid, limited));
        }
        self.finish_packet(limited);
    }

    fn on_halt(&mut self, job: Job, hcint: u32)
        requires
            old(self).wf(),
            old(self).stage == Stage::Start(job),
        ensures
            final(self).wf(),
            old(self).program() matches Program::Request(errand, rest) && final(self).program()
                == rest(Finding::Halted(hcint)),
    {
        match job {
            Job::Whole(_) => {
                self.stage = Stage::Conclude(hcint);
            },
            Job::Split => {
                self.stage =
                if hcint & HCINT_ACK == 0 {
                    Stage::Conclude(hcint)
                } else {
                    Stage::Start(Job::Collect(0))
                };
            },
            Job::Collect(attempt) => {
                self.stage =
                if hcint & (HCINT_NYET | HCINT_NAK) != 0 && hcint & (HCINT_STALL | HCINT_TXERR
                    | HCINT_BBERR | HCINT_XFRC) == 0 && attempt + 1 < MAX_CSPLIT_POLLS {
                    Stage::ChooseRetry(attempt + 1)
                } else {
                    Stage::Conclude(hcint)
                };
            },
            Job::PeriodicSplit(frame) => {
                if hcint & HCINT_ACK == 0 {
                    self.stage = Stage::Conclude(hcint);
                } else {
                    let first: u8 = (frame + 2) % 8;
                    let tries: u8 = if frame != 5 {
                        3
                    } else {
                        2
                    };
                    self.stage = Stage::Check(first, Job::PeriodicCollect(first, tries));
                }
            },
            Job::PeriodicCollect(frame, tries) => {
                if hcint & (HCINT_STALL | HCINT_TXERR | HCINT_BBERR | HCINT_XFRC) != 0 {
                    self.stage = Stage::Conclude(hcint);
                } else if hcint & (HCINT_NYET | HCINT_ACK) != 0 {
                    if tries == 0 {
                        self.finish_packet(Err(TransferError::Nak));
                    } else {
                        let next: u8 = (frame + 1) % 8;
                        self.stage = Stage::Check(next, Job::PeriodicCollect(next, tries - 1));
                    }
                } else if hcint & HCINT_NAK != 0 {
                    self.finish_packet(Err(TransferError::Nak));
                } else {
                    self.stage = Stage::Conclude(hcint);
                }
            },
        }
    }

    fn finish_packet(&mut self, verdict: Verdict)
        requires
            old(self).wf(),
            verdict matches Ok(count) ==> count <= old(self).packet().transfer_size,
        ensures
            final(self).wf(),
            final(self).program() == if old(self).endpoint.split is None {
                Program::Return(verdict)
            } else {
                after_packet(
                    old(self).endpoint,
                    old(self).txn,
                    old(self).offset,
                    old(self).pid,
                    verdict,
                )
            },
    {
        if self.endpoint.split.is_none() {
            self.stage = Stage::Over(verdict);
            return;
        }
        match verdict {
            Err(error) => {
                self.stage = Stage::Over(Err(error));
            },
            Ok(count) => {
                let packet: Transaction = self.current_packet();
                let reached: u32 = self.offset + count as u32;
                if (count as u32) < packet.transfer_size || reached >= self.txn.transfer_size
                    || reached <= self.offset {
                    self.stage = Stage::Over(Ok(reached as usize));
                } else {
                    self.offset = reached;
                    self.pid = self.pid.toggled();
                    self.stage = Self::first_stage(&self.txn);
                }
            },
        }
    }
}

/// Whether a finding answers an errand.
pub open spec fn answers(errand: Errand, finding: Finding) -> bool {
    match errand {
        Errand::Look => finding is Microframe,
        Errand::Await(_) => finding is Arrived,
        Errand::Launch { .. } => finding is Halted,
        Errand::Interpret { .. } => finding is Moved,
    }
}

/// Whether the microframe of a job is one that there is, and its try too.
pub open spec fn sound(job: Job) -> bool {
    match job {
        Job::Whole(Some(frame)) => frame < 8,
        Job::PeriodicSplit(frame) => frame < 8,
        Job::PeriodicCollect(frame, tries) => frame < 8,
        Job::Collect(attempt) => attempt < MAX_CSPLIT_POLLS,
        _ => true,
    }
}

/// How far to go at once of a wait for so many microframes.
pub open spec fn hop_of(microframes: u32) -> u32 {
    if microframes < LONGEST_HOP {
        microframes
    } else {
        LONGEST_HOP
    }
}

/// Wait for so many microframes, a hop at a time.
pub open spec fn pause_program(microframes: u32) -> TaskProgram<()>
    decreases microframes,
{
    if microframes == 0 {
        Program::Return(())
    } else {
        let hop = hop_of(microframes);
        look(
            |now: u8|
                be_in(
                    dwc2::frames_on(now, hop as int),
                    pause_program((microframes - hop) as u32),
                ),
        )
    }
}

/// A hop never leads to the microframe that it sets out from, so none is skipped over
/// as having come, and it never goes beyond the wait.
pub proof fn law_every_hop_waits(microframes: u32, now: u8)
    requires
        microframes > 0,
        now < 8,
    ensures
        0 < hop_of(microframes) <= microframes,
        dwc2::frames_on(now, hop_of(microframes) as int) != now,
{
}

/// Where a pause is.
#[derive(Clone, Copy, Debug, PartialEq, Eq)]
enum Hop {
    /// About to look which microframe it is, to choose the next.
    Choose,
    /// About to look whether it has come.
    Check(u8),
    /// About to wait for it.
    Park(u8),
}

/// Goes through a wait for microframes, one errand at a time.
pub struct Pause {
    left: u32,
    hop: Hop,
}

impl Pause {
    /// What is left to do.
    pub closed spec fn program(&self) -> TaskProgram<()> {
        match self.hop {
            Hop::Choose => pause_program(self.left),
            Hop::Check(frame) => be_in(frame, pause_program(self.left)),
            Hop::Park(frame) => wait_for(frame, pause_program(self.left)),
        }
    }

    /// Before so many microframes.
    pub fn new(microframes: u32) -> (pause: Self)
        ensures
            pause.program() == pause_program(microframes),
    {
        Pause { left: microframes, hop: Hop::Choose }
    }

    /// What has to be done next, unless the wait is over.
    pub fn next(&self) -> (next: Option<Errand>)
        ensures
            match next {
                Some(errand) => self.program() matches Program::Request(request, rest) && request
                    == errand,
                None => self.program() == Program::<Errand, Finding, ()>::Return(()),
            },
    {
        match self.hop {
            Hop::Choose => if self.left == 0 {
                None
            } else {
                Some(Errand::Look)
            },
            Hop::Check(_) => Some(Errand::Look),
            Hop::Park(frame) => Some(Errand::Await(frame)),
        }
    }

    /// Takes note of what came of the errand that was to be run.
    pub fn tell(&mut self, finding: Finding)
        requires
            old(self).program() matches Program::Request(errand, rest) && answers(errand, finding),
        ensures
            old(self).program() matches Program::Request(errand, rest) && final(self).program()
                == rest(finding),
    {
        match (self.hop, finding) {
            (Hop::Choose, Finding::Microframe(now)) => {
                let hop: u32 = if self.left < LONGEST_HOP {
                    self.left
                } else {
                    LONGEST_HOP
                };
                self.hop = Hop::Check((now % 8 + hop as u8) % 8);
                self.left = self.left - hop;
            },
            (Hop::Check(frame), Finding::Microframe(now)) => {
                self.hop = if now % 8 == frame {
                    Hop::Choose
                } else {
                    Hop::Park(frame)
                };
            },
            (Hop::Park(_), Finding::Arrived) => {
                self.hop = Hop::Choose;
            },
            _ => {},
        }
    }
}

} // verus!

//! What an interrupt of the controller comes to, for each channel.

use vstd::prelude::*;

use crate::usb::dwc2;
use crate::usb::dwc2::asynch;
use crate::usb::dwc2::asynch::{Slot, TableState, Wait, Woken};
use crate::usb::dwc2::hardware::{Answer, Change, Field, Op};

verus! {

/// The registers of the controller while an interrupt is served.
pub struct Scene {
    /// The channels with an interrupt.
    pub halted: u32,
    /// The interrupts of the controller.
    pub pending: u32,
    /// The number of the frame.
    pub number: u32,
    /// The interrupts of each channel.
    pub hcint: spec_fn(u8) -> u32,
}

impl Scene {
    /// What the controller answers.
    pub open spec fn world(self) -> spec_fn(Op) -> Answer {
        |op: Op|
            match op {
                Op::Read(Field::ChannelInterrupts) => Answer::Word(self.halted),
                Op::Read(Field::GlobalInterrupts) => Answer::Word(self.pending),
                Op::Read(Field::FrameNumber) => Answer::Word(self.number),
                Op::Read(Field::Interrupts(channel)) => Answer::Word((self.hcint)(channel)),
                _ => Answer::Done,
            }
    }

    /// A frame has started: bit 3 says so.
    pub open spec fn frame_started(self) -> bool {
        self.pending / 8 % 2 == 1
    }

    /// Something has changed at the root port: bit 24 says so.
    pub open spec fn port_changed(self) -> bool {
        self.pending / 0x100_0000 % 2 == 1
    }

    /// A channel that waits for its halt has halted: it has an interrupt, and bit 1 of its
    /// interrupts says so.
    pub open spec fn has_halted(self, slot: Slot, channel: int) -> bool {
        &&& slot.wait == Wait::Halt
        &&& self.halted & (1u32 << (channel as u32)) != 0
        &&& (self.hcint)(channel as u8) / 2 % 2 == 1
    }

    /// The microframe that a channel waits for has come.
    pub open spec fn has_come(self, slot: Slot) -> bool {
        self.frame_started() && slot.wait == Wait::Frame((self.number % 8) as u8)
    }

    /// What becomes of a channel's wait, and whether who waits is woken. A wait that is over
    /// knows what ended it: the channel's interrupts, or none for a microframe. Any other
    /// goes on as it was.
    pub open spec fn becomes(self, before: Slot, channel: int, after: Slot, woken: bool) -> bool {
        if self.has_halted(before, channel) {
            &&& after.wait == Wait::Idle
            &&& after.ready == Some((self.hcint)(channel as u8))
            &&& after.last_hcint == (self.hcint)(channel as u8)
            &&& woken
        } else if self.has_come(before) {
            &&& after.wait == Wait::Idle
            &&& after.ready == Some(0u32)
            &&& after.last_hcint == before.last_hcint
            &&& after.seen_hcint == before.seen_hcint
            &&& woken
        } else {
            after == before && !woken
        }
    }
}

/// An interrupt ends the waits that are over, each with what it waited for, and wakes those
/// who waited, and nobody else: no wait is lost, and none ends before its time. Who waits
/// for the root port is woken if something has changed there.
pub proof fn law_waits_end_in_time(state: TableState, scene: Scene)
    requires
        state.slots.len() <= 32,
    ensures
        asynch::irq_program(state).returns_in(scene.world()) matches Some((after, woken))
            && after.slots.len() == state.slots.len() && woken.channels.len() == state.slots.len()
            && woken.port == scene.port_changed() && after.port_pending == (state.port_pending
            || scene.port_changed()) && forall|i: int|
            0 <= i < state.slots.len() ==> scene.becomes(
                #[trigger] state.slots[i],
                i,
                after.slots[i],
                woken.channels[i],
            ),
{
    let world = scene.world();
    let pending = scene.pending;
    assert((pending & 0x8 != 0) == (pending / 8 % 2 == 1) && (pending & 0x0100_0000 != 0) == (
    pending / 0x100_0000 % 2 == 1)) by (bit_vector);
    let port = scene.port_changed();
    let sof = scene.frame_started();
    let noted = TableState { port_pending: state.port_pending || port, ..state };
    let first = asynch::irq_program(state);
    assert(world(Op::Read(Field::ChannelInterrupts)) == Answer::Word(scene.halted));
    assert(world(Op::Read(Field::GlobalInterrupts)) == Answer::Word(scene.pending));
    let second = (first->Request_1)(Answer::Word(scene.halted));
    let third = (second->Request_1)(Answer::Word(scene.pending));
    let serving = asynch::channels_program(noted, port, scene.halted, sof);
    reveal_with_fuel(crate::program::Program::returns_in, 4);
    if port {
        assert((third->Request_1)(world(port_noted())) == serving);
    } else {
        assert(noted == state);
        assert(third == serving);
    }
    assert(first.returns_in(world) == serving.returns_in(world));
    lemma_channels(noted, port, scene);
}

/// The acknowledgement of a change at the root port.
pub open spec fn port_noted() -> Op {
    Op::Apply(asynch::port_acknowledged())
}

proof fn lemma_channels(state: TableState, port: bool, scene: Scene)
    requires
        state.slots.len() <= 32,
    ensures
        asynch::channels_program(state, port, scene.halted, scene.frame_started()).returns_in(
            scene.world(),
        ) matches Some((after, woken)) && after.slots.len() == state.slots.len()
            && woken.channels.len() == state.slots.len() && woken.port == port
            && after.port_pending == state.port_pending && forall|i: int|
            0 <= i < state.slots.len() ==> scene.becomes(
                #[trigger] state.slots[i],
                i,
                after.slots[i],
                woken.channels[i],
            ),
{
    let world = scene.world();
    let sof = scene.frame_started();
    let nobody = asynch::nobody(port, state.slots.len());
    let program = asynch::channels_program(state, port, scene.halted, sof);
    assert(world(Op::Read(Field::FrameNumber)) == Answer::Word(scene.number));
    reveal_with_fuel(crate::program::Program::returns_in, 3);
    if !sof && scene.halted == 0 {
        assert forall|i: int| 0 <= i < state.slots.len() implies scene.becomes(
            #[trigger] state.slots[i],
            i,
            state.slots[i],
            nobody.channels[i],
        ) by {
            let at = i as u32;
            assert(0u32 & (1u32 << at) == 0) by (bit_vector);
        }
    } else {
        lemma_sweep(state, state.slots, nobody, scene, 0);
    }
}

proof fn lemma_sweep(state: TableState, before: Seq<Slot>, woken: Woken, scene: Scene, at: int)
    requires
        0 <= at <= before.len() <= 32,
        state.slots.len() == before.len(),
        woken.channels.len() == before.len(),
        forall|i: int|
            0 <= i < at ==> scene.becomes(
                #[trigger] before[i],
                i,
                state.slots[i],
                woken.channels[i],
            ),
        forall|i: int| at <= i < before.len() ==> #[trigger] state.slots[i] == before[i],
        forall|i: int| at <= i < before.len() ==> !#[trigger] woken.channels[i],
    ensures
        asynch::sweep_program(
            state,
            woken,
            scene.halted,
            scene.frame_started(),
            dwc2::microframe_of(scene.number),
            at,
        ).returns_in(scene.world()) matches Some((after, now)) && after.slots.len()
            == before.len() && now.channels.len() == before.len() && now.port == woken.port
            && after.port_pending == state.port_pending && forall|i: int|
            0 <= i < before.len() ==> scene.becomes(
                #[trigger] before[i],
                i,
                after.slots[i],
                now.channels[i],
            ),
    decreases before.len() - at,
{
    let world = scene.world();
    let sof = scene.frame_started();
    let frame = dwc2::microframe_of(scene.number);
    reveal_with_fuel(crate::program::Program::returns_in, 4);
    let program = asynch::sweep_program(state, woken, scene.halted, sof, frame, at);
    if at < before.len() {
        let slot = state.slots[at];
        assert(before[at] == slot);
        let hcint = (scene.hcint)(at as u8);
        assert((hcint & 0x002 != 0) == (hcint / 2 % 2 == 1)) by (bit_vector);
        assert(world(Op::Read(Field::Interrupts(at as u8))) == Answer::Word(hcint));
        if scene.has_halted(slot, at) || scene.has_come(slot) {
            let over = if scene.has_halted(slot, at) {
                asynch::halted_slot(slot, hcint)
            } else {
                asynch::arrived_slot(slot)
            };
            let later = TableState { slots: state.slots.update(at, over), ..state };
            let more = Woken { channels: woken.channels.update(at, true), ..woken };
            assert forall|i: int| 0 <= i < at + 1 implies scene.becomes(
                #[trigger] before[i],
                i,
                later.slots[i],
                more.channels[i],
            ) by {
                if i < at {
                    assert(later.slots[i] == state.slots[i]);
                    assert(more.channels[i] == woken.channels[i]);
                }
            }
            lemma_sweep(later, before, more, scene, at + 1);
        } else {
            lemma_sweep(state, before, woken, scene, at + 1);
        }
    }
}

/// Some channel waits for a microframe.
pub open spec fn some_waits(slots: Seq<Slot>, from: int) -> bool {
    exists|i: int| from <= i < slots.len() && (#[trigger] slots[i]).wait is Frame
}

proof fn lemma_some_waits(slots: Seq<Slot>, from: int)
    requires
        0 <= from,
    ensures
        asynch::frame_waiter(slots, from) <==> some_waits(slots, from),
    decreases slots.len() - from,
{
    if from < slots.len() {
        lemma_some_waits(slots, from + 1);
        if some_waits(slots, from) && !(slots[from].wait is Frame) {
            let i = choose|i: int| from <= i < slots.len() && (#[trigger] slots[i]).wait is Frame;
            assert(from + 1 <= i);
        }
    }
}

/// A channel that is to wait does, with nothing found yet and what it has seen kept, and no
/// other channel is touched. The start of frames interrupts exactly if some channel waits
/// for one, and the channel exactly if it waits for its halt.
pub proof fn law_arm(state: TableState, channel: int, wait: Wait, done: Answer)
    requires
        0 <= channel < state.slots.len() <= 255,
    ensures
        ({
            let program = asynch::arm_program(state, channel, wait);
            let answers = seq![done, done];
            &&& program.given(answers) matches crate::program::Program::Return(after)
            &&& after.port_pending == state.port_pending
            &&& after.slots == state.slots.update(
                channel,
                Slot {
                    wait,
                    ready: None,
                    last_hcint: state.slots[channel].last_hcint,
                    seen_hcint: state.slots[channel].seen_hcint,
                },
            )
            &&& program.asked(answers) == seq![
                Op::Apply(Change::SofMask { unmasked: some_waits(after.slots, 0) }),
                Op::Apply(
                    Change::ChannelMask { channel: channel as u8, unmasked: wait == Wait::Halt },
                ),
            ]
        }),
{
    reveal_with_fuel(crate::program::Program::asked, 3);
    reveal_with_fuel(crate::program::Program::given, 3);
    let answers = seq![done, done];
    assert(answers.skip(1) =~= seq![done]);
    assert(answers.skip(1).skip(1).len() == 0);
    let after = asynch::armed(state, channel, wait);
    lemma_some_waits(after.slots, 0);
    assert(asynch::arm_program(state, channel, wait).asked(answers) =~= seq![
        Op::Apply(Change::SofMask { unmasked: some_waits(after.slots, 0) }),
        Op::Apply(Change::ChannelMask { channel: channel as u8, unmasked: wait == Wait::Halt }),
    ]);
}

/// A channel that is to wait no longer does not, and does not interrupt; if no channel waits
/// for a frame then, frames do not either. It is told whether the wait was still on.
pub proof fn law_disarm(state: TableState, channel: int, done: Answer)
    requires
        0 <= channel < state.slots.len() <= 255,
    ensures
        ({
            let program = asynch::disarm_program(state, channel);
            let after = state.slots.update(
                channel,
                Slot { wait: Wait::Idle, ready: None, ..state.slots[channel] },
            );
            let quiet = seq![
                Op::Apply(Change::ChannelMask { channel: channel as u8, unmasked: false }),
            ];
            let answers = if some_waits(after, 0) { seq![done] } else { seq![done, done] };
            &&& program.asked(answers) == if some_waits(after, 0) {
                quiet
            } else {
                seq![Op::Apply(Change::SofMask { unmasked: false })] + quiet
            }
            &&& program.given(answers) matches crate::program::Program::Return(result)
            &&& result.0.slots == after
            &&& result.0.port_pending == state.port_pending
            &&& result.1 <==> state.slots[channel].wait != Wait::Idle
        }),
{
    reveal_with_fuel(crate::program::Program::asked, 3);
    reveal_with_fuel(crate::program::Program::given, 3);
    let after = asynch::armed(state, channel, Wait::Idle);
    lemma_some_waits(after.slots, 0);
    assert(seq![done, done].skip(1) =~= seq![done]);
    assert(seq![done].skip(1).len() == 0);
}

} // verus!

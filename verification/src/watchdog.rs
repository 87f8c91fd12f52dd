//! The watchdog timer of the BCM283x power-management (PM) block: a hardware
//! countdown that resets the whole board unless it is reloaded in time.
//!
//! `PM_RSTC` and `PM_WDOG` take a write only if its top byte is the password
//! `0x5a`; any other write is ignored. `PM_WDOG` holds a 20-bit countdown in
//! ticks of a fixed 65536 Hz clock, so a single countdown cannot be longer than
//! about 16 seconds ([`MAX_TIMEOUT_MS`]).

use vstd::prelude::*;

use crate::program::{Exchange, Program};
use crate::registers;
use crate::registers::{Access, RegHistory, RegProgram, RegisterBlock, Registers};

verus! {

/// Reset control, at its offset in the peripheral block: bits 5:4 select what
/// happens when the countdown ends.
pub const PM_RSTC: u32 = 0x0010_001c;

/// Watchdog, at its offset in the peripheral block: bits 19:0 are the countdown,
/// in ticks.
pub const PM_WDOG: u32 = 0x0010_0024;

const PM_PASSWORD: u32 = 0x5a00_0000;

const PM_WDOG_TIME_MASK: u32 = 0x000f_ffff;

const PM_RSTC_WRCFG_MASK: u32 = 0x0000_0030;

const PM_RSTC_WRCFG_FULL_RESET: u32 = 0x0000_0020;

const PM_RSTC_RESET: u32 = 0x0000_0102;

const WDOG_TICKS_PER_SEC: u64 = 65536;

/// The longest countdown, in milliseconds: the whole milliseconds in
/// `0xf_ffff` ticks.
pub const MAX_TIMEOUT_MS: u32 = 15999;

/// The watchdog driver. Making one arms nothing.
pub struct Watchdog {
    timeout_ms: Option<u32>,
    disabled: bool,
}

/// The number of clock ticks in `timeout_ms` milliseconds, rounded down.
pub open spec fn ticks_in(timeout_ms: int) -> int {
    timeout_ms * 65536 / 1000
}

/// Load the countdown, then select a full reset at its end and leave the rest
/// of `PM_RSTC` as it was.
pub open spec fn arm_program(timeout_ms: u32) -> RegProgram<()> {
    registers::then_write(
        PM_WDOG,
        0x5a00_0000u32 | ticks_in(timeout_ms as int) as u32,
        registers::then_read(
            PM_RSTC,
            |rstc: u32|
                registers::then_write(
                    PM_RSTC,
                    0x5a00_0000u32 | (rstc & !0x30u32) | 0x20u32,
                    Program::Return(()),
                ),
        ),
    )
}

impl Watchdog {
    /// The timeout that the last `start` armed.
    pub closed spec fn timeout(&self) -> Option<u32> {
        self.timeout_ms
    }

    /// Whether it has been disabled since it was last started.
    pub closed spec fn is_disabled(&self) -> bool {
        self.disabled
    }

    /// What every watchdog keeps: it remembers no timeout it could not arm.
    pub open spec fn wf(&self) -> bool {
        self.timeout() matches Some(t) ==> t <= MAX_TIMEOUT_MS
    }

    /// A driver that has armed nothing.
    pub fn new() -> (watchdog: Self)
        ensures
            watchdog.wf(),
            watchdog.timeout() == None::<u32>,
            !watchdog.is_disabled(),
    {
        Self { timeout_ms: None, disabled: false }
    }

    /// Arms the watchdog: the board resets in `timeout_ms` unless it is fed or
    /// started again first.
    pub fn start<R: Registers>(&mut self, registers: &mut RegisterBlock<R>, timeout_ms: u32)
        requires
            timeout_ms <= MAX_TIMEOUT_MS,
        ensures
            final(self).wf(),
            final(self).timeout() == Some(timeout_ms),
            !final(self).is_disabled(),
            arm_program(timeout_ms).ran(old(registers)@, final(registers)@, ()),
    {
        self.timeout_ms = Some(timeout_ms);
        self.disabled = false;
        Self::arm(registers, timeout_ms);
    }

    /// Reloads the countdown with the timeout of the last `start`, to stave off the reset.
    /// A watchdog that has been disabled since stays so, and is not touched.
    pub fn feed<R: Registers>(&mut self, registers: &mut RegisterBlock<R>)
        requires
            old(self).wf(),
            old(self).timeout() is Some,
        ensures
            *final(self) == *old(self),
            if old(self).is_disabled() {
                *final(registers) == *old(registers)
            } else {
                arm_program(old(self).timeout()->0).ran(old(registers)@, final(registers)@, ())
            },
    {
        if self.disabled {
            return;
        }
        match self.timeout_ms {
            Some(timeout_ms) => Self::arm(registers, timeout_ms),
            None => {},
        }
    }

    /// Disarms the watchdog: however long it is left unfed, no reset comes until it is
    /// started again.
    pub fn disable<R: Registers>(&mut self, registers: &mut RegisterBlock<R>)
        ensures
            final(self).timeout() == old(self).timeout(),
            final(self).is_disabled(),
            disable_program().ran(old(registers)@, final(registers)@, ()),
    {
        broadcast use crate::program::group_program;

        assert(0x5a00_0000u32 | 0x102u32 == 0x5a00_0102u32) by (bit_vector);
        self.disabled = true;
        registers.write(PM_RSTC, PM_PASSWORD | PM_RSTC_RESET);
    }

    fn arm<R: Registers>(registers: &mut RegisterBlock<R>, timeout_ms: u32)
        requires
            timeout_ms <= MAX_TIMEOUT_MS,
        ensures
            arm_program(timeout_ms).ran(old(registers)@, final(registers)@, ()),
    {
        broadcast use crate::program::group_program;

        let whole: u32 = ((timeout_ms as u64 * WDOG_TICKS_PER_SEC) / 1000) as u32;
        let ticks: u32 = whole & PM_WDOG_TIME_MASK;
        assert(whole & 0xf_ffffu32 == whole) by (bit_vector)
            requires
                whole <= 0xf_ffffu32,
        ;
        registers.write(PM_WDOG, PM_PASSWORD | ticks);
        let rstc: u32 = registers.read(PM_RSTC);
        registers.write(
            PM_RSTC,
            PM_PASSWORD | (rstc & !PM_RSTC_WRCFG_MASK) | PM_RSTC_WRCFG_FULL_RESET,
        );
    }
}

impl Default for Watchdog {
    /// The same as [`Watchdog::new`].
    fn default() -> (watchdog: Self)
        ensures
            watchdog.wf(),
            watchdog.timeout() == None::<u32>,
            !watchdog.is_disabled(),
    {
        Self::new()
    }
}

/// Disarm the watchdog.
pub open spec fn disable_program() -> RegProgram<()> {
    registers::then_write(PM_RSTC, 0x5a00_0102, Program::Return(()))
}

/// An access that, if it is a write, has the password for its top byte.
pub open spec fn has_password(access: Access) -> bool {
    access matches Access::Write(offset, value) ==> value & 0xff00_0000 == 0x5a00_0000
}

/// An answer that, if it is what `PM_RSTC` reads as, has nothing where the password goes.
pub open spec fn leaves_room(exchange: Exchange<Access, u32>) -> bool {
    exchange.request == Access::Read(PM_RSTC) ==> exchange.answer <= 0x00ff_ffff
}

/// The countdown register holds the ticks of a timeout exactly if the timeout is
/// at most [`MAX_TIMEOUT_MS`].
pub proof fn law_longest_timeout(timeout_ms: u32)
    ensures
        ticks_in(timeout_ms as int) <= 0xf_ffff <==> timeout_ms <= MAX_TIMEOUT_MS,
{
}

/// A tick is a 65536th of a second: the ticks of a timeout are as many as have begun and
/// ended by its end.
pub proof fn law_ticks(timeout_ms: int)
    requires
        0 <= timeout_ms,
    ensures
        ticks_in(timeout_ms) * 1000 <= timeout_ms * 65536 < (ticks_in(timeout_ms) + 1) * 1000,
{
}

/// What arming writes: the ticks of the timeout into the countdown, and then, into the reset
/// control, what was there with bit 5 set and bit 4 cleared, which makes the end of the
/// countdown a full reset, and with every other bit as it was. Disarming puts back what
/// the reset control holds when the board comes up.
pub proof fn law_arming(timeout_ms: u32, rstc: u32, done: u32)
    requires
        timeout_ms <= MAX_TIMEOUT_MS,
        rstc <= 0x00ff_ffff,
    ensures
        ({
            let asked = arm_program(timeout_ms).asked(seq![done, rstc, done]);
            &&& asked.len() == 3
            &&& asked[0] == Access::Write(0x10_0024, (0x5a00_0000 + ticks_in(timeout_ms as int)) as u32)
            &&& asked[1] == Access::Read(0x10_001c)
            &&& asked[2] matches Access::Write(offset, value)
            &&& offset == 0x10_001c
            &&& value / 0x100_0000 == 0x5a
            &&& value / 16 % 4 == 2
            &&& value & 0x00ff_ffcf == rstc & 0x00ff_ffcf
        }),
        disable_program().asked(seq![done]) == seq![Access::Write(0x10_001c, 0x5a00_0102)],
{
    reveal_with_fuel(Program::asked, 5);
    assert(seq![done, rstc, done].skip(1) =~= seq![rstc, done]);
    assert(seq![rstc, done].skip(1) =~= seq![done]);
    assert(seq![done].skip(1).len() == 0);
    let ticks = ticks_in(timeout_ms as int) as u32;
    let value: u32 = 0x5a00_0000u32 | (rstc & !0x30u32) | 0x20u32;
    assert(0x5a00_0000u32 | ticks == 0x5a00_0000 + ticks && value / 0x100_0000 == 0x5a && value
        / 16 % 4 == 2 && value & 0x00ff_ffcf == rstc & 0x00ff_ffcf) by (bit_vector)
        requires
            ticks <= 0xf_ffffu32,
            rstc <= 0x00ff_ffffu32,
            value == 0x5a00_0000u32 | (rstc & !0x30u32) | 0x20u32,
    ;
}

/// Every value that arming or disarming writes has the password for its top byte, as long as
/// the top byte of `PM_RSTC` reads as zero.
pub proof fn law_password(timeout_ms: u32, start: RegHistory, end: RegHistory)
    requires
        timeout_ms <= MAX_TIMEOUT_MS,
        arm_program(timeout_ms).ran(start, end, ()) || disable_program().ran(start, end, ()),
        forall|i: int| start.len() <= i < end.len() ==> leaves_room(#[trigger] end[i]),
    ensures
        forall|i: int| start.len() <= i < end.len() ==> has_password((#[trigger] end[i]).request),
{
    let ticks = ticks_in(timeout_ms as int) as u32;
    assert((0x5a00_0000u32 | ticks) & 0xff00_0000 == 0x5a00_0000) by (bit_vector)
        requires
            ticks <= 0xf_ffffu32,
    ;
    assert(0x5a00_0102u32 & 0xff00_0000 == 0x5a00_0000) by (bit_vector);
    let done = end.skip(start.len() as int);
    assert(forall|i: int| 0 <= i < done.len() ==> #[trigger] done[i] == end[start.len() + i]);
    if done.len() > 1 && done[1].request == Access::Read(PM_RSTC) {
        let rstc = done[1].answer;
        assert(leaves_room(end[start.len() as int + 1]));
        assert((0x5a00_0000u32 | (rstc & !0x30u32) | 0x20u32) & 0xff00_0000 == 0x5a00_0000)
            by (bit_vector)
            requires
                rstc <= 0x00ff_ffffu32,
        ;
    }
    reveal_with_fuel(Program::after, 4);
    assert forall|i: int| start.len() <= i < end.len() implies has_password(
        (#[trigger] end[i]).request,
    ) by {
        assert(end[i] == done[i - start.len()]);
    }
}

/// What the two registers hold. The password is not kept.
pub struct Held {
    pub rstc: u32,
    pub wdog: u32,
}

/// What a register reads as.
pub open spec fn reads_as(held: Held, offset: u32) -> u32 {
    if offset == PM_RSTC {
        held.rstc
    } else if offset == PM_WDOG {
        held.wdog
    } else {
        0
    }
}

/// What the registers hold after a write, which counts only with the password.
pub open spec fn written(held: Held, offset: u32, value: u32) -> Held {
    if value & 0xff00_0000 != 0x5a00_0000 {
        held
    } else if offset == PM_RSTC {
        Held { rstc: value & 0x00ff_ffff, ..held }
    } else if offset == PM_WDOG {
        Held { wdog: value & 0x000f_ffff, ..held }
    } else {
        held
    }
}

/// What the registers hold after a program that nothing interferes with.
pub open spec fn left(program: RegProgram<()>, held: Held) -> Held
    decreases program,
{
    match program {
        Program::Request(Access::Read(offset), next) => left(next(reads_as(held, offset)), held),
        Program::Request(Access::Write(offset, value), next) => left(
            next(0),
            written(held, offset, value),
        ),
        _ => held,
    }
}

/// The end of the countdown resets the board.
pub open spec fn armed(held: Held) -> bool {
    held.rstc & 0x30 == 0x20
}

/// A call of the driver.
pub enum Call {
    Start(u32),
    Feed,
    Disable,
}

/// What some calls leave: what the registers hold, the timeout that is remembered, and
/// whether the driver is disabled.
pub struct Outcome {
    pub held: Held,
    pub timeout: Option<u32>,
    pub disabled: bool,
}

/// What is left after some calls of a new driver.
pub open spec fn after_calls(calls: Seq<Call>, held: Held) -> Outcome
    decreases calls.len(),
{
    if calls.len() == 0 {
        Outcome { held, timeout: None, disabled: false }
    } else {
        let before = after_calls(calls.drop_last(), held);
        match calls.last() {
            Call::Start(timeout_ms) => Outcome {
                held: left(arm_program(timeout_ms), before.held),
                timeout: Some(timeout_ms),
                disabled: false,
            },
            Call::Feed => if before.disabled {
                before
            } else {
                Outcome { held: left(arm_program(before.timeout->0), before.held), ..before }
            },
            Call::Disable => Outcome {
                held: left(disable_program(), before.held),
                disabled: true,
                ..before
            },
        }
    }
}

/// The timeout of the last call that starts, unless one that disables came after it.
pub open spec fn running(calls: Seq<Call>) -> Option<u32>
    decreases calls.len(),
{
    if calls.len() == 0 {
        None
    } else {
        match calls.last() {
            Call::Start(timeout_ms) => Some(timeout_ms),
            Call::Feed => running(calls.drop_last()),
            Call::Disable => None,
        }
    }
}

/// The calls can be made: no timeout is too long, and the first call that feeds comes after
/// one that starts.
pub open spec fn can_be_made(calls: Seq<Call>) -> bool
    decreases calls.len(),
{
    calls.len() > 0 ==> {
        &&& can_be_made(calls.drop_last())
        &&& match calls.last() {
            Call::Start(timeout_ms) => timeout_ms <= MAX_TIMEOUT_MS,
            Call::Feed => exists|i: int| 0 <= i < calls.len() && #[trigger] calls[i] is Start,
            Call::Disable => true,
        }
    }
}

/// Once disabled, nothing resets the board until `start` is called again, whether or not
/// `feed` is; and as long as `disable` has not been called since, the last `start` decides:
/// the end of the countdown resets the board, and each `feed` reloads its timeout.
pub proof fn law_disabled_until_started(calls: Seq<Call>, held: Held)
    requires
        calls.len() > 0,
        can_be_made(calls),
        held.rstc <= 0x00ff_ffff,
    ensures
        match running(calls) {
            Some(timeout_ms) => {
                &&& armed(after_calls(calls, held).held)
                &&& after_calls(calls, held).held.wdog == ticks_in(timeout_ms as int)
            },
            None => !armed(after_calls(calls, held).held),
        },
{
    lemma_calls(calls, held);
}

proof fn lemma_calls(calls: Seq<Call>, held: Held)
    requires
        can_be_made(calls),
        held.rstc <= 0x00ff_ffff,
    ensures
        ({
            let now = after_calls(calls, held);
            &&& now.held.rstc <= 0x00ff_ffff
            &&& now.timeout matches Some(timeout_ms) ==> timeout_ms <= MAX_TIMEOUT_MS
            &&& (exists|i: int| 0 <= i < calls.len() && #[trigger] calls[i] is Start)
                ==> now.timeout is Some
            &&& now.disabled ==> running(calls) is None && !armed(now.held)
            &&& !now.disabled && calls.len() > 0 ==> {
                &&& running(calls) == now.timeout
                &&& now.timeout is Some
                &&& armed(now.held)
                &&& now.held.wdog == ticks_in(now.timeout->0 as int)
            }
        }),
    decreases calls.len(),
{
    if calls.len() > 0 {
        let earlier = calls.drop_last();
        lemma_calls(earlier, held);
        let before = after_calls(earlier, held);
        if !(calls.last() is Start) && exists|i: int|
            0 <= i < calls.len() && #[trigger] calls[i] is Start {
            let i = choose|i: int| 0 <= i < calls.len() && #[trigger] calls[i] is Start;
            assert(earlier[i] is Start);
        }
        match calls.last() {
            Call::Start(timeout_ms) => lemma_arm(timeout_ms, before.held),
            Call::Feed => {
                if !before.disabled {
                    lemma_arm(before.timeout->0, before.held);
                }
            },
            Call::Disable => lemma_disarm(before.held),
        }
    }
}

proof fn lemma_arm(timeout_ms: u32, held: Held)
    requires
        timeout_ms <= MAX_TIMEOUT_MS,
        held.rstc <= 0x00ff_ffff,
    ensures
        armed(left(arm_program(timeout_ms), held)),
        left(arm_program(timeout_ms), held).wdog == ticks_in(timeout_ms as int),
        left(arm_program(timeout_ms), held).rstc <= 0x00ff_ffff,
{
    reveal_with_fuel(left, 4);
    let ticks = ticks_in(timeout_ms as int) as u32;
    let rstc = held.rstc;
    assert((0x5a00_0000u32 | ticks) & 0xff00_0000 == 0x5a00_0000 && (0x5a00_0000u32 | ticks)
        & 0x000f_ffff == ticks) by (bit_vector)
        requires
            ticks <= 0xf_ffffu32,
    ;
    assert((0x5a00_0000u32 | (rstc & !0x30u32) | 0x20u32) & 0xff00_0000 == 0x5a00_0000 && ((
    0x5a00_0000u32 | (rstc & !0x30u32) | 0x20u32) & 0x00ff_ffff) & 0x30 == 0x20 && (0x5a00_0000u32
        | (rstc & !0x30u32) | 0x20u32) & 0x00ff_ffff <= 0x00ff_ffff) by (bit_vector)
        requires
            rstc <= 0x00ff_ffffu32,
    ;
}

proof fn lemma_disarm(held: Held)
    ensures
        !armed(left(disable_program(), held)),
        left(disable_program(), held).rstc <= 0x00ff_ffff,
{
    reveal_with_fuel(left, 2);
    assert(0x5a00_0102u32 & 0xff00_0000 == 0x5a00_0000 && (0x5a00_0102u32 & 0x00ff_ffff) & 0x30
        == 0 && 0x5a00_0102u32 & 0x00ff_ffff <= 0x00ff_ffff) by (bit_vector);
}

} // verus!

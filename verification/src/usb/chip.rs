//! The registers of the USB Ethernet chips, and scripts of accesses to them.
//!
//! Bringing a chip up, or asking it for its link, is a fixed list of register
//! accesses, with the waits in between. Such a list is a script. A [`Runner`]
//! goes through it, one access at a time: it names the next access, and is told
//! what came of it. Who makes the access, and whether it blocks meanwhile, is
//! not its concern.

use vstd::prelude::*;

use crate::bytes;
use crate::bytes::{u32_bytes, u32_from};
use crate::program::Program;
use crate::usb::control;
use crate::usb::control::{vendor_in, vendor_out};
use crate::usb::dwc2::hardware::Dwc2Registers;
use crate::usb::dwc2::{Channel, ControlEndpoint, TransferError, UsbProgram};

pub mod bits;
pub mod kept;
pub mod scripts;

verus! {

broadcast use crate::program::group_program;

/// The vendor request that reads a register.
pub const READ_REGISTER: u8 = 0xA1;

/// The vendor request that writes a register.
pub const WRITE_REGISTER: u8 = 0xA0;

/// The longest that is waited for bits of a register, in microseconds.
pub const AWAIT_TIMEOUT_US: u64 = 1_000_000;

/// The most that a register is looked at in one wait.
pub const MAX_LOOKS: u64 = u64::MAX;

/// A step of a script.
#[derive(Clone, Copy, Debug, PartialEq, Eq, Structural)]
pub enum Instruction {
    /// Read a register, and keep its value.
    Read { register: u16 },
    /// Write a register.
    Write { register: u16, value: u32 },
    /// Write the value that was read last, with some bits cleared and then some set.
    WriteBack { register: u16, clear: u32, set: u32 },
    /// Read a register until all of some bits are clear, and one of some others is
    /// set, if there are any.
    Await { register: u16, clear: u32, set: u32 },
}

/// An access to a register, or a look at the clock.
#[derive(Clone, Copy, Debug, PartialEq, Eq, Structural)]
pub enum Access {
    Read(u16),
    Write(u16, u32),
    Clock,
}

/// What came of it.
#[derive(Clone, Copy, Debug, PartialEq, Eq, Structural)]
pub enum Outcome {
    Value(u32),
    Written,
    Time(u64),
}

/// A program over accesses.
pub type ChipProgram<T> = Program<Access, Outcome, T>;

/// Read a register, then go on with its value.
pub open spec fn peek<T>(register: u16, rest: spec_fn(u32) -> ChipProgram<T>) -> ChipProgram<T> {
    Program::Request(
        Access::Read(register),
        |outcome: Outcome|
            match outcome {
                Outcome::Value(value) => rest(value),
                _ => Program::Stuck,
            },
    )
}

/// Write a register, then go on.
pub open spec fn poke<T>(register: u16, value: u32, rest: ChipProgram<T>) -> ChipProgram<T> {
    Program::Request(
        Access::Write(register, value),
        |outcome: Outcome|
            match outcome {
                Outcome::Written => rest,
                _ => Program::Stuck,
            },
    )
}

/// Look at the clock, then go on with the time.
pub open spec fn clock<T>(rest: spec_fn(u64) -> ChipProgram<T>) -> ChipProgram<T> {
    Program::Request(
        Access::Clock,
        |outcome: Outcome|
            match outcome {
                Outcome::Time(time) => rest(time),
                _ => Program::Stuck,
            },
    )
}

/// The values that a script read, or why it failed.
pub type Values = Result<Seq<u32>, TransferError>;

/// Whether a value is what is waited for.
pub open spec fn settled(value: u32, clear: u32, set: u32) -> bool {
    value & clear == 0 && (set == 0 || value & set != 0)
}

/// Whether more time has passed than is waited.
pub open spec fn overdue(start: u64, now: u64) -> bool {
    now.wrapping_sub(start) > AWAIT_TIMEOUT_US
}

/// Look at a register until it has settled, but no longer than the timeout.
pub open spec fn look_program(
    register: u16,
    clear: u32,
    set: u32,
    start: u64,
    looks: nat,
    rest: ChipProgram<Values>,
) -> ChipProgram<Values>
    decreases looks,
{
    peek(
        register,
        |value: u32|
            if settled(value, clear, set) {
                rest
            } else {
                clock(
                    |now: u64|
                        if overdue(start, now) || looks == 0 {
                            Program::Return(Err(TransferError::Timeout))
                        } else {
                            look_program(register, clear, set, start, (looks - 1) as nat, rest)
                        },
                )
            },
    )
}

/// The value that was read last; 0 before the first.
pub open spec fn latest(values: Seq<u32>) -> u32 {
    if values.len() == 0 {
        0
    } else {
        values.last()
    }
}

/// A value with some bits cleared and then some set.
pub open spec fn adjusted(value: u32, clear: u32, set: u32) -> u32 {
    (value & !clear) | set
}

/// Go through a script from a place on, having read some values.
pub open spec fn script_program(
    script: Seq<Instruction>,
    at: int,
    values: Seq<u32>,
) -> ChipProgram<Values>
    decreases script.len() - at,
{
    if at < 0 || at >= script.len() {
        Program::Return(Ok(values))
    } else {
        match script[at] {
            Instruction::Read { register } => peek(
                register,
                |value: u32| script_program(script, at + 1, values.push(value)),
            ),
            Instruction::Write { register, value } => poke(
                register,
                value,
                script_program(script, at + 1, values),
            ),
            Instruction::WriteBack { register, clear, set } => poke(
                register,
                adjusted(latest(values), clear, set),
                script_program(script, at + 1, values),
            ),
            Instruction::Await { register, clear, set } => clock(
                |start: u64|
                    look_program(
                        register,
                        clear,
                        set,
                        start,
                        MAX_LOOKS as nat,
                        script_program(script, at + 1, values),
                    ),
            ),
        }
    }
}

/// A whole script.
pub open spec fn whole_script(script: Seq<Instruction>) -> ChipProgram<Values> {
    script_program(script, 0, Seq::empty())
}

/// What a runner does next.
#[derive(Clone, Copy, Debug, PartialEq, Eq, Structural)]
pub enum Step {
    /// Make this access, and tell what came of it.
    Do(Access),
    /// The script is done.
    Finished,
    /// The script has failed.
    Failed(TransferError),
}

#[derive(Clone, Copy, Debug, PartialEq, Eq, Structural)]
enum Phase {
    /// At the beginning of an instruction.
    Fresh,
    /// About to look at a register.
    Looking { start: u64, looks: u64 },
    /// About to look at the clock, the register not having settled.
    Timing { start: u64, looks: u64 },
    /// A wait took too long.
    Expired,
}

/// Goes through a script.
pub struct Runner<'a> {
    script: &'a [Instruction],
    at: usize,
    phase: Phase,
    values: Vec<u32>,
}

impl<'a> Runner<'a> {
    /// The place in the script is one that it has, and a wait is at an instruction
    /// that waits.
    pub closed spec fn wf(&self) -> bool {
        &&& self.at <= self.script@.len()
        &&& (self.phase is Looking || self.phase is Timing) ==> {
            &&& self.at < self.script@.len()
            &&& self.script@[self.at as int] is Await
        }
    }

    /// What is left to do.
    pub closed spec fn program(&self) -> ChipProgram<Values> {
        let rest = script_program(self.script@, self.at + 1, self.values@);
        match self.phase {
            Phase::Fresh => script_program(self.script@, self.at as int, self.values@),
            Phase::Expired => Program::Return(Err(TransferError::Timeout)),
            Phase::Looking { start, looks } => match self.script@[self.at as int] {
                Instruction::Await { register, clear, set } => look_program(
                    register,
                    clear,
                    set,
                    start,
                    looks as nat,
                    rest,
                ),
                _ => Program::Stuck,
            },
            Phase::Timing { start, looks } => match self.script@[self.at as int] {
                Instruction::Await { register, clear, set } => clock(
                    |now: u64|
                        if overdue(start, now) || looks == 0 {
                            Program::Return(Err(TransferError::Timeout))
                        } else {
                            look_program(register, clear, set, start, (looks - 1) as nat, rest)
                        },
                ),
                _ => Program::Stuck,
            },
        }
    }

    /// The values that have been read.
    pub closed spec fn read_so_far(&self) -> Seq<u32> {
        self.values@
    }

    /// Bounds the accesses that are left.
    pub closed spec fn left(&self) -> (int, int) {
        (
            self.script@.len() - self.at,
            match self.phase {
                Phase::Fresh => 2 * (MAX_LOOKS + 2),
                Phase::Looking { start, looks } => 2 * looks + 2,
                Phase::Timing { start, looks } => 2 * looks + 1,
                Phase::Expired => 0,
            },
        )
    }

    /// At the beginning of a script.
    pub fn new(script: &'a [Instruction]) -> (runner: Self)
        ensures
            runner.wf(),
            runner.program() == whole_script(script@),
            runner.read_so_far() == Seq::<u32>::empty(),
    {
        let runner = Runner { script, at: 0, phase: Phase::Fresh, values: Vec::new() };
        assert(runner.values@ =~= Seq::<u32>::empty());
        runner
    }

    fn last_value(&self) -> (value: u32)
        ensures
            value == latest(self.values@),
    {
        if self.values.len() == 0 {
            0
        } else {
            self.values[self.values.len() - 1]
        }
    }

    /// What to do next.
    pub fn step(&self) -> (step: Step)
        requires
            self.wf(),
        ensures
            match step {
                Step::Do(access) => self.program() matches Program::Request(request, next)
                    && request == access,
                Step::Finished => self.program() == Program::<Access, Outcome, Values>::Return(
                    Ok(self.read_so_far()),
                ),
                Step::Failed(error) => self.program() == Program::<
                    Access,
                    Outcome,
                    Values,
                >::Return(Err(error)),
            },
    {
        match self.phase {
            Phase::Expired => Step::Failed(TransferError::Timeout),
            Phase::Timing { .. } => Step::Do(Access::Clock),
            Phase::Looking { .. } => match self.script[self.at] {
                Instruction::Await { register, .. } => Step::Do(Access::Read(register)),
                _ => Step::Do(Access::Clock),
            },
            Phase::Fresh => {
                if self.at == self.script.len() {
                    return Step::Finished;
                }
                match self.script[self.at] {
                    Instruction::Read { register } => Step::Do(Access::Read(register)),
                    Instruction::Write { register, value } => Step::Do(
                        Access::Write(register, value),
                    ),
                    Instruction::WriteBack { register, clear, set } => Step::Do(
                        Access::Write(register, (self.last_value() & !clear) | set),
                    ),
                    Instruction::Await { .. } => Step::Do(Access::Clock),
                }
            },
        }
    }

    /// Takes note of what came of the access that was to be made.
    pub fn advance(&mut self, outcome: Outcome)
        requires
            old(self).wf(),
            old(self).program() matches Program::Request(request, next) && (match request {
                Access::Read(_) => outcome is Value,
                Access::Write(_, _) => outcome is Written,
                Access::Clock => outcome is Time,
            }),
        ensures
            final(self).wf(),
            old(self).program() matches Program::Request(request, next) && final(self).program()
                == next(outcome),
            final(self).left().0 < old(self).left().0 || (final(self).left().0 == old(
                self,
            ).left().0 && 0 <= final(self).left().1 < old(self).left().1),
            0 <= final(self).left().0,
    {
        let length: usize = self.script.len();
        assert(self.phase is Fresh ==> self.at < length);
        match (self.phase, outcome) {
            (Phase::Timing { start, looks }, Outcome::Time(now)) => {
                if now.wrapping_sub(start) > AWAIT_TIMEOUT_US || looks == 0 {
                    self.phase = Phase::Expired;
                } else {
                    self.phase = Phase::Looking { start, looks: looks - 1 };
                }
            },
            (Phase::Looking { start, looks }, Outcome::Value(value)) => match self.script[self.at] {
                Instruction::Await { clear, set, .. } => {
                    if value & clear == 0 && (set == 0 || value & set != 0) {
                        self.at = self.at + 1;
                        self.phase = Phase::Fresh;
                    } else {
                        self.phase = Phase::Timing { start, looks };
                    }
                },
                _ => {},
            },
            (Phase::Fresh, Outcome::Value(value)) => {
                self.values.push(value);
                self.at = self.at + 1;
            },
            (Phase::Fresh, Outcome::Written) => {
                self.at = self.at + 1;
            },
            (Phase::Fresh, Outcome::Time(start)) => {
                self.phase = Phase::Looking { start, looks: MAX_LOOKS };
            },
            _ => {},
        }
    }

    /// The values that were read.
    pub fn into_values(self) -> (values: Vec<u32>)
        ensures
            values@ == self.read_so_far(),
    {
        self.values
    }
}

/// The registers through which a chip reaches its PHY.
#[derive(Clone, Copy, Debug, PartialEq, Eq, Structural)]
pub struct Mii {
    /// Says which register of the PHY is meant, and whether an access is going on.
    pub access: u16,
    /// What is read or written.
    pub data: u16,
}

/// The number of the PHY that is part of a chip, in its place.
pub const MII_INTERNAL_PHY: u32 = 0x0800;

/// An access to the PHY is going on.
pub const MII_BUSY: u32 = 0x0001;

/// The access is a write.
pub const MII_WRITE: u32 = 0x0002;

/// The status register of a PHY.
pub const PHY_REG_STATUS: u8 = 0x01;

/// What a PHY offers to its link partner.
pub const PHY_REG_ADVERTISE: u8 = 0x04;

/// What the link partner offers.
pub const PHY_REG_LINK_PARTNER: u8 = 0x05;

/// The link is up.
pub const BMSR_LINK_UP: u32 = 0x0004;

/// 100 and 10 Mbit/s, full duplex.
pub const AN_FULL: u32 = 0x0140;

/// Wait until no access to the PHY is going on.
pub open spec fn mii_idle(mii: Mii) -> Instruction {
    Instruction::Await { register: mii.access, clear: MII_BUSY, set: 0 }
}

/// What selects a register of the PHY.
pub open spec fn mii_select(index: u8) -> u32 {
    MII_INTERNAL_PHY | ((index as u32) << 6)
}

/// Read a register of the PHY.
pub open spec fn phy_read_script(mii: Mii, index: u8) -> Seq<Instruction> {
    seq![
        mii_idle(mii),
        Instruction::Write { register: mii.access, value: mii_select(index) | MII_BUSY },
        mii_idle(mii),
        Instruction::Read { register: mii.data },
    ]
}

/// Write a register of the PHY.
pub open spec fn phy_write_script(mii: Mii, index: u8, value: u16) -> Seq<Instruction> {
    seq![
        mii_idle(mii),
        Instruction::Write { register: mii.data, value: value as u32 },
        Instruction::Write {
            register: mii.access,
            value: mii_select(index) | MII_WRITE | MII_BUSY,
        },
        mii_idle(mii),
    ]
}

/// Read two registers of the PHY.
pub open spec fn phy_read_two_script(mii: Mii, first: u8, second: u8) -> Seq<Instruction> {
    phy_read_script(mii, first) + phy_read_script(mii, second)
}

/// The script that reads a register of the PHY.
pub fn phy_read_steps(mii: Mii, index: u8) -> (script: [Instruction; 4])
    ensures
        script@ == phy_read_script(mii, index),
{
    let idle = Instruction::Await { register: mii.access, clear: MII_BUSY, set: 0 };
    let select: u32 = MII_INTERNAL_PHY | ((index as u32) << 6);
    let script = [
        idle,
        Instruction::Write { register: mii.access, value: select | MII_BUSY },
        idle,
        Instruction::Read { register: mii.data },
    ];
    assert(script@ =~= phy_read_script(mii, index));
    script
}

/// The script that writes a register of the PHY.
pub fn phy_write_steps(mii: Mii, index: u8, value: u16) -> (script: [Instruction; 4])
    ensures
        script@ == phy_write_script(mii, index, value),
{
    let idle = Instruction::Await { register: mii.access, clear: MII_BUSY, set: 0 };
    let select: u32 = MII_INTERNAL_PHY | ((index as u32) << 6);
    let script = [
        idle,
        Instruction::Write { register: mii.data, value: value as u32 },
        Instruction::Write { register: mii.access, value: select | MII_WRITE | MII_BUSY },
        idle,
    ];
    assert(script@ =~= phy_write_script(mii, index, value));
    script
}

/// The script that reads two registers of the PHY.
pub fn phy_read_two_steps(mii: Mii, first: u8, second: u8) -> (script: [Instruction; 8])
    ensures
        script@ == phy_read_two_script(mii, first, second),
{
    let one: [Instruction; 4] = phy_read_steps(mii, first);
    let two: [Instruction; 4] = phy_read_steps(mii, second);
    let script = [one[0], one[1], one[2], one[3], two[0], two[1], two[2], two[3]];
    assert(script@ =~= phy_read_two_script(mii, first, second));
    script
}

/// A register's value with some bits set, or cleared.
pub open spec fn switch_script(register: u16, bits: u32, on: bool) -> Seq<Instruction> {
    seq![
        Instruction::Read { register },
        if on {
            Instruction::WriteBack { register, clear: 0, set: bits }
        } else {
            Instruction::WriteBack { register, clear: bits, set: 0 }
        },
    ]
}

/// The script that sets some bits of a register, or clears them.
pub fn switch_steps(register: u16, bits: u32, on: bool) -> (script: [Instruction; 2])
    ensures
        script@ == switch_script(register, bits, on),
{
    let script = [
        Instruction::Read { register },
        if on {
            Instruction::WriteBack { register, clear: 0, set: bits }
        } else {
            Instruction::WriteBack { register, clear: bits, set: 0 }
        },
    ];
    assert(script@ =~= switch_script(register, bits, on));
    script
}

/// Whether a status says that the link is up.
pub open spec fn status_up(status: u32) -> bool {
    status & BMSR_LINK_UP != 0
}

/// Whether both ends of a link offer full duplex.
pub open spec fn both_full(ours: u32, theirs: u32) -> bool {
    ours & theirs & AN_FULL != 0
}

/// Whether a PHY's status says that the link is up.
pub fn link_up(status: u32) -> (up: bool)
    ensures
        up == status_up(status),
{
    status & BMSR_LINK_UP != 0
}

/// Whether both ends of a link offer full duplex.
pub fn full_duplex(ours: u32, theirs: u32) -> (full: bool)
    ensures
        full == both_full(ours, theirs),
{
    ours & theirs & AN_FULL != 0
}

/// The first four bytes of a MAC address, as a register holds them.
pub open spec fn mac_low(mac: Seq<u8>) -> u32 {
    bytes::le32(mac[0], mac[1], mac[2], mac[3])
}

/// The last two bytes of a MAC address, as a register holds them.
pub open spec fn mac_high(mac: Seq<u8>) -> u32 {
    bytes::le16(mac[4], mac[5]) as u32
}

/// The MAC address that two registers hold.
pub open spec fn mac_in(low: u32, high: u32) -> Seq<u8> {
    bytes::le32_bytes(low) + bytes::le32_bytes(high).take(2)
}

/// A MAC address is read back as it was written.
pub proof fn law_mac_round_trip(mac: Seq<u8>)
    requires
        mac.len() == 6,
    ensures
        mac_in(mac_low(mac), mac_high(mac)) == mac,
{
    bytes::law_le32_spelled(mac[0], mac[1], mac[2], mac[3]);
    bytes::law_le32_spelled(mac[4], mac[5], 0, 0);
    assert(mac_high(mac) == bytes::le32(mac[4], mac[5], 0, 0));
    assert(mac_in(mac_low(mac), mac_high(mac)) =~= mac);
}

/// The two registers that hold a MAC address.
pub fn mac_words(mac: &[u8; 6]) -> (words: (u32, u32))
    ensures
        words.0 == mac_low(mac@),
        words.1 == mac_high(mac@),
{
    (
        u32_from(mac[0], mac[1], mac[2], mac[3]),
        crate::bytes::u16_from(mac[4], mac[5]) as u32,
    )
}

/// The MAC address that two registers hold.
pub fn mac_of(low: u32, high: u32) -> (mac: [u8; 6])
    ensures
        mac@ == mac_in(low, high),
{
    let low: [u8; 4] = u32_bytes(low);
    let high: [u8; 4] = u32_bytes(high);
    let mac: [u8; 6] = [low[0], low[1], low[2], low[3], high[0], high[1]];
    assert(mac@ =~= low@ + high@.take(2));
    mac
}

/// Read a register.
pub open spec fn read_program(device: ControlEndpoint, register: u16) -> UsbProgram<
    Result<u32, TransferError>,
> {
    control::control_in_program(
        device,
        control::vendor_in_setup(READ_REGISTER, 0, register, 4),
        control::zeros(4),
    ).bind(
        |read: control::Read|
            Program::Return(
                match read.0 {
                    Ok(count) => Ok(bytes::le32(read.1[0], read.1[1], read.1[2], read.1[3])),
                    Err(error) => Err(error),
                },
            ),
    )
}

/// Write a register.
pub open spec fn write_program(device: ControlEndpoint, register: u16, value: u32) -> UsbProgram<
    Result<(), TransferError>,
> {
    control::control_out_program(
        device,
        control::vendor_out_setup(WRITE_REGISTER, 0, register, 4),
        bytes::le32_bytes(value),
    )
}

/// A program over accesses to a chip, as transfers. A failed transfer ends it.
pub open spec fn over_usb<T>(
    device: ControlEndpoint,
    program: ChipProgram<Result<T, TransferError>>,
) -> UsbProgram<Result<T, TransferError>>
    decreases program,
{
    match program {
        Program::Return(result) => Program::Return(result),
        Program::Stuck => Program::Stuck,
        Program::Request(access, next) => match access {
            Access::Read(register) => control::and_then(
                read_program(device, register),
                |value: u32| over_usb(device, next(Outcome::Value(value))),
            ),
            Access::Write(register, value) => control::and_then(
                write_program(device, register, value),
                |written: ()| over_usb(device, next(Outcome::Written)),
            ),
            Access::Clock => control::clock(
                |time: u64| over_usb(device, next(Outcome::Time(time))),
            ),
        },
    }
}

/// A whole script, as transfers.
pub open spec fn run_program(device: ControlEndpoint, script: Seq<Instruction>) -> UsbProgram<
    Values,
> {
    over_usb(device, whole_script(script))
}

/// A value that a script read; 0 if it read fewer.
pub open spec fn value_at(values: Seq<u32>, index: int) -> u32 {
    if 0 <= index < values.len() {
        values[index]
    } else {
        0
    }
}

/// Run a script that is not asked for values.
pub open spec fn do_program(device: ControlEndpoint, script: Seq<Instruction>) -> UsbProgram<
    Result<(), TransferError>,
> {
    run_program(device, script).bind(
        |values: Values|
            Program::Return(
                match values {
                    Ok(_) => Ok(()),
                    Err(error) => Err(error),
                },
            ),
    )
}

/// Run a script; give the first two values that it read.
pub open spec fn ask_program(device: ControlEndpoint, script: Seq<Instruction>) -> UsbProgram<
    Result<(u32, u32), TransferError>,
> {
    run_program(device, script).bind(
        |values: Values|
            Program::Return(
                match values {
                    Ok(values) => Ok((value_at(values, 0), value_at(values, 1))),
                    Err(error) => Err(error),
                },
            ),
    )
}

/// Run a script, and make something of the first two values that it read.
pub open spec fn answer_program<T>(
    device: ControlEndpoint,
    script: Seq<Instruction>,
    answer: spec_fn(u32, u32) -> T,
) -> UsbProgram<Result<T, TransferError>> {
    control::and_then(
        ask_program(device, script),
        |values: (u32, u32)| Program::Return(Ok(answer(values.0, values.1))),
    )
}

/// Reads a register.
pub fn read_register<H: Dwc2Registers>(
    channel: &mut Channel<H>,
    device: ControlEndpoint,
    register: u16,
) -> (result: Result<u32, TransferError>)
    ensures
        read_program(device, register).ran(old(channel)@, final(channel)@, result),
{
    let mut value: [u8; 4] = [0;4];
    assert(value@ =~= control::zeros(4));
    match vendor_in(channel, device, READ_REGISTER, 0, register, &mut value) {
        Ok(_) => Ok(u32_from(value[0], value[1], value[2], value[3])),
        Err(error) => Err(error),
    }
}

/// Writes a register.
pub fn write_register<H: Dwc2Registers>(
    channel: &mut Channel<H>,
    device: ControlEndpoint,
    register: u16,
    value: u32,
) -> (result: Result<(), TransferError>)
    ensures
        write_program(device, register, value).ran(old(channel)@, final(channel)@, result),
{
    let bytes: [u8; 4] = u32_bytes(value);
    vendor_out(channel, device, WRITE_REGISTER, 0, register, &bytes)
}

/// Goes through a script; gives the values that were read.
pub fn run<H: Dwc2Registers>(
    channel: &mut Channel<H>,
    device: ControlEndpoint,
    script: &[Instruction],
) -> (result: Result<Vec<u32>, TransferError>)
    ensures
        run_program(device, script@).ran(
            old(channel)@,
            final(channel)@,
            match result {
                Ok(values) => Ok(values@),
                Err(error) => Err(error),
            },
        ),
{
    let ghost whole = run_program(device, script@);
    let mut runner = Runner::new(script);
    proof {
        crate::program::begin(channel@, whole);
    }
    loop
        invariant
            runner.wf(),
            whole == run_program(device, script@),
            whole.leads(old(channel)@, channel@, over_usb(device, runner.program())),
        decreases runner.left().0, runner.left().1,
    {
        match runner.step() {
            Step::Finished => {
                return Ok(runner.into_values());
            },
            Step::Failed(error) => {
                return Err(error);
            },
            Step::Do(Access::Read(register)) => {
                match read_register(channel, device, register) {
                    Ok(value) => runner.advance(Outcome::Value(value)),
                    Err(error) => return Err(error),
                }
            },
            Step::Do(Access::Write(register, value)) => {
                match write_register(channel, device, register, value) {
                    Ok(()) => runner.advance(Outcome::Written),
                    Err(error) => return Err(error),
                }
            },
            Step::Do(Access::Clock) => {
                let time: u64 = channel.now_micros();
                runner.advance(Outcome::Time(time));
            },
        }
    }
}

/// Goes through a script that is not asked for values.
pub fn do_script<H: Dwc2Registers>(
    channel: &mut Channel<H>,
    device: ControlEndpoint,
    script: &[Instruction],
) -> (result: Result<(), TransferError>)
    ensures
        do_program(device, script@).ran(old(channel)@, final(channel)@, result),
{
    match run(channel, device, script) {
        Ok(_) => Ok(()),
        Err(error) => Err(error),
    }
}

/// Goes through a script; gives the first two values that were read.
pub fn ask<H: Dwc2Registers>(
    channel: &mut Channel<H>,
    device: ControlEndpoint,
    script: &[Instruction],
) -> (result: Result<(u32, u32), TransferError>)
    ensures
        ask_program(device, script@).ran(old(channel)@, final(channel)@, result),
{
    match run(channel, device, script) {
        Ok(values) => {
            let first: u32 = if values.len() > 0 {
                values[0]
            } else {
                0
            };
            let second: u32 = if values.len() > 1 {
                values[1]
            } else {
                0
            };
            Ok((first, second))
        },
        Err(error) => Err(error),
    }
}

} // verus!

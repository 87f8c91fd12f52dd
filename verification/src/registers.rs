//! Memory-mapped registers: 32-bit words at fixed offsets, read and written by
//! a driver that keeps the history of what it did.

use vstd::prelude::*;

use crate::program::{Exchange, Program};

verus! {

/// The hardware itself. An implementation makes the volatile access; nothing is
/// assumed of what a read gives.
pub trait Registers {
    /// Reads the register at `offset`.
    fn read(&mut self, offset: u32) -> u32;

    /// Writes the register at `offset`.
    fn write(&mut self, offset: u32, value: u32);
}

/// A register access.
pub enum Access {
    Read(u32),
    Write(u32, u32),
}

/// A program over registers. A write's answer is 0.
pub type RegProgram<T> = Program<Access, u32, T>;

/// What has been done to a register block, oldest first.
pub type RegHistory = Seq<Exchange<Access, u32>>;

/// Write `value` at `offset`, then go on with `rest`.
pub open spec fn then_write<T>(offset: u32, value: u32, rest: RegProgram<T>) -> RegProgram<T> {
    Program::Request(Access::Write(offset, value), |answer: u32| rest)
}

/// Read the register at `offset`, then go on with what `rest` makes of it.
pub open spec fn then_read<T>(offset: u32, rest: spec_fn(u32) -> RegProgram<T>) -> RegProgram<T> {
    Program::Request(Access::Read(offset), rest)
}

/// A register block in use, with the history of the accesses made through it. What is
/// recorded was done: each access asks the hardware once, and in its contract `asked` is
/// the hardware before and after that call.
pub struct RegisterBlock<R> {
    hardware: R,
    history: Ghost<RegHistory>,
}

impl<R> View for RegisterBlock<R> {
    type V = RegHistory;

    closed spec fn view(&self) -> RegHistory {
        self.history@
    }
}

impl<R> RegisterBlock<R> {
    /// The hardware.
    pub closed spec fn inner(&self) -> R {
        self.hardware
    }
}

impl<R: Registers> RegisterBlock<R> {
    /// Takes the hardware over; nothing has been done to it yet.
    pub fn new(hardware: R) -> (block: Self)
        ensures
            block.inner() == hardware,
            block@ == RegHistory::empty(),
    {
        Self { hardware, history: Ghost(Seq::empty()) }
    }

    /// Gives the hardware back.
    pub fn release(self) -> (hardware: R)
        ensures
            hardware == self.inner(),
    {
        self.hardware
    }

    /// Reads the register at `offset`.
    pub fn read(&mut self, offset: u32) -> (value: u32)
        ensures
            final(self)@ == old(self)@.push(
                Exchange { request: Access::Read(offset), answer: value },
            ),
            exists|asked: &mut R|
                *asked == old(self).inner() && *final(asked) == final(self).inner()
                    && #[trigger] call_ensures(R::read, (asked, offset), value),
    {
        let value: u32 = self.hardware.read(offset);
        self.history = Ghost(
            self.history@.push(Exchange { request: Access::Read(offset), answer: value }),
        );
        value
    }

    /// Writes the register at `offset`.
    pub fn write(&mut self, offset: u32, value: u32)
        ensures
            final(self)@ == old(self)@.push(
                Exchange { request: Access::Write(offset, value), answer: 0 },
            ),
            exists|asked: &mut R|
                *asked == old(self).inner() && *final(asked) == final(self).inner()
                    && #[trigger] call_ensures(R::write, (asked, offset, value), ()),
    {
        self.hardware.write(offset, value);
        self.history = Ghost(
            self.history@.push(Exchange { request: Access::Write(offset, value), answer: 0 }),
        );
    }
}

} // verus!

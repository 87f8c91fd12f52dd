//! The RAM that the ARM shares with the VideoCore, as the transport sees it:
//! words, halves and bytes that either side may write at any time, a doorbell, a
//! clock, and the calls that set the sharing up.

use vstd::prelude::*;

use crate::program::{Exchange, Program};
use crate::vchiq::SharedMemory;

verus! {

/// The platform under the transport. Nothing is assumed of what it answers: the
/// VideoCore writes the shared memory whenever it likes.
pub trait SharedPlatform {
    /// The physical address of what stands for `memory` on the board.
    fn locate(&mut self, memory: &SharedMemory) -> u32;

    /// Takes the caches off `len` bytes at `address`. An error is the reason
    /// that the memory-management unit gives.
    fn set_uncached(&mut self, address: u32, len: u32) -> Result<u32, u32>;

    /// Hands the firmware the shared memory at `bus_address`, through the
    /// property mailbox, and gives its status word. An error is the mailbox's.
    fn hand_over(&mut self, bus_address: u32) -> Result<u32, u32>;

    /// Reads a 32-bit word.
    fn read(&mut self, address: u32) -> u32;

    /// Writes a 32-bit word.
    fn write(&mut self, address: u32, value: u32);

    /// Reads a 16-bit half.
    fn read_half(&mut self, address: u32) -> u16;

    /// Writes a 16-bit half.
    fn write_half(&mut self, address: u32, value: u16);

    /// Reads a byte.
    fn read_byte(&mut self, address: u32) -> u8;

    /// Writes a byte.
    fn write_byte(&mut self, address: u32, value: u8);

    /// Orders every access before it in front of every access after it.
    fn barrier(&mut self);

    /// Interrupts the VideoCore.
    fn ring_doorbell(&mut self);

    /// The time, in microseconds.
    fn now_micros(&mut self) -> u64;

    /// Writes cached data back to memory.
    fn clean_range(&mut self, address: u32, len: usize);

    /// Drops cached data.
    fn invalidate_range(&mut self, address: u32, len: usize);

    /// Writes cached data back to memory and drops it.
    fn clean_invalidate_range(&mut self, address: u32, len: usize);
}

/// Something asked of the platform.
pub enum Op {
    Locate,
    SetUncached(u32, u32),
    HandOver(u32),
    Read(u32),
    Write(u32, u32),
    ReadHalf(u32),
    WriteHalf(u32, u16),
    ReadByte(u32),
    WriteByte(u32, u8),
    Barrier,
    Doorbell,
    Now,
    Clean(u32, usize),
    Invalidate(u32, usize),
    CleanInvalidate(u32, usize),
}

/// What the platform answers.
pub enum Answer {
    Done,
    Word(u32),
    Half(u16),
    Byte(u8),
    Time(u64),
    Status(Result<u32, u32>),
}

/// A program over shared memory.
pub type ShmProgram<T> = Program<Op, Answer, T>;

/// What has been done to shared memory, oldest first.
pub type ShmHistory = Seq<Exchange<Op, Answer>>;

/// Do something that has no answer, then go on.
pub open spec fn act<T>(op: Op, rest: ShmProgram<T>) -> ShmProgram<T> {
    Program::Request(op, |answer: Answer| rest)
}

/// Write a word, then go on.
pub open spec fn write<T>(address: u32, value: u32, rest: ShmProgram<T>) -> ShmProgram<T> {
    act(Op::Write(address, value), rest)
}

/// Ask for a word, then go on with it.
pub open spec fn ask<T>(op: Op, rest: spec_fn(u32) -> ShmProgram<T>) -> ShmProgram<T> {
    Program::Request(
        op,
        |answer: Answer|
            match answer {
                Answer::Word(value) => rest(value),
                _ => Program::Stuck,
            },
    )
}

/// Read a word, then go on with it.
pub open spec fn read<T>(address: u32, rest: spec_fn(u32) -> ShmProgram<T>) -> ShmProgram<T> {
    ask(Op::Read(address), rest)
}

/// Read a half, then go on with it.
pub open spec fn read_half<T>(address: u32, rest: spec_fn(u16) -> ShmProgram<T>) -> ShmProgram<T> {
    Program::Request(
        Op::ReadHalf(address),
        |answer: Answer|
            match answer {
                Answer::Half(value) => rest(value),
                _ => Program::Stuck,
            },
    )
}

/// Read a byte, then go on with it.
pub open spec fn read_byte<T>(address: u32, rest: spec_fn(u8) -> ShmProgram<T>) -> ShmProgram<T> {
    Program::Request(
        Op::ReadByte(address),
        |answer: Answer|
            match answer {
                Answer::Byte(value) => rest(value),
                _ => Program::Stuck,
            },
    )
}

/// Look at the clock, then go on with the time.
pub open spec fn now<T>(rest: spec_fn(u64) -> ShmProgram<T>) -> ShmProgram<T> {
    Program::Request(
        Op::Now,
        |answer: Answer|
            match answer {
                Answer::Time(micros) => rest(micros),
                _ => Program::Stuck,
            },
    )
}

/// Make a call that may fail, then go on with its status.
pub open spec fn call<T>(op: Op, rest: spec_fn(Result<u32, u32>) -> ShmProgram<T>) -> ShmProgram<
    T,
> {
    Program::Request(
        op,
        |answer: Answer|
            match answer {
                Answer::Status(status) => rest(status),
                _ => Program::Stuck,
            },
    )
}

/// The platform, with the history of what was asked of it. What is recorded was asked:
/// each method asks the platform once, and in its contract `asked` is the platform before
/// and after that call.
pub struct SharedPort<P> {
    platform: P,
    history: Ghost<ShmHistory>,
}

impl<P> View for SharedPort<P> {
    type V = ShmHistory;

    closed spec fn view(&self) -> ShmHistory {
        self.history@
    }
}

impl<P> SharedPort<P> {
    /// The platform.
    pub closed spec fn inner(&self) -> P {
        self.platform
    }
}

impl<P: SharedPlatform> SharedPort<P> {
    /// Takes the platform over; nothing has been asked of it yet.
    pub fn new(platform: P) -> (port: Self)
        ensures
            port.inner() == platform,
            port@ == ShmHistory::empty(),
    {
        SharedPort { platform, history: Ghost(Seq::empty()) }
    }

    fn record(&mut self, op: Ghost<Op>, answer: Ghost<Answer>)
        ensures
            final(self).inner() == old(self).inner(),
            final(self)@ == old(self)@.push(Exchange { request: op@, answer: answer@ }),
    {
        self.history = Ghost(self.history@.push(Exchange { request: op@, answer: answer@ }));
    }

    /// The physical address of what stands for `memory` on the board.
    pub fn locate(&mut self, memory: &SharedMemory) -> (address: u32)
        ensures
            final(self)@ == old(self)@.push(
                Exchange { request: Op::Locate, answer: Answer::Word(address) },
            ),
            exists|asked: &mut P|
                *asked == old(self).inner() && *final(asked) == final(self).inner()
                    && #[trigger] call_ensures(P::locate, (asked, memory), address),
    {
        let address: u32 = self.platform.locate(memory);
        self.record(Ghost(Op::Locate), Ghost(Answer::Word(address)));
        address
    }

    /// Takes the caches off some memory.
    pub fn set_uncached(&mut self, address: u32, len: u32) -> (status: Result<u32, u32>)
        ensures
            final(self)@ == old(self)@.push(
                Exchange { request: Op::SetUncached(address, len), answer: Answer::Status(status) },
            ),
            exists|asked: &mut P|
                *asked == old(self).inner() && *final(asked) == final(self).inner()
                    && #[trigger] call_ensures(P::set_uncached, (asked, address, len), status),
    {
        let status: Result<u32, u32> = self.platform.set_uncached(address, len);
        self.record(Ghost(Op::SetUncached(address, len)), Ghost(Answer::Status(status)));
        status
    }

    /// Hands the firmware the shared memory.
    pub fn hand_over(&mut self, bus_address: u32) -> (status: Result<u32, u32>)
        ensures
            final(self)@ == old(self)@.push(
                Exchange { request: Op::HandOver(bus_address), answer: Answer::Status(status) },
            ),
            exists|asked: &mut P|
                *asked == old(self).inner() && *final(asked) == final(self).inner()
                    && #[trigger] call_ensures(P::hand_over, (asked, bus_address), status),
    {
        let status: Result<u32, u32> = self.platform.hand_over(bus_address);
        self.record(Ghost(Op::HandOver(bus_address)), Ghost(Answer::Status(status)));
        status
    }

    /// Reads a word.
    pub fn read(&mut self, address: u32) -> (value: u32)
        ensures
            final(self)@ == old(self)@.push(
                Exchange { request: Op::Read(address), answer: Answer::Word(value) },
            ),
            exists|asked: &mut P|
                *asked == old(self).inner() && *final(asked) == final(self).inner()
                    && #[trigger] call_ensures(P::read, (asked, address), value),
    {
        let value: u32 = self.platform.read(address);
        self.record(Ghost(Op::Read(address)), Ghost(Answer::Word(value)));
        value
    }

    /// Writes a word.
    pub fn write(&mut self, address: u32, value: u32)
        ensures
            final(self)@ == old(self)@.push(
                Exchange { request: Op::Write(address, value), answer: Answer::Done },
            ),
            exists|asked: &mut P|
                *asked == old(self).inner() && *final(asked) == final(self).inner()
                    && #[trigger] call_ensures(P::write, (asked, address, value), ()),
    {
        self.platform.write(address, value);
        self.record(Ghost(Op::Write(address, value)), Ghost(Answer::Done));
    }

    /// Reads a half.
    pub fn read_half(&mut self, address: u32) -> (value: u16)
        ensures
            final(self)@ == old(self)@.push(
                Exchange { request: Op::ReadHalf(address), answer: Answer::Half(value) },
            ),
            exists|asked: &mut P|
                *asked == old(self).inner() && *final(asked) == final(self).inner()
                    && #[trigger] call_ensures(P::read_half, (asked, address), value),
    {
        let value: u16 = self.platform.read_half(address);
        self.record(Ghost(Op::ReadHalf(address)), Ghost(Answer::Half(value)));
        value
    }

    /// Writes a half.
    pub fn write_half(&mut self, address: u32, value: u16)
        ensures
            final(self)@ == old(self)@.push(
                Exchange { request: Op::WriteHalf(address, value), answer: Answer::Done },
            ),
            exists|asked: &mut P|
                *asked == old(self).inner() && *final(asked) == final(self).inner()
                    && #[trigger] call_ensures(P::write_half, (asked, address, value), ()),
    {
        self.platform.write_half(address, value);
        self.record(Ghost(Op::WriteHalf(address, value)), Ghost(Answer::Done));
    }

    /// Reads a byte.
    pub fn read_byte(&mut self, address: u32) -> (value: u8)
        ensures
            final(self)@ == old(self)@.push(
                Exchange { request: Op::ReadByte(address), answer: Answer::Byte(value) },
            ),
            exists|asked: &mut P|
                *asked == old(self).inner() && *final(asked) == final(self).inner()
                    && #[trigger] call_ensures(P::read_byte, (asked, address), value),
    {
        let value: u8 = self.platform.read_byte(address);
        self.record(Ghost(Op::ReadByte(address)), Ghost(Answer::Byte(value)));
        value
    }

    /// Writes a byte.
    pub fn write_byte(&mut self, address: u32, value: u8)
        ensures
            final(self)@ == old(self)@.push(
                Exchange { request: Op::WriteByte(address, value), answer: Answer::Done },
            ),
            exists|asked: &mut P|
                *asked == old(self).inner() && *final(asked) == final(self).inner()
                    && #[trigger] call_ensures(P::write_byte, (asked, address, value), ()),
    {
        self.platform.write_byte(address, value);
        self.record(Ghost(Op::WriteByte(address, value)), Ghost(Answer::Done));
    }

    /// Orders memory accesses.
    pub fn barrier(&mut self)
        ensures
            final(self)@ == old(self)@.push(
                Exchange { request: Op::Barrier, answer: Answer::Done },
            ),
            exists|asked: &mut P|
                *asked == old(self).inner() && *final(asked) == final(self).inner()
                    && #[trigger] call_ensures(P::barrier, (asked,), ()),
    {
        self.platform.barrier();
        self.record(Ghost(Op::Barrier), Ghost(Answer::Done));
    }

    /// Interrupts the VideoCore.
    pub fn ring_doorbell(&mut self)
        ensures
            final(self)@ == old(self)@.push(
                Exchange { request: Op::Doorbell, answer: Answer::Done },
            ),
            exists|asked: &mut P|
                *asked == old(self).inner() && *final(asked) == final(self).inner()
                    && #[trigger] call_ensures(P::ring_doorbell, (asked,), ()),
    {
        self.platform.ring_doorbell();
        self.record(Ghost(Op::Doorbell), Ghost(Answer::Done));
    }

    /// Looks at the clock.
    pub fn now(&mut self) -> (micros: u64)
        ensures
            final(self)@ == old(self)@.push(
                Exchange { request: Op::Now, answer: Answer::Time(micros) },
            ),
            exists|asked: &mut P|
                *asked == old(self).inner() && *final(asked) == final(self).inner()
                    && #[trigger] call_ensures(P::now_micros, (asked,), micros),
    {
        let micros: u64 = self.platform.now_micros();
        self.record(Ghost(Op::Now), Ghost(Answer::Time(micros)));
        micros
    }

    /// Writes cached data back.
    pub fn clean(&mut self, address: u32, len: usize)
        ensures
            final(self)@ == old(self)@.push(
                Exchange { request: Op::Clean(address, len), answer: Answer::Done },
            ),
            exists|asked: &mut P|
                *asked == old(self).inner() && *final(asked) == final(self).inner()
                    && #[trigger] call_ensures(P::clean_range, (asked, address, len), ()),
    {
        self.platform.clean_range(address, len);
        self.record(Ghost(Op::Clean(address, len)), Ghost(Answer::Done));
    }

    /// Drops cached data.
    pub fn invalidate(&mut self, address: u32, len: usize)
        ensures
            final(self)@ == old(self)@.push(
                Exchange { request: Op::Invalidate(address, len), answer: Answer::Done },
            ),
            exists|asked: &mut P|
                *asked == old(self).inner() && *final(asked) == final(self).inner()
                    && #[trigger] call_ensures(P::invalidate_range, (asked, address, len), ()),
    {
        self.platform.invalidate_range(address, len);
        self.record(Ghost(Op::Invalidate(address, len)), Ghost(Answer::Done));
    }

    /// Writes cached data back and drops it.
    pub fn clean_invalidate(&mut self, address: u32, len: usize)
        ensures
            final(self)@ == old(self)@.push(
                Exchange { request: Op::CleanInvalidate(address, len), answer: Answer::Done },
            ),
            exists|asked: &mut P|
                *asked == old(self).inner() && *final(asked) == final(self).inner()
                    && #[trigger] call_ensures(
                        P::clean_invalidate_range,
                        (asked, address, len),
                        (),
                    ),
    {
        self.platform.clean_invalidate_range(address, len);
        self.record(Ghost(Op::CleanInvalidate(address, len)), Ghost(Answer::Done));
    }
}

} // verus!

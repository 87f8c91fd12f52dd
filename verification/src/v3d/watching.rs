//! How long a list is watched before it is given up.

use vstd::prelude::*;

use crate::program;
use crate::program::Program;
use crate::registers::Access;
use crate::v3d;
use crate::v3d::Error;

verus! {

/// Such a thread is still running.
pub open spec fn runs(status: u32) -> bool {
    status / 32 % 2 == 1
}

proof fn lemma_status(status: u32)
    ensures
        status & 0x20 != 0 <==> status / 32 % 2 == 1,
        status & 0x8 != 0 <==> status / 8 % 2 == 1,
{
    assert((status & 0x20 != 0) == (status / 32 % 2 == 1) && (status & 0x8 != 0) == (status / 8 % 2
        == 1)) by (bit_vector);
}

/// A thread that runs at every look is given up after as many looks as there are to be.
pub proof fn law_watched(register: u32, on_error: Error, on_timeout: Error, seen: Seq<u32>)
    requires
        forall|i: int| 0 <= i < seen.len() ==> runs(#[trigger] seen[i]),
    ensures
        ({
            let program = v3d::wait_program(register, on_error, on_timeout, seen.len());
            &&& program.asked(seen) == Seq::new(seen.len(), |i: int| Access::Read(register))
            &&& program.given(seen) == Program::<Access, u32, Result<(), Error>>::Return(
                Err(on_timeout),
            )
        }),
    decreases seen.len(),
{
    let program = v3d::wait_program(register, on_error, on_timeout, seen.len());
    let reads = Seq::new(seen.len(), |i: int| Access::Read(register));
    if seen.len() > 0 {
        let status = seen[0];
        assert(runs(status));
        lemma_status(status);
        let fewer = seen.skip(1);
        assert forall|i: int| 0 <= i < fewer.len() implies runs(#[trigger] fewer[i]) by {
            assert(runs(seen[i + 1]));
        }
        law_watched(register, on_error, on_timeout, fewer);
    }
    assert(program.asked(seen) =~= reads);
}

/// A count that has not changed at any look is given up after as many looks as there are to
/// be; only its lowest byte counts.
pub proof fn law_count_watched(before: u32, seen: Seq<u32>)
    requires
        forall|i: int| 0 <= i < seen.len() ==> #[trigger] seen[i] % 256 == before,
    ensures
        ({
            let program = v3d::flushed_program(before, seen.len());
            &&& program.asked(seen) == Seq::new(seen.len(), |i: int| Access::Read(0x134))
            &&& program.given(seen) == Program::<Access, u32, Result<(), Error>>::Return(
                Err(Error::BinFlushTimeout),
            )
        }),
    decreases seen.len(),
{
    let program = v3d::flushed_program(before, seen.len());
    let reads = Seq::new(seen.len(), |i: int| Access::Read(0x134));
    if seen.len() > 0 {
        assert(seen[0] % 256 == before);
        let fewer = seen.skip(1);
        assert forall|i: int| 0 <= i < fewer.len() implies #[trigger] fewer[i] % 256 == before by {
            assert(fewer[i] == seen[i + 1]);
        }
        law_count_watched(before, fewer);
    }
    assert(program.asked(seen) =~= reads);
}

/// A list that is being binned is watched for fifty million looks, and then for as many looks
/// at the count; one that is being rendered is watched for as many.
pub proof fn law_given_up(
    start: u32,
    end: u32,
    count: u32,
    stopped: u32,
    done: u32,
    running: Seq<u32>,
    counts: Seq<u32>,
)
    requires
        running.len() == 50_000_000,
        forall|i: int| 0 <= i < running.len() ==> runs(#[trigger] running[i]),
        counts.len() == 50_000_000,
        forall|i: int| 0 <= i < counts.len() ==> #[trigger] counts[i] % 256 == count % 256,
        stopped == 0,
    ensures
        ({
            let bin = v3d::bin_program(start, end);
            let render = v3d::render_program(start, end);
            let five = seq![done, done, count, done, done];
            let four = seq![done, done, done, done];
            let failed = |error: Error|
                Program::<Access, u32, Result<(), Error>>::Return(Err(error));
            &&& bin.given(five + running) == failed(Error::BinTimeout)
            &&& bin.given(five + (seq![stopped] + counts)) == failed(Error::BinFlushTimeout)
            &&& render.given(four + running) == failed(Error::RenderTimeout)
        }),
{
    let bin = v3d::bin_program(start, end);
    let render = v3d::render_program(start, end);
    let five = seq![done, done, count, done, done];
    let four = seq![done, done, done, done];
    let wait = v3d::wait_program(0x100, Error::BinFailed, Error::BinTimeout, 50_000_000);
    let next = |stopped: Result<(), Error>|
        match stopped {
            Err(error) => Program::Return(Err(error)),
            Ok(_) => v3d::flushed_program((count % 256) as u32, 50_000_000),
        };
    let none = Seq::<u32>::empty();
    broadcast use crate::program::lemma_bind_same;

    program::lemma_given_append(bin, five, running);
    program::lemma_given_append(bin, five, seq![stopped] + counts);
    program::lemma_given_append(render, four, running);
    law_watched(0x100, Error::BinFailed, Error::BinTimeout, running);
    law_watched(0x104, Error::RenderFailed, Error::RenderTimeout, running);
    law_count_watched((count % 256) as u32, counts);
    assert(bin.given(five) == wait.bind(next)) by {
        reveal_with_fuel(Program::given, 6);
        assert(five.skip(1).skip(1)[0] == count);
        assert(five.skip(1).skip(1).skip(1).skip(1).skip(1).len() == 0);
    }
    assert(render.given(four) == v3d::wait_program(
        0x104,
        Error::RenderFailed,
        Error::RenderTimeout,
        50_000_000,
    )) by {
        reveal_with_fuel(Program::given, 5);
        assert(four.skip(1).skip(1).skip(1).skip(1).len() == 0);
    }
    assert(running + none =~= running);
    program::lemma_given_in_turn(wait, next, running, none, Err(Error::BinTimeout));
    let one = seq![stopped];
    lemma_status(stopped);
    assert(wait.given(one) == Program::<Access, u32, Result<(), Error>>::Return(Ok(()))) by {
        reveal_with_fuel(Program::given, 2);
        assert(one.skip(1).len() == 0);
    }
    program::lemma_given_in_turn(wait, next, one, counts, Ok(()));
}

} // verus!

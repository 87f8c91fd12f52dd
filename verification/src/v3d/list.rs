//! Control lists: packets, one after the other, in memory that the V3D reads.

use vstd::arithmetic::power2;
use vstd::prelude::*;

verus! {

/// `bytes` were put into a buffer at a place, and nothing else was changed behind
/// it or in front of it.
pub open spec fn laid(before: Seq<u8>, at: int, bytes: Seq<u8>, after: Seq<u8>) -> bool {
    &&& after.len() == before.len()
    &&& after.take(at + bytes.len()) == before.take(at) + bytes
    &&& forall|i: int| at + bytes.len() <= i < after.len() ==> after[i] == before[i]
}

/// Puts bytes into a buffer; gives the place behind them.
pub(crate) fn put(cl: &mut [u8], at: usize, bytes: &[u8]) -> (end: usize)
    requires
        at + bytes@.len() <= old(cl)@.len(),
    ensures
        end == at + bytes@.len(),
        laid(old(cl)@, at as int, bytes@, final(cl)@),
{
    let length: usize = cl.len();
    let mut done: usize = 0;
    while done < bytes.len()
        invariant
            length == cl@.len(),
            done <= bytes@.len(),
            cl@.len() == old(cl)@.len(),
            at + bytes@.len() <= cl@.len(),
            forall|i: int| 0 <= i < at ==> cl@[i] == old(cl)@[i],
            forall|i: int| at <= i < at + done ==> cl@[i] == bytes@[i - at],
            forall|i: int| at + done <= i < cl@.len() ==> cl@[i] == old(cl)@[i],
        decreases bytes@.len() - done,
    {
        cl[at + done] = bytes[done];
        done = done + 1;
    }
    proof {
        let end = at + bytes@.len();
        assert(cl@.take(end) =~= old(cl)@.take(at as int) + bytes@);
    }
    at + bytes.len()
}

/// What is put behind what was put is put as one.
pub(crate) proof fn lemma_more(
    before: Seq<u8>,
    at: int,
    first: Seq<u8>,
    between: Seq<u8>,
    second: Seq<u8>,
    after: Seq<u8>,
)
    requires
        0 <= at,
        at + first.len() + second.len() <= before.len(),
        laid(before, at, first, between),
        laid(between, at + first.len(), second, after),
    ensures
        laid(before, at, first + second, after),
{
    assert(before.take(at) + first + second =~= before.take(at) + (first + second));
}

/// A list that begins a buffer, and what was behind it, make up the buffer.
pub(crate) proof fn lemma_whole(before: Seq<u8>, after: Seq<u8>, list: Seq<u8>)
    requires
        after.len() == before.len(),
        list.len() <= before.len(),
        after.take(list.len() as int) == list,
        forall|i: int| list.len() <= i < after.len() ==> after[i] == before[i],
    ensures
        after == list + before.skip(list.len() as int),
{
    assert(after =~= after.take(list.len() as int) + before.skip(list.len() as int));
}

/// By how many places a number has to be doubled to have 24 binary digits.
pub open spec fn shift_of(number: int) -> int
    decreases 0x100_0000 - number,
{
    if number <= 0 || number >= 0x80_0000 {
        0
    } else {
        1 + shift_of(2 * number)
    }
}

/// The bits of a single-precision number that is a whole number below 2^24.
pub open spec fn float_bits(number: int) -> u32 {
    if number == 0 {
        0
    } else {
        ((149 - shift_of(number)) * 0x80_0000 + number * power2::pow2(shift_of(number) as nat)) as u32
    }
}

/// The bits of its negative.
pub open spec fn negative_bits(number: int) -> u32 {
    (0x8000_0000 + float_bits(number)) as u32
}

/// The bits are those of the number: with the exponent that they hold, and the 24
/// binary digits of which the first is not held, the value is the number.
pub proof fn law_float_bits(number: int)
    requires
        0 < number < 0x100_0000,
    ensures
        ({
            let bits = float_bits(number) as int;
            let exponent = bits / 0x80_0000 - 127;
            let digits = 0x80_0000 + bits % 0x80_0000;
            &&& 0 <= exponent <= 23
            &&& bits < 0x8000_0000
            &&& digits == number * power2::pow2((23 - exponent) as nat)
        }),
{
    lemma_shift(number);
}

proof fn lemma_shift(number: int)
    requires
        0 < number < 0x100_0000,
    ensures
        0 <= shift_of(number) <= 23,
        0x80_0000 <= number * power2::pow2(shift_of(number) as nat) < 0x100_0000,
    decreases 0x100_0000 - number,
{
    power2::lemma2_to64();
    if number < 0x80_0000 {
        lemma_shift(2 * number);
        let rest = shift_of(2 * number);
        power2::lemma_pow2_unfold((rest + 1) as nat);
        assert((2 * number) * power2::pow2(rest as nat) == number * (2 * power2::pow2(rest as nat)))
            by (nonlinear_arith);
        if rest >= 23 {
            power2::lemma_pow2_strictly_increases(22, rest as nat);
            assert(number * power2::pow2((rest + 1) as nat) >= 0x100_0000) by (nonlinear_arith)
                requires
                    number >= 1,
                    power2::pow2((rest + 1) as nat) >= 0x100_0000,
            ;
        }
    } else {
        assert(number * power2::pow2(0) == number) by (nonlinear_arith)
            requires
                power2::pow2(0) == 1,
        ;
    }
}

/// The bits of a single-precision number that is a whole number.
pub(crate) fn whole_float(number: u32) -> (bits: u32)
    requires
        number < 0x100_0000,
    ensures
        bits == float_bits(number as int),
        bits < 0x8000_0000,
{
    if number == 0 {
        return 0;
    }
    proof {
        lemma_shift(number as int);
        law_float_bits(number as int);
        power2::lemma2_to64();
        assert(number * 1 == number);
    }
    let mut digits: u32 = number;
    let mut shift: u32 = 0;
    while digits < 0x80_0000
        invariant
            0 < number < 0x100_0000,
            0 < digits < 0x100_0000,
            shift <= 23,
            shift + shift_of(digits as int) == shift_of(number as int),
            0 <= shift_of(number as int) <= 23,
            digits == number * power2::pow2(shift as nat),
        decreases 0x100_0000 - digits,
    {
        proof {
            lemma_shift(2 * digits as int);
            power2::lemma_pow2_unfold((shift + 1) as nat);
            assert(number * (2 * power2::pow2(shift as nat)) == 2 * (number * power2::pow2(shift as nat)))
                by (nonlinear_arith);
        }
        digits = digits * 2;
        shift = shift + 1;
    }
    (149 - shift) * 0x80_0000 + digits
}

/// The bits of its negative.
pub(crate) fn negative_float(number: u32) -> (bits: u32)
    requires
        number < 0x100_0000,
    ensures
        bits == negative_bits(number as int),
{
    0x8000_0000 + whole_float(number)
}

} // verus!

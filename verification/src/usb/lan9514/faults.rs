//! What is found in a transfer that the chip delivers, frames that are faulty or cut among
//! them.

use vstd::prelude::*;

use crate::bytes;
use crate::usb::lan9514;

verus! {

/// A frame in a transfer, with what the chip says of it.
pub struct Record {
    pub frame: Seq<u8>,
    /// The low half of its status; its top bit says that something is wrong.
    pub low: u16,
    /// The top two bits of its status.
    pub top: u8,
    pub crc: Seq<u8>,
}

impl Record {
    /// A frame is not empty, and not longer than Ethernet allows.
    pub open spec fn wf(self) -> bool {
        1 <= self.frame.len() <= 1514 && self.crc.len() == 4 && self.top < 4
    }

    /// Something is wrong with it.
    pub open spec fn faulty(self) -> bool {
        self.low / 0x8000 == 1
    }

    /// Its status, low byte first: in the upper half, below the top two bits, its length with
    /// its CRC.
    pub open spec fn front(self) -> Seq<u8> {
        let high = self.top * 0x4000 + self.frame.len() + 4;
        seq![
            (self.low % 256) as u8,
            (self.low / 256) as u8,
            (high % 256) as u8,
            (high / 256) as u8,
        ]
    }

    /// The bytes of it, without what fills the gap to the next.
    pub open spec fn body(self) -> Seq<u8> {
        self.front() + self.frame + self.crc
    }

    /// From the start of it to the start of the next: up to three bytes are between them, so
    /// that each begins at a multiple of four.
    pub open spec fn span(self, at: int) -> int {
        let end = at + self.body().len();
        self.body().len() + if end % 4 == 0 {
            0
        } else {
            4 - end % 4
        }
    }
}

/// A transfer has these frames in it, from a place on, one after the other. What fills the
/// gaps between them can be anything, and need not be there behind the last.
pub open spec fn carries(buffer: Seq<u8>, at: int, all: Seq<Record>) -> bool
    decreases all.len(),
{
    all.len() == 0 || {
        &&& all[0].wf()
        &&& at + all[0].body().len() <= buffer.len()
        &&& buffer.subrange(at, at + all[0].body().len()) == all[0].body()
        &&& carries(buffer, at + all[0].span(at), all.skip(1))
    }
}

/// Where such frames end.
pub open spec fn end_of(at: int, all: Seq<Record>) -> int
    decreases all.len(),
{
    if all.len() == 0 {
        at
    } else {
        end_of(at + all[0].span(at), all.skip(1))
    }
}

/// Nothing more of a transfer can be a frame: what is left is too short for what the chip
/// says in front of one, or for the length that it says, or the length cannot be that of a
/// frame with its CRC.
pub open spec fn over(buffer: Seq<u8>, at: int) -> bool {
    at + 4 > buffer.len() || {
        let length = (buffer[at + 2] + 256 * buffer[at + 3]) % 0x4000;
        length <= 4 || length > 1518 || at + 4 + length > buffer.len()
    }
}

/// The frames that nothing is wrong with.
pub open spec fn sound(all: Seq<Record>) -> Seq<Seq<u8>>
    decreases all.len(),
{
    if all.len() == 0 {
        Seq::empty()
    } else if all[0].faulty() {
        sound(all.skip(1))
    } else {
        seq![all[0].frame] + sound(all.skip(1))
    }
}

/// What is found in a transfer are the frames that nothing is wrong with, in order, each
/// without its CRC. A faulty frame costs only itself, what the chip says besides makes no
/// difference, and a frame that is cut off is not taken for one.
pub proof fn law_sound_frames_are_found(buffer: Seq<u8>, all: Seq<Record>)
    requires
        carries(buffer, 0, all),
        over(buffer, end_of(0, all)),
    ensures
        lan9514::frames_in(buffer, 0) == sound(all),
{
    lemma_found(buffer, 0, all);
    lemma_over(buffer, end_of(0, all));
    assert(sound(all) + Seq::<Seq<u8>>::empty() =~= sound(all));
}

proof fn lemma_over(buffer: Seq<u8>, at: int)
    requires
        0 <= at,
        over(buffer, at),
    ensures
        lan9514::frames_in(buffer, at) == Seq::<Seq<u8>>::empty(),
{
    reveal(lan9514::frames_in);
    if at + 4 <= buffer.len() {
        let word = bytes::le32(buffer[at], buffer[at + 1], buffer[at + 2], buffer[at + 3]);
        let length = (buffer[at + 2] + 256 * buffer[at + 3]) % 0x4000;
        assert(word as int / 65536 % 0x4000 == length);
    }
}

proof fn lemma_found(buffer: Seq<u8>, at: int, all: Seq<Record>)
    requires
        0 <= at,
        at % 4 == 0,
        carries(buffer, at, all),
    ensures
        lan9514::frames_in(buffer, at) == sound(all) + lan9514::frames_in(buffer, end_of(at, all)),
        0 <= end_of(at, all),
    decreases all.len(),
{
    if all.len() == 0 {
        assert(sound(all) + lan9514::frames_in(buffer, at) =~= lan9514::frames_in(buffer, at));
    } else {
        let one = all[0];
        lemma_one(buffer, at, one);
        lemma_found(buffer, at + one.span(at), all.skip(1));
        let rest = lan9514::frames_in(buffer, end_of(at, all));
        assert(seq![one.frame] + (sound(all.skip(1)) + rest) =~= seq![one.frame] + sound(
            all.skip(1),
        ) + rest);
    }
}

proof fn lemma_one(buffer: Seq<u8>, at: int, one: Record)
    requires
        one.wf(),
        0 <= at,
        at % 4 == 0,
        at + one.body().len() <= buffer.len(),
        buffer.subrange(at, at + one.body().len()) == one.body(),
    ensures
        (at + one.span(at)) % 4 == 0,
        lan9514::frames_in(buffer, at) == (if one.faulty() {
            Seq::<Seq<u8>>::empty()
        } else {
            seq![one.frame]
        }) + lan9514::frames_in(buffer, at + one.span(at)),
{
    reveal(lan9514::frames_in);
    let body = one.body();
    let front = one.front();
    assert forall|i: int| 0 <= i < body.len() implies #[trigger] buffer[at + i] == body[i] by {
        assert(buffer.subrange(at, at + body.len())[i] == body[i]);
    }
    assert(buffer[at + 0] == front[0] && buffer[at + 1] == front[1] && buffer[at + 2] == front[2]
        && buffer[at + 3] == front[3]);
    let word = bytes::le32(front[0], front[1], front[2], front[3]);
    let length = (one.frame.len() + 4) as int;
    let high = one.top * 0x4000 + one.frame.len() + 4;
    assert(word == one.low + 65536 * high);
    assert(word / 65536 == high);
    assert(word as int / 65536 % 0x4000 == length);
    assert((word & 0x8000 != 0) == (word % 65536 / 0x8000 == 1)) by (bit_vector);
    assert(word % 65536 == one.low);

    let start = at + 4;
    assert(buffer.subrange(start, start + length - 4) =~= one.frame) by {
        let found = buffer.subrange(start, start + length - 4);
        assert forall|i: int| 0 <= i < one.frame.len() implies found[i] == one.frame[i] by {
            assert(buffer[at + (4 + i)] == body[4 + i]);
        }
    }
    let rest = lan9514::frames_in(buffer, at + one.span(at));
    assert(Seq::<Seq<u8>>::empty() + rest =~= rest);
}

} // verus!

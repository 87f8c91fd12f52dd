//! What slot zero says, word by word, and in which order it is filled in.

use vstd::prelude::*;

use crate::program;
use crate::program::Program;
use crate::vchiq;
use crate::vchiq::memory::{Answer, Op, ShmProgram};
use crate::vchiq::{memory, places, Error, Link, ServiceState};

verus! {

/// So many writes, none of which has an answer.
pub open spec fn quiet(count: nat) -> Seq<Answer> {
    Seq::new(count, |i: int| Answer::Done)
}

/// Every word of slot zero is cleared, from the first to the last.
pub proof fn law_cleared(base: u32)
    requires
        base + 0x20_0000 <= u32::MAX,
    ensures
        vchiq::clear_program(base, 0).asked(quiet(322)) == Seq::new(
            322,
            |i: int| Op::Write((base + 4 * i) as u32, 0),
        ),
        vchiq::clear_program(base, 0).given(quiet(322)) == Program::<Op, Answer, ()>::Return(()),
{
    lemma_cleared(base, 0);
    assert(vchiq::clear_program(base, 0).asked(quiet(322)) =~= Seq::new(
        322,
        |i: int| Op::Write((base + 4 * i) as u32, 0),
    ));
}

proof fn lemma_cleared(base: u32, word: u32)
    requires
        base + 0x20_0000 <= u32::MAX,
        word <= 322,
    ensures
        ({
            let left = (322 - word) as nat;
            let program = vchiq::clear_program(base, word);
            &&& program.asked(quiet(left)) == Seq::new(
                left,
                |i: int| Op::Write((base + 4 * (word + i)) as u32, 0),
            )
            &&& program.given(quiet(left)) == Program::<Op, Answer, ()>::Return(())
        }),
    decreases 322 - word,
{
    let left = (322 - word) as nat;
    let program = vchiq::clear_program(base, word);
    let ops = Seq::new(left, |i: int| Op::Write((base + 4 * (word + i)) as u32, 0));
    if word < 322 {
        lemma_cleared(base, (word + 1) as u32);
        assert(quiet(left).skip(1) =~= quiet((left - 1) as nat));
    }
    assert(program.asked(quiet(left)) =~= ops);
}

/// Slot zero begins with what it is, the version and the oldest that will do, how long it is
/// and a slot is, how many slots there are and each side may have, and where the firmware
/// finds the fragments and how many there are.
pub proof fn law_slot_zero_header(base: u32)
    requires
        base + 0x20_0000 <= u32::MAX,
    ensures
        vchiq::header_program(base).asked(quiet(8)) == seq![
            Op::Write(base, 0x5643_4849),
            Op::Write((base + 4) as u32, 0x0003_0008),
            Op::Write((base + 8) as u32, 1288),
            Op::Write((base + 12) as u32, 4096),
            Op::Write((base + 16) as u32, 128),
            Op::Write((base + 20) as u32, 64),
            Op::Write((base + 24) as u32, vchiq::bus_of((base + 65 * 4096) as u32)),
            Op::Write((base + 28) as u32, 64),
        ],
        vchiq::header_program(base).given(quiet(8)) == Program::<Op, Answer, ()>::Return(()),
{
    reveal_with_fuel(Program::asked, 10);
    reveal_with_fuel(Program::given, 10);
}

/// The firmware has slot one to synchronise and those from two to thirty-two; this side has
/// slot thirty-three to synchronise and those from thirty-four to sixty-four.
pub proof fn law_slots_divided(link: Link)
    requires
        places::fits(link),
    ensures
        vchiq::division_program(link).asked(quiet(6)) == seq![
            Op::Write(places::theirs(link, 12), 1),
            Op::Write(places::theirs(link, 4), 2),
            Op::Write(places::theirs(link, 8), 32),
            Op::Write(places::ours(link, 12), 33),
            Op::Write(places::ours(link, 4), 34),
            Op::Write(places::ours(link, 8), 64),
        ],
        vchiq::division_program(link).given(quiet(6)) == Program::<Op, Answer, ()>::Return(()),
{
    places::lemma_fields(link, 12);
    places::lemma_fields(link, 4);
    places::lemma_fields(link, 8);
    reveal_with_fuel(Program::asked, 8);
    reveal_with_fuel(Program::given, 8);
}

/// All of this side's slots are in its queue, each once, in order.
pub proof fn law_slots_queued(link: Link)
    requires
        places::fits(link),
    ensures
        vchiq::queue_program(link, 34).asked(quiet(31)) == Seq::new(
            31,
            |i: int| Op::Write(places::ours(link, 72 + 4 * i), (34 + i) as u32),
        ),
        vchiq::queue_program(link, 34).given(quiet(31)) == Program::<Op, Answer, ()>::Return(()),
{
    lemma_queued(link, 34);
    assert(vchiq::queue_program(link, 34).asked(quiet(31)) =~= Seq::new(
        31,
        |i: int| Op::Write(places::ours(link, 72 + 4 * i), (34 + i) as u32),
    ));
}

proof fn lemma_queued(link: Link, slot: u32)
    requires
        places::fits(link),
        34 <= slot <= 65,
    ensures
        ({
            let left = (65 - slot) as nat;
            let program = vchiq::queue_program(link, slot);
            &&& program.asked(quiet(left)) == Seq::new(
                left,
                |i: int|
                    Op::Write(places::ours(link, 72 + 4 * (slot - 34 + i)), (slot + i) as u32),
            )
            &&& program.given(quiet(left)) == Program::<Op, Answer, ()>::Return(())
        }),
    decreases 65 - slot,
{
    let left = (65 - slot) as nat;
    let program = vchiq::queue_program(link, slot);
    let ops = Seq::new(
        left,
        |i: int| Op::Write(places::ours(link, 72 + 4 * (slot - 34 + i)), (slot + i) as u32),
    );
    if slot < 65 {
        lemma_queued(link, (slot + 1) as u32);
        places::lemma_fields(link, (72 + (slot - 34) * 4) as u32);
        assert(quiet(left).skip(1) =~= quiet((left - 1) as nat));
    }
    assert(program.asked(quiet(left)) =~= ops);
}

/// The slot to synchronise holds a message without anything and is free, and all slots of the
/// queue may be used. That this side is ready is said last, and is seen last.
pub proof fn law_ready(link: Link)
    requires
        places::fits(link),
    ensures
        vchiq::ready_program(link).asked(quiet(5)) == seq![
            Op::Write(places::ours(link, 44), 31),
            Op::Write((link.base + 33 * 4096) as u32, 0),
            Op::Write(places::ours(link, 64), 1),
            Op::Barrier,
            Op::Write(places::ours(link, 0), 1),
        ],
        vchiq::ready_program(link).given(quiet(5)) == Program::<Op, Answer, ()>::Return(()),
{
    places::lemma_fields(link, 44);
    places::lemma_fields(link, 64);
    places::lemma_fields(link, 0);
    assert((0u32 << 24) | (0u32 << 12) | 0 == 0) by (bit_vector);
    reveal_with_fuel(Program::asked, 7);
    reveal_with_fuel(Program::given, 7);
}

/// Slot zero is cleared, then gets its header, then the slots are divided and queued, and
/// only then is this side ready.
pub proof fn law_slot_zero(link: Link)
    requires
        places::fits(link),
    ensures
        ({
            let program = vchiq::init_program(link);
            let answers = quiet(322) + (quiet(8) + (quiet(6) + (quiet(31) + quiet(5))));
            &&& program.asked(answers) == vchiq::clear_program(link.base, 0).asked(quiet(322)) + (
            vchiq::header_program(link.base).asked(quiet(8)) + (
            vchiq::division_program(link).asked(quiet(6)) + (
            vchiq::queue_program(link, 34).asked(quiet(31)) + vchiq::ready_program(link).asked(
                quiet(5),
            ))))
            &&& program.given(answers) == Program::<Op, Answer, ()>::Return(())
        }),
{
    law_cleared(link.base);
    law_slot_zero_header(link.base);
    law_slots_divided(link);
    law_slots_queued(link);
    law_ready(link);
    let ready = |queued: ()| vchiq::ready_program(link);
    let queue = |divided: ()| vchiq::queue_program(link, 34).bind(ready);
    let divide = |header: ()| vchiq::division_program(link).bind(queue);
    let head = |cleared: ()| vchiq::header_program(link.base).bind(divide);
    broadcast use crate::program::lemma_bind_same;

    let last = quiet(31) + quiet(5);
    program::lemma_given_in_turn(vchiq::queue_program(link, 34), ready, quiet(31), quiet(5), ());
    program::lemma_given_in_turn(vchiq::division_program(link), queue, quiet(6), last, ());
    program::lemma_given_in_turn(
        vchiq::header_program(link.base),
        divide,
        quiet(8),
        quiet(6) + last,
        (),
    );
    program::lemma_given_in_turn(
        vchiq::clear_program(link.base, 0),
        head,
        quiet(322),
        quiet(8) + (quiet(6) + last),
        (),
    );
    assert(vchiq::init_program(link) == vchiq::clear_program(link.base, 0).bind(head));
}

/// The memory is found first, and its two megabytes taken off the caches; if that fails,
/// nothing is written there.
pub proof fn law_claimed(base: u32, status: Result<u32, u32>)
    ensures
        ({
            let program = vchiq::claim_program();
            let answers = seq![Answer::Word(base), Answer::Status(status)];
            &&& program.asked(answers) == seq![Op::Locate, Op::SetUncached(base, 0x20_0000)]
            &&& program.given(answers) == ShmProgram::<Result<u32, Error>>::Return(
                match status {
                    Ok(_) => Ok(base),
                    Err(code) => Err(Error::Mmu(code)),
                },
            )
            &&& status matches Err(code) ==> vchiq::new_program().asked(answers)
                == program.asked(answers) && vchiq::new_program().given(answers) == ShmProgram::<
                Result<Link, Error>,
            >::Return(Err(Error::Mmu(code)))
        }),
{
    reveal_with_fuel(Program::asked, 4);
    reveal_with_fuel(Program::given, 4);
    reveal_with_fuel(Program::bind, 4);
    let answers = seq![Answer::Word(base), Answer::Status(status)];
    assert(answers.skip(1)[0] == Answer::Status(status));
    assert(answers.skip(1).skip(1).len() == 0);
}

/// The firmware is handed the memory as it sees it. It has one second to fill in its side; a
/// refusal is told with its reason.
pub proof fn law_handed_over(link: Link, status: Result<u32, u32>, start: u64, ready: u32, now: u64)
    requires
        places::fits(link),
    ensures
        ({
            let program = vchiq::hand_over_program(link);
            let hand = Op::HandOver(vchiq::bus_of(link.base));
            let told = |result: Result<Link, Error>|
                ShmProgram::<Result<Link, Error>>::Return(result);
            let one = seq![Answer::Status(status)];
            let three = seq![Answer::Status(Ok(0)), Answer::Time(start), Answer::Word(ready)];
            let four = three.push(Answer::Time(now));
            let look = Op::Read(places::theirs(link, 0));
            let late = now > start.wrapping_add(1_000_000);
            &&& status matches Err(code) ==> program.asked(one) == seq![hand] && program.given(one)
                == told(Err(Error::Mailbox(code)))
            &&& status matches Ok(word) ==> (word != 0 ==> program.asked(one) == seq![hand]
                && program.given(one) == told(Err(Error::SlotsRejected(word))))
            &&& ready != 0 ==> program.asked(three) == seq![hand, Op::Now, look] && program.given(
                three,
            ) == told(Ok(link))
            &&& ready == 0 && late ==> program.asked(four) == seq![hand, Op::Now, look, Op::Now]
                && program.given(four) == told(Err(Error::FirmwareNotReady))
            &&& ready == 0 && !late ==> program.asked(four) == seq![
                hand,
                Op::Now,
                look,
                Op::Now,
                look,
            ]
        }),
{
    places::lemma_fields(link, 0);
    reveal_with_fuel(Program::asked, 6);
    reveal_with_fuel(Program::given, 6);
    reveal_with_fuel(vchiq::await_firmware, 3);
    let one = seq![Answer::Status(status)];
    let three = seq![Answer::Status(Ok(0)), Answer::Time(start), Answer::Word(ready)];
    let four = three.push(Answer::Time(now));
    assert(one.skip(1).len() == 0);
    assert(three.skip(1)[0] == Answer::Time(start));
    assert(three.skip(1).skip(1)[0] == Answer::Word(ready));
    assert(three.skip(1).skip(1).skip(1).len() == 0);
    assert(four[0] == three[0]);
    assert(four.skip(1)[0] == Answer::Time(start));
    assert(four.skip(1).skip(1)[0] == Answer::Word(ready));
    assert(four.skip(1).skip(1).skip(1)[0] == Answer::Time(now));
    assert(four.skip(1).skip(1).skip(1).skip(1).len() == 0);
}

/// The transport is brought up in three steps: the memory is claimed, slot zero is filled in,
/// and when all of that can be seen, the memory is handed over. This side may then use
/// thirty-one slots, and nothing has been sent, heard or opened.
pub proof fn law_transport(base: u32, word: u32, more: Seq<Answer>)
    requires
        base + 0x20_0000 <= u32::MAX,
    ensures
        ({
            let program = vchiq::new_program();
            let link = Link { available: 31, ..Link::fresh(base) };
            let claimed = seq![Answer::Word(base), Answer::Status(Ok(word))];
            let filled = quiet(322) + (quiet(8) + (quiet(6) + (quiet(31) + quiet(5))));
            let answers = claimed + (filled + (seq![Answer::Done] + more));
            &&& program.asked(answers) == vchiq::claim_program().asked(claimed) + (
            vchiq::init_program(Link::fresh(base)).asked(filled) + (seq![Op::Barrier]
                + vchiq::hand_over_program(link).asked(more)))
            &&& program.given(answers) == vchiq::hand_over_program(link).given(more)
        }),
        ({
            let link = Link::fresh(base);
            &&& link.base == base && link.rx_pos == 0 && link.tx_pos == 0 && !link.connected
            &&& link.bulk_tx.len() == 0 && link.bulk_rx.len() == 0
            &&& link.services.len() == 4
            &&& forall|i: int|
                0 <= i < 4 ==> (#[trigger] link.services[i]).state == ServiceState::Free
        }),
{
    let fresh = Link::fresh(base);
    let link = Link { available: 31, ..fresh };
    let claimed = seq![Answer::Word(base), Answer::Status(Ok(word))];
    let filled = quiet(322) + (quiet(8) + (quiet(6) + (quiet(31) + quiet(5))));
    let tail = seq![Answer::Done] + more;
    law_claimed(base, Ok(word));
    law_slot_zero(fresh);
    let hand = |filled: ()| memory::act(Op::Barrier, vchiq::hand_over_program(link));
    let rest = |claimed: Result<u32, Error>|
        match claimed {
            Err(error) => Program::Return(Err(error)),
            Ok(base) => vchiq::init_program(Link::fresh(base)).bind(
                |filled: ()|
                    memory::act(
                        Op::Barrier,
                        vchiq::hand_over_program(Link { available: 31, ..Link::fresh(base) }),
                    ),
            ),
        };
    broadcast use crate::program::lemma_bind_same;

    program::lemma_given_in_turn(vchiq::claim_program(), rest, claimed, filled + tail, Ok(base));
    program::lemma_given_in_turn(vchiq::init_program(fresh), hand, filled, tail, ());
    assert(vchiq::new_program() == vchiq::claim_program().bind(rest));
    assert(rest(Ok(base)) == vchiq::init_program(fresh).bind(hand));
    assert(tail[0] == Answer::Done);
    assert(tail.skip(1) =~= more);
    assert(hand(()).asked(tail) =~= seq![Op::Barrier] + vchiq::hand_over_program(link).asked(more));
}

} // verus!

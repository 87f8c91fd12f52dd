//! How a decoder goes on from one report of the firmware to the next.

use vstd::prelude::*;

use crate::mmal::{FormatChanged, MmalAnswer, MmalError, MmalOp, Report};
use crate::program;
use crate::program::Program;
use crate::video_decode;
use crate::video_decode::stream;
use crate::video_decode::{DecoderState, Error, Picture, PoolState, Step, Turn};

verus! {

/// A decoder is polled until the firmware has nothing more to report, or a report ends it: the
/// polling goes on after each other report, with what it has made of the decoder.
pub proof fn law_polled_on(
    state: DecoderState,
    looks: nat,
    report: Report,
    answers: Seq<MmalAnswer>,
    turn: Turn,
    error: MmalError,
)
    requires
        looks > 0,
        video_decode::report_program(state, report).given(answers) == Program::<
            MmalOp,
            MmalAnswer,
            Turn,
        >::Return(turn),
    ensures
        ({
            let program = video_decode::poll_program(state, looks);
            let all = seq![MmalAnswer::Report(Ok(Some(report)))] + answers;
            let told = |state: DecoderState, result: Result<Option<Picture>, Error>|
                Program::<MmalOp, MmalAnswer, Step<Option<Picture>>>::Return((state, result));
            &&& program matches Program::Request(op, rest) && op == MmalOp::Poll
            &&& program.given(seq![MmalAnswer::Report(Ok(None))]) == told(state, Ok(None))
            &&& program.given(seq![MmalAnswer::Report(Err(error))]) == told(
                state,
                Err(Error::Mmal(error)),
            )
            &&& program.given(all) == match turn {
                Turn::Over(polled) => told(polled.0, polled.1),
                Turn::On(after) => video_decode::poll_program(after, (looks - 1) as nat),
            }
        }),
{
    let program = video_decode::poll_program(state, looks);
    let all = seq![MmalAnswer::Report(Ok(Some(report)))] + answers;
    let next = |turn: Turn|
        match turn {
            Turn::Over(polled) => Program::Return(polled),
            Turn::On(after) => video_decode::poll_program(after, (looks - 1) as nat),
        };
    let none = Seq::<MmalAnswer>::empty();
    broadcast use crate::program::lemma_bind_same;

    let first = video_decode::report_program(state, report);
    program::lemma_given_in_turn(first, next, answers, none, turn);
    assert(answers + none =~= answers);
    assert(all[0] == MmalAnswer::Report(Ok(Some(report))));
    assert(all.skip(1) =~= answers);
    assert(program->Request_1(all[0]) == first.bind(next));
    reveal_with_fuel(Program::given, 2);
    assert(seq![MmalAnswer::Report(Ok(None))].skip(1).len() == 0);
    assert(seq![MmalAnswer::Report(Err(error))].skip(1).len() == 0);
}

/// A new format is asked for when it is told of. The output port is closed for it, and opened
/// again only if that went well; if there is no format after all, nothing is done.
pub proof fn law_reconfigured(
    state: DecoderState,
    changed: FormatChanged,
    answers: Seq<MmalAnswer>,
    more: Seq<MmalAnswer>,
    closed: Step<()>,
)
    requires
        video_decode::close_program(state).given(answers) == Program::<
            MmalOp,
            MmalAnswer,
            Step<()>,
        >::Return(closed),
    ensures
        ({
            let program = video_decode::reconfigure_program(state);
            let told = |step: Step<()>|
                Program::<MmalOp, MmalAnswer, Step<()>>::Return(step);
            let asked = seq![MmalAnswer::Changed(Some(changed))];
            &&& program matches Program::Request(op, rest) && op == MmalOp::FormatChanged
            &&& program.given(seq![MmalAnswer::Changed(None)]) == told((state, Ok(())))
            &&& closed.1 is Err ==> program.given(asked + answers) == told(closed)
            &&& closed.1 is Ok ==> program.given(asked + (answers + more))
                == video_decode::reopen_program(closed.0, changed).given(more)
        }),
{
    let program = video_decode::reconfigure_program(state);
    let first = video_decode::close_program(state);
    let next = |closed: Step<()>|
        match closed.1 {
            Err(error) => Program::Return(closed),
            Ok(_) => video_decode::reopen_program(closed.0, changed),
        };
    let none = Seq::<MmalAnswer>::empty();
    let asked = seq![MmalAnswer::Changed(Some(changed))];
    broadcast use crate::program::lemma_bind_same;

    program::lemma_given_in_turn(first, next, answers, none, closed);
    program::lemma_given_in_turn(first, next, answers, more, closed);
    assert(answers + none =~= answers);
    assert((asked + answers)[0] == asked[0]);
    assert((asked + answers).skip(1) =~= answers);
    assert((asked + (answers + more))[0] == asked[0]);
    assert((asked + (answers + more)).skip(1) =~= answers + more);
    assert(program->Request_1(asked[0]) == first.bind(next));
    reveal_with_fuel(Program::given, 2);
    assert(seq![MmalAnswer::Changed(None)].skip(1).len() == 0);
}

/// Output buffers are given to the firmware only while the output port is open and the format
/// is known, and then as many as are long enough.
pub proof fn law_refilled(state: DecoderState)
    ensures
        ({
            let program = video_decode::refill_program(state);
            let ready = state.output_enabled && state.format is Some;
            &&& !ready ==> program == Program::<MmalOp, MmalAnswer, Step<()>>::Return(
                (state, Ok(())),
            )
            &&& ready ==> program == video_decode::hand_over_program(
                state,
                video_decode::waiting(state.output_pool.slots, state.needed as nat, 0).len(),
            )
        }),
{
}

/// A buffer that is added to a port waits there, and the port has one more; a port that has no
/// place for it is left as it was.
pub proof fn law_added(pool: PoolState, buffer: Seq<u8>)
    requires
        pool.total < usize::MAX,
    ensures
        ({
            let (after, result) = pool.added(buffer);
            let room = video_decode::first_free(pool.slots, 0) is Some;
            &&& !room ==> after == pool && result == Err::<(), Error>(Error::TooManyBuffers)
            &&& room ==> result == Ok::<(), Error>(()) && after.total == pool.total + 1
                && stream::queue(after).to_multiset() == stream::queue(pool).to_multiset().insert(
                buffer,
            )
        }),
{
    if video_decode::first_free(pool.slots, 0) is Some {
        video_decode::law_put_waits(pool, buffer);
    }
}

} // verus!

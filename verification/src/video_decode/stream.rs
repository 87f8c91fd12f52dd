//! What a decoder makes of the stream that it is fed, and of what the firmware gives back.

use vstd::prelude::*;

use crate::mmal::{
    Encoding, EsType, FormatChanged, MmalAnswer, MmalHistory, MmalOp, PortAction, PortInfo,
    PortType, Report,
};
use crate::program::Program;
use crate::video_decode;
use crate::video_decode::{DecoderState, Error, FrameFormat, Picture, PoolState, Step, Turn};

verus! {

broadcast use crate::program::group_program;

/// The bytes that a request carries to the firmware.
pub open spec fn carried(op: MmalOp) -> Seq<u8> {
    match op {
        MmalOp::Send { port, buffer, length, flags, pts } => buffer.take(length as int),
        _ => Seq::empty(),
    }
}

/// The bytes that were carried to the firmware, one request after another.
pub open spec fn sent(history: MmalHistory) -> Seq<u8>
    decreases history.len(),
{
    if history.len() == 0 {
        Seq::empty()
    } else {
        sent(history.drop_last()) + carried(history.last().request)
    }
}

/// The buffers of a pool that wait, in the order in which they are taken.
pub open spec fn queue(pool: PoolState) -> Seq<Seq<u8>> {
    video_decode::waiting(pool.slots, 0, 0)
}

/// What is fed are the first bytes of the data, as many as are said to be consumed: all of
/// it, or as many as there is room for in the buffer that has waited. They go to the input
/// port in one buffer, which waits no more, with the flags and the time that they were given
/// with. Nothing is sent if there is nothing to feed or no buffer.
pub proof fn law_feed_takes_the_front(
    state: DecoderState,
    data: Seq<u8>,
    flags: u32,
    pts: i64,
    start: MmalHistory,
    end: MmalHistory,
    step: Step<usize>,
)
    requires
        data.len() <= usize::MAX,
        video_decode::feed_program(state, data, flags, pts).ran(start, end, step),
    ensures
        step.1 == Err::<usize, Error>(Error::WrongState) <==> !state.started,
        step.1 matches Ok(consumed) ==> consumed <= data.len() && sent(
            end.skip(start.len() as int),
        ) == data.take(consumed as int),
        state.started && data.len() > 0 && queue(state.input_pool).len() > 0 ==> {
            let buffer = queue(state.input_pool)[0];
            &&& end.len() == start.len() + 1
            &&& end.last().request matches MmalOp::Send {
                port,
                buffer: filled,
                length,
                flags: with_flags,
                pts: at,
            }
            &&& port == state.input
            &&& with_flags == flags
            &&& at == pts
            &&& filled.len() == buffer.len()
            &&& length == data.len() || length == buffer.len()
            &&& length <= data.len() && length <= buffer.len()
            &&& filled.take(length as int) == data.take(length as int)
            &&& step.1 matches Ok(consumed) ==> consumed == length
            &&& queue(state.input_pool) == seq![buffer] + queue(step.0.input_pool)
        },
        !(state.started && data.len() > 0 && queue(state.input_pool).len() > 0) ==> end == start
            && step.0 == state && (state.started ==> step.1 == Ok::<usize, Error>(0)),
{
    video_decode::law_taken_in_order(state.input_pool, 0);
    let made = end.skip(start.len() as int);
    let program = video_decode::feed_program(state, data, flags, pts);
    if state.started && data.len() > 0 && state.input_pool.taken(0).1 is Some {
        let buffer = state.input_pool.taken(0).1->0;
        assert(queue(state.input_pool)[0] == buffer);
        assert(made.len() > 0);
        assert(program.after(made) == (program->Request_1)(made[0].answer).after(made.skip(1)));
        assert(made.skip(1).len() == 0);
        assert(made[0] == end.last());
        assert(made.drop_last() =~= MmalHistory::empty());
        assert(sent(made.drop_last()) =~= Seq::<u8>::empty());
        let (filled, length) = video_decode::loaded(buffer, data);
        assert(filled.take(length as int) =~= data.take(length as int));
        assert(sent(made) =~= data.take(length as int));
    } else {
        assert(queue(state.input_pool).len() == 0 || !state.started || data.len() == 0);
        assert(made.len() == 0);
        assert(end =~= start);
        assert(sent(made) =~= data.take(0));
    }
}

/// One call that fed a part of a stream.
pub struct Feed {
    pub state: DecoderState,
    pub flags: u32,
    pub pts: i64,
    pub start: MmalHistory,
    pub end: MmalHistory,
    pub after: DecoderState,
    pub consumed: usize,
}

/// The bytes that calls consumed.
pub open spec fn consumed(feeds: Seq<Feed>) -> int
    decreases feeds.len(),
{
    if feeds.len() == 0 {
        0
    } else {
        consumed(feeds.drop_last()) + feeds.last().consumed
    }
}

/// The bytes that calls sent.
pub open spec fn sent_by(feeds: Seq<Feed>) -> Seq<u8>
    decreases feeds.len(),
{
    if feeds.len() == 0 {
        Seq::empty()
    } else {
        let feed = feeds.last();
        sent_by(feeds.drop_last()) + sent(feed.end.skip(feed.start.len() as int))
    }
}

/// Each call was given what the ones before it had left of the stream, and succeeded.
pub open spec fn in_turn(stream: Seq<u8>, feeds: Seq<Feed>) -> bool
    decreases feeds.len(),
{
    feeds.len() == 0 || {
        let feed = feeds.last();
        &&& in_turn(stream, feeds.drop_last())
        &&& video_decode::feed_program(
            feed.state,
            stream.skip(consumed(feeds.drop_last())),
            feed.flags,
            feed.pts,
        ).ran(feed.start, feed.end, (feed.after, Ok(feed.consumed)))
    }
}

/// A stream that is fed piece by piece reaches the firmware as it is: what was sent, one
/// piece after another, is the beginning of the stream, with nothing lost, repeated or out
/// of order, however the calls cut it.
pub proof fn law_stream_arrives(stream: Seq<u8>, feeds: Seq<Feed>)
    requires
        stream.len() <= usize::MAX,
        in_turn(stream, feeds),
    ensures
        0 <= consumed(feeds) <= stream.len(),
        sent_by(feeds) == stream.take(consumed(feeds)),
    decreases feeds.len(),
{
    if feeds.len() == 0 {
        assert(sent_by(feeds) =~= stream.take(0));
    } else {
        let before = feeds.drop_last();
        law_stream_arrives(stream, before);
        let feed = feeds.last();
        let left = stream.skip(consumed(before));
        law_feed_takes_the_front(
            feed.state,
            left,
            feed.flags,
            feed.pts,
            feed.start,
            feed.end,
            (feed.after, Ok(feed.consumed)),
        );
        assert(sent_by(feeds) =~= stream.take(consumed(feeds)));
    }
}

/// The end of a stream is an empty buffer to the input port, with the lowest flag set.
pub proof fn law_end_is_sent(state: DecoderState)
    requires
        state.started,
        queue(state.input_pool).len() > 0,
    ensures
        video_decode::finish_program(state) matches Program::Request(op, next) && op matches
            MmalOp::Send { port, buffer, length, flags, pts } && port == state.input && length == 0
            && flags == 1 && buffer == queue(state.input_pool)[0],
{
    video_decode::law_taken_in_order(state.input_pool, 0);
}

/// The geometry of the frames is the one that the firmware has found. A frame has one and a
/// half bytes for each place of the luma plane, the last half rounded down, as long as that
/// can be counted; and a crop that is below zero is none.
pub proof fn law_format_found(changed: FormatChanged)
    ensures
        ({
            let format = video_decode::format_of(changed);
            let video = changed.video;
            &&& format.width == video.width && format.height == video.height
            &&& format.frame_rate_num == video.frame_rate_num
            &&& format.frame_rate_den == video.frame_rate_den
            &&& video.crop_width >= 0 ==> format.crop_width == video.crop_width
            &&& video.crop_height >= 0 ==> format.crop_height == video.crop_height
            &&& video.crop_width < 0 ==> format.crop_width == 0
            &&& video.crop_height < 0 ==> format.crop_height == 0
            &&& video.width * video.height * 3 <= u32::MAX ==> 2 * format.frame_size <= video.width
                * video.height * 3 < 2 * format.frame_size + 2
        }),
{
    let video = changed.video;
    assert(video.width * video.height >= 0) by (nonlinear_arith);
}

/// A buffer for a format is as large as the firmware says that it must be and as large as it
/// says that it should be, and no larger than one of these.
pub proof fn law_buffer_needed(changed: FormatChanged)
    ensures
        video_decode::needed_for(changed) >= changed.buffer_size_min,
        video_decode::needed_for(changed) >= changed.buffer_size_recommended,
        video_decode::needed_for(changed) == changed.buffer_size_min || video_decode::needed_for(
            changed,
        ) == changed.buffer_size_recommended,
{
}

/// The ports of a started decoder: H.264 goes in, in buffers none of which is longer than
/// the shortest that waits; I420 comes out. Each port is told of as many buffers as were
/// added to it, and of no fewer than it needs.
pub proof fn law_ports_wanted(state: DecoderState)
    requires
        state.input_pool.total <= u32::MAX,
        state.output_pool.total <= u32::MAX,
        state.input_pool.smallest() <= u32::MAX,
    ensures
        ({
            let input = video_decode::input_wanted(state);
            &&& input.handle == state.input.handle && input.encoding == state.input.encoding
            &&& input.buffer_num >= state.input_pool.total
            &&& input.buffer_num >= state.input.buffer_num_min
            &&& input.buffer_num == state.input_pool.total || input.buffer_num
                == state.input.buffer_num_min
            &&& forall|i: int|
                0 <= i < state.input_pool.slots.len() ==> (
                #[trigger] state.input_pool.slots[i] matches Some(buffer) ==> buffer.len()
                    >= input.buffer_size)
            &&& queue(state.input_pool).len() > 0 ==> exists|i: int|
                0 <= i < state.input_pool.slots.len() && (
                #[trigger] state.input_pool.slots[i] matches Some(buffer) && buffer.len()
                    == input.buffer_size)
        }),
        ({
            let output = video_decode::output_wanted(state);
            &&& output.handle == state.output.handle
            &&& output.es_type == EsType::Video && output.encoding == Encoding::I420
            &&& output.encoding_variant == 0
            &&& output.buffer_num >= state.output_pool.total
            &&& output.buffer_num >= state.output.buffer_num_min
            &&& output.buffer_num == state.output_pool.total || output.buffer_num
                == state.output.buffer_num_min
        }),
{
    video_decode::law_shortest(state.input_pool.slots, 0);
    if video_decode::shortest(state.input_pool.slots, 0) is None {
        lemma_none_waits(state.input_pool.slots, 0);
    }
}

proof fn lemma_none_waits(slots: Seq<Option<Seq<u8>>>, at: int)
    requires
        0 <= at,
        forall|i: int| at <= i < slots.len() ==> #[trigger] slots[i] is None,
    ensures
        video_decode::waiting(slots, 0, at).len() == 0,
    decreases slots.len() - at,
{
    if at < slots.len() {
        lemma_none_waits(slots, at + 1);
    }
}

/// The output port is opened for a new format: the port is described anew, and asked for with
/// the format that was found, as I420, with as many buffers as were added and as the format
/// needs, and with no larger buffers than the shortest that waits. Buffers that wait but are
/// too short for the format are told, and nothing is asked for.
pub proof fn law_output_reopened(
    state: DecoderState,
    changed: FormatChanged,
    port: PortInfo,
    settled: PortInfo,
)
    requires
        state.output_pool.total <= u32::MAX,
        video_decode::shortest(state.output_pool.slots, 0) matches Some(length) ==> length
            <= u32::MAX,
    ensures
        ({
            let program = video_decode::reopen_program(state, changed);
            let needed = video_decode::needed_for(changed);
            let one = seq![MmalAnswer::Port(Ok(port))];
            let two = one.push(MmalAnswer::Settled(settled, Ok(())));
            let describe = MmalOp::GetPort(state.component, PortType::Output, 0);
            let short = exists|i: int|
                0 <= i < state.output_pool.slots.len() && (
                #[trigger] state.output_pool.slots[i] matches Some(buffer) && buffer.len() < needed);
            &&& short ==> program.asked(one) == seq![describe] && (program.given(one) matches
                Program::Return(step) && step.1 is Err)
            &&& !short ==> {
                let asked = program.asked(two);
                &&& asked.len() == 3
                &&& asked[0] == describe
                &&& asked[2] == MmalOp::Action(settled, PortAction::Enable)
                &&& asked[1] matches MmalOp::SetPort(wanted)
                &&& wanted.handle == port.handle
                &&& wanted.video == changed.video
                &&& wanted.es_type == EsType::Video && wanted.encoding == Encoding::I420
                &&& wanted.buffer_num >= state.output_pool.total && wanted.buffer_num
                    >= changed.buffer_num_min
                &&& wanted.buffer_size >= needed
                &&& forall|i: int|
                    0 <= i < state.output_pool.slots.len() ==> (
                    #[trigger] state.output_pool.slots[i] matches Some(buffer) ==> buffer.len()
                        >= wanted.buffer_size)
            }
        }),
{
    video_decode::law_shortest(state.output_pool.slots, 0);
    reveal_with_fuel(Program::asked, 4);
    reveal_with_fuel(Program::given, 3);
    let one = seq![MmalAnswer::Port(Ok(port))];
    let two = one.push(MmalAnswer::Settled(settled, Ok(())));
    assert(one.skip(1).len() == 0);
    assert(two.skip(1) =~= seq![MmalAnswer::Settled(settled, Ok(()))]);
    assert(two.skip(1).skip(1).len() == 0);
}

/// A frame that the firmware gives back is handed out as it came: its buffer, its length,
/// its time and its flags, with the format that the stream has. One output buffer fewer is
/// out then, and the pools are as they were.
pub proof fn law_frame_comes_out(
    state: DecoderState,
    format: FrameFormat,
    port: u32,
    buffer: Seq<u8>,
    length: usize,
    flags: u32,
    pts: i64,
)
    requires
        port != state.input.handle,
        state.format == Some(format),
        length > 0,
    ensures
        video_decode::report_program(
            state,
            Report::Buffer { port, buffer, length, flags, pts },
        ) matches Program::Return(Turn::Over((after, Ok(Some(picture))))) && picture == (
            Picture { buffer, length, pts, flags, format }) && after.input_pool == state.input_pool
            && after.output_pool == state.output_pool && (state.output_in_flight > 0
            ==> after.output_in_flight == state.output_in_flight - 1) && (after.eos <==> state.eos
            || flags % 2 == 1),
{
    assert((flags & 1u32 != 0) == (flags % 2 == 1)) by (bit_vector);
}

/// An input buffer that the firmware gives back waits again, and nothing else changes.
pub proof fn law_input_comes_back(
    state: DecoderState,
    buffer: Seq<u8>,
    length: usize,
    flags: u32,
    pts: i64,
)
    requires
        video_decode::first_free(state.input_pool.slots, 0) is Some,
    ensures
        video_decode::report_program(
            state,
            Report::Buffer { port: state.input.handle, buffer, length, flags, pts },
        ) matches Program::Return(Turn::On(after)) && queue(after.input_pool).to_multiset()
            == queue(state.input_pool).to_multiset().insert(buffer) && after == (
            DecoderState { input_pool: after.input_pool, ..state }),
{
    video_decode::law_put_waits(state.input_pool, buffer);
}

/// Waiting for the output buffers that are out: nothing is done if none is. Otherwise what
/// the firmware reports is put away, and if the deadline has not passed, the wait goes on;
/// once it has, no buffer counts as out any more.
pub proof fn law_drained(
    state: DecoderState,
    deadline: u64,
    looks: nat,
    report: Option<Report>,
    now: u64,
)
    requires
        looks > 0,
    ensures
        ({
            let program = video_decode::drain_program(state, deadline, looks);
            let answers = seq![MmalAnswer::Report(Ok(report)), MmalAnswer::Time(now)];
            let after = video_decode::put_away(state, report);
            &&& state.output_in_flight == 0 ==> program == Program::<
                MmalOp,
                MmalAnswer,
                Step<()>,
            >::Return((state, Ok(())))
            &&& state.output_in_flight > 0 ==> program.asked(answers).take(2) == seq![
                MmalOp::Poll,
                MmalOp::Now,
            ]
            &&& state.output_in_flight > 0 && now <= deadline ==> program.given(answers)
                == video_decode::drain_program(after, deadline, (looks - 1) as nat)
            &&& state.output_in_flight > 0 && now > deadline ==> program.given(answers)
                == Program::<MmalOp, MmalAnswer, Step<()>>::Return(
                (DecoderState { output_in_flight: 0, ..after }, Ok(())),
            )
        }),
{
    reveal_with_fuel(Program::asked, 3);
    reveal_with_fuel(Program::given, 3);
    let answers = seq![MmalAnswer::Report(Ok(report)), MmalAnswer::Time(now)];
    assert(answers.skip(1) =~= seq![MmalAnswer::Time(now)]);
    assert(answers.skip(1).skip(1).len() == 0);
    let program = video_decode::drain_program(state, deadline, looks);
    if state.output_in_flight > 0 {
        assert(program.asked(answers).take(2) =~= seq![MmalOp::Poll, MmalOp::Now]);
    }
}

/// A buffer that is put away waits in the pool of the port that it is of. One of the output
/// port is out no more; one of the input port changes nothing else.
pub proof fn law_put_away(
    state: DecoderState,
    port: u32,
    buffer: Seq<u8>,
    length: usize,
    flags: u32,
    pts: i64,
)
    requires
        video_decode::first_free(state.input_pool.slots, 0) is Some,
        video_decode::first_free(state.output_pool.slots, 0) is Some,
    ensures
        ({
            let after = video_decode::put_away(
                state,
                Some(Report::Buffer { port, buffer, length, flags, pts }),
            );
            let input = port == state.input.handle;
            &&& input ==> after.output_in_flight == state.output_in_flight && after.output_pool
                == state.output_pool && queue(after.input_pool).to_multiset() == queue(
                state.input_pool,
            ).to_multiset().insert(buffer)
            &&& !input ==> after.input_pool == state.input_pool && (state.output_in_flight > 0
                ==> after.output_in_flight == state.output_in_flight - 1) && queue(
                after.output_pool,
            ).to_multiset() == queue(state.output_pool).to_multiset().insert(buffer)
        }),
{
    video_decode::law_put_waits(state.input_pool, buffer);
    video_decode::law_put_waits(state.output_pool, buffer);
}

/// The firmware has two seconds to give its buffers back.
pub proof fn law_deadline(now: u64)
    ensures
        now + 2_000_000 <= u64::MAX ==> video_decode::deadline_after(now) == now + 2_000_000,
        now + 2_000_000 > u64::MAX ==> video_decode::deadline_after(now) == u64::MAX,
{
}

} // verus!

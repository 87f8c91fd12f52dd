//! How a decoder is created and started.

use vstd::prelude::*;

use crate::mmal::{
    Component, Encoding, EsType, MmalAnswer, MmalError, MmalOp, PortAction, PortInfo, PortType,
};
use crate::program::Program;
use crate::video_decode;
use crate::video_decode::{DecoderState, Error, PoolState};

verus! {

/// A decoder is the firmware's component that decodes video. Both its ports are described, the
/// first of each kind; a stream of H.264 goes into it. It has no buffer, and nothing runs.
pub proof fn law_created(component: Component, input: PortInfo, output: PortInfo)
    ensures
        ({
            let program = video_decode::new_program();
            let answers = seq![
                MmalAnswer::Created(Ok(component)),
                MmalAnswer::Port(Ok(input)),
                MmalAnswer::Port(Ok(output)),
            ];
            &&& program.asked(answers) == seq![
                MmalOp::Create("ril.video_decode"@),
                MmalOp::GetPort(component, PortType::Input, 0),
                MmalOp::GetPort(component, PortType::Output, 0),
            ]
            &&& program.given(answers) matches Program::Return(Ok(state))
            &&& state.component == component && state.output == output
            &&& state.input.handle == input.handle
            &&& state.input.es_type == EsType::Video && state.input.encoding == Encoding::H264
            &&& state.input.encoding_variant == 0
            &&& state.input.buffer_num_min == input.buffer_num_min
            &&& state.input.buffer_size_min == input.buffer_size_min
            &&& state.input_pool == PoolState::empty() && state.output_pool == PoolState::empty()
            &&& !state.started && !state.output_enabled && !state.eos
            &&& state.output_in_flight == 0 && state.format is None
        }),
{
    reveal_with_fuel(Program::asked, 5);
    reveal_with_fuel(Program::given, 5);
    reveal_with_fuel(Program::bind, 5);
    let answers = seq![
        MmalAnswer::Created(Ok(component)),
        MmalAnswer::Port(Ok(input)),
        MmalAnswer::Port(Ok(output)),
    ];
    assert(answers.skip(1)[0] == MmalAnswer::Port(Ok(input)));
    assert(answers.skip(1).skip(1)[0] == MmalAnswer::Port(Ok(output)));
    assert(answers.skip(1).skip(1).skip(1).len() == 0);
}

/// A decoder starts once, with buffers for both ports, none of those for input shorter than
/// the port needs; otherwise the firmware is asked nothing.
pub proof fn law_start_refused(state: DecoderState)
    ensures
        ({
            let program = video_decode::start_program(state);
            let refused = |error: Error|
                program == Program::<MmalOp, MmalAnswer, (DecoderState, Result<(), Error>)>::Return(
                    (state, Err(error)),
                );
            let bare = state.input_pool.total == 0 || state.output_pool.total == 0;
            let shortest = state.input_pool.smallest();
            let least = state.input.buffer_size_min;
            &&& state.started ==> refused(Error::WrongState)
            &&& !state.started && bare ==> refused(Error::NoBuffers)
            &&& !state.started && !bare && shortest < least ==> refused(
                Error::BufferTooSmall { provided: shortest as usize, required: least as usize },
            )
            &&& !state.started && !bare && shortest >= least ==> (program matches Program::Request(
                op,
                rest,
            ) && op == MmalOp::SetPort(video_decode::input_wanted(state)))
        }),
{
}

/// A decoder that starts has its ports set up, the input port first; then the component is
/// enabled, its output port, and last its input port. What the firmware made of the ports is
/// kept.
pub proof fn law_started(state: DecoderState, input: PortInfo, output: PortInfo)
    requires
        !state.started,
        state.input_pool.total > 0,
        state.output_pool.total > 0,
        state.input_pool.smallest() >= state.input.buffer_size_min,
    ensures
        ({
            let program = video_decode::start_program(state);
            let done = MmalAnswer::Done(Ok(()));
            let answers = seq![
                MmalAnswer::Settled(input, Ok(())),
                MmalAnswer::Settled(output, Ok(())),
                done,
                done,
                done,
            ];
            &&& program.asked(answers) == seq![
                MmalOp::SetPort(video_decode::input_wanted(state)),
                MmalOp::SetPort(video_decode::output_wanted(state)),
                MmalOp::EnableComponent(state.component),
                MmalOp::Action(output, PortAction::Enable),
                MmalOp::Action(input, PortAction::Enable),
            ]
            &&& program.given(answers) matches Program::Return(step)
            &&& step.1 == Ok::<(), Error>(())
            &&& step.0.started && step.0.output_enabled
            &&& step.0.input.handle == input.handle && step.0.input.enabled
            &&& step.0.output.handle == output.handle && step.0.output.enabled
            &&& step.0.input_pool == state.input_pool && step.0.output_pool == state.output_pool
        }),
{
    reveal_with_fuel(Program::asked, 7);
    reveal_with_fuel(Program::given, 7);
    let done = MmalAnswer::Done(Ok(()));
    let answers = seq![
        MmalAnswer::Settled(input, Ok(())),
        MmalAnswer::Settled(output, Ok(())),
        done,
        done,
        done,
    ];
    assert(answers.skip(1)[0] == MmalAnswer::Settled(output, Ok(())));
    assert(answers.skip(1).skip(1)[0] == done);
    assert(answers.skip(1).skip(1).skip(1)[0] == done);
    assert(answers.skip(1).skip(1).skip(1).skip(1)[0] == done);
    assert(answers.skip(1).skip(1).skip(1).skip(1).skip(1).len() == 0);
}

/// If the firmware refuses a step of starting, that is told, and no further step is asked
/// for: a port that was not opened does not count as open, and the decoder has not started.
pub proof fn law_start_fails(
    state: DecoderState,
    input: PortInfo,
    output: PortInfo,
    error: MmalError,
    steps: nat,
)
    requires
        !state.started,
        !state.output_enabled,
        state.input_pool.total > 0,
        state.output_pool.total > 0,
        state.input_pool.smallest() >= state.input.buffer_size_min,
        steps < 5,
    ensures
        ({
            let program = video_decode::start_program(state);
            let done = MmalAnswer::Done(Ok(()));
            let sound = seq![
                MmalAnswer::Settled(input, Ok(())),
                MmalAnswer::Settled(output, Ok(())),
                done,
                done,
            ];
            let failure = if steps == 0 {
                MmalAnswer::Settled(input, Err(error))
            } else if steps == 1 {
                MmalAnswer::Settled(output, Err(error))
            } else {
                MmalAnswer::Done(Err(error))
            };
            let answers = sound.take(steps as int).push(failure);
            &&& program.asked(answers).len() == steps + 1
            &&& program.given(answers) matches Program::Return(step)
            &&& step.1 == Err::<(), Error>(Error::Mmal(error))
            &&& !step.0.started
            &&& step.0.output_enabled == (steps == 4)
        }),
{
    reveal_with_fuel(Program::asked, 7);
    reveal_with_fuel(Program::given, 7);
    let done = MmalAnswer::Done(Ok(()));
    let sound = seq![
        MmalAnswer::Settled(input, Ok(())),
        MmalAnswer::Settled(output, Ok(())),
        done,
        done,
    ];
    let failure = if steps == 0 {
        MmalAnswer::Settled(input, Err(error))
    } else if steps == 1 {
        MmalAnswer::Settled(output, Err(error))
    } else {
        MmalAnswer::Done(Err(error))
    };
    let answers = sound.take(steps as int).push(failure);
    let two = answers.skip(1).skip(1);
    if steps == 0 {
        assert(answers =~= seq![failure]);
        assert(answers.skip(1).len() == 0);
    } else if steps == 1 {
        assert(answers =~= seq![sound[0], failure]);
        assert(answers.skip(1) =~= seq![failure]);
        assert(two.len() == 0);
    } else if steps == 2 {
        assert(answers =~= seq![sound[0], sound[1], failure]);
        assert(answers.skip(1) =~= seq![sound[1], failure]);
        assert(two =~= seq![failure]);
        assert(two.skip(1).len() == 0);
    } else if steps == 3 {
        assert(answers =~= seq![sound[0], sound[1], done, failure]);
        assert(answers.skip(1) =~= seq![sound[1], done, failure]);
        assert(two =~= seq![done, failure]);
        assert(two.skip(1) =~= seq![failure]);
        assert(two.skip(1).skip(1).len() == 0);
    } else {
        assert(answers =~= seq![sound[0], sound[1], done, done, failure]);
        assert(answers.skip(1) =~= seq![sound[1], done, done, failure]);
        assert(two =~= seq![done, done, failure]);
        assert(two.skip(1) =~= seq![done, failure]);
        assert(two.skip(1).skip(1) =~= seq![failure]);
        assert(two.skip(1).skip(1).skip(1).len() == 0);
    }
}

/// The output port is closed if it is open: it is disabled, and the buffers that are out are
/// waited for, two seconds at most. If the firmware will not disable it, it stays open.
pub proof fn law_closed(state: DecoderState, now: u64, error: MmalError)
    requires
        now + 2_000_000 <= u64::MAX,
    ensures
        ({
            let program = video_decode::close_program(state);
            let disable = MmalOp::Action(state.output, PortAction::Disable);
            let two = seq![MmalAnswer::Done(Ok(())), MmalAnswer::Time(now)];
            let failed = seq![MmalAnswer::Done(Err(error))];
            let told = |state: DecoderState, result: Result<(), Error>|
                Program::<MmalOp, MmalAnswer, (DecoderState, Result<(), Error>)>::Return(
                    (state, result),
                );
            &&& !state.output_enabled ==> program == told(state, Ok(()))
            &&& state.output_enabled ==> program.asked(failed) == seq![disable] && program.given(
                failed,
            ) == told(state, Err(Error::Mmal(error)))
            &&& state.output_enabled ==> program.asked(two).take(2) == seq![disable, MmalOp::Now]
                && exists|closed: DecoderState|
                #![trigger video_decode::drain_program(
                    closed,
                    (now + 2_000_000) as u64,
                    u64::MAX as nat,
                )]
                !closed.output_enabled && !closed.output.enabled && closed.output.handle
                    == state.output.handle && closed.output_pool == state.output_pool
                    && closed.input == state.input && closed.output_in_flight
                    == state.output_in_flight && program.given(two)
                    == video_decode::drain_program(
                    closed,
                    (now + 2_000_000) as u64,
                    u64::MAX as nat,
                )
        }),
{
    reveal_with_fuel(Program::asked, 4);
    reveal_with_fuel(Program::given, 4);
    let program = video_decode::close_program(state);
    let disable = MmalOp::Action(state.output, PortAction::Disable);
    let two = seq![MmalAnswer::Done(Ok(())), MmalAnswer::Time(now)];
    let failed = seq![MmalAnswer::Done(Err(error))];
    assert(two.skip(1)[0] == MmalAnswer::Time(now));
    assert(two.skip(1).skip(1).len() == 0);
    assert(failed.skip(1).len() == 0);
    if state.output_enabled {
        let closed = DecoderState {
            output: PortInfo { enabled: false, ..state.output },
            output_enabled: false,
            ..state
        };
        assert(video_decode::deadline_after(now) == now + 2_000_000);
        assert(program.given(two) == video_decode::drain_program(
            closed,
            (now + 2_000_000) as u64,
            u64::MAX as nat,
        ));
        assert(program.asked(two).take(2) =~= seq![disable, MmalOp::Now]);
    }
}

/// The firmware is given output buffers that are long enough, empty and without a time, as
/// long as there is one; each is out then. A buffer that it will not take is told. Without
/// one that is long enough, nothing is asked, and if there are shorter ones that is told.
pub proof fn law_output_given(state: DecoderState, count: nat, error: MmalError)
    requires
        count > 0,
        state.output_in_flight < usize::MAX,
    ensures
        ({
            let program = video_decode::hand_over_program(state, count);
            let taken = state.output_pool.taken(state.needed as nat);
            let done = seq![MmalAnswer::Done(Ok(()))];
            let failed = seq![MmalAnswer::Done(Err(error))];
            match taken.1 {
                Some(buffer) => {
                    let after = DecoderState { output_pool: taken.0, ..state };
                    let send = MmalOp::Send {
                        port: state.output,
                        buffer,
                        length: 0,
                        flags: 0,
                        pts: i64::MIN,
                    };
                    &&& program matches Program::Request(op, rest) && op == send
                    &&& program.given(done) == video_decode::hand_over_program(
                        DecoderState {
                            output_in_flight: (state.output_in_flight + 1) as usize,
                            ..after
                        },
                        (count - 1) as nat,
                    )
                    &&& program.given(failed) == Program::<
                        MmalOp,
                        MmalAnswer,
                        (DecoderState, Result<(), Error>),
                    >::Return((after, Err(Error::Mmal(error))))
                },
                None => program matches Program::Return(step) && step.0 == state && (step.1 is Ok
                    <==> video_decode::shortest(state.output_pool.slots, 0) is None),
            }
        }),
{
    reveal_with_fuel(Program::given, 3);
    reveal_with_fuel(video_decode::hand_over_program, 2);
    assert(seq![MmalAnswer::Done(Ok(()))].skip(1).len() == 0);
    assert(seq![MmalAnswer::Done(Err(error))].skip(1).len() == 0);
}

} // verus!

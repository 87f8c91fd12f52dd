//! How the controller is brought up, step by step.

use vstd::prelude::*;

use crate::program;
use crate::program::Program;
use crate::usb::dwc2::hardware::{Answer, Change, Field, Op, PortBits};
use crate::usb::dwc2::host;

verus! {

/// A field is looked at until it is as it should be, once more than there are further looks
/// if it never is, and then things go on without it.
pub proof fn law_settles(field: Field, until_set: bool, spins: nat, looks: Seq<u32>)
    requires
        looks.len() > 0,
        forall|i: int| 0 <= i < looks.len() - 1 ==> (#[trigger] looks[i] != 0) != until_set,
        (looks.last() != 0) == until_set || looks.len() == spins + 1,
        looks.len() <= spins + 1,
    ensures
        ({
            let program = host::settle_poll(field, until_set, spins);
            let answers = Seq::new(looks.len(), |i: int| Answer::Word(looks[i]));
            &&& program.asked(answers) == Seq::new(looks.len(), |i: int| Op::Read(field))
            &&& program.given(answers) == Program::<Op, Answer, ()>::Return(())
        }),
    decreases looks.len(),
{
    let program = host::settle_poll(field, until_set, spins);
    let answers = Seq::new(looks.len(), |i: int| Answer::Word(looks[i]));
    let fewer = looks.skip(1);
    assert(answers.skip(1) =~= Seq::new(fewer.len(), |i: int| Answer::Word(fewer[i])));
    if looks.len() > 1 {
        assert((looks[0] != 0) != until_set);
        assert forall|i: int| 0 <= i < fewer.len() - 1 implies (#[trigger] fewer[i] != 0)
            != until_set by {
            assert(looks[i + 1] == fewer[i]);
        }
        assert(fewer.last() == looks.last());
        law_settles(field, until_set, (spins - 1) as nat, fewer);
        assert(program.asked(answers) =~= Seq::new(looks.len(), |i: int| Op::Read(field)));
    } else {
        assert(looks.last() == looks[0]);
        reveal_with_fuel(Program::asked, 2);
        reveal_with_fuel(Program::given, 2);
        assert(program.asked(answers) =~= Seq::new(looks.len(), |i: int| Op::Read(field)));
    }
}

/// The core is reset when its bus is idle, and has three milliseconds to settle before its
/// clocks run.
pub proof fn law_core_reset(idle: u32)
    requires
        idle != 0,
    ensures
        ({
            let program = host::core_reset_program();
            let answers = seq![
                Answer::Word(idle),
                Answer::Done,
                Answer::Word(0),
                Answer::Done,
                Answer::Done,
            ];
            &&& program.asked(answers) == seq![
                Op::Read(Field::AhbIdle),
                Op::Apply(Change::StartCoreReset),
                Op::Read(Field::CoreReset),
                Op::Delay(3_000),
                Op::Apply(Change::UngateClocks),
            ]
            &&& program.given(answers) == Program::<Op, Answer, ()>::Return(())
        }),
{
    let answers = seq![
        Answer::Word(idle),
        Answer::Done,
        Answer::Word(0),
        Answer::Done,
        Answer::Done,
    ];
    reveal_with_fuel(Program::asked, 7);
    reveal_with_fuel(Program::given, 7);
    reveal_with_fuel(Program::bind, 3);
    let two = answers.skip(1).skip(1);
    assert(two[0] == Answer::Word(0));
    assert(two.skip(1).skip(1).skip(1).len() == 0);
}

/// The three FIFOs are a thousand and twenty-four words each, one right behind the other, and
/// are flushed when they have been laid out.
pub proof fn law_fifos()
    ensures
        ({
            let program = host::fifo_program();
            let done = Answer::Done;
            let answers = seq![done, done, done, done, Answer::Word(0), done, Answer::Word(0)];
            &&& program.asked(answers) == seq![
                Op::Apply(Change::RxFifo { depth: 1024 }),
                Op::Apply(Change::NonPeriodicTxFifo { start: 1024, depth: 1024 }),
                Op::Apply(Change::PeriodicTxFifo { start: 2048, depth: 1024 }),
                Op::Apply(Change::FlushRxFifo),
                Op::Read(Field::RxFlush),
                Op::Apply(Change::FlushTxFifo { number: 16 }),
                Op::Read(Field::TxFlush),
            ]
            &&& program.given(answers) == Program::<Op, Answer, ()>::Return(())
        }),
{
    let done = Answer::Done;
    let answers = seq![done, done, done, done, Answer::Word(0), done, Answer::Word(0)];
    reveal_with_fuel(Program::asked, 9);
    reveal_with_fuel(Program::given, 9);
    reveal_with_fuel(Program::bind, 3);
    let four = answers.skip(1).skip(1).skip(1).skip(1);
    assert(four[0] == Answer::Word(0));
    assert(four.skip(1).skip(1)[0] == Answer::Word(0));
    assert(four.skip(1).skip(1).skip(1).len() == 0);
}

/// The controller becomes a host, which takes it twenty-five milliseconds, with DMA, without
/// an interrupt for each frame, and with those of the port and of the channels. Its port is
/// powered. It has the channels that it reports.
pub proof fn law_host_mode(count: u32)
    ensures
        ({
            let program = host::host_mode_program();
            let done = Answer::Done;
            let answers = seq![done, done, done, done, done, done, done, Answer::Word(count)];
            &&& program.asked(answers) == seq![
                Op::Apply(Change::ForceHostMode),
                Op::Delay(25_000),
                Op::Apply(Change::EnableDmaAndInterrupts),
                Op::Apply(Change::SofMask { unmasked: false }),
                Op::Apply(Change::UnmaskInterrupts { bits: 0x0300_0000 }),
                Op::Apply(Change::NoOtgCapabilities),
                Op::Apply(
                    Change::Port(
                        PortBits {
                            power: true,
                            reset: false,
                            connect_detected: false,
                            enable_changed: false,
                            overcurrent_changed: false,
                        },
                    ),
                ),
                Op::Read(Field::HostChannelCount),
            ]
            &&& program.given(answers) == Program::<Op, Answer, u8>::Return(
                if count < 12 {
                    (count + 1) as u8
                } else {
                    12
                },
            )
        }),
{
    let done = Answer::Done;
    let answers = seq![done, done, done, done, done, done, done, Answer::Word(count)];
    reveal_with_fuel(Program::asked, 10);
    reveal_with_fuel(Program::given, 10);
    let seven = answers.skip(1).skip(1).skip(1).skip(1).skip(1).skip(1).skip(1);
    assert(seven[0] == Answer::Word(count));
    assert(seven.skip(1).len() == 0);
}

/// The controller is brought up in three steps: the core is reset, its FIFOs are laid out,
/// and it becomes a host. What it has then reported is the number of its channels.
pub proof fn law_bring_up(reset: Seq<Answer>, fifos: Seq<Answer>, host: Seq<Answer>, channels: u8)
    requires
        host::core_reset_program().given(reset) == Program::<Op, Answer, ()>::Return(()),
        host::fifo_program().given(fifos) == Program::<Op, Answer, ()>::Return(()),
        host::host_mode_program().given(host) == Program::<Op, Answer, u8>::Return(channels),
    ensures
        ({
            let program = host::init_program();
            let answers = reset + (fifos + host);
            &&& program.asked(answers) == host::core_reset_program().asked(reset) + (
            host::fifo_program().asked(fifos) + host::host_mode_program().asked(host))
            &&& program.given(answers) == Program::<Op, Answer, u8>::Return(channels)
        }),
{
    let last = |laid: ()| host::host_mode_program();
    let rest = |core: ()| host::fifo_program().bind(|fifos: ()| host::host_mode_program());
    broadcast use crate::program::lemma_bind_same;

    program::lemma_given_in_turn(host::core_reset_program(), rest, reset, fifos + host, ());
    program::lemma_given_in_turn(host::fifo_program(), last, fifos, host, ());
    assert(host::init_program() == host::core_reset_program().bind(rest));
    assert(rest(()) == host::fifo_program().bind(last));
}

} // verus!

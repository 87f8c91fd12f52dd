//! How long a device is waited for before a request is given up.

use vstd::prelude::*;

use crate::program;
use crate::program::Program;
use crate::usb::control;
use crate::usb::control::{requests, Read, Setup};
use crate::usb::dwc2::{ControlEndpoint, Reply, Transfer, TransferError, UsbProgram};

verus! {

/// So many times that a device has nothing to say to a stage without data.
pub open spec fn naks(count: nat) -> Seq<Reply> {
    Seq::new(count, |i: int| Reply::Unit(Err(TransferError::Nak)))
}

/// So many times that it has no data.
pub open spec fn no_data(count: nat) -> Seq<Reply> {
    Seq::new(count, |i: int| Reply::Bytes(Err(TransferError::Nak)))
}

/// A stage that is answered with NAK each time is made as often as there are tries.
pub proof fn law_stage_given_up(stage: Transfer, tries: nat)
    ensures
        control::stage_program(stage, tries).asked(naks(tries)) == Seq::new(tries, |i: int| stage),
        control::stage_program(stage, tries).given(naks(tries)) == UsbProgram::<
            Result<(), TransferError>,
        >::Return(Err(TransferError::NakTimeout)),
    decreases tries,
{
    let program = control::stage_program(stage, tries);
    if tries > 0 {
        law_stage_given_up(stage, (tries - 1) as nat);
        assert(naks(tries).skip(1) =~= naks((tries - 1) as nat));
    }
    assert(program.asked(naks(tries)) =~= Seq::new(tries, |i: int| stage));
}

/// So is one that asks for data; the buffer stays as it was.
pub proof fn law_data_given_up(device: ControlEndpoint, buf: Seq<u8>, tries: nat)
    ensures
        ({
            let program = control::data_program(device, buf, tries);
            let stage = Transfer::DataIn(device, buf.len() as usize);
            &&& program.asked(no_data(tries)) == Seq::new(tries, |i: int| stage)
            &&& program.given(no_data(tries)) == UsbProgram::<Read>::Return(
                (Err(TransferError::NakTimeout), buf),
            )
        }),
    decreases tries,
{
    let program = control::data_program(device, buf, tries);
    let stage = Transfer::DataIn(device, buf.len() as usize);
    if tries > 0 {
        law_data_given_up(device, buf, (tries - 1) as nat);
        assert(no_data(tries).skip(1) =~= no_data((tries - 1) as nat));
    }
    assert(program.asked(no_data(tries)) =~= Seq::new(tries, |i: int| stage));
}

/// A request without data is given up after ten thousand tries of either of its stages.
pub proof fn law_request_given_up(device: ControlEndpoint, setup: Setup)
    ensures
        ({
            let program = control::no_data_program(device, setup);
            let timeout = UsbProgram::<Result<(), TransferError>>::Return(
                Err(TransferError::NakTimeout),
            );
            &&& program.given(naks(10_000)) == timeout
            &&& program.given(seq![requests::done()] + naks(10_000)) == timeout
            &&& program.asked(naks(10_000)) == Seq::new(
                10_000,
                |i: int| Transfer::Setup(device, setup.packet()),
            )
        }),
{
    let program = control::no_data_program(device, setup);
    let stage = Transfer::Setup(device, setup.packet());
    let first = control::stage_program(stage, 10_000);
    let second = control::stage_program(Transfer::StatusIn(device), 10_000);
    let next = |result: Result<(), TransferError>|
        match result {
            Ok(value) => second,
            Err(error) => Program::Return(Err(error)),
        };
    let none = Seq::<Reply>::empty();
    let one = seq![requests::done()];
    broadcast use crate::program::lemma_bind_same;

    law_stage_given_up(stage, 10_000);
    law_stage_given_up(Transfer::StatusIn(device), 10_000);
    program::lemma_given_in_turn(first, next, naks(10_000), none, Err(TransferError::NakTimeout));
    assert(naks(10_000) + none =~= naks(10_000));
    assert(first.given(one) == UsbProgram::<Result<(), TransferError>>::Return(Ok(()))) by {
        reveal_with_fuel(Program::given, 2);
        assert(one.skip(1).len() == 0);
    }
    program::lemma_given_in_turn(first, next, one, naks(10_000), Ok(()));
    assert(program == first.bind(next));
    assert(first.asked(naks(10_000)) + next(Err(TransferError::NakTimeout)).asked(none)
        =~= first.asked(naks(10_000)));
}

/// So is a read, whichever of its first two stages it is.
pub proof fn law_read_given_up(device: ControlEndpoint, setup: Setup, buf: Seq<u8>)
    ensures
        ({
            let program = control::control_in_program(device, setup, buf);
            let timeout = UsbProgram::<Read>::Return((Err(TransferError::NakTimeout), buf));
            &&& program.given(naks(10_000)) == timeout
            &&& program.given(seq![requests::done()] + no_data(10_000)) == timeout
        }),
{
    let program = control::control_in_program(device, setup, buf);
    let stage = Transfer::Setup(device, setup.packet());
    let first = control::stage_program(stage, 10_000);
    let data = control::data_program(device, buf, 10_000);
    let end = |read: Read|
        match read.0 {
            Err(error) => Program::Return(read),
            Ok(count) => control::stage_program(Transfer::StatusOut(device), 10_000).bind(
                |ended: Result<(), TransferError>|
                    match ended {
                        Err(error) => Program::Return((Err(error), read.1)),
                        Ok(()) => Program::Return(read),
                    },
            ),
        };
    let next = |asked: Result<(), TransferError>|
        match asked {
            Err(error) => UsbProgram::<Read>::Return((Err(error), buf)),
            Ok(()) => data.bind(end),
        };
    let none = Seq::<Reply>::empty();
    let one = seq![requests::done()];
    broadcast use crate::program::lemma_bind_same;

    law_stage_given_up(stage, 10_000);
    law_data_given_up(device, buf, 10_000);
    program::lemma_given_in_turn(first, next, naks(10_000), none, Err(TransferError::NakTimeout));
    assert(naks(10_000) + none =~= naks(10_000));
    assert(first.given(one) == UsbProgram::<Result<(), TransferError>>::Return(Ok(()))) by {
        reveal_with_fuel(Program::given, 2);
        assert(one.skip(1).len() == 0);
    }
    program::lemma_given_in_turn(first, next, one, no_data(10_000), Ok(()));
    program::lemma_given_in_turn(
        data,
        end,
        no_data(10_000),
        none,
        (Err(TransferError::NakTimeout), buf),
    );
    assert(no_data(10_000) + none =~= no_data(10_000));
    assert(program == first.bind(next));
}

/// The answers of a descriptor that fails three times, with a pause after the first two.
pub open spec fn fails_thrice(error: TransferError) -> Seq<Reply> {
    let failed = Reply::Unit(Err(error));
    seq![failed, Reply::Done, failed, Reply::Done, failed]
}

/// The first bytes of a device's descriptor and its configuration are asked for three times;
/// then the failure is told.
pub proof fn law_descriptor_given_up(
    device: ControlEndpoint,
    index: u8,
    buf: Seq<u8>,
    error: TransferError,
)
    requires
        error != TransferError::Nak,
    ensures
        control::configuration_program(device, index, buf).given(fails_thrice(error))
            == UsbProgram::<Read>::Return((Err(error), buf)),
        control::header_program(device).given(fails_thrice(error)) == UsbProgram::<
            Result<Seq<u8>, TransferError>,
        >::Return(Err(error)),
{
    let setup = control::descriptor_setup(0x80, 2, index, 9);
    let small = ControlEndpoint { max_packet_size: 8, ..device };
    let begin = control::descriptor_setup(0x80, 1, 0, 8);
    lemma_fails_thrice(device, setup, control::zeros(9), error);
    lemma_fails_thrice(small, begin, control::zeros(8), error);
    let none = Seq::<Reply>::empty();
    let whole = |header: Read|
        match header.0 {
            Err(error) => UsbProgram::<Read>::Return((Err(error), buf)),
            Ok(count) => {
                let len = control::configuration_len(header.1, buf.len() as int);
                control::descriptor_program(
                    device,
                    control::descriptor_setup(0x80, 2, index, len as u16),
                    buf.take(len),
                    3,
                ).bind(|whole: Read| Program::Return((whole.0, whole.1 + buf.skip(len))))
            },
        };
    let bytes = |read: Read|
        match read.0 {
            Ok(count) => UsbProgram::<Result<Seq<u8>, TransferError>>::Return(Ok(read.1)),
            Err(error) => Program::Return(Err(error)),
        };
    broadcast use crate::program::lemma_bind_same;

    let one = control::descriptor_program(device, setup, control::zeros(9), 3);
    let two = control::descriptor_program(small, begin, control::zeros(8), 3);
    assert(fails_thrice(error) + none =~= fails_thrice(error));
    let failed = (Err::<usize, TransferError>(error), control::zeros(9));
    program::lemma_given_in_turn(one, whole, fails_thrice(error), none, failed);
    let failed = (Err::<usize, TransferError>(error), control::zeros(8));
    program::lemma_given_in_turn(two, bytes, fails_thrice(error), none, failed);
    assert(control::configuration_program(device, index, buf) == one.bind(whole));
    assert(control::header_program(device) == two.bind(bytes));
}

proof fn lemma_fails_thrice(
    device: ControlEndpoint,
    setup: Setup,
    buf: Seq<u8>,
    error: TransferError,
)
    requires
        error != TransferError::Nak,
    ensures
        control::descriptor_program(device, setup, buf, 3).given(fails_thrice(error))
            == UsbProgram::<Read>::Return((Err(error), buf)),
{
    lemma_fails(device, setup, buf, 3, error);
    lemma_fails(device, setup, buf, 2, error);
    lemma_fails(device, setup, buf, 1, error);
    let three = control::descriptor_program(device, setup, buf, 3);
    let two = control::descriptor_program(device, setup, buf, 2);
    let failed = Reply::Unit(Err(error));
    let pair = seq![failed, Reply::Done];
    program::lemma_given_append(three, pair, pair + seq![failed]);
    program::lemma_given_append(two, pair, seq![failed]);
    assert(fails_thrice(error) =~= pair + (pair + seq![failed]));
}

proof fn lemma_fails(
    device: ControlEndpoint,
    setup: Setup,
    buf: Seq<u8>,
    tries: nat,
    error: TransferError,
)
    requires
        error != TransferError::Nak,
    ensures
        ({
            let program = control::descriptor_program(device, setup, buf, tries);
            let failed = Reply::Unit(Err(error));
            &&& tries > 1 ==> program.given(seq![failed, Reply::Done])
                == control::descriptor_program(device, setup, buf, (tries - 1) as nat)
            &&& tries <= 1 ==> program.given(seq![failed]) == UsbProgram::<Read>::Return(
                (Err(error), buf),
            )
        }),
{
    reveal_with_fuel(Program::given, 3);
    reveal_with_fuel(Program::bind, 3);
    reveal_with_fuel(control::stage_program, 2);
    reveal_with_fuel(control::descriptor_program, 2);
    let failed = Reply::Unit(Err::<(), TransferError>(error));
    let pair = seq![failed, Reply::Done];
    assert(pair.skip(1)[0] == Reply::Done);
    assert(pair.skip(1).skip(1).len() == 0);
    assert(seq![failed].skip(1).len() == 0);
}

} // verus!

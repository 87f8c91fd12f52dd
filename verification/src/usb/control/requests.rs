//! What the requests of a control endpoint are on the wire, and what is made of the replies.

use vstd::prelude::*;

use crate::program;
use crate::program::Program;
use crate::usb::control;
use crate::usb::control::Setup;
use crate::usb::descriptor::DeviceDescriptor;
use crate::usb::dwc2::{ControlEndpoint, Reply, Transfer, TransferError, UsbProgram};

verus! {

/// The eight bytes of a request: the kind of the request, the request, and the value, the
/// index and the length, each with its low byte first.
pub open spec fn spelled(packet: Seq<u8>, setup: Setup) -> bool {
    &&& packet.len() == 8
    &&& packet[0] == setup.request_type
    &&& packet[1] == setup.request
    &&& packet[2] + 256 * packet[3] == setup.value
    &&& packet[4] + 256 * packet[5] == setup.index
    &&& packet[6] + 256 * packet[7] == setup.length
}

/// A request is on the wire as it is spelled.
pub proof fn law_packet(setup: Setup)
    ensures
        spelled(setup.packet(), setup),
{
    crate::bytes::law_le16(setup.value);
    crate::bytes::law_le16(setup.index);
    crate::bytes::law_le16(setup.length);
}

/// A stage that succeeded.
pub open spec fn done() -> Reply {
    Reply::Unit(Ok(()))
}

pub(crate) proof fn lemma_no_data(device: ControlEndpoint, setup: Setup)
    ensures
        control::no_data_program(device, setup).asked(seq![done()]) == seq![
            Transfer::Setup(device, setup.packet()),
            Transfer::StatusIn(device),
        ],
        control::no_data_program(device, setup).given(seq![done(), done()]) == UsbProgram::<
            Result<(), TransferError>,
        >::Return(Ok(())),
{
    reveal_with_fuel(Program::asked, 3);
    reveal_with_fuel(Program::given, 3);
    reveal_with_fuel(Program::bind, 3);
    reveal_with_fuel(control::stage_program, 2);
    assert(seq![done()].skip(1).len() == 0);
    assert(seq![done(), done()].skip(1) =~= seq![done()]);
}

/// A device is given its address by request 5, whose value is the address; and once it has
/// taken it, it is left alone for two milliseconds.
pub proof fn law_set_address(device: ControlEndpoint, address: u8)
    ensures
        control::set_address_program(device, address).asked(seq![done(), done()]) == seq![
            Transfer::Setup(device, seq![0, 5, address, 0, 0, 0, 0, 0]),
            Transfer::StatusIn(device),
            Transfer::DelayMs(2),
        ],
{
    reveal_with_fuel(Program::asked, 4);
    reveal_with_fuel(Program::bind, 4);
    reveal_with_fuel(control::stage_program, 2);
    let setup = Setup { request_type: 0, request: 5, value: address as u16, index: 0, length: 0 };
    assert(setup.packet() =~= seq![0, 5, address, 0, 0, 0, 0, 0]);
    assert(seq![done(), done()].skip(1) =~= seq![done()]);
    assert(seq![done()].skip(1).len() == 0);
}

/// A configuration is selected by request 9, whose value is that of the configuration.
pub proof fn law_set_configuration(device: ControlEndpoint, value: u8)
    ensures
        control::set_configuration_program(device, value).asked(seq![done()]) == seq![
            Transfer::Setup(device, seq![0, 9, value, 0, 0, 0, 0, 0]),
            Transfer::StatusIn(device),
        ],
{
    let setup = Setup { request_type: 0, request: 9, value: value as u16, index: 0, length: 0 };
    assert(setup.packet() =~= seq![0, 9, value, 0, 0, 0, 0, 0]);
    lemma_no_data(device, setup);
}

/// A descriptor is asked for by request 6: which of its kind in the low byte of the value,
/// and the kind in the high one.
pub proof fn law_descriptor_request(
    device: ControlEndpoint,
    request_type: u8,
    kind: u8,
    which: u8,
    buf: Seq<u8>,
    tries: nat,
)
    requires
        buf.len() <= 0xFFFF,
    ensures
        control::descriptor_program(
            device,
            control::descriptor_setup(request_type, kind, which, buf.len() as u16),
            buf,
            tries,
        ).asked(seq![done(), Reply::Bytes(Ok(buf))]) == seq![
            Transfer::Setup(
                device,
                seq![
                    request_type,
                    6,
                    which,
                    kind,
                    0,
                    0,
                    (buf.len() % 256) as u8,
                    (buf.len() / 256) as u8,
                ],
            ),
            Transfer::DataIn(device, buf.len() as usize),
            Transfer::StatusOut(device),
        ],
{
    reveal_with_fuel(Program::asked, 4);
    reveal_with_fuel(Program::bind, 4);
    reveal_with_fuel(control::stage_program, 2);
    reveal_with_fuel(control::data_program, 2);
    let setup = control::descriptor_setup(request_type, kind, which, buf.len() as u16);
    assert(setup.packet() =~= seq![
        request_type,
        6,
        which,
        kind,
        0,
        0,
        (buf.len() % 256) as u8,
        (buf.len() / 256) as u8,
    ]);
    let answers = seq![done(), Reply::Bytes(Ok(buf))];
    assert(answers.skip(1) =~= seq![Reply::Bytes(Ok(buf))]);
    assert(answers.skip(1).skip(1).len() == 0);
}

/// A control read that succeeds puts what came in over the front of the buffer and leaves
/// the rest of it; and what it counts is what came in.
pub proof fn law_read_replies(
    device: ControlEndpoint,
    setup: Setup,
    buf: Seq<u8>,
    came: Seq<u8>,
)
    requires
        came.len() <= buf.len() <= usize::MAX,
    ensures
        ({
            let program = control::control_in_program(device, setup, buf);
            let answers = seq![done(), Reply::Bytes(Ok(came)), done()];
            &&& program.asked(answers) == seq![
                Transfer::Setup(device, setup.packet()),
                Transfer::DataIn(device, buf.len() as usize),
                Transfer::StatusOut(device),
            ]
            &&& program.given(answers) matches Program::Return(read)
            &&& read.0 == Ok::<usize, TransferError>(came.len() as usize)
            &&& read.1.len() == buf.len()
            &&& read.1.take(came.len() as int) == came
            &&& read.1.skip(came.len() as int) == buf.skip(came.len() as int)
        }),
{
    reveal_with_fuel(Program::asked, 4);
    reveal_with_fuel(Program::given, 4);
    reveal_with_fuel(Program::bind, 4);
    reveal_with_fuel(control::stage_program, 2);
    reveal_with_fuel(control::data_program, 2);
    let answers = seq![done(), Reply::Bytes(Ok(came)), done()];
    assert(answers.skip(1) =~= seq![Reply::Bytes(Ok(came)), done()]);
    assert(answers.skip(1).skip(1) =~= seq![done()]);
    assert(answers.skip(1).skip(1).skip(1).len() == 0);
    let whole = came + buf.skip(came.len() as int);
    assert(whole.take(came.len() as int) =~= came);
    assert(whole.skip(came.len() as int) =~= buf.skip(came.len() as int));
}

/// A stage that is answered with NAK is made again, as long as there are tries left, and then
/// has timed out; any other failure is the end of it.
pub proof fn law_stage_tries(stage: Transfer, tries: nat, error: TransferError)
    ensures
        ({
            let program = control::stage_program(stage, tries);
            let nak = seq![Reply::Unit(Err(TransferError::Nak))];
            let timeout = UsbProgram::<Result<(), TransferError>>::Return(
                Err(TransferError::NakTimeout),
            );
            &&& tries > 0 ==> (program matches Program::Request(asked, next) && asked == stage)
            &&& tries == 0 ==> program == timeout
            &&& tries > 1 ==> program.asked(nak) == seq![stage, stage]
            &&& tries == 1 ==> program.given(nak) == timeout
            &&& tries > 0 && error != TransferError::Nak ==> program.given(
                seq![Reply::Unit(Err(error))],
            ) == UsbProgram::<Result<(), TransferError>>::Return(Err(error))
        }),
{
    reveal_with_fuel(Program::asked, 3);
    reveal_with_fuel(Program::given, 3);
    reveal_with_fuel(control::stage_program, 3);
    assert(seq![Reply::Unit(Err::<(), TransferError>(TransferError::Nak))].skip(1).len() == 0);
    assert(seq![Reply::Unit(Err::<(), TransferError>(error))].skip(1).len() == 0);
}

/// A descriptor that does not come is asked for again after five milliseconds, as long as
/// there are tries left; then the failure is told.
pub proof fn law_descriptor_tries(
    device: ControlEndpoint,
    setup: Setup,
    buf: Seq<u8>,
    tries: nat,
    error: TransferError,
    waited: Reply,
)
    requires
        error != TransferError::Nak,
    ensures
        ({
            let program = control::descriptor_program(device, setup, buf, tries);
            let failed = seq![Reply::Unit(Err(error))];
            let asks = Transfer::Setup(device, setup.packet());
            &&& tries > 1 ==> program.asked(failed.push(waited)) == seq![
                asks,
                Transfer::DelayMs(5),
                asks,
            ]
            &&& tries <= 1 ==> program.given(failed) == UsbProgram::<control::Read>::Return(
                (Err(error), buf),
            )
        }),
{
    reveal_with_fuel(Program::asked, 5);
    reveal_with_fuel(Program::given, 3);
    reveal_with_fuel(Program::bind, 3);
    reveal_with_fuel(control::stage_program, 2);
    reveal_with_fuel(control::descriptor_program, 3);
    let failed = seq![Reply::Unit(Err::<(), TransferError>(error))];
    let two = failed.push(waited);
    assert(failed.skip(1).len() == 0);
    assert(two.skip(1) =~= seq![waited]);
    assert(two.skip(1).skip(1).len() == 0);
}

/// The answers of a read that succeeds.
pub open spec fn read_answers(came: Seq<u8>) -> Seq<Reply> {
    seq![done(), Reply::Bytes(Ok(came)), done()]
}

/// The stages of a read: the request, the data, and the status.
pub open spec fn read_stages(device: ControlEndpoint, packet: Seq<u8>, len: nat) -> Seq<Transfer> {
    seq![
        Transfer::Setup(device, packet),
        Transfer::DataIn(device, len as usize),
        Transfer::StatusOut(device),
    ]
}

/// A descriptor that comes the first time it is asked for is not asked for again.
pub(crate) proof fn lemma_descriptor_read(
    device: ControlEndpoint,
    setup: Setup,
    buf: Seq<u8>,
    came: Seq<u8>,
    tries: nat,
)
    requires
        came.len() <= buf.len() <= usize::MAX,
    ensures
        ({
            let program = control::descriptor_program(device, setup, buf, tries);
            &&& program.asked(read_answers(came)) == read_stages(device, setup.packet(), buf.len())
            &&& program.given(read_answers(came)) == UsbProgram::<control::Read>::Return(
                (Ok(came.len() as usize), came + buf.skip(came.len() as int)),
            )
        }),
{
    law_read_replies(device, setup, buf, came);
    let read = control::control_in_program(device, setup, buf);
    let whole = (read.given(read_answers(came)))->Return_0;
    assert(whole.1 =~= came + buf.skip(came.len() as int)) by {
        assert(whole.1 =~= whole.1.take(came.len() as int) + whole.1.skip(came.len() as int));
    }
    let once = |read: control::Read|
        if read.0 is Ok || tries <= 1 {
            Program::Return(read)
        } else {
            control::pause(
                control::DESCRIPTOR_RETRY_MS,
                control::descriptor_program(device, setup, read.1, (tries - 1) as nat),
            )
        };
    program::lemma_given_in_turn(read, once, read_answers(came), Seq::empty(), whole);
    assert(read_answers(came) + Seq::<Reply>::empty() =~= read_answers(came));
    let stages = read_stages(device, setup.packet(), buf.len());
    assert(stages + Seq::<Transfer>::empty() =~= stages);
    assert(control::descriptor_program(device, setup, buf, tries) == read.bind(once)) by {
        broadcast use crate::program::lemma_bind_same;

    }
}

/// The packet that asks for a descriptor of the device.
pub open spec fn asks_for(kind: u8, which: u8, len: nat) -> Seq<u8> {
    seq![0x80, 6, which, kind, 0, 0, (len % 256) as u8, (len / 256) as u8]
}

proof fn lemma_asks_for(kind: u8, which: u8, len: u16)
    ensures
        control::descriptor_setup(0x80, kind, which, len).packet() == asks_for(
            kind,
            which,
            len as nat,
        ),
{
    assert(control::descriptor_setup(0x80, kind, which, len).packet() =~= asks_for(
        kind,
        which,
        len as nat,
    ));
}

/// A configuration is read in two steps: nine bytes, which say how long it is; and then as
/// much of it as there is and as there is room for. What came is in front of what was in the
/// buffer, and is what is counted.
pub proof fn law_configuration_read(
    device: ControlEndpoint,
    which: u8,
    buf: Seq<u8>,
    header: Seq<u8>,
    came: Seq<u8>,
)
    requires
        buf.len() <= 0xFFFF,
        header.len() == 9,
        came.len() <= control::configuration_len(header, buf.len() as int),
    ensures
        ({
            let program = control::configuration_program(device, which, buf);
            let len = control::configuration_len(header, buf.len() as int) as nat;
            let answers = read_answers(header) + read_answers(came);
            &&& program.asked(answers) == read_stages(device, asks_for(2, which, 9), 9)
                + read_stages(device, asks_for(2, which, len), len)
            &&& program.given(answers) == UsbProgram::<control::Read>::Return(
                (Ok(came.len() as usize), came + buf.skip(came.len() as int)),
            )
        }),
{
    law_configuration_len(header, buf.len() as int);
    let len = control::configuration_len(header, buf.len() as int);
    lemma_asks_for(2, which, 9);
    lemma_asks_for(2, which, len as u16);
    let tries = control::DESCRIPTOR_TRIES as nat;
    let short = control::descriptor_setup(0x80, 2, which, 9);
    let long = control::descriptor_setup(0x80, 2, which, len as u16);
    lemma_descriptor_read(device, short, control::zeros(9), header, tries);
    assert(header + control::zeros(9).skip(9) =~= header);
    lemma_descriptor_read(device, long, buf.take(len), came, tries);
    let end = |whole: control::Read|
        UsbProgram::<control::Read>::Return((whole.0, whole.1 + buf.skip(len)));
    let whole = came + buf.take(len).skip(came.len() as int);
    program::lemma_given_in_turn(
        control::descriptor_program(device, long, buf.take(len), tries),
        end,
        read_answers(came),
        Seq::empty(),
        (Ok(came.len() as usize), whole),
    );
    assert(read_answers(came) + Seq::<Reply>::empty() =~= read_answers(came));
    assert(whole + buf.skip(len) =~= came + buf.skip(came.len() as int));
    let rest = |header: control::Read|
        match header.0 {
            Err(error) => Program::Return((Err(error), buf)),
            Ok(count) => {
                let len = control::configuration_len(header.1, buf.len() as int);
                control::descriptor_program(
                    device,
                    control::descriptor_setup(0x80, 2, which, len as u16),
                    buf.take(len),
                    control::DESCRIPTOR_TRIES as nat,
                ).bind(
                    |whole: control::Read| Program::Return((whole.0, whole.1 + buf.skip(len))),
                )
            },
        };
    program::lemma_given_in_turn(
        control::descriptor_program(device, short, control::zeros(9), tries),
        rest,
        read_answers(header),
        read_answers(came),
        (Ok(9usize), header),
    );
    let second = read_stages(device, asks_for(2, which, len as nat), len as nat);
    assert(second + Seq::<Transfer>::empty() =~= second);
    assert(control::configuration_program(device, which, buf) == control::descriptor_program(
        device,
        short,
        control::zeros(9),
        tries,
    ).bind(rest));
}

/// Probing a device: the first eight bytes of its descriptor are read in packets of eight
/// bytes, and the whole of it in packets of the size that they say; then it is given its
/// address, and time to take it. What was read is what it is, and it is reached at its
/// address from then on.
pub proof fn law_probe_steps(
    probe: ControlEndpoint,
    address: u8,
    header: Seq<u8>,
    came: Seq<u8>,
    waited: Reply,
)
    requires
        header.len() == 8,
        came.len() == 18,
    ensures
        ({
            let program = control::probe_program(probe, address);
            let answers = read_answers(header) + (read_answers(came) + seq![
                done(),
                done(),
                waited,
            ]);
            let small = ControlEndpoint { max_packet_size: 8, ..probe };
            let sized = ControlEndpoint { max_packet_size: header[7] as u16, ..probe };
            &&& program.asked(answers) == read_stages(small, asks_for(1, 0, 8), 8) + (read_stages(
                sized,
                asks_for(1, 0, 18),
                18,
            ) + seq![
                Transfer::Setup(probe, seq![0, 5, address, 0, 0, 0, 0, 0]),
                Transfer::StatusIn(probe),
                Transfer::DelayMs(2),
            ])
            &&& program.given(answers) matches Program::Return(Ok(found))
            &&& found.0 == (ControlEndpoint {
                address,
                low_speed: probe.low_speed,
                max_packet_size: came[7] as u16,
                split: probe.split,
            })
            &&& found.1.device_class == came[4]
            &&& found.1.max_packet_size0 == came[7]
            &&& found.1.vendor_id == came[8] + 256 * came[9]
            &&& found.1.product_id == came[10] + 256 * came[11]
        }),
{
    let small = ControlEndpoint { max_packet_size: 8, ..probe };
    let sized = ControlEndpoint { max_packet_size: header[7] as u16, ..probe };
    let tries = control::DESCRIPTOR_TRIES as nat;
    let short = control::descriptor_setup(0x80, 1, 0, 8);
    let long = control::descriptor_setup(0x80, 1, 0, 18);
    lemma_asks_for(1, 0, 8);
    lemma_asks_for(1, 0, 18);
    lemma_descriptor_read(small, short, control::zeros(8), header, tries);
    lemma_descriptor_read(sized, long, control::zeros(18), came, tries);
    assert(header + control::zeros(8).skip(8) =~= header);
    assert(came + control::zeros(18).skip(18) =~= came);
    lemma_buffer_read(
        control::descriptor_program(small, short, control::zeros(8), tries),
        read_answers(header),
        8,
        header,
    );
    lemma_buffer_read(
        control::descriptor_program(sized, long, control::zeros(18), tries),
        read_answers(came),
        18,
        came,
    );
    let whole = |header: Seq<u8>|
        control::buffer_of(
            control::descriptor_program(
                ControlEndpoint { max_packet_size: header[7] as u16, ..probe },
                control::descriptor_setup(0x80, 1, 0, 18),
                control::zeros(18),
                control::DESCRIPTOR_TRIES as nat,
            ),
        );
    lemma_then(
        control::header_program(probe),
        whole,
        read_answers(header),
        read_answers(came),
        header,
    );
    assert(control::device_program(probe) == control::and_then(
        control::header_program(probe),
        whole,
    ));
    law_set_address(probe, address);
    lemma_address_taken(probe, address, waited);
    let three = seq![done(), done(), waited];
    let told = Ok::<(ControlEndpoint, DeviceDescriptor), TransferError>(
        (
            control::addressed(probe, address, crate::usb::descriptor::device_of(came)),
            crate::usb::descriptor::device_of(came),
        ),
    );
    let end = |done: ()|
        UsbProgram::<
            Result<(ControlEndpoint, DeviceDescriptor), TransferError>,
        >::Return(told);
    lemma_then(control::set_address_program(probe, address), end, three, Seq::empty(), ());
    assert(three + Seq::<Reply>::empty() =~= three);
    let last = |bytes: Seq<u8>|
        control::and_then(
            control::set_address_program(probe, address),
            |done: ()|
                Program::Return(
                    Ok::<(ControlEndpoint, DeviceDescriptor), TransferError>(
                        (
                            control::addressed(
                                probe,
                                address,
                                crate::usb::descriptor::device_of(bytes),
                            ),
                            crate::usb::descriptor::device_of(bytes),
                        ),
                    ),
                ),
        );
    assert(last(came) == control::and_then(control::set_address_program(probe, address), end));
    let read = read_answers(header) + read_answers(came);
    lemma_then(control::device_program(probe), last, read, three, came);
    assert(control::probe_program(probe, address) == control::and_then(
        control::device_program(probe),
        last,
    ));
    assert(read + three =~= read_answers(header) + (read_answers(came) + three));
    let addressing = seq![
        Transfer::Setup(probe, seq![0, 5, address, 0, 0, 0, 0, 0]),
        Transfer::StatusIn(probe),
        Transfer::DelayMs(2),
    ];
    assert(addressing + Seq::<Transfer>::empty() =~= addressing);
    let first = read_stages(small, asks_for(1, 0, 8), 8);
    let second = read_stages(sized, asks_for(1, 0, 18), 18);
    assert((first + second) + addressing =~= first + (second + addressing));
}

proof fn lemma_address_taken(probe: ControlEndpoint, address: u8, waited: Reply)
    ensures
        ({
            let program = control::set_address_program(probe, address);
            let three = seq![done(), done(), waited];
            &&& program.asked(three) == seq![
                Transfer::Setup(probe, seq![0, 5, address, 0, 0, 0, 0, 0]),
                Transfer::StatusIn(probe),
                Transfer::DelayMs(2),
            ]
            &&& program.given(three) == UsbProgram::<Result<(), TransferError>>::Return(Ok(()))
        }),
{
    reveal_with_fuel(Program::asked, 5);
    reveal_with_fuel(Program::given, 5);
    reveal_with_fuel(Program::bind, 4);
    reveal_with_fuel(control::stage_program, 2);
    let setup = Setup { request_type: 0, request: 5, value: address as u16, index: 0, length: 0 };
    assert(setup.packet() =~= seq![0, 5, address, 0, 0, 0, 0, 0]);
    let three = seq![done(), done(), waited];
    assert(three.skip(1) =~= seq![done(), waited]);
    assert(three.skip(1).skip(1) =~= seq![waited]);
    assert(three.skip(1).skip(1).skip(1).len() == 0);
}

proof fn lemma_buffer_read(
    read: UsbProgram<control::Read>,
    answers: Seq<Reply>,
    count: usize,
    came: Seq<u8>,
)
    requires
        read.given(answers) == UsbProgram::<control::Read>::Return((Ok(count), came)),
    ensures
        control::buffer_of(read).given(answers) == UsbProgram::<
            Result<Seq<u8>, TransferError>,
        >::Return(Ok(came)),
        control::buffer_of(read).asked(answers) == read.asked(answers),
{
    let end = |read: control::Read|
        match read.0 {
            Ok(count) => Program::Return(Ok(read.1)),
            Err(error) => UsbProgram::<Result<Seq<u8>, TransferError>>::Return(Err(error)),
        };
    program::lemma_given_in_turn(read, end, answers, Seq::empty(), (Ok(count), came));
    assert(answers + Seq::<Reply>::empty() =~= answers);
    assert(read.asked(answers) + Seq::<Transfer>::empty() =~= read.asked(answers));
    assert(control::buffer_of(read) == read.bind(end));
}

/// What follows a program that succeeds.
pub(crate) proof fn lemma_then<S, T>(
    first: UsbProgram<Result<S, TransferError>>,
    rest: spec_fn(S) -> UsbProgram<Result<T, TransferError>>,
    answers: Seq<Reply>,
    more: Seq<Reply>,
    value: S,
)
    requires
        first.given(answers) == UsbProgram::<Result<S, TransferError>>::Return(Ok(value)),
    ensures
        control::and_then(first, rest).given(answers + more) == rest(value).given(more),
        control::and_then(first, rest).asked(answers + more) == first.asked(answers) + rest(
            value,
        ).asked(more),
{
    let next = |result: Result<S, TransferError>|
        match result {
            Ok(value) => rest(value),
            Err(error) => Program::Return(Err(error)),
        };
    program::lemma_given_in_turn(first, next, answers, more, Ok(value));
    assert(control::and_then(first, rest) == first.bind(next));
}

/// The status of a port is asked of its hub, for four bytes; the first two are the status,
/// low byte first, and the other two what of it has changed.
pub proof fn law_port_status(device: ControlEndpoint, port: u8, came: Seq<u8>)
    requires
        came.len() == 4,
    ensures
        ({
            let program = control::port_status_program(device, port);
            let answers = seq![done(), Reply::Bytes(Ok(came)), done()];
            &&& program.asked(answers) == seq![
                Transfer::Setup(device, seq![0xA3, 0, 0, 0, port, 0, 4, 0]),
                Transfer::DataIn(device, 4),
                Transfer::StatusOut(device),
            ]
            &&& program.given(answers) matches Program::Return(Ok(pair))
            &&& pair.0 == came[0] + 256 * came[1]
            &&& pair.1 == came[2] + 256 * came[3]
        }),
{
    reveal_with_fuel(Program::asked, 4);
    reveal_with_fuel(Program::given, 4);
    reveal_with_fuel(Program::bind, 4);
    reveal_with_fuel(control::stage_program, 2);
    reveal_with_fuel(control::data_program, 2);
    assert(control::port_status_setup(port).packet() =~= seq![0xA3, 0, 0, 0, port, 0, 4, 0]);
    let answers = seq![done(), Reply::Bytes(Ok(came)), done()];
    assert(answers.skip(1) =~= seq![Reply::Bytes(Ok(came)), done()]);
    assert(answers.skip(1).skip(1) =~= seq![done()]);
    assert(answers.skip(1).skip(1).skip(1).len() == 0);
    assert(came + control::zeros(4).skip(4) =~= came);
}

/// What a request about a port of a hub is on the wire: it goes to the port, of the kind
/// that hubs have for their ports, with the feature as its value.
pub proof fn law_port_request(request: u8, feature: u16, port: u8)
    ensures
        control::port_setup(request, feature, port).packet() == seq![
            0x23,
            request,
            (feature % 256) as u8,
            (feature / 256) as u8,
            port,
            0,
            0,
            0,
        ],
{
    assert(control::port_setup(request, feature, port).packet() =~= seq![
        0x23,
        request,
        (feature % 256) as u8,
        (feature / 256) as u8,
        port,
        0,
        0,
        0,
    ]);
}

/// The report descriptor of a HID interface is asked of that interface.
pub proof fn law_report_request(interface: u8, length: u16)
    ensures
        control::report_setup(interface, length).packet() == seq![
            0x81,
            6,
            0,
            0x22,
            interface,
            0,
            (length % 256) as u8,
            (length / 256) as u8,
        ],
{
    assert(control::report_setup(interface, length).packet() =~= seq![
        0x81,
        6,
        0,
        0x22,
        interface,
        0,
        (length % 256) as u8,
        (length / 256) as u8,
    ]);
}

/// A configuration is read whole if there is room for it, and as far as there is room
/// otherwise: no more than its header says, and no more than the buffer holds.
pub proof fn law_configuration_len(header: Seq<u8>, room: int)
    requires
        header.len() >= 4,
        0 <= room,
    ensures
        ({
            let len = control::configuration_len(header, room);
            let total = header[2] + 256 * header[3];
            &&& 0 <= len <= room
            &&& len <= total
            &&& len == room || len == total
        }),
{
}

} // verus!

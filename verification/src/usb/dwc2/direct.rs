//! Transfers with a device that is reached directly and that all go well: what is done for
//! each kind of them, from the first access to the last, and what it comes to.

use vstd::prelude::*;

use crate::program;
use crate::program::Program;
use crate::usb::dwc2;
use crate::usb::dwc2::figures;
use crate::usb::dwc2::hardware::{Answer, Change, Field, HwProgram, Op};
use crate::usb::dwc2::{
    ControlEndpoint, DataPid, EndpointType, Outcome, Transaction, TransferError,
};

verus! {

/// What the controller answers while a transaction runs and completes.
pub struct Course {
    /// The frame that it is started in.
    pub number: u32,
    /// The bytes that the controller then has to move.
    pub requested: u32,
    pub time: u64,
    /// The interrupts of the channel once it has halted.
    pub hcint: u32,
    /// The bytes that are left then.
    pub left: u32,
}

impl Course {
    /// The channel has halted, with the transfer complete, and no more is left than there
    /// was to move.
    pub open spec fn completes(self) -> bool {
        self.hcint % 2 == 1 && self.hcint / 2 % 2 == 1 && self.left <= self.requested
    }

    /// The bytes that were moved.
    pub open spec fn count(self) -> usize {
        (self.requested - self.left) as usize
    }

    /// The answers, in order.
    pub open spec fn answers(self) -> Seq<Answer> {
        seq![
            Answer::Done,
            Answer::Done,
            Answer::Done,
            Answer::Done,
            Answer::Done,
            Answer::Word(self.number),
            Answer::Done,
            Answer::Word(self.requested),
            Answer::Time(self.time),
            Answer::Word(self.hcint),
            Answer::Done,
            Answer::Word(self.left),
        ]
    }
}

/// The accesses of a transaction: the orders for it; then the channel is watched until it
/// has halted, its interrupts are acknowledged, and what is left is read.
pub open spec fn accesses(
    channel: u8,
    endpoint: ControlEndpoint,
    txn: Transaction,
    course: Course,
    packets: u16,
) -> Seq<Op> {
    figures::orders(channel, endpoint, txn, false, packets) + seq![
        Op::Read(Field::FrameNumber),
        figures::with_endpoint(channel, endpoint, txn, course.number % 2 == 1),
        Op::Read(Field::BytesLeft(channel)),
        Op::Now,
        Op::Read(Field::Interrupts(channel)),
        Op::Apply(Change::AckInterrupts { channel, bits: 0xffff_ffff }),
        Op::Read(Field::BytesLeft(channel)),
    ]
}

/// The packets that the controller is told of.
pub open spec fn packets(endpoint: ControlEndpoint, txn: Transaction) -> u16 {
    dwc2::packets_for(txn.transfer_size, endpoint.max_packet_size) as u16
}

/// A device that is reached directly, and a transfer that the controller can count.
pub open spec fn direct(endpoint: ControlEndpoint, txn: Transaction) -> bool {
    &&& endpoint.split is None
    &&& endpoint.max_packet_size > 0
    &&& dwc2::packets_for(txn.transfer_size, endpoint.max_packet_size) <= u16::MAX
}

/// A transaction that completes makes those accesses, with as many packets as its bytes
/// need, and comes to the bytes that were moved.
pub proof fn law_transaction(
    channel: u8,
    endpoint: ControlEndpoint,
    txn: Transaction,
    course: Course,
)
    requires
        direct(endpoint, txn),
        course.completes(),
    ensures
        figures::is_packet_count(
            packets(endpoint, txn) as int,
            txn.transfer_size as int,
            endpoint.max_packet_size as int,
        ),
        ({
            let program = dwc2::transaction_program(channel, endpoint, txn);
            &&& program.asked(course.answers()) == accesses(
                channel,
                endpoint,
                txn,
                course,
                packets(endpoint, txn),
            )
            &&& program.given(course.answers()) == HwProgram::<Outcome>::Return(
                (Ok(course.count()), course.hcint),
            )
        }),
{
    figures::law_packets(txn.transfer_size, endpoint.max_packet_size);
    figures::law_bus_window(txn.dma_address);
    assert(dwc2::packets_for(txn.transfer_size, endpoint.max_packet_size) >= 1) by {
        if txn.transfer_size > 0 {
            vstd::arithmetic::div_mod::lemma_div_pos_is_pos(
                txn.transfer_size - 1,
                dwc2::packet_size(endpoint.max_packet_size) as int,
            );
        }
    }
    let hcint = course.hcint;
    assert(hcint & 0x002 != 0 && hcint & 0x001 != 0) by (bit_vector)
        requires
            hcint % 2 == 1,
            hcint / 2 % 2 == 1,
    ;
    let start = dwc2::start_program(channel, endpoint, txn, false, None);
    let first = seq![
        Answer::Done,
        Answer::Done,
        Answer::Done,
        Answer::Done,
        Answer::Done,
        Answer::Word(course.number),
        Answer::Done,
    ];
    lemma_started(channel, endpoint, txn, course.number);
    let rest = |started: ()| dwc2::channel_program(channel);
    let second = seq![
        Answer::Word(course.requested),
        Answer::Time(course.time),
        Answer::Word(hcint),
        Answer::Done,
        Answer::Word(course.left),
    ];
    lemma_watched(channel, course);
    program::lemma_given_in_turn(start, rest, first, second, ());
    assert(dwc2::transaction_program(channel, endpoint, txn) == start.bind(rest));
    assert(course.answers() =~= first + second);
    assert(dwc2::transaction_program(channel, endpoint, txn).asked(course.answers()) =~= accesses(
        channel,
        endpoint,
        txn,
        course,
        packets(endpoint, txn),
    ));
}

proof fn lemma_started(channel: u8, endpoint: ControlEndpoint, txn: Transaction, number: u32)
    requires
        direct(endpoint, txn),
        1 <= dwc2::packets_for(txn.transfer_size, endpoint.max_packet_size),
    ensures
        ({
            let program = dwc2::start_program(channel, endpoint, txn, false, None);
            let answers = seq![
                Answer::Done,
                Answer::Done,
                Answer::Done,
                Answer::Done,
                Answer::Done,
                Answer::Word(number),
                Answer::Done,
            ];
            &&& program.asked(answers) == figures::orders(
                channel,
                endpoint,
                txn,
                false,
                packets(endpoint, txn),
            ) + seq![
                Op::Read(Field::FrameNumber),
                figures::with_endpoint(channel, endpoint, txn, number % 2 == 1),
            ]
            &&& program.given(answers) == HwProgram::<()>::Return(())
        }),
{
    figures::law_bus_window(txn.dma_address);
    let program = dwc2::start_program(channel, endpoint, txn, false, None);
    let answers = seq![
        Answer::Done,
        Answer::Done,
        Answer::Done,
        Answer::Done,
        Answer::Done,
        Answer::Word(number),
        Answer::Done,
    ];
    reveal_with_fuel(Program::asked, 9);
    reveal_with_fuel(Program::given, 9);
    assert(answers.skip(1).skip(1).skip(1).skip(1).skip(1)[0] == Answer::Word(number));
    assert(answers.skip(1).skip(1).skip(1).skip(1).skip(1).skip(1)[0] == Answer::Done);
    assert(answers.skip(1).skip(1).skip(1).skip(1).skip(1).skip(1).skip(1).len() == 0);
    assert(program.asked(answers) =~= figures::orders(
        channel,
        endpoint,
        txn,
        false,
        packets(endpoint, txn),
    ) + seq![
        Op::Read(Field::FrameNumber),
        figures::with_endpoint(channel, endpoint, txn, number % 2 == 1),
    ]);
}

proof fn lemma_watched(channel: u8, course: Course)
    requires
        course.completes(),
        course.hcint & 0x002 != 0,
        course.hcint & 0x001 != 0,
    ensures
        ({
            let program = dwc2::channel_program(channel);
            let answers = seq![
                Answer::Word(course.requested),
                Answer::Time(course.time),
                Answer::Word(course.hcint),
                Answer::Done,
                Answer::Word(course.left),
            ];
            &&& program.asked(answers) == seq![
                Op::Read(Field::BytesLeft(channel)),
                Op::Now,
                Op::Read(Field::Interrupts(channel)),
                Op::Apply(Change::AckInterrupts { channel, bits: 0xffff_ffff }),
                Op::Read(Field::BytesLeft(channel)),
            ]
            &&& program.given(answers) == HwProgram::<Outcome>::Return(
                (Ok(course.count()), course.hcint),
            )
        }),
{
    reveal_with_fuel(Program::asked, 7);
    reveal_with_fuel(Program::given, 7);
    reveal_with_fuel(Program::bind, 5);
    reveal_with_fuel(dwc2::halt_poll, 2);
    let answers = seq![
        Answer::Word(course.requested),
        Answer::Time(course.time),
        Answer::Word(course.hcint),
        Answer::Done,
        Answer::Word(course.left),
    ];
    assert(answers.skip(1)[0] == Answer::Time(course.time));
    assert(answers.skip(1).skip(1)[0] == Answer::Word(course.hcint));
    assert(answers.skip(1).skip(1).skip(1)[0] == Answer::Done);
    assert(answers.skip(1).skip(1).skip(1).skip(1)[0] == Answer::Word(course.left));
    assert(answers.skip(1).skip(1).skip(1).skip(1).skip(1).len() == 0);
}

/// The transaction of a control transfer's stage.
pub open spec fn stage_of(sends_in: bool, pid: DataPid, bytes: u32, address: u32) -> Transaction {
    Transaction {
        endpoint_number: 0,
        endpoint_type: EndpointType::Control,
        direction_in: sends_in,
        pid,
        transfer_size: bytes,
        dma_address: address,
    }
}

proof fn lemma_plain(
    channel: u8,
    endpoint: ControlEndpoint,
    txn: Transaction,
    course: Course,
)
    requires
        direct(endpoint, txn),
        course.completes(),
    ensures
        ({
            let program = dwc2::plain_program(channel, endpoint, txn);
            &&& program.asked(course.answers()) == accesses(
                channel,
                endpoint,
                txn,
                course,
                packets(endpoint, txn),
            )
            &&& program.given(course.answers()) == HwProgram::<
                (Result<(), TransferError>, u32),
            >::Return((Ok(()), course.hcint))
        }),
{
    law_transaction(channel, endpoint, txn, course);
    let end = |outcome: Outcome|
        HwProgram::<(Result<(), TransferError>, u32)>::Return(
            (
                match outcome.0 {
                    Ok(count) => Ok(()),
                    Err(error) => Err(error),
                },
                outcome.1,
            ),
        );
    program::lemma_given_in_turn(
        dwc2::transaction_program(channel, endpoint, txn),
        end,
        course.answers(),
        Seq::empty(),
        (Ok(course.count()), course.hcint),
    );
    assert(course.answers() + Seq::<Answer>::empty() =~= course.answers());
    assert(dwc2::plain_program(channel, endpoint, txn) == dwc2::transaction_program(
        channel,
        endpoint,
        txn,
    ).bind(end));
    let all = accesses(channel, endpoint, txn, course, packets(endpoint, txn));
    assert(all + Seq::<Op>::empty() =~= all);
}

proof fn lemma_behind<T>(
    request: Op,
    address: u32,
    rest: spec_fn(u32) -> HwProgram<T>,
    answers: Seq<Answer>,
)
    requires
        request is Stage || request is Landing,
    ensures
        ({
            let program = Program::Request(
                request,
                |answer: Answer|
                    match answer {
                        Answer::Word(address) => rest(address),
                        _ => Program::Stuck,
                    },
            );
            let all = seq![Answer::Word(address)] + answers;
            &&& program.asked(all) == seq![request] + rest(address).asked(answers)
            &&& program.given(all) == rest(address).given(answers)
        }),
{
    let all = seq![Answer::Word(address)] + answers;
    assert(all.skip(1) =~= answers);
}

/// The SETUP stage: the eight bytes go out to endpoint 0 as a packet of that kind.
pub proof fn law_setup(
    channel: u8,
    endpoint: ControlEndpoint,
    setup: Seq<u8>,
    address: u32,
    course: Course,
)
    requires
        direct(endpoint, stage_of(false, DataPid::Setup, 8, address)),
        course.completes(),
    ensures
        ({
            let txn = stage_of(false, DataPid::Setup, 8, address);
            let program = dwc2::setup_program(channel, endpoint, setup);
            let answers = seq![Answer::Word(address)] + course.answers();
            &&& program.asked(answers) == seq![Op::Stage(setup)] + accesses(
                channel,
                endpoint,
                txn,
                course,
                packets(endpoint, txn),
            )
            &&& program.given(answers) == HwProgram::<(Result<(), TransferError>, u32)>::Return(
                (Ok(()), course.hcint),
            )
        }),
{
    let txn = stage_of(false, DataPid::Setup, 8, address);
    lemma_plain(channel, endpoint, txn, course);
    let rest = |address: u32|
        dwc2::plain_program(
            channel,
            endpoint,
            dwc2::control_txn(false, DataPid::Setup, 8, address),
        );
    lemma_behind(Op::Stage(setup), address, rest, course.answers());
    assert(dwc2::control_txn(false, DataPid::Setup, 8, address) == txn);
}

/// The data stage of a write: all of the data goes out to endpoint 0, odd packet first.
pub proof fn law_data_out(
    channel: u8,
    endpoint: ControlEndpoint,
    data: Seq<u8>,
    address: u32,
    course: Course,
)
    requires
        direct(endpoint, stage_of(false, DataPid::Data1, data.len() as u32, address)),
        course.completes(),
    ensures
        ({
            let txn = stage_of(false, DataPid::Data1, data.len() as u32, address);
            let program = dwc2::data_out_program(channel, endpoint, data);
            let answers = seq![Answer::Word(address)] + course.answers();
            &&& program.asked(answers) == seq![Op::Stage(data)] + accesses(
                channel,
                endpoint,
                txn,
                course,
                packets(endpoint, txn),
            )
            &&& program.given(answers) == HwProgram::<(Result<(), TransferError>, u32)>::Return(
                (Ok(()), course.hcint),
            )
        }),
{
    let txn = stage_of(false, DataPid::Data1, data.len() as u32, address);
    lemma_plain(channel, endpoint, txn, course);
    let rest = |address: u32|
        dwc2::plain_program(
            channel,
            endpoint,
            dwc2::control_txn(false, DataPid::Data1, data.len() as u32, address),
        );
    lemma_behind(Op::Stage(data), address, rest, course.answers());
}

/// A status stage: an empty odd packet with endpoint 0, in the direction that it is for.
pub proof fn law_status(
    channel: u8,
    endpoint: ControlEndpoint,
    direction_in: bool,
    address: u32,
    course: Course,
)
    requires
        direct(endpoint, stage_of(direction_in, DataPid::Data1, 0, address)),
        course.completes(),
    ensures
        ({
            let txn = stage_of(direction_in, DataPid::Data1, 0, address);
            let program = dwc2::status_program(channel, endpoint, direction_in);
            let answers = seq![Answer::Word(address)] + course.answers();
            &&& program.asked(answers) == seq![Op::Landing(0)] + accesses(
                channel,
                endpoint,
                txn,
                course,
                packets(endpoint, txn),
            )
            &&& program.given(answers) == HwProgram::<(Result<(), TransferError>, u32)>::Return(
                (Ok(()), course.hcint),
            )
        }),
{
    let txn = stage_of(direction_in, DataPid::Data1, 0, address);
    lemma_plain(channel, endpoint, txn, course);
    let rest = |address: u32|
        dwc2::plain_program(
            channel,
            endpoint,
            dwc2::control_txn(direction_in, DataPid::Data1, 0, address),
        );
    lemma_behind(Op::Landing(0), address, rest, course.answers());
}

proof fn lemma_inward(
    channel: u8,
    endpoint: ControlEndpoint,
    txn: Transaction,
    course: Course,
    len: usize,
    came: Seq<u8>,
)
    requires
        direct(endpoint, txn),
        course.completes(),
    ensures
        ({
            let program = dwc2::inward_program(channel, endpoint, txn, len);
            let answers = course.answers() + seq![Answer::Bytes(came)];
            let fetched: usize = if course.count() <= len { course.count() } else { len };
            &&& program.asked(answers) == accesses(
                channel,
                endpoint,
                txn,
                course,
                packets(endpoint, txn),
            ) + seq![Op::Fetch(fetched)]
            &&& program.given(answers) == HwProgram::<
                (Result<Seq<u8>, TransferError>, u32),
            >::Return((Ok(came), course.hcint))
        }),
{
    law_transaction(channel, endpoint, txn, course);
    let end = |outcome: Outcome|
        match outcome.0 {
            Ok(count) => crate::usb::dwc2::hardware::fetch(
                dwc2::at_most(count, len),
                |bytes: Seq<u8>| Program::Return((Ok(bytes), outcome.1)),
            ),
            Err(error) => HwProgram::<(Result<Seq<u8>, TransferError>, u32)>::Return(
                (Err(error), outcome.1),
            ),
        };
    let more = seq![Answer::Bytes(came)];
    program::lemma_given_in_turn(
        dwc2::transaction_program(channel, endpoint, txn),
        end,
        course.answers(),
        more,
        (Ok(course.count()), course.hcint),
    );
    assert(dwc2::inward_program(channel, endpoint, txn, len) == dwc2::transaction_program(
        channel,
        endpoint,
        txn,
    ).bind(end));
    reveal_with_fuel(Program::asked, 3);
    reveal_with_fuel(Program::given, 3);
    assert(more.skip(1).len() == 0);
    let last = end((Ok(course.count()), course.hcint));
    assert(last.asked(more) =~= seq![Op::Fetch(dwc2::at_most(course.count(), len))]);
}

/// The data stage of a read: so many bytes from endpoint 0, odd packet first. What is
/// fetched is what was moved, but no more than there is room for.
pub proof fn law_data_in(
    channel: u8,
    endpoint: ControlEndpoint,
    len: usize,
    address: u32,
    course: Course,
    came: Seq<u8>,
)
    requires
        direct(endpoint, stage_of(true, DataPid::Data1, len as u32, address)),
        course.completes(),
    ensures
        ({
            let txn = stage_of(true, DataPid::Data1, len as u32, address);
            let program = dwc2::data_in_program(channel, endpoint, len);
            let answers = seq![Answer::Word(address)] + (course.answers() + seq![
                Answer::Bytes(came),
            ]);
            let fetched: usize = if course.count() <= len { course.count() } else { len };
            &&& program.asked(answers) == seq![Op::Landing(len)] + (accesses(
                channel,
                endpoint,
                txn,
                course,
                packets(endpoint, txn),
            ) + seq![Op::Fetch(fetched)])
            &&& program.given(answers) == HwProgram::<
                (Result<Seq<u8>, TransferError>, u32),
            >::Return((Ok(came), course.hcint))
        }),
{
    let txn = stage_of(true, DataPid::Data1, len as u32, address);
    lemma_inward(channel, endpoint, txn, course, len, came);
    let rest = |address: u32|
        dwc2::inward_program(
            channel,
            endpoint,
            dwc2::control_txn(true, DataPid::Data1, len as u32, address),
            len,
        );
    lemma_behind(Op::Landing(len), address, rest, course.answers() + seq![Answer::Bytes(came)]);
}

/// An interrupt transfer: so many bytes from the endpoint, beginning with the packet that
/// the toggle is for.
pub proof fn law_interrupt(
    channel: u8,
    endpoint: ControlEndpoint,
    number: u8,
    toggle: bool,
    len: usize,
    address: u32,
    course: Course,
    came: Seq<u8>,
)
    requires
        direct(endpoint, interrupt_of(number, toggle, len as u32, address)),
        course.completes(),
    ensures
        ({
            let txn = interrupt_of(number, toggle, len as u32, address);
            let program = dwc2::interrupt_program(channel, endpoint, number, toggle, len);
            let answers = seq![Answer::Word(address)] + (course.answers() + seq![
                Answer::Bytes(came),
            ]);
            let fetched: usize = if course.count() <= len { course.count() } else { len };
            &&& program.asked(answers) == seq![Op::Landing(len)] + (accesses(
                channel,
                endpoint,
                txn,
                course,
                packets(endpoint, txn),
            ) + seq![Op::Fetch(fetched)])
            &&& program.given(answers) == HwProgram::<
                (Result<Seq<u8>, TransferError>, u32),
            >::Return((Ok(came), course.hcint))
        }),
{
    let txn = interrupt_of(number, toggle, len as u32, address);
    lemma_inward(channel, endpoint, txn, course, len, came);
    let rest = |address: u32|
        dwc2::inward_program(
            channel,
            endpoint,
            Transaction {
                endpoint_number: number,
                endpoint_type: EndpointType::Interrupt,
                direction_in: true,
                pid: dwc2::pid_of(toggle),
                transfer_size: len as u32,
                dma_address: address,
            },
            len,
        );
    lemma_behind(Op::Landing(len), address, rest, course.answers() + seq![Answer::Bytes(came)]);
}

/// The transaction of an interrupt transfer.
pub open spec fn interrupt_of(number: u8, toggle: bool, bytes: u32, address: u32) -> Transaction {
    Transaction {
        endpoint_number: number,
        endpoint_type: EndpointType::Interrupt,
        direction_in: true,
        pid: if toggle {
            DataPid::Data1
        } else {
            DataPid::Data0
        },
        transfer_size: bytes,
        dma_address: address,
    }
}

/// The transaction of a bulk transfer.
pub open spec fn bulk_of(
    number: u8,
    sends_in: bool,
    toggle: bool,
    bytes: u32,
    address: u32,
) -> Transaction {
    Transaction {
        endpoint_number: number,
        endpoint_type: EndpointType::Bulk,
        direction_in: sends_in,
        pid: if toggle {
            DataPid::Data1
        } else {
            DataPid::Data0
        },
        transfer_size: bytes,
        dma_address: address,
    }
}

/// A bulk transfer out: all of the data goes to the endpoint, beginning with the packet that
/// the toggle is for. It comes to what was moved, and the toggle of the packet that the
/// controller would send next.
pub proof fn law_bulk_out(
    channel: u8,
    endpoint: ControlEndpoint,
    number: u8,
    toggle: bool,
    data: Seq<u8>,
    address: u32,
    course: Course,
    next_pid: u32,
)
    requires
        direct(endpoint, bulk_of(number, false, toggle, data.len() as u32, address)),
        course.completes(),
    ensures
        ({
            let txn = bulk_of(number, false, toggle, data.len() as u32, address);
            let program = dwc2::bulk_out_program(channel, endpoint, number, toggle, data);
            let answers = seq![Answer::Word(address)] + (course.answers() + seq![
                Answer::Word(next_pid),
            ]);
            &&& program.asked(answers) == seq![Op::Stage(data)] + (accesses(
                channel,
                endpoint,
                txn,
                course,
                packets(endpoint, txn),
            ) + seq![Op::Read(Field::NextPid(channel))])
            &&& program.given(answers) == HwProgram::<
                (Result<(usize, bool), TransferError>, u32),
            >::Return((Ok((course.count(), next_pid == 2)), course.hcint))
        }),
{
    let txn = bulk_of(number, false, toggle, data.len() as u32, address);
    law_transaction(channel, endpoint, txn, course);
    let end = |outcome: Outcome|
        match outcome.0 {
            Ok(sent) => dwc2::next_toggle_program(channel).bind(
                |toggle: bool|
                    HwProgram::<(Result<(usize, bool), TransferError>, u32)>::Return(
                        (Ok((sent, toggle)), outcome.1),
                    ),
            ),
            Err(error) => Program::Return((Err(error), outcome.1)),
        };
    let more = seq![Answer::Word(next_pid)];
    program::lemma_given_in_turn(
        dwc2::transaction_program(channel, endpoint, txn),
        end,
        course.answers(),
        more,
        (Ok(course.count()), course.hcint),
    );
    reveal_with_fuel(Program::asked, 3);
    reveal_with_fuel(Program::given, 3);
    reveal_with_fuel(Program::bind, 3);
    assert(more.skip(1).len() == 0);
    let last = end((Ok(course.count()), course.hcint));
    assert(last.asked(more) =~= seq![Op::Read(Field::NextPid(channel))]);
    let rest = |address: u32|
        dwc2::transaction_program(
            channel,
            endpoint,
            dwc2::bulk_txn(number, false, toggle, data.len() as u32, address),
        ).bind(end);
    lemma_behind(Op::Stage(data), address, rest, course.answers() + more);
}

/// A bulk transfer in: as many whole packets as there is room for, beginning with the packet
/// that the toggle is for. What is fetched is what was moved, but no more than was asked
/// for; with it comes the toggle of the packet that is due next.
pub proof fn law_bulk_in(
    channel: u8,
    endpoint: ControlEndpoint,
    number: u8,
    toggle: bool,
    len: usize,
    address: u32,
    course: Course,
    next_pid: u32,
    came: Seq<u8>,
)
    requires
        len <= u32::MAX,
        direct(
            endpoint,
            bulk_of(
                number,
                true,
                toggle,
                dwc2::whole_packets(len as u32, endpoint.max_packet_size),
                address,
            ),
        ),
        course.completes(),
    ensures
        ({
            let whole = dwc2::whole_packets(len as u32, endpoint.max_packet_size);
            let txn = bulk_of(number, true, toggle, whole, address);
            let program = dwc2::bulk_in_program(channel, endpoint, number, toggle, len);
            let answers = seq![Answer::Word(address)] + (course.answers() + seq![
                Answer::Word(next_pid),
                Answer::Bytes(came),
            ]);
            let fetched: usize = if course.count() <= whole { course.count() } else {
                whole as usize
            };
            &&& whole <= len < whole + endpoint.max_packet_size
            &&& whole as int % endpoint.max_packet_size as int == 0
            &&& program.asked(answers) == seq![Op::Landing(len)] + (accesses(
                channel,
                endpoint,
                txn,
                course,
                packets(endpoint, txn),
            ) + seq![Op::Read(Field::NextPid(channel)), Op::Fetch(fetched)])
            &&& program.given(answers) == HwProgram::<
                (Result<(Seq<u8>, bool), TransferError>, u32),
            >::Return((Ok((came, next_pid == 2)), course.hcint))
        }),
{
    figures::law_whole_packets(len as u32, endpoint.max_packet_size);
    let whole = dwc2::whole_packets(len as u32, endpoint.max_packet_size);
    let txn = bulk_of(number, true, toggle, whole, address);
    law_transaction(channel, endpoint, txn, course);
    let end = |outcome: Outcome|
        match outcome.0 {
            Ok(count) => dwc2::next_toggle_program(channel).bind(
                |toggle: bool|
                    crate::usb::dwc2::hardware::fetch(
                        dwc2::at_most(
                            dwc2::at_most(count, len),
                            dwc2::whole_packets(len as u32, endpoint.max_packet_size) as usize,
                        ),
                        |bytes: Seq<u8>|
                            HwProgram::<(Result<(Seq<u8>, bool), TransferError>, u32)>::Return(
                                (Ok((bytes, toggle)), outcome.1),
                            ),
                    ),
            ),
            Err(error) => Program::Return((Err(error), outcome.1)),
        };
    let more = seq![Answer::Word(next_pid), Answer::Bytes(came)];
    program::lemma_given_in_turn(
        dwc2::transaction_program(channel, endpoint, txn),
        end,
        course.answers(),
        more,
        (Ok(course.count()), course.hcint),
    );
    reveal_with_fuel(Program::asked, 4);
    reveal_with_fuel(Program::given, 4);
    reveal_with_fuel(Program::bind, 3);
    assert(more.skip(1) =~= seq![Answer::Bytes(came)]);
    assert(more.skip(1).skip(1).len() == 0);
    let rest = |address: u32|
        dwc2::transaction_program(
            channel,
            endpoint,
            dwc2::bulk_txn(
                number,
                true,
                toggle,
                dwc2::whole_packets(len as u32, endpoint.max_packet_size),
                address,
            ),
        ).bind(end);
    lemma_behind(Op::Landing(len), address, rest, course.answers() + more);
}

} // verus!

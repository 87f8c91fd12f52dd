//! The bulk pipes of a USB Ethernet chip, and how they are found.

use vstd::prelude::*;

use crate::program::Program;
use crate::usb::control;
use crate::usb::control::{get_configuration_descriptor, requests, set_configuration};
use crate::usb::descriptor;
use crate::usb::descriptor::{find_bulk_endpoints, BulkEndpoint, ConfigurationDescriptor};
use crate::usb::dwc2::hardware::Dwc2Registers;
use crate::usb::dwc2::{Channel, ControlEndpoint, Reply, Transfer, TransferError, UsbProgram};

verus! {

broadcast use crate::program::group_program;

/// The size of a buffer for frames.
pub const FRAME_BUFFER_SIZE: usize = 2048;

/// The bytes in front of a frame that is sent.
pub const TX_HEADER_SIZE: usize = 8;

/// The longest frame that fits behind its header.
pub const MAX_STAGED: usize = 2040;

/// One direction of a chip, as a value.
pub struct PipeState {
    /// The chip's endpoint 0.
    pub device: ControlEndpoint,
    pub bulk: BulkEndpoint,
}

impl PipeState {
    /// The chip with the packet size of the bulk endpoint.
    pub open spec fn endpoint(self) -> ControlEndpoint {
        ControlEndpoint { max_packet_size: self.bulk.max_packet_size, ..self.device }
    }

    /// The same pipe with another data toggle.
    pub open spec fn toggled(self, toggle: bool) -> PipeState {
        PipeState { bulk: BulkEndpoint { toggle, ..self.bulk }, ..self }
    }
}

/// What became of a pipe that something was received from, and what that was.
pub type Received = (PipeState, Result<Seq<u8>, TransferError>);

/// Receive a bulk transfer. A NAK means that there was nothing.
pub open spec fn receive_program(state: PipeState) -> UsbProgram<Received> {
    Program::Request(
        Transfer::BulkIn(
            state.endpoint(),
            state.bulk.number,
            state.bulk.toggle,
            FRAME_BUFFER_SIZE,
        ),
        |reply: Reply|
            match reply {
                Reply::Received(Ok((bytes, toggle))) => Program::Return(
                    (state.toggled(toggle), Ok(bytes)),
                ),
                Reply::Received(Err(error)) => if error == TransferError::Nak {
                    Program::Return((state, Ok(Seq::empty())))
                } else {
                    Program::Return((state, Err(error)))
                },
                _ => Program::Stuck,
            },
    )
}

/// What became of a pipe that something was sent to, and of that.
pub type Sent = (PipeState, Result<(), TransferError>);

/// Send bytes as a bulk transfer.
pub open spec fn send_program(state: PipeState, bytes: Seq<u8>) -> UsbProgram<Sent> {
    Program::Request(
        Transfer::BulkOut(state.endpoint(), state.bulk.number, state.bulk.toggle, bytes),
        |reply: Reply|
            match reply {
                Reply::Sent(Ok((count, toggle))) => Program::Return(
                    (state.toggled(toggle), Ok(())),
                ),
                Reply::Sent(Err(error)) => Program::Return((state, Err(error))),
                _ => Program::Stuck,
            },
    )
}

/// What a pipe comes to for each reply. The toggle that the transfer ended with is the one
/// that the next begins with, and a transfer that failed leaves it. What came in is handed
/// out; a NAK is no failure, and nothing came in.
pub proof fn law_pipe_replies(
    state: PipeState,
    bytes: Seq<u8>,
    came: Seq<u8>,
    count: usize,
    toggle: bool,
    error: TransferError,
)
    ensures
        receive_program(state).given(seq![Reply::Received(Ok((came, toggle)))]) matches
            Program::Return(received) && received.1 == Ok::<Seq<u8>, TransferError>(came)
            && received.0.bulk.toggle == toggle && received.0 == state.toggled(toggle),
        receive_program(state).given(seq![Reply::Received(Err(error))]) matches Program::Return(
            received,
        ) && received.0 == state && (error == TransferError::Nak ==> received.1 == Ok::<
            Seq<u8>,
            TransferError,
        >(Seq::empty())) && (error != TransferError::Nak ==> received.1 == Err::<
            Seq<u8>,
            TransferError,
        >(error)),
        send_program(state, bytes).given(seq![Reply::Sent(Ok((count, toggle)))]) matches
            Program::Return(sent) && sent.1 == Ok::<(), TransferError>(()) && sent.0.bulk.toggle
            == toggle && sent.0 == state.toggled(toggle),
        send_program(state, bytes).given(seq![Reply::Sent(Err(error))]) == UsbProgram::<
            Sent,
        >::Return((state, Err(error))),
        receive_program(state) matches Program::Request(transfer, next) && transfer
            == Transfer::BulkIn(
            ControlEndpoint { max_packet_size: state.bulk.max_packet_size, ..state.device },
            state.bulk.number,
            state.bulk.toggle,
            2048,
        ),
{
    reveal_with_fuel(Program::given, 2);
    assert(seq![Reply::Received(Ok((came, toggle)))].skip(1).len() == 0);
    assert(seq![Reply::Received(Err::<(Seq<u8>, bool), TransferError>(error))].skip(1).len() == 0);
    assert(seq![Reply::Sent(Ok((count, toggle)))].skip(1).len() == 0);
    assert(seq![Reply::Sent(Err::<(usize, bool), TransferError>(error))].skip(1).len() == 0);
}

/// A chip whose configuration has a pair of bulk endpoints has that configuration selected,
/// and the pair is the result; one that is adopted is used as it is, with nothing selected.
/// A chip without such a pair is left alone.
pub proof fn law_attached(device: ControlEndpoint, header: Seq<u8>, came: Seq<u8>)
    requires
        header.len() == 9,
        came.len() <= control::configuration_len(header, 64),
    ensures
        ({
            let config = requests::read_answers(header) + requests::read_answers(came);
            let two = seq![requests::done(), requests::done()];
            let read = control::configuration_program(device, 0, control::zeros(64)).asked(config);
            let usable = descriptor::is_configuration(came) && descriptor::bulk_pair(came) is Some;
            let pair = UsbProgram::<Pair>::Return(Ok(descriptor::bulk_pair(came)));
            &&& usable ==> attach_program(device).asked(config + two) == read + seq![
                Transfer::Setup(device, seq![0, 9, came[5], 0, 0, 0, 0, 0]),
                Transfer::StatusIn(device),
            ] && attach_program(device).given(config + two) == pair
            &&& !usable ==> attach_program(device).asked(config) == read && attach_program(
                device,
            ).given(config) == UsbProgram::<Pair>::Return(Ok(None))
            &&& adopt_program(device).asked(config) == read
            &&& adopt_program(device).given(config) == pair
        }),
{
    let buf = control::zeros(64);
    requests::law_configuration_read(device, 0, buf, header, came);
    let whole = came + buf.skip(came.len() as int);
    assert(whole.take(came.len() as int) =~= came);
    let config = requests::read_answers(header) + requests::read_answers(came);
    let two = seq![requests::done(), requests::done()];
    let reading = control::configuration_program(device, 0, buf);
    let value = (Ok::<usize, TransferError>(came.len() as usize), whole);
    assert(config + Seq::<Reply>::empty() =~= config);
    let asked = reading.asked(config);
    assert(asked + Seq::<Transfer>::empty() =~= asked);
    let adopt = |read: control::Read|
        match read.0 {
            Err(error) => UsbProgram::<Pair>::Return(Err(error)),
            Ok(len) => Program::Return(Ok(descriptor::bulk_pair(read.1.take(len as int)))),
        };
    crate::program::lemma_given_in_turn(reading, adopt, config, Seq::empty(), value);
    assert(adopt_program(device) == reading.bind(adopt));
    let attach = |read: control::Read|
        match read.0 {
            Err(error) => UsbProgram::<Pair>::Return(Err(error)),
            Ok(len) => {
                let config = read.1.take(len as int);
                if !descriptor::is_configuration(config) || descriptor::bulk_pair(
                    config,
                ) is None {
                    Program::Return(Ok(None))
                } else {
                    control::and_then(
                        control::set_configuration_program(device, config[5]),
                        |selected: ()| Program::Return(Ok(descriptor::bulk_pair(config))),
                    )
                }
            },
        };
    assert(attach_program(device) == reading.bind(attach));
    crate::program::lemma_given_in_turn(reading, attach, config, Seq::empty(), value);
    if descriptor::is_configuration(came) && descriptor::bulk_pair(came) is Some {
        let chosen = control::Setup {
            request_type: 0,
            request: 9,
            value: came[5] as u16,
            index: 0,
            length: 0,
        };
        assert(chosen.packet() =~= seq![0, 9, came[5], 0, 0, 0, 0, 0]);
        crate::usb::hub::steps::lemma_whole_asked(device, chosen);
        assert(crate::usb::hub::steps::all_done(2) =~= two);
        let select = control::set_configuration_program(device, came[5]);
        let end = |selected: ()| UsbProgram::<Pair>::Return(Ok(descriptor::bulk_pair(came)));
        requests::lemma_then(select, end, two, Seq::empty(), ());
        assert(two + Seq::<Reply>::empty() =~= two);
        assert(attach(value) == control::and_then(select, end));
        crate::program::lemma_given_in_turn(reading, attach, config, two, value);
        assert(select.asked(two) + Seq::<Transfer>::empty() =~= select.asked(two));
    }
}

/// How much there is in the buffer after a transfer that came to this.
pub open spec fn amount(result: Result<usize, TransferError>) -> Result<usize, TransferError> {
    match result {
        Ok(count) => Ok(
            if count < FRAME_BUFFER_SIZE {
                count
            } else {
                FRAME_BUFFER_SIZE
            },
        ),
        Err(error) => if error == TransferError::Nak {
            Ok(0)
        } else {
            Err(error)
        },
    }
}

/// The first `count` bytes of a buffer, or the whole of it.
pub open spec fn front(buffer: Seq<u8>, count: usize) -> Seq<u8> {
    buffer.take(
        if count < FRAME_BUFFER_SIZE {
            count as int
        } else {
            FRAME_BUFFER_SIZE as int
        },
    )
}

/// A part of a buffer is where it was put.
pub proof fn lemma_in_between(before: Seq<u8>, part: Seq<u8>, rest: Seq<u8>)
    ensures
        before + (part + rest) == (before + part) + rest,
        (before + (part + rest)).subrange(
            before.len() as int,
            (before.len() + part.len()) as int,
        ) == part,
{
    assert(before + (part + rest) =~= (before + part) + rest);
    assert((before + (part + rest)).subrange(
        before.len() as int,
        (before.len() + part.len()) as int,
    ) =~= part);
}

/// The pipe that frames come from, with the buffer that they land in.
pub struct RxPipe {
    device: ControlEndpoint,
    bulk: BulkEndpoint,
    buffer: [u8; 2048],
}

impl View for RxPipe {
    type V = PipeState;

    closed spec fn view(&self) -> PipeState {
        PipeState { device: self.device, bulk: self.bulk }
    }
}

impl RxPipe {
    /// What is in the buffer.
    pub closed spec fn contents(&self) -> Seq<u8> {
        self.buffer@
    }

    /// A pipe from which nothing has come yet.
    pub fn new(device: ControlEndpoint, bulk: BulkEndpoint) -> (pipe: Self)
        ensures
            pipe@ == (PipeState { device, bulk }),
    {
        RxPipe { device, bulk, buffer: [0;2048] }
    }

    /// The largest packet of the pipe.
    pub fn max_packet_size(&self) -> (size: u16)
        ensures
            size == self@.bulk.max_packet_size,
    {
        self.bulk.max_packet_size
    }

    /// The chip with the packet size of the pipe.
    pub fn endpoint(&self) -> (endpoint: ControlEndpoint)
        ensures
            endpoint == self@.endpoint(),
    {
        ControlEndpoint {
            address: self.device.address,
            low_speed: self.device.low_speed,
            max_packet_size: self.bulk.max_packet_size,
            split: self.device.split,
        }
    }

    /// The number of the pipe's endpoint.
    pub fn number(&self) -> (number: u8)
        ensures
            number == self@.bulk.number,
    {
        self.bulk.number
    }

    /// The data toggle and the buffer, for a transfer that somebody else makes.
    pub fn parts(&mut self) -> (parts: (&mut bool, &mut [u8; 2048]))
        ensures
            *parts.0 == old(self)@.bulk.toggle,
            parts.1@ == old(self).contents(),
            final(self)@ == old(self)@.toggled(*final(parts.0)),
            final(self).contents() == final(parts.1)@,
    {
        (&mut self.bulk.toggle, &mut self.buffer)
    }

    /// The first `count` bytes of the buffer, or the whole of it.
    pub fn first(&self, count: usize) -> (bytes: &[u8])
        ensures
            bytes@ == front(self.contents(), count),
            bytes@.len() <= FRAME_BUFFER_SIZE,
    {
        let count: usize = if count < FRAME_BUFFER_SIZE {
            count
        } else {
            FRAME_BUFFER_SIZE
        };
        let bytes = vstd::slice::slice_subrange(self.buffer.as_slice(), 0, count);
        assert(bytes@ =~= self.buffer@.take(count as int));
        bytes
    }

    /// Receives a bulk transfer; gives how much came.
    pub fn receive<H: Dwc2Registers>(&mut self, channel: &mut Channel<H>) -> (result: Result<
        usize,
        TransferError,
    >)
        ensures
            result matches Ok(count) ==> count <= FRAME_BUFFER_SIZE,
            receive_program(old(self)@).ran(
                old(channel)@,
                final(channel)@,
                (
                    final(self)@,
                    match result {
                        Ok(count) => Ok(final(self).contents().take(count as int)),
                        Err(error) => Err(error),
                    },
                ),
            ),
    {
        let endpoint: ControlEndpoint = self.endpoint();
        let came = channel.bulk_in(
            endpoint,
            self.bulk.number,
            &mut self.bulk.toggle,
            &mut self.buffer,
        );
        match settle(came) {
            Ok(count) => {
                assert(came is Err ==> self.buffer@.take(0) =~= Seq::<u8>::empty());
                Ok(count)
            },
            Err(error) => Err(error),
        }
    }
}

/// How much there is in the buffer after a transfer that came to this.
pub fn settle(result: Result<usize, TransferError>) -> (settled: Result<usize, TransferError>)
    ensures
        settled == amount(result),
{
    match result {
        Ok(count) => Ok(
            if count < FRAME_BUFFER_SIZE {
                count
            } else {
                FRAME_BUFFER_SIZE
            },
        ),
        Err(TransferError::Nak) => Ok(0),
        Err(error) => Err(error),
    }
}

/// The pipe that frames go to, with the buffer that they are staged in.
pub struct TxPipe {
    device: ControlEndpoint,
    bulk: BulkEndpoint,
    buffer: [u8; 2048],
}

impl View for TxPipe {
    type V = PipeState;

    closed spec fn view(&self) -> PipeState {
        PipeState { device: self.device, bulk: self.bulk }
    }
}

impl TxPipe {
    /// What is in the buffer.
    pub closed spec fn contents(&self) -> Seq<u8> {
        self.buffer@
    }

    /// A pipe to which nothing has gone yet.
    pub fn new(device: ControlEndpoint, bulk: BulkEndpoint) -> (pipe: Self)
        ensures
            pipe@ == (PipeState { device, bulk }),
    {
        TxPipe { device, bulk, buffer: [0;2048] }
    }

    /// The largest packet of the pipe.
    pub fn max_packet_size(&self) -> (size: u16)
        ensures
            size == self@.bulk.max_packet_size,
    {
        self.bulk.max_packet_size
    }

    /// The chip with the packet size of the pipe.
    pub fn endpoint(&self) -> (endpoint: ControlEndpoint)
        ensures
            endpoint == self@.endpoint(),
    {
        ControlEndpoint {
            address: self.device.address,
            low_speed: self.device.low_speed,
            max_packet_size: self.bulk.max_packet_size,
            split: self.device.split,
        }
    }

    /// The number of the pipe's endpoint.
    pub fn number(&self) -> (number: u8)
        ensures
            number == self@.bulk.number,
    {
        self.bulk.number
    }

    /// The data toggle and the buffer, for a transfer that somebody else makes.
    pub fn parts(&mut self) -> (parts: (&mut bool, &mut [u8; 2048]))
        ensures
            *parts.0 == old(self)@.bulk.toggle,
            parts.1@ == old(self).contents(),
            final(self)@ == old(self)@.toggled(*final(parts.0)),
            final(self).contents() == final(parts.1)@,
    {
        (&mut self.bulk.toggle, &mut self.buffer)
    }

    /// Puts a frame behind its header into the buffer; gives their length.
    pub fn stage(&mut self, header: [u8; 8], frame: &[u8]) -> (length: usize)
        requires
            frame@.len() <= MAX_STAGED,
        ensures
            final(self)@ == old(self)@,
            length == TX_HEADER_SIZE + frame@.len(),
            final(self).contents().take(length as int) == header@ + frame@,
    {
        let mut at: usize = 0;
        while at < TX_HEADER_SIZE
            invariant
                at <= TX_HEADER_SIZE,
                self@ == old(self)@,
                forall|i: int| 0 <= i < at ==> self.buffer@[i] == header@[i],
            decreases TX_HEADER_SIZE - at,
        {
            self.buffer[at] = header[at];
            at = at + 1;
        }
        let mut copied: usize = 0;
        while copied < frame.len()
            invariant
                copied <= frame@.len() <= MAX_STAGED,
                self@ == old(self)@,
                forall|i: int| 0 <= i < 8 ==> self.buffer@[i] == header@[i],
                forall|i: int| 8 <= i < 8 + copied ==> self.buffer@[i] == frame@[i - 8],
            decreases frame@.len() - copied,
        {
            self.buffer[TX_HEADER_SIZE + copied] = frame[copied];
            copied = copied + 1;
        }
        assert(self.buffer@.take(8 + frame@.len() as int) =~= header@ + frame@);
        TX_HEADER_SIZE + frame.len()
    }

    /// Sends a frame behind its header.
    pub fn send<H: Dwc2Registers>(
        &mut self,
        channel: &mut Channel<H>,
        header: [u8; 8],
        frame: &[u8],
    ) -> (result: Result<(), TransferError>)
        requires
            frame@.len() <= MAX_STAGED,
        ensures
            send_program(old(self)@, header@ + frame@).ran(
                old(channel)@,
                final(channel)@,
                (final(self)@, result),
            ),
    {
        let length: usize = self.stage(header, frame);
        let endpoint: ControlEndpoint = self.endpoint();
        let staged = vstd::slice::slice_subrange(self.buffer.as_slice(), 0, length);
        assert(staged@ =~= header@ + frame@);
        match channel.bulk_out(endpoint, self.bulk.number, &mut self.bulk.toggle, staged) {
            Ok(_) => Ok(()),
            Err(error) => Err(error),
        }
    }
}

/// What was found of the bulk endpoints of a chip: in and out.
pub type Pair = Result<Option<(BulkEndpoint, BulkEndpoint)>, TransferError>;

/// The bulk endpoints of a chip that is configured already are those that its configuration
/// declares; it is not configured again.
pub proof fn law_adopted(device: ControlEndpoint, answers: Seq<Reply>, read: control::Read)
    requires
        control::configuration_program(device, 0, control::zeros(64)).given(answers)
            == UsbProgram::<control::Read>::Return(read),
    ensures
        ({
            let program = adopt_program(device);
            &&& program.asked(answers) == control::configuration_program(
                device,
                0,
                control::zeros(64),
            ).asked(answers)
            &&& program.given(answers) == UsbProgram::<Pair>::Return(
                match read.0 {
                    Err(error) => Err(error),
                    Ok(len) => Ok(descriptor::bulk_pair(read.1.take(len as int))),
                },
            )
        }),
{
    let first = control::configuration_program(device, 0, control::zeros(64));
    let rest = |read: control::Read|
        match read.0 {
            Err(error) => UsbProgram::<Pair>::Return(Err(error)),
            Ok(len) => Program::Return(Ok(descriptor::bulk_pair(read.1.take(len as int)))),
        };
    let none = Seq::<Reply>::empty();
    assert(answers + none =~= answers);
    broadcast use crate::program::lemma_bind_same;

    crate::program::lemma_given_in_turn(first, rest, answers, none, read);
    assert(first.asked(answers) + rest(read).asked(none) =~= first.asked(answers));
    assert(adopt_program(device) == first.bind(rest));
}

/// Find the bulk endpoints of a chip, and select its configuration.
pub open spec fn attach_program(device: ControlEndpoint) -> UsbProgram<Pair> {
    control::configuration_program(device, 0, control::zeros(64)).bind(
        |read: control::Read|
            match read.0 {
                Err(error) => Program::Return(Err(error)),
                Ok(len) => {
                    let config = read.1.take(len as int);
                    if !descriptor::is_configuration(config) || descriptor::bulk_pair(
                        config,
                    ) is None {
                        Program::Return(Ok(None))
                    } else {
                        control::and_then(
                            control::set_configuration_program(device, config[5]),
                            |selected: ()| Program::Return(Ok(descriptor::bulk_pair(config))),
                        )
                    }
                },
            },
    )
}

/// Find the bulk endpoints of a chip whose configuration has been selected.
pub open spec fn adopt_program(device: ControlEndpoint) -> UsbProgram<Pair> {
    control::configuration_program(device, 0, control::zeros(64)).bind(
        |read: control::Read|
            match read.0 {
                Err(error) => Program::Return(Err(error)),
                Ok(len) => Program::Return(Ok(descriptor::bulk_pair(read.1.take(len as int)))),
            },
    )
}

/// Finds the bulk endpoints of a chip, and selects its configuration.
pub(crate) fn attach<H: Dwc2Registers>(channel: &mut Channel<H>, device: ControlEndpoint) -> (result:
    Pair)
    ensures
        attach_program(device).ran(old(channel)@, final(channel)@, result),
{
    let mut buffer: [u8; 64] = [0;64];
    assert(buffer@ =~= control::zeros(64));
    let len: usize = match get_configuration_descriptor(channel, device, 0, &mut buffer) {
        Ok(len) => len,
        Err(error) => return Err(error),
    };
    let config = vstd::slice::slice_subrange(buffer.as_slice(), 0, len);
    assert(config@ =~= buffer@.take(len as int));
    let value: u8 = match ConfigurationDescriptor::parse(config) {
        Some(parsed) => parsed.value(),
        None => return Ok(None),
    };
    let pair = match find_bulk_endpoints(config) {
        Some(pair) => pair,
        None => return Ok(None),
    };
    match set_configuration(channel, device, value) {
        Ok(()) => Ok(Some(pair)),
        Err(error) => Err(error),
    }
}

/// Finds the bulk endpoints of a chip whose configuration has been selected.
pub(crate) fn adopt<H: Dwc2Registers>(channel: &mut Channel<H>, device: ControlEndpoint) -> (result:
    Pair)
    ensures
        adopt_program(device).ran(old(channel)@, final(channel)@, result),
{
    let mut buffer: [u8; 64] = [0;64];
    assert(buffer@ =~= control::zeros(64));
    match get_configuration_descriptor(channel, device, 0, &mut buffer) {
        Ok(len) => {
            let config = vstd::slice::slice_subrange(buffer.as_slice(), 0, len);
            assert(config@ =~= buffer@.take(len as int));
            Ok(find_bulk_endpoints(config))
        },
        Err(error) => Err(error),
    }
}

} // verus!

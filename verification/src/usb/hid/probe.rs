//! The steps of finding out whether a device is a gamepad.
//!
//! What a report descriptor says is told by a parser that the caller brings; its
//! answers are part of the history of steps.

use vstd::prelude::*;

use crate::program::{Exchange, Program};
use crate::usb::control;
use crate::usb::control::{
    get_configuration_descriptor, get_report_descriptor, set_configuration, set_idle,
};
use crate::usb::dwc2::hardware::Dwc2Registers;
use crate::usb::dwc2::{
    Channel, ControlEndpoint, TransferError, UsbHistory, UsbProgram, MAX_TRANSFER_LEN,
};
use crate::usb::hid;

verus! {

broadcast use crate::program::group_program;

/// What a parser says of a report descriptor.
#[derive(Clone, Copy, Debug, PartialEq, Eq, Structural)]
pub struct Verdict {
    /// It is that of a game controller.
    pub is_gamepad: bool,
    /// Each report begins with a number that tells its layout.
    pub uses_report_ids: bool,
}

/// Reads report descriptors into layouts.
pub trait ReportParser<D> {
    /// The layout that a report descriptor gives, and what it is.
    fn parse(&mut self, descriptor: &[u8]) -> (D, Verdict);
}

/// A step.
pub enum ProbeOp {
    /// Read the configuration of a device.
    Configuration(ControlEndpoint),
    /// Select a configuration.
    Select(ControlEndpoint, u8),
    /// Read so many bytes of the report descriptor of an interface.
    ReportDescriptor(ControlEndpoint, u8, nat),
    /// Have a report descriptor parsed.
    Judge(Seq<u8>),
    /// Ask an interface to report changes only.
    Idle(ControlEndpoint, u8),
}

/// What came of a step. `D` is the layout of reports.
pub enum ProbeAnswer<D> {
    Bytes(Result<Seq<u8>, TransferError>),
    Done(Result<(), TransferError>),
    Judged(D, Verdict),
}

/// A program over such steps.
pub type ProbeProgram<D, T> = Program<ProbeOp, ProbeAnswer<D>, T>;

/// Such steps, oldest first.
pub type ProbeHistory<D> = Seq<Exchange<ProbeOp, ProbeAnswer<D>>>;

/// Read bytes, then go on.
pub open spec fn read<D, T>(
    op: ProbeOp,
    rest: spec_fn(Result<Seq<u8>, TransferError>) -> ProbeProgram<D, T>,
) -> ProbeProgram<D, T> {
    Program::Request(
        op,
        |answer: ProbeAnswer<D>|
            match answer {
                ProbeAnswer::Bytes(bytes) => rest(bytes),
                _ => Program::Stuck,
            },
    )
}

/// Make a request without data, then go on.
pub open spec fn act<D, T>(
    op: ProbeOp,
    rest: spec_fn(Result<(), TransferError>) -> ProbeProgram<D, T>,
) -> ProbeProgram<D, T> {
    Program::Request(
        op,
        |answer: ProbeAnswer<D>|
            match answer {
                ProbeAnswer::Done(done) => rest(done),
                _ => Program::Stuck,
            },
    )
}

/// Have a report descriptor parsed, then go on.
pub open spec fn judge<D, T>(
    bytes: Seq<u8>,
    rest: spec_fn(D, Verdict) -> ProbeProgram<D, T>,
) -> ProbeProgram<D, T> {
    Program::Request(
        ProbeOp::Judge(bytes),
        |answer: ProbeAnswer<D>|
            match answer {
                ProbeAnswer::Judged(layout, verdict) => rest(layout, verdict),
                _ => Program::Stuck,
            },
    )
}

/// What was read, of a buffer and the number of bytes that came.
pub open spec fn received(read: control::Read) -> Result<Seq<u8>, TransferError> {
    match read.0 {
        Ok(count) => Ok(read.1.take(count as int)),
        Err(error) => Err(error),
    }
}

/// Reading the configuration of a device into a buffer that held `start` came to `read`.
pub open spec fn configuration_came(
    device: ControlEndpoint,
    start: Seq<u8>,
    transfers: UsbHistory,
    read: control::Read,
) -> bool {
    control::configuration_program(device, 0, start).after(transfers) == UsbProgram::<
        control::Read,
    >::Return(read)
}

/// Reading the report descriptor of an interface into a buffer that held `start` came to
/// `read`.
pub open spec fn report_descriptor_came(
    device: ControlEndpoint,
    interface: u8,
    start: Seq<u8>,
    transfers: UsbHistory,
    read: control::Read,
) -> bool {
    control::descriptor_program(
        device,
        control::report_setup(interface, start.len() as u16),
        start,
        control::DESCRIPTOR_TRIES as nat,
    ).after(transfers) == UsbProgram::<control::Read>::Return(read)
}

/// A step that was made, with the transfers that it took.
pub struct Trial<D> {
    pub op: ProbeOp,
    pub answer: ProbeAnswer<D>,
    pub transfers: UsbHistory,
}

impl<D> Trial<D> {
    /// The step with its answer.
    pub open spec fn exchange(self) -> Exchange<ProbeOp, ProbeAnswer<D>> {
        Exchange { request: self.op, answer: self.answer }
    }

    /// The step was really made: the transfers are a run of what the step stands for,
    /// and its answer is what that run returned.
    pub open spec fn made(self) -> bool {
        match self.op {
            ProbeOp::Configuration(device) => self.answer matches ProbeAnswer::Bytes(bytes)
                && configuration_read(device, self.transfers, bytes),
            ProbeOp::Select(device, value) => self.answer matches ProbeAnswer::Done(done)
                && control::set_configuration_program(device, value).after(self.transfers)
                == UsbProgram::<Result<(), TransferError>>::Return(done),
            ProbeOp::ReportDescriptor(device, interface, len) => self.answer matches
                ProbeAnswer::Bytes(bytes) && report_descriptor_read(
                device,
                interface,
                len,
                self.transfers,
                bytes,
            ),
            ProbeOp::Judge(bytes) => self.transfers.len() == 0 && self.answer is Judged,
            ProbeOp::Idle(device, interface) => self.answer matches ProbeAnswer::Done(done)
                && control::no_data_program(device, hid::idle_setup(interface)).after(
                self.transfers,
            ) == UsbProgram::<Result<(), TransferError>>::Return(done),
        }
    }
}

/// The configuration of a device was read, and this came.
pub open spec fn configuration_read(
    device: ControlEndpoint,
    transfers: UsbHistory,
    bytes: Result<Seq<u8>, TransferError>,
) -> bool {
    exists|start: Seq<u8>, read: control::Read|
        start.len() == 256 && #[trigger] configuration_came(device, start, transfers, read)
            && bytes == received(read)
}

/// So many bytes of the report descriptor of an interface were read, and this came.
pub open spec fn report_descriptor_read(
    device: ControlEndpoint,
    interface: u8,
    len: nat,
    transfers: UsbHistory,
    bytes: Result<Seq<u8>, TransferError>,
) -> bool {
    exists|start: Seq<u8>, read: control::Read|
        start.len() == len && #[trigger] report_descriptor_came(
            device,
            interface,
            start,
            transfers,
            read,
        ) && bytes == received(read)
}

/// The transfers that some steps took, in turn.
pub open spec fn transfers_of<D>(trials: Seq<Trial<D>>) -> UsbHistory
    decreases trials.len(),
{
    if trials.len() == 0 {
        Seq::empty()
    } else {
        transfers_of(trials.drop_last()) + trials.last().transfers
    }
}

/// One step was made, and nothing else was done on the channel.
pub open spec fn stepped<D>(
    before: Seq<Trial<D>>,
    now: Seq<Trial<D>>,
    start: UsbHistory,
    end: UsbHistory,
) -> bool {
    &&& now.len() > 0
    &&& now.drop_last() == before
    &&& now.last().made()
    &&& end == start + now.last().transfers
}

/// Steps were made, and nothing else was done on the channel.
pub open spec fn carried_out<D>(
    before: Seq<Trial<D>>,
    now: Seq<Trial<D>>,
    start: UsbHistory,
    end: UsbHistory,
) -> bool {
    &&& before.len() <= now.len()
    &&& now.take(before.len() as int) == before
    &&& forall|i: int| before.len() <= i < now.len() ==> (#[trigger] now[i]).made()
    &&& end == start + transfers_of(now.skip(before.len() as int))
}

/// No step has been made yet.
pub broadcast proof fn lemma_no_step<D>(before: Seq<Trial<D>>, start: UsbHistory)
    ensures
        #[trigger] carried_out(before, before, start, start),
{
    assert(before.take(before.len() as int) =~= before);
    assert(start + transfers_of(before.skip(before.len() as int)) =~= start);
}

/// One step more.
pub broadcast proof fn lemma_one_step_more<D>(
    before: Seq<Trial<D>>,
    middle: Seq<Trial<D>>,
    now: Seq<Trial<D>>,
    start: UsbHistory,
    between: UsbHistory,
    end: UsbHistory,
)
    requires
        #[trigger] carried_out(before, middle, start, between),
        #[trigger] stepped(middle, now, between, end),
    ensures
        carried_out(before, now, start, end),
{
    let made = now.skip(before.len() as int);
    assert(now.take(before.len() as int) =~= middle.take(before.len() as int));
    assert forall|i: int| before.len() <= i < now.len() implies (#[trigger] now[i]).made() by {
        if i < middle.len() {
            assert(now[i] == middle[i]);
        }
    }
    assert(made.drop_last() =~= middle.skip(before.len() as int));
    assert(made.last() == now.last());
    assert(end =~= start + transfers_of(made));
}

/// A parser, with the history of the steps that were made with it.
pub struct Probe<P, D> {
    parser: P,
    trials: Ghost<Seq<Trial<D>>>,
}

impl<P, D> View for Probe<P, D> {
    type V = ProbeHistory<D>;

    open spec fn view(&self) -> ProbeHistory<D> {
        self.trials().map_values(|trial: Trial<D>| trial.exchange())
    }
}

impl<P, D> Probe<P, D> {
    /// The steps, with the transfers that they took.
    pub closed spec fn trials(&self) -> Seq<Trial<D>> {
        self.trials@
    }

    /// The parser.
    pub closed spec fn inner(&self) -> P {
        self.parser
    }

    /// Takes a parser over; no step has been made yet.
    pub fn new(parser: P) -> (probe: Self)
        ensures
            probe.inner() == parser,
            probe.trials() == Seq::<Trial<D>>::empty(),
            probe@ == ProbeHistory::<D>::empty(),
    {
        let probe = Probe { parser, trials: Ghost(Seq::empty()) };
        assert(probe@ =~= ProbeHistory::<D>::empty());
        probe
    }

    fn record(
        &mut self,
        op: Ghost<ProbeOp>,
        answer: Ghost<ProbeAnswer<D>>,
        transfers: Ghost<UsbHistory>,
    )
        ensures
            final(self).inner() == old(self).inner(),
            final(self)@ == old(self)@.push(Exchange { request: op@, answer: answer@ }),
            final(self).trials().len() > 0,
            final(self).trials().drop_last() == old(self).trials(),
            final(self).trials().last() == (Trial {
                op: op@,
                answer: answer@,
                transfers: transfers@,
            }),
    {
        let ghost trial = Trial { op: op@, answer: answer@, transfers: transfers@ };
        self.trials = Ghost(self.trials@.push(trial));
        assert(self@ =~= old(self)@.push(trial.exchange()));
    }

    /// Reads the configuration of a device.
    pub fn configuration<H: Dwc2Registers>(
        &mut self,
        channel: &mut Channel<H>,
        device: ControlEndpoint,
        buf: &mut [u8; 256],
    ) -> (result: Result<usize, TransferError>)
        ensures
            result matches Ok(count) ==> count <= 256,
            control::configuration_program(device, 0, old(buf)@).ran(
                old(channel)@,
                final(channel)@,
                (result, final(buf)@),
            ),
            stepped(old(self).trials(), final(self).trials(), old(channel)@, final(channel)@),
            final(self)@ == old(self)@.push(
                Exchange {
                    request: ProbeOp::Configuration(device),
                    answer: ProbeAnswer::Bytes(received((result, final(buf)@))),
                },
            ),
    {
        let result = get_configuration_descriptor(channel, device, 0, buf);
        let ghost sent = channel@.skip(old(channel)@.len() as int);
        self.record(
            Ghost(ProbeOp::Configuration(device)),
            Ghost(ProbeAnswer::Bytes(received((result, buf@)))),
            Ghost(sent),
        );
        let ghost read: control::Read = (result, buf@);
        assert(configuration_came(device, old(buf)@, sent, read));
        assert(configuration_read(device, sent, received(read)));
        assert(channel@ =~= old(channel)@ + sent);
        result
    }

    /// Selects a configuration.
    pub fn select<H: Dwc2Registers>(
        &mut self,
        channel: &mut Channel<H>,
        device: ControlEndpoint,
        value: u8,
    ) -> (result: Result<(), TransferError>)
        ensures
            control::set_configuration_program(device, value).ran(
                old(channel)@,
                final(channel)@,
                result,
            ),
            stepped(old(self).trials(), final(self).trials(), old(channel)@, final(channel)@),
            final(self)@ == old(self)@.push(
                Exchange {
                    request: ProbeOp::Select(device, value),
                    answer: ProbeAnswer::Done(result),
                },
            ),
    {
        let result = set_configuration(channel, device, value);
        let ghost sent = channel@.skip(old(channel)@.len() as int);
        self.record(
            Ghost(ProbeOp::Select(device, value)),
            Ghost(ProbeAnswer::Done(result)),
            Ghost(sent),
        );
        assert(channel@ =~= old(channel)@ + sent);
        result
    }

    /// Reads the report descriptor of an interface.
    pub fn report_descriptor<H: Dwc2Registers>(
        &mut self,
        channel: &mut Channel<H>,
        device: ControlEndpoint,
        interface: u8,
        buf: &mut [u8],
    ) -> (result: Result<usize, TransferError>)
        requires
            old(buf)@.len() <= MAX_TRANSFER_LEN,
        ensures
            final(buf)@.len() == old(buf)@.len(),
            result matches Ok(count) ==> count <= old(buf)@.len(),
            control::descriptor_program(
                device,
                control::report_setup(interface, old(buf)@.len() as u16),
                old(buf)@,
                control::DESCRIPTOR_TRIES as nat,
            ).ran(old(channel)@, final(channel)@, (result, final(buf)@)),
            stepped(old(self).trials(), final(self).trials(), old(channel)@, final(channel)@),
            final(self)@ == old(self)@.push(
                Exchange {
                    request: ProbeOp::ReportDescriptor(device, interface, old(buf)@.len()),
                    answer: ProbeAnswer::Bytes(received((result, final(buf)@))),
                },
            ),
    {
        let result = get_report_descriptor(channel, device, interface, buf);
        let ghost sent = channel@.skip(old(channel)@.len() as int);
        self.record(
            Ghost(ProbeOp::ReportDescriptor(device, interface, buf@.len())),
            Ghost(ProbeAnswer::Bytes(received((result, buf@)))),
            Ghost(sent),
        );
        let ghost read: control::Read = (result, buf@);
        assert(report_descriptor_came(device, interface, old(buf)@, sent, read));
        assert(report_descriptor_read(device, interface, buf@.len(), sent, received(read)));
        assert(channel@ =~= old(channel)@ + sent);
        result
    }

    /// Asks an interface to report changes only.
    pub fn idle<H: Dwc2Registers>(
        &mut self,
        channel: &mut Channel<H>,
        device: ControlEndpoint,
        interface: u8,
    ) -> (result: Result<(), TransferError>)
        ensures
            control::no_data_program(device, hid::idle_setup(interface)).ran(
                old(channel)@,
                final(channel)@,
                result,
            ),
            stepped(old(self).trials(), final(self).trials(), old(channel)@, final(channel)@),
            final(self)@ == old(self)@.push(
                Exchange {
                    request: ProbeOp::Idle(device, interface),
                    answer: ProbeAnswer::Done(result),
                },
            ),
    {
        let result = set_idle(channel, device, interface, 0);
        let ghost sent = channel@.skip(old(channel)@.len() as int);
        self.record(
            Ghost(ProbeOp::Idle(device, interface)),
            Ghost(ProbeAnswer::Done(result)),
            Ghost(sent),
        );
        assert(channel@ =~= old(channel)@ + sent);
        result
    }

    /// Has a report descriptor parsed.
    pub fn judge(&mut self, bytes: &[u8]) -> (parsed: (D, Verdict)) where P: ReportParser<D>
        ensures
            forall|channel: UsbHistory| #[trigger]
                stepped(old(self).trials(), final(self).trials(), channel, channel),
            final(self)@ == old(self)@.push(
                Exchange {
                    request: ProbeOp::Judge(bytes@),
                    answer: ProbeAnswer::Judged(parsed.0, parsed.1),
                },
            ),
            exists|asked: &mut P|
                *asked == old(self).inner() && *final(asked) == final(self).inner()
                    && #[trigger] call_ensures(P::parse, (asked, bytes), parsed),
    {
        let parsed = self.parser.parse(bytes);
        self.record(
            Ghost(ProbeOp::Judge(bytes@)),
            Ghost(ProbeAnswer::Judged(parsed.0, parsed.1)),
            Ghost(Seq::empty()),
        );
        assert forall|channel: UsbHistory| #[trigger]
            stepped(old(self).trials(), self.trials(), channel, channel) by {
            assert(channel + Seq::empty() =~= channel);
        }
        parsed
    }
}

} // verus!

//! The firmware's multimedia components, as a decoder sees them.
//!
//! How a component is spoken to over the transport is the business of a
//! [`MmalClient`]. A [`Mmal`] is one with the history of what it was asked, and what
//! it answered.

use vstd::prelude::*;

use crate::program::{Exchange, Program};

verus! {

/// The time of a buffer that has none.
pub const TIME_UNKNOWN: i64 = i64::MIN;

/// The last buffer of a stream.
pub const BUFFER_FLAG_EOS: u32 = 0x0000_0001;

/// What the firmware, or the way to it, failed with.
#[derive(Clone, Copy, Debug, PartialEq, Eq, Structural)]
pub struct MmalError(pub u32);

/// A component of the firmware.
#[derive(Clone, Copy, Debug, PartialEq, Eq, Structural)]
pub struct Component {
    pub handle: u32,
}

/// Which of a component's ports.
#[derive(Clone, Copy, Debug, PartialEq, Eq, Structural)]
pub enum PortType {
    Input,
    Output,
}

/// What kind of data passes a port.
#[derive(Clone, Copy, Debug, PartialEq, Eq, Structural)]
pub enum EsType {
    Video,
    Other(u32),
}

/// How the data is encoded.
#[derive(Clone, Copy, Debug, PartialEq, Eq, Structural)]
pub enum Encoding {
    H264,
    /// Planar YUV with halved chroma.
    I420,
    Other(u32),
}

/// The geometry and rate of a picture.
#[derive(Clone, Copy, Debug, PartialEq, Eq, Structural)]
pub struct VideoFormat {
    pub width: u32,
    pub height: u32,
    pub crop_width: i32,
    pub crop_height: i32,
    pub frame_rate_num: i32,
    pub frame_rate_den: i32,
}

/// A port of a component.
#[derive(Clone, Copy, Debug, PartialEq, Eq, Structural)]
pub struct PortInfo {
    pub handle: u32,
    pub enabled: bool,
    pub buffer_num: u32,
    pub buffer_num_min: u32,
    pub buffer_size: u32,
    pub buffer_size_min: u32,
    pub es_type: EsType,
    pub encoding: Encoding,
    pub encoding_variant: u32,
    pub video: VideoFormat,
}

/// The format that the firmware has found.
#[derive(Clone, Copy, Debug, PartialEq, Eq, Structural)]
pub struct FormatChanged {
    pub buffer_num_min: u32,
    pub buffer_size_min: u32,
    pub buffer_size_recommended: u32,
    pub video: VideoFormat,
}

/// What is done to a port.
#[derive(Clone, Copy, Debug, PartialEq, Eq, Structural)]
pub enum PortAction {
    Enable,
    Disable,
}

/// What a component reports of a port.
#[derive(Clone, Copy, Debug, PartialEq, Eq, Structural)]
pub enum PortEvent {
    FormatChanged,
    EndOfStream,
    Error,
    Other(u32),
}

/// What the firmware reports.
pub enum Event {
    /// A buffer is given back.
    Buffer { port: u32, buffer: Vec<u8>, length: usize, flags: u32, pts: i64 },
    /// Something happened to a port.
    Port(PortEvent),
}

/// What the firmware reports, as a value.
pub enum Report {
    Buffer { port: u32, buffer: Seq<u8>, length: usize, flags: u32, pts: i64 },
    Port(PortEvent),
}

impl View for Event {
    type V = Report;

    open spec fn view(&self) -> Report {
        match self {
            Event::Buffer { port, buffer, length, flags, pts } => Report::Buffer {
                port: *port,
                buffer: buffer@,
                length: *length,
                flags: *flags,
                pts: *pts,
            },
            Event::Port(event) => Report::Port(*event),
        }
    }
}

/// Speaks to the firmware's components.
pub trait MmalClient {
    /// Creates a component by its name.
    fn component_create(&mut self, name: &str) -> Result<Component, MmalError>;

    /// Enables a component.
    fn component_enable(&mut self, component: &Component) -> Result<(), MmalError>;

    /// Describes a port.
    fn port_info_get(&mut self, component: &Component, kind: PortType, index: u32) -> Result<
        PortInfo,
        MmalError,
    >;

    /// Sets a port up, and describes what the firmware made of it.
    fn port_info_set(&mut self, port: &mut PortInfo) -> Result<(), MmalError>;

    /// Enables or disables a port.
    fn port_action(&mut self, port: &PortInfo, action: PortAction) -> Result<(), MmalError>;

    /// Gives the firmware a buffer.
    fn send_buffer(
        &mut self,
        port: &PortInfo,
        buffer: Vec<u8>,
        length: usize,
        flags: u32,
        pts: i64,
    ) -> Result<(), MmalError>;

    /// The next thing that the firmware has reported.
    fn poll(&mut self) -> Result<Option<Event>, MmalError>;

    /// The format that came with the last event.
    fn format_changed(&mut self) -> Option<FormatChanged>;

    /// The time, in microseconds.
    fn now_micros(&mut self) -> u64;
}

/// Something that the firmware is asked.
pub enum MmalOp {
    Create(Seq<char>),
    EnableComponent(Component),
    GetPort(Component, PortType, u32),
    SetPort(PortInfo),
    Action(PortInfo, PortAction),
    Send { port: PortInfo, buffer: Seq<u8>, length: usize, flags: u32, pts: i64 },
    Poll,
    FormatChanged,
    Now,
}

/// What it answers.
pub enum MmalAnswer {
    Created(Result<Component, MmalError>),
    Port(Result<PortInfo, MmalError>),
    Settled(PortInfo, Result<(), MmalError>),
    Done(Result<(), MmalError>),
    Report(Result<Option<Report>, MmalError>),
    Changed(Option<FormatChanged>),
    Time(u64),
}

/// A program over what the firmware is asked.
pub type MmalProgram<T> = Program<MmalOp, MmalAnswer, T>;

/// What the firmware was asked, oldest first.
pub type MmalHistory = Seq<Exchange<MmalOp, MmalAnswer>>;

/// Make a request that only succeeds or fails, then go on.
pub open spec fn act<T>(
    op: MmalOp,
    rest: spec_fn(Result<(), MmalError>) -> MmalProgram<T>,
) -> MmalProgram<T> {
    Program::Request(
        op,
        |answer: MmalAnswer|
            match answer {
                MmalAnswer::Done(done) => rest(done),
                _ => Program::Stuck,
            },
    )
}

/// Create a component, then go on with it.
pub open spec fn create<T>(
    name: Seq<char>,
    rest: spec_fn(Result<Component, MmalError>) -> MmalProgram<T>,
) -> MmalProgram<T> {
    Program::Request(
        MmalOp::Create(name),
        |answer: MmalAnswer|
            match answer {
                MmalAnswer::Created(component) => rest(component),
                _ => Program::Stuck,
            },
    )
}

/// Have a port described, then go on with that.
pub open spec fn get_port<T>(
    component: Component,
    kind: PortType,
    rest: spec_fn(Result<PortInfo, MmalError>) -> MmalProgram<T>,
) -> MmalProgram<T> {
    Program::Request(
        MmalOp::GetPort(component, kind, 0),
        |answer: MmalAnswer|
            match answer {
                MmalAnswer::Port(port) => rest(port),
                _ => Program::Stuck,
            },
    )
}

/// Set a port up, then go on with what the firmware made of it.
pub open spec fn set_port<T>(
    port: PortInfo,
    rest: spec_fn(PortInfo, Result<(), MmalError>) -> MmalProgram<T>,
) -> MmalProgram<T> {
    Program::Request(
        MmalOp::SetPort(port),
        |answer: MmalAnswer|
            match answer {
                MmalAnswer::Settled(settled, done) => rest(settled, done),
                _ => Program::Stuck,
            },
    )
}

/// Look for a report, then go on with it.
pub open spec fn next_report<T>(
    rest: spec_fn(Result<Option<Report>, MmalError>) -> MmalProgram<T>,
) -> MmalProgram<T> {
    Program::Request(
        MmalOp::Poll,
        |answer: MmalAnswer|
            match answer {
                MmalAnswer::Report(report) => rest(report),
                _ => Program::Stuck,
            },
    )
}

/// Ask for the format that came with an event, then go on with it.
pub open spec fn changed_format<T>(
    rest: spec_fn(Option<FormatChanged>) -> MmalProgram<T>,
) -> MmalProgram<T> {
    Program::Request(
        MmalOp::FormatChanged,
        |answer: MmalAnswer|
            match answer {
                MmalAnswer::Changed(changed) => rest(changed),
                _ => Program::Stuck,
            },
    )
}

/// Look at the clock, then go on with the time.
pub open spec fn clock<T>(rest: spec_fn(u64) -> MmalProgram<T>) -> MmalProgram<T> {
    Program::Request(
        MmalOp::Now,
        |answer: MmalAnswer|
            match answer {
                MmalAnswer::Time(time) => rest(time),
                _ => Program::Stuck,
            },
    )
}

/// A client, with the history of what it was asked. What is recorded was asked: each method
/// asks the client once, and in its contract `asked` is the client before and after that
/// call.
pub struct Mmal<M> {
    client: M,
    history: Ghost<MmalHistory>,
}

impl<M> View for Mmal<M> {
    type V = MmalHistory;

    closed spec fn view(&self) -> MmalHistory {
        self.history@
    }
}

/// A report that may be there, as a value.
pub open spec fn reported(event: Result<Option<Event>, MmalError>) -> Result<
    Option<Report>,
    MmalError,
> {
    match event {
        Ok(Some(event)) => Ok(Some(event@)),
        Ok(None) => Ok(None),
        Err(error) => Err(error),
    }
}

impl<M> Mmal<M> {
    /// The client.
    pub closed spec fn inner(&self) -> M {
        self.client
    }
}

impl<M: MmalClient> Mmal<M> {
    /// Takes a client over; it has been asked nothing yet.
    pub fn new(client: M) -> (mmal: Self)
        ensures
            mmal.inner() == client,
            mmal@ == MmalHistory::empty(),
    {
        Mmal { client, history: Ghost(Seq::empty()) }
    }

    fn record(&mut self, op: Ghost<MmalOp>, answer: Ghost<MmalAnswer>)
        ensures
            final(self).inner() == old(self).inner(),
            final(self)@ == old(self)@.push(Exchange { request: op@, answer: answer@ }),
    {
        self.history = Ghost(self.history@.push(Exchange { request: op@, answer: answer@ }));
    }

    /// Creates a component by its name.
    pub fn component_create(&mut self, name: &str) -> (result: Result<Component, MmalError>)
        ensures
            final(self)@ == old(self)@.push(
                Exchange { request: MmalOp::Create(name@), answer: MmalAnswer::Created(result) },
            ),
            exists|asked: &mut M|
                *asked == old(self).inner() && *final(asked) == final(self).inner()
                    && #[trigger] call_ensures(M::component_create, (asked, name), result),
    {
        let result = self.client.component_create(name);
        self.record(Ghost(MmalOp::Create(name@)), Ghost(MmalAnswer::Created(result)));
        result
    }

    /// Enables a component.
    pub fn component_enable(&mut self, component: &Component) -> (result: Result<(), MmalError>)
        ensures
            final(self)@ == old(self)@.push(
                Exchange {
                    request: MmalOp::EnableComponent(*component),
                    answer: MmalAnswer::Done(result),
                },
            ),
            exists|asked: &mut M|
                *asked == old(self).inner() && *final(asked) == final(self).inner()
                    && #[trigger] call_ensures(M::component_enable, (asked, component), result),
    {
        let result = self.client.component_enable(component);
        self.record(Ghost(MmalOp::EnableComponent(*component)), Ghost(MmalAnswer::Done(result)));
        result
    }

    /// Describes a port.
    pub fn port_info_get(&mut self, component: &Component, kind: PortType, index: u32) -> (result:
        Result<PortInfo, MmalError>)
        ensures
            final(self)@ == old(self)@.push(
                Exchange {
                    request: MmalOp::GetPort(*component, kind, index),
                    answer: MmalAnswer::Port(result),
                },
            ),
            exists|asked: &mut M|
                *asked == old(self).inner() && *final(asked) == final(self).inner()
                    && #[trigger] call_ensures(
                        M::port_info_get,
                        (asked, component, kind, index),
                        result,
                    ),
    {
        let result = self.client.port_info_get(component, kind, index);
        self.record(
            Ghost(MmalOp::GetPort(*component, kind, index)),
            Ghost(MmalAnswer::Port(result)),
        );
        result
    }

    /// Sets a port up, and describes what the firmware made of it.
    pub fn port_info_set(&mut self, port: &mut PortInfo) -> (result: Result<(), MmalError>)
        ensures
            final(self)@ == old(self)@.push(
                Exchange {
                    request: MmalOp::SetPort(*old(port)),
                    answer: MmalAnswer::Settled(*final(port), result),
                },
            ),
            exists|asked: &mut M, described: &mut PortInfo|
                *asked == old(self).inner() && *final(asked) == final(self).inner() && *described
                    == *old(port) && *final(described) == *final(port)
                    && #[trigger] call_ensures(M::port_info_set, (asked, described), result),
    {
        let ghost asked = *port;
        let result = self.client.port_info_set(port);
        self.record(Ghost(MmalOp::SetPort(asked)), Ghost(MmalAnswer::Settled(*port, result)));
        result
    }

    /// Enables or disables a port.
    pub fn port_action(&mut self, port: &PortInfo, action: PortAction) -> (result: Result<
        (),
        MmalError,
    >)
        ensures
            final(self)@ == old(self)@.push(
                Exchange {
                    request: MmalOp::Action(*port, action),
                    answer: MmalAnswer::Done(result),
                },
            ),
            exists|asked: &mut M|
                *asked == old(self).inner() && *final(asked) == final(self).inner()
                    && #[trigger] call_ensures(M::port_action, (asked, port, action), result),
    {
        let result = self.client.port_action(port, action);
        self.record(Ghost(MmalOp::Action(*port, action)), Ghost(MmalAnswer::Done(result)));
        result
    }

    /// Gives the firmware a buffer.
    pub fn send_buffer(
        &mut self,
        port: &PortInfo,
        buffer: Vec<u8>,
        length: usize,
        flags: u32,
        pts: i64,
    ) -> (result: Result<(), MmalError>)
        ensures
            final(self)@ == old(self)@.push(
                Exchange {
                    request: (MmalOp::Send { port: *port, buffer: buffer@, length, flags, pts }),
                    answer: MmalAnswer::Done(result),
                },
            ),
            exists|asked: &mut M|
                *asked == old(self).inner() && *final(asked) == final(self).inner()
                    && #[trigger] call_ensures(
                        M::send_buffer,
                        (asked, port, buffer, length, flags, pts),
                        result,
                    ),
    {
        let ghost bytes = buffer@;
        let result = self.client.send_buffer(port, buffer, length, flags, pts);
        self.record(
            Ghost(MmalOp::Send { port: *port, buffer: bytes, length, flags, pts }),
            Ghost(MmalAnswer::Done(result)),
        );
        result
    }

    /// The next thing that the firmware has reported.
    pub fn poll(&mut self) -> (result: Result<Option<Event>, MmalError>)
        ensures
            final(self)@ == old(self)@.push(
                Exchange { request: MmalOp::Poll, answer: MmalAnswer::Report(reported(result)) },
            ),
            exists|asked: &mut M|
                *asked == old(self).inner() && *final(asked) == final(self).inner()
                    && #[trigger] call_ensures(M::poll, (asked,), result),
    {
        let result = self.client.poll();
        self.record(Ghost(MmalOp::Poll), Ghost(MmalAnswer::Report(reported(result))));
        result
    }

    /// The format that came with the last event.
    pub fn format_changed(&mut self) -> (changed: Option<FormatChanged>)
        ensures
            final(self)@ == old(self)@.push(
                Exchange { request: MmalOp::FormatChanged, answer: MmalAnswer::Changed(changed) },
            ),
            exists|asked: &mut M|
                *asked == old(self).inner() && *final(asked) == final(self).inner()
                    && #[trigger] call_ensures(M::format_changed, (asked,), changed),
    {
        let changed = self.client.format_changed();
        self.record(Ghost(MmalOp::FormatChanged), Ghost(MmalAnswer::Changed(changed)));
        changed
    }

    /// The time, in microseconds.
    pub fn now_micros(&mut self) -> (time: u64)
        ensures
            final(self)@ == old(self)@.push(
                Exchange { request: MmalOp::Now, answer: MmalAnswer::Time(time) },
            ),
            exists|asked: &mut M|
                *asked == old(self).inner() && *final(asked) == final(self).inner()
                    && #[trigger] call_ensures(M::now_micros, (asked,), time),
    {
        let time: u64 = self.client.now_micros();
        self.record(Ghost(MmalOp::Now), Ghost(MmalAnswer::Time(time)));
        time
    }
}

} // verus!

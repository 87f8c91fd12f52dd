//! H.264 decoding by the firmware.

use vstd::prelude::*;

use crate::mmal;
use crate::mmal::{
    Component, Encoding, EsType, Event, FormatChanged, Mmal, MmalAnswer, MmalClient, MmalError,
    MmalHistory, MmalOp, MmalProgram, PortAction, PortEvent, PortInfo, PortType, Report,
    BUFFER_FLAG_EOS, TIME_UNKNOWN,
};
use crate::program::Program;

pub mod setup;
pub mod stream;
pub mod turns;

verus! {

broadcast use crate::program::group_program;

/// Buffers that are kept for one port.
pub const MAX_PORT_BUFFERS: usize = 6;

/// How long the firmware has to give its buffers back, in microseconds.
pub const DRAIN_TIMEOUT_US: u64 = 2_000_000;

/// The most that is looked for reports in one call.
pub const MAX_LOOKS: u64 = u64::MAX;

/// The name of the component that decodes.
pub open spec fn component_name() -> Seq<char> {
    "ril.video_decode"@
}

/// What went wrong.
#[derive(Clone, Copy, Debug, PartialEq, Eq, Structural)]
pub enum Error {
    /// The firmware, or the way to it.
    Mmal(MmalError),
    /// A port has its buffers.
    TooManyBuffers,
    /// A port has no buffer.
    NoBuffers,
    /// A buffer is smaller than a port needs.
    BufferTooSmall { provided: usize, required: usize },
    /// The decoder has not been started, or has been.
    WrongState,
    /// The component reported an error.
    DecoderError,
}

impl From<MmalError> for Error {
    /// A failure of the firmware.
    fn from(error: MmalError) -> (wrapped: Self) {
        Error::Mmal(error)
    }
}

impl vstd::std_specs::convert::FromSpecImpl<MmalError> for Error {
    open spec fn obeys_from_spec() -> bool {
        true
    }

    open spec fn from_spec(error: MmalError) -> Self {
        Error::Mmal(error)
    }
}

/// The geometry of the frames.
#[derive(Clone, Copy, Debug, PartialEq, Eq, Structural)]
pub struct FrameFormat {
    /// Bytes in a row of luma.
    pub width: u32,
    /// Rows of luma.
    pub height: u32,
    /// The width of the picture.
    pub crop_width: u32,
    /// The height of the picture.
    pub crop_height: u32,
    pub frame_rate_num: i32,
    pub frame_rate_den: i32,
    /// Bytes of a frame.
    pub frame_size: usize,
}

impl FrameFormat {
    /// Where the blue-difference plane begins: behind the luma.
    pub open spec fn u_plane(self) -> int {
        self.width * self.height
    }

    /// Where the red-difference plane begins: behind the other one, which has half
    /// the width and half the height of the luma.
    pub open spec fn v_plane(self) -> int {
        self.u_plane() + (self.width / 2) * (self.height / 2)
    }

    /// Where the blue-difference plane begins.
    pub fn u_offset(&self) -> (offset: usize)
        requires
            self.u_plane() <= u32::MAX,
        ensures
            offset == self.u_plane(),
    {
        assert(self.width * self.height >= 0) by (nonlinear_arith);
        (self.width * self.height) as usize
    }

    /// Where the red-difference plane begins.
    pub fn v_offset(&self) -> (offset: usize)
        requires
            self.u_plane() <= u32::MAX,
            self.v_plane() <= usize::MAX,
        ensures
            offset == self.v_plane(),
    {
        let half_width: u32 = self.width / 2;
        let half_height: u32 = self.height / 2;
        assert(0 <= half_width * half_height <= self.width * self.height) by (nonlinear_arith)
            requires
                half_width <= self.width,
                half_height <= self.height,
        ;
        self.u_offset() + (half_width * half_height) as usize
    }
}

/// For 4:2:0 with even sides, the planes are luma, a quarter, and a quarter.
pub proof fn law_planes(format: FrameFormat)
    requires
        format.width % 2 == 0,
        format.height % 2 == 0,
    ensures
        (format.v_plane() - format.u_plane()) * 4 == format.u_plane(),
        (format.v_plane() + (format.v_plane() - format.u_plane())) * 2 == format.width
            * format.height * 3,
{
    let half_width = format.width / 2;
    let half_height = format.height / 2;
    assert((half_width * half_height) * 4 == (2 * half_width) * (2 * half_height))
        by (nonlinear_arith);
    assert(2 * half_width == format.width);
    assert(2 * half_height == format.height);
}

/// Buffers that wait to be given to the firmware, as values.
#[verifier::ext_equal]
pub struct PoolState {
    pub slots: Seq<Option<Seq<u8>>>,
    /// How many were ever added.
    pub total: usize,
}

/// The first free slot from a place on.
pub open spec fn first_free(slots: Seq<Option<Seq<u8>>>, at: int) -> Option<int>
    decreases slots.len() - at,
{
    if at < 0 || at >= slots.len() {
        None
    } else if slots[at] is None {
        Some(at)
    } else {
        first_free(slots, at + 1)
    }
}

/// Whether there is a buffer of at least so many bytes in a slot.
pub open spec fn fits(slot: Option<Seq<u8>>, least: nat) -> bool {
    slot matches Some(buffer) && buffer.len() >= least
}

/// The first slot from a place on with a buffer of at least so many bytes.
pub open spec fn first_fit(slots: Seq<Option<Seq<u8>>>, least: nat, at: int) -> Option<int>
    decreases slots.len() - at,
{
    if at < 0 || at >= slots.len() {
        None
    } else if fits(slots[at], least) {
        Some(at)
    } else {
        first_fit(slots, least, at + 1)
    }
}

/// The shortest buffer from a place on.
pub open spec fn shortest(slots: Seq<Option<Seq<u8>>>, at: int) -> Option<nat>
    decreases slots.len() - at,
{
    if at < 0 || at >= slots.len() {
        None
    } else {
        let rest = shortest(slots, at + 1);
        match slots[at] {
            None => rest,
            Some(buffer) => match rest {
                Some(length) => if buffer.len() < length {
                    Some(buffer.len())
                } else {
                    Some(length)
                },
                None => Some(buffer.len()),
            },
        }
    }
}

/// The length that buffers are held to is that of one that waits, and no other that waits
/// is shorter; there is none only if no buffer waits.
pub proof fn law_shortest(slots: Seq<Option<Seq<u8>>>, at: int)
    requires
        0 <= at <= slots.len(),
    ensures
        match shortest(slots, at) {
            Some(length) => {
                &&& exists|i: int|
                    at <= i < slots.len() && (#[trigger] slots[i] matches Some(buffer)
                        && buffer.len() == length)
                &&& forall|i: int|
                    at <= i < slots.len() ==> (#[trigger] slots[i] matches Some(buffer)
                        ==> buffer.len() >= length)
            },
            None => forall|i: int| at <= i < slots.len() ==> #[trigger] slots[i] is None,
        },
    decreases slots.len() - at,
{
    if at < slots.len() {
        law_shortest(slots, at + 1);
    }
}

/// The buffers of at least so many bytes that wait.
pub open spec fn waiting(slots: Seq<Option<Seq<u8>>>, least: nat, at: int) -> Seq<Seq<u8>>
    decreases slots.len() - at,
{
    if at < 0 || at >= slots.len() {
        Seq::empty()
    } else if fits(slots[at], least) {
        seq![slots[at]->0] + waiting(slots, least, at + 1)
    } else {
        waiting(slots, least, at + 1)
    }
}

impl PoolState {
    /// No buffer.
    pub open spec fn empty() -> PoolState {
        PoolState { slots: Seq::new(6, |i: int| None::<Seq<u8>>), total: 0 }
    }

    /// There are so many slots.
    pub open spec fn wf(self) -> bool {
        self.slots.len() == MAX_PORT_BUFFERS
    }

    /// With a buffer put into the first free slot, if there is one.
    pub open spec fn put(self, buffer: Seq<u8>) -> PoolState {
        match first_free(self.slots, 0) {
            Some(slot) => PoolState { slots: self.slots.update(slot, Some(buffer)), ..self },
            None => self,
        }
    }

    /// With one more buffer, unless every slot is taken.
    pub open spec fn added(self, buffer: Seq<u8>) -> (PoolState, Result<(), Error>) {
        match first_free(self.slots, 0) {
            Some(slot) => (PoolState { total: one_more(self.total), ..self.put(buffer) }, Ok(())),
            None => (self, Err(Error::TooManyBuffers)),
        }
    }

    /// Without the first buffer of at least so many bytes; and that buffer.
    pub open spec fn taken(self, least: nat) -> (PoolState, Option<Seq<u8>>) {
        match first_fit(self.slots, least, 0) {
            Some(slot) => (
                PoolState { slots: self.slots.update(slot, None), ..self },
                self.slots[slot],
            ),
            None => (self, None),
        }
    }

    /// The length that every waiting buffer has at least; 0 if none waits.
    pub open spec fn smallest(self) -> nat {
        match shortest(self.slots, 0) {
            Some(length) => length,
            None => 0,
        }
    }
}

proof fn lemma_first_free(slots: Seq<Option<Seq<u8>>>, at: int)
    requires
        0 <= at,
    ensures
        first_free(slots, at) matches Some(slot) ==> {
            &&& at <= slot < slots.len()
            &&& slots[slot] is None
        },
    decreases slots.len() - at,
{
    if at < slots.len() && slots[at] is Some {
        lemma_first_free(slots, at + 1);
    }
}

proof fn lemma_first_fit(slots: Seq<Option<Seq<u8>>>, least: nat, at: int)
    requires
        0 <= at,
    ensures
        match first_fit(slots, least, at) {
            Some(slot) => {
                &&& at <= slot < slots.len()
                &&& fits(slots[slot], least)
                &&& forall|i: int| at <= i < slot ==> !fits(#[trigger] slots[i], least)
            },
            None => forall|i: int| at <= i < slots.len() ==> !fits(#[trigger] slots[i], least),
        },
    decreases slots.len() - at,
{
    if at < slots.len() && !fits(slots[at], least) {
        lemma_first_fit(slots, least, at + 1);
    }
}

/// What is taken out of a pool is in it: the first buffer that waits and is long enough. A
/// pool is out of such buffers only if none waits.
pub proof fn law_taken_in_order(pool: PoolState, least: nat)
    ensures
        match pool.taken(least).1 {
            Some(buffer) => {
                &&& buffer.len() >= least
                &&& waiting(pool.slots, least, 0) == seq![buffer] + waiting(
                    pool.taken(least).0.slots,
                    least,
                    0,
                )
            },
            None => waiting(pool.slots, least, 0) == Seq::<Seq<u8>>::empty(),
        },
{
    lemma_first_fit(pool.slots, least, 0);
    match first_fit(pool.slots, least, 0) {
        Some(slot) => {
            lemma_waiting_skips(pool.slots, least, 0, slot);
            let after = pool.slots.update(slot, None);
            assert forall|i: int| 0 <= i < slot implies !fits(#[trigger] after[i], least) by {
                assert(after[i] == pool.slots[i]);
            }
            lemma_waiting_skips(after, least, 0, slot);
            lemma_waiting_same(pool.slots, after, least, slot + 1);
        },
        None => {
            lemma_waiting_skips(pool.slots, least, 0, pool.slots.len() as int);
        },
    }
}

proof fn lemma_waiting_skips(slots: Seq<Option<Seq<u8>>>, least: nat, at: int, slot: int)
    requires
        0 <= at <= slot <= slots.len(),
        forall|i: int| at <= i < slot ==> !fits(#[trigger] slots[i], least),
    ensures
        waiting(slots, least, at) == waiting(slots, least, slot),
    decreases slot - at,
{
    if at < slot {
        lemma_waiting_skips(slots, least, at + 1, slot);
    }
}

proof fn lemma_waiting_same(
    one: Seq<Option<Seq<u8>>>,
    other: Seq<Option<Seq<u8>>>,
    least: nat,
    at: int,
)
    requires
        0 <= at,
        one.len() == other.len(),
        forall|i: int| at <= i < one.len() ==> one[i] == other[i],
    ensures
        waiting(one, least, at) == waiting(other, least, at),
    decreases one.len() - at,
{
    if at < one.len() {
        lemma_waiting_same(one, other, least, at + 1);
    }
}

/// A buffer that is put into a pool with a free slot waits there, beside those
/// that did.
pub proof fn law_put_waits(pool: PoolState, buffer: Seq<u8>)
    requires
        first_free(pool.slots, 0) is Some,
    ensures
        waiting(pool.put(buffer).slots, 0, 0).to_multiset() == waiting(
            pool.slots,
            0,
            0,
        ).to_multiset().insert(buffer),
{
    lemma_first_free(pool.slots, 0);
    let slot = first_free(pool.slots, 0)->0;
    lemma_waiting_grows(pool.slots, slot, buffer, 0);
}

proof fn lemma_waiting_grows(slots: Seq<Option<Seq<u8>>>, slot: int, buffer: Seq<u8>, at: int)
    requires
        0 <= at <= slot < slots.len(),
        slots[slot] is None,
    ensures
        waiting(slots.update(slot, Some(buffer)), 0, at).to_multiset() == waiting(
            slots,
            0,
            at,
        ).to_multiset().insert(buffer),
    decreases slot - at,
{
    broadcast use vstd::seq_lib::group_to_multiset_ensures;

    let after = slots.update(slot, Some(buffer));
    if at < slot {
        lemma_waiting_grows(slots, slot, buffer, at + 1);
        match slots[at] {
            None => {},
            Some(first) => {
                lemma_prefixed(first, waiting(slots, 0, at + 1));
                lemma_prefixed(first, waiting(after, 0, at + 1));
                assert(waiting(after, 0, at).to_multiset() =~= waiting(
                    slots,
                    0,
                    at,
                ).to_multiset().insert(buffer));
            },
        }
    } else {
        lemma_waiting_same(slots, after, 0, at + 1);
        lemma_prefixed(buffer, waiting(slots, 0, at + 1));
    }
}

proof fn lemma_prefixed(first: Seq<u8>, rest: Seq<Seq<u8>>)
    ensures
        (seq![first] + rest).to_multiset() == rest.to_multiset().insert(first),
{
    vstd::seq_lib::lemma_multiset_commutative(seq![first], rest);
    broadcast use vstd::seq_lib::group_to_multiset_ensures;

    assert(seq![first] =~= Seq::<Seq<u8>>::empty().push(first));
    assert((seq![first] + rest).to_multiset() =~= rest.to_multiset().insert(first));
}

struct Pool {
    buffers: [Option<Vec<u8>>; 6],
    total: usize,
}

impl View for Pool {
    type V = PoolState;

    closed spec fn view(&self) -> PoolState {
        PoolState {
            slots: self.buffers@.map_values(
                |slot: Option<Vec<u8>>|
                    match slot {
                        Some(buffer) => Some(buffer@),
                        None => None,
                    },
            ),
            total: self.total,
        }
    }
}

impl Pool {
    fn new() -> (pool: Self)
        ensures
            pool@ == PoolState::empty(),
    {
        let pool = Pool { buffers: [None, None, None, None, None, None], total: 0 };
        assert(pool@.slots =~= PoolState::empty().slots);
        pool
    }

    fn find_free(&self) -> (slot: Option<usize>)
        ensures
            match slot {
                Some(slot) => first_free(self@.slots, 0) == Some(slot as int) && slot < 6,
                None => first_free(self@.slots, 0) is None,
            },
    {
        let mut at: usize = 0;
        while at < MAX_PORT_BUFFERS
            invariant
                at <= MAX_PORT_BUFFERS,
                first_free(self@.slots, 0) == first_free(self@.slots, at as int),
            decreases MAX_PORT_BUFFERS - at,
        {
            if self.buffers[at].is_none() {
                return Some(at);
            }
            at = at + 1;
        }
        None
    }

    fn find_fit(&self, least: usize) -> (slot: Option<usize>)
        ensures
            match slot {
                Some(slot) => first_fit(self@.slots, least as nat, 0) == Some(slot as int) && slot
                    < 6,
                None => first_fit(self@.slots, least as nat, 0) is None,
            },
    {
        let mut at: usize = 0;
        while at < MAX_PORT_BUFFERS
            invariant
                at <= MAX_PORT_BUFFERS,
                first_fit(self@.slots, least as nat, 0) == first_fit(
                    self@.slots,
                    least as nat,
                    at as int,
                ),
            decreases MAX_PORT_BUFFERS - at,
        {
            match &self.buffers[at] {
                Some(buffer) => {
                    if buffer.len() >= least {
                        return Some(at);
                    }
                },
                None => {},
            }
            at = at + 1;
        }
        None
    }

    fn put(&mut self, buffer: Vec<u8>)
        ensures
            final(self)@ == old(self)@.put(buffer@),
    {
        match self.find_free() {
            Some(slot) => {
                self.buffers[slot] = Some(buffer);
                assert(self@.slots =~= old(self)@.slots.update(slot as int, Some(buffer@)));
            },
            None => {},
        }
    }

    fn add(&mut self, buffer: Vec<u8>) -> (result: Result<(), Error>)
        ensures
            (final(self)@, result) == old(self)@.added(buffer@),
    {
        match self.find_free() {
            Some(_) => {
                self.put(buffer);
                if self.total < usize::MAX {
                    self.total = self.total + 1;
                }
                Ok(())
            },
            None => Err(Error::TooManyBuffers),
        }
    }

    fn take(&mut self, least: usize) -> (buffer: Option<Vec<u8>>)
        ensures
            final(self)@ == old(self)@.taken(least as nat).0,
            match buffer {
                Some(buffer) => old(self)@.taken(least as nat).1 == Some(buffer@),
                None => old(self)@.taken(least as nat).1 is None && final(self)@ == old(self)@,
            },
    {
        proof {
            lemma_first_fit(self@.slots, least as nat, 0);
        }
        match self.find_fit(least) {
            Some(slot) => {
                let buffer = self.buffers[slot].take();
                assert(self@.slots =~= old(self)@.slots.update(slot as int, None));
                buffer
            },
            None => None,
        }
    }

    fn smallest(&self) -> (length: usize)
        ensures
            length == self@.smallest(),
    {
        match self.shortest() {
            Some(length) => length,
            None => 0,
        }
    }

    fn shortest(&self) -> (length: Option<usize>)
        ensures
            match length {
                Some(length) => shortest(self@.slots, 0) == Some(length as nat),
                None => shortest(self@.slots, 0) is None,
            },
    {
        let mut least: Option<usize> = None;
        let mut at: usize = MAX_PORT_BUFFERS;
        while at > 0
            invariant
                at <= MAX_PORT_BUFFERS,
                match least {
                    Some(length) => shortest(self@.slots, at as int) == Some(length as nat),
                    None => shortest(self@.slots, at as int) is None,
                },
            decreases at,
        {
            at = at - 1;
            match &self.buffers[at] {
                Some(buffer) => {
                    let length: usize = buffer.len();
                    least = match least {
                        Some(other) => if length < other {
                            Some(length)
                        } else {
                            Some(other)
                        },
                        None => Some(length),
                    };
                },
                None => {},
            }
        }
        least
    }
}

/// A decoded frame, with its buffer.
pub struct Frame {
    pub buffer: Vec<u8>,
    /// Bytes of the buffer that are the frame.
    pub length: usize,
    /// When it is shown.
    pub pts: i64,
    pub flags: u32,
    pub format: FrameFormat,
}

/// A decoded frame as a value.
pub struct Picture {
    pub buffer: Seq<u8>,
    pub length: usize,
    pub pts: i64,
    pub flags: u32,
    pub format: FrameFormat,
}

impl View for Frame {
    type V = Picture;

    open spec fn view(&self) -> Picture {
        Picture {
            buffer: self.buffer@,
            length: self.length,
            pts: self.pts,
            flags: self.flags,
            format: self.format,
        }
    }
}

/// A decoder as a value.
pub struct DecoderState {
    pub component: Component,
    pub input: PortInfo,
    pub output: PortInfo,
    pub input_pool: PoolState,
    pub output_pool: PoolState,
    pub started: bool,
    pub output_enabled: bool,
    /// Output buffers that the firmware has.
    pub output_in_flight: usize,
    pub format: Option<FrameFormat>,
    /// Bytes that an output buffer needs for a frame of that format.
    pub needed: u32,
    pub eos: bool,
}

impl DecoderState {
    /// The pools are sound.
    pub open spec fn wf(self) -> bool {
        self.input_pool.wf() && self.output_pool.wf()
    }
}

/// A decoder that has just been created.
pub open spec fn new_decoder(component: Component, input: PortInfo, output: PortInfo) -> DecoderState {
    DecoderState {
        component,
        input,
        output,
        input_pool: PoolState::empty(),
        output_pool: PoolState::empty(),
        started: false,
        output_enabled: false,
        output_in_flight: 0,
        format: None,
        needed: 0,
        eos: false,
    }
}

/// The input port as it is described, for a stream of H.264.
pub open spec fn h264_input(input: PortInfo) -> PortInfo {
    PortInfo {
        es_type: EsType::Video,
        encoding: Encoding::H264,
        encoding_variant: 0,
        ..input
    }
}

/// Create the component, and have its ports described.
pub open spec fn set_up_program() -> MmalProgram<Result<(Component, PortInfo, PortInfo), Error>> {
    mmal::create(
        component_name(),
        |created: Result<Component, MmalError>|
            match created {
                Err(error) => Program::Return(Err(Error::Mmal(error))),
                Ok(component) => mmal::get_port(
                    component,
                    PortType::Input,
                    |input: Result<PortInfo, MmalError>|
                        match input {
                            Err(error) => Program::Return(Err(Error::Mmal(error))),
                            Ok(input) => mmal::get_port(
                                component,
                                PortType::Output,
                                |output: Result<PortInfo, MmalError>|
                                    match output {
                                        Err(error) => Program::Return(Err(Error::Mmal(error))),
                                        Ok(output) => Program::Return(
                                            Ok((component, h264_input(input), output)),
                                        ),
                                    },
                            ),
                        },
                ),
            },
    )
}

/// Create a decoder.
pub open spec fn new_program() -> MmalProgram<Result<DecoderState, Error>> {
    set_up_program().bind(
        |set_up: Result<(Component, PortInfo, PortInfo), Error>|
            match set_up {
                Err(error) => Program::Return(Err(error)),
                Ok(parts) => Program::Return(Ok(new_decoder(parts.0, parts.1, parts.2))),
            },
    )
}

/// What became of a decoder, and the result.
pub type Step<T> = (DecoderState, Result<T, Error>);

/// The larger of the buffers there are and those that a port needs.
pub open spec fn buffer_count(total: usize, least: u32) -> u32 {
    if total > least {
        total as u32
    } else {
        least
    }
}

/// The input port as it is asked for.
pub open spec fn input_wanted(state: DecoderState) -> PortInfo {
    PortInfo {
        buffer_num: buffer_count(state.input_pool.total, state.input.buffer_num_min),
        buffer_size: (state.input_pool.smallest() as usize) as u32,
        ..state.input
    }
}

/// The output port as it is asked for.
pub open spec fn output_wanted(state: DecoderState) -> PortInfo {
    PortInfo {
        es_type: EsType::Video,
        encoding: Encoding::I420,
        encoding_variant: 0,
        buffer_num: buffer_count(state.output_pool.total, state.output.buffer_num_min),
        ..state.output
    }
}

/// Enable the component, its output port and its input port, in this order.
pub open spec fn enable_program(state: DecoderState) -> MmalProgram<Step<()>> {
    mmal::act(
        MmalOp::EnableComponent(state.component),
        |done: Result<(), MmalError>|
            match done {
                Err(error) => Program::Return((state, Err(Error::Mmal(error)))),
                Ok(_) => mmal::act(
                    MmalOp::Action(state.output, PortAction::Enable),
                    |done: Result<(), MmalError>|
                        match done {
                            Err(error) => Program::Return((state, Err(Error::Mmal(error)))),
                            Ok(_) => {
                                let open = DecoderState {
                                    output: PortInfo { enabled: true, ..state.output },
                                    output_enabled: true,
                                    ..state
                                };
                                mmal::act(
                                    MmalOp::Action(state.input, PortAction::Enable),
                                    |done: Result<(), MmalError>|
                                        match done {
                                            Err(error) => Program::Return(
                                                (open, Err(Error::Mmal(error))),
                                            ),
                                            Ok(_) => Program::Return(
                                                (
                                                    DecoderState {
                                                        input: PortInfo {
                                                            enabled: true,
                                                            ..state.input
                                                        },
                                                        started: true,
                                                        ..open
                                                    },
                                                    Ok(()),
                                                ),
                                            ),
                                        },
                                )
                            },
                        },
                ),
            },
    )
}

/// Set both ports up and enable the component. A decoder starts once, and only with
/// buffers for both ports, those for input not smaller than the firmware needs.
pub open spec fn start_program(state: DecoderState) -> MmalProgram<Step<()>> {
    if state.started {
        Program::Return((state, Err(Error::WrongState)))
    } else if state.input_pool.total == 0 || state.output_pool.total == 0 {
        Program::Return((state, Err(Error::NoBuffers)))
    } else if state.input_pool.smallest() < state.input.buffer_size_min {
        Program::Return(
            (
                state,
                Err(
                    Error::BufferTooSmall {
                        provided: state.input_pool.smallest() as usize,
                        required: state.input.buffer_size_min as usize,
                    },
                ),
            ),
        )
    } else {
        mmal::set_port(
            input_wanted(state),
            |input: PortInfo, done: Result<(), MmalError>|
                {
                    let state = DecoderState { input, ..state };
                    match done {
                        Err(error) => Program::Return((state, Err(Error::Mmal(error)))),
                        Ok(_) => mmal::set_port(
                            output_wanted(state),
                            |output: PortInfo, done: Result<(), MmalError>|
                                {
                                    let state = DecoderState { output, ..state };
                                    match done {
                                        Err(error) => Program::Return(
                                            (state, Err(Error::Mmal(error))),
                                        ),
                                        Ok(_) => enable_program(state),
                                    }
                                },
                        ),
                    }
                },
        )
    }
}

/// A buffer with data copied to its beginning, as much as fits.
pub open spec fn loaded(buffer: Seq<u8>, data: Seq<u8>) -> (Seq<u8>, usize) {
    let length = if data.len() < buffer.len() {
        data.len()
    } else {
        buffer.len()
    };
    (data.take(length as int) + buffer.skip(length as int), length as usize)
}

/// Give the firmware as much of `data` as fits into one buffer; nothing if there is
/// no data or no buffer.
pub open spec fn feed_program(
    state: DecoderState,
    data: Seq<u8>,
    flags: u32,
    pts: i64,
) -> MmalProgram<Step<usize>> {
    if !state.started {
        Program::Return((state, Err(Error::WrongState)))
    } else if data.len() == 0 {
        Program::Return((state, Ok(0)))
    } else {
        match state.input_pool.taken(0).1 {
            None => Program::Return((state, Ok(0))),
            Some(buffer) => {
                let after = DecoderState { input_pool: state.input_pool.taken(0).0, ..state };
                let (bytes, length) = loaded(buffer, data);
                mmal::act(
                    MmalOp::Send { port: state.input, buffer: bytes, length, flags, pts },
                    |done: Result<(), MmalError>|
                        match done {
                            Err(error) => Program::Return((after, Err(Error::Mmal(error)))),
                            Ok(_) => Program::Return((after, Ok(length))),
                        },
                )
            },
        }
    }
}

/// Give the firmware an empty buffer that ends the stream.
pub open spec fn finish_program(state: DecoderState) -> MmalProgram<Step<()>> {
    if !state.started {
        Program::Return((state, Err(Error::WrongState)))
    } else {
        match state.input_pool.taken(0).1 {
            None => Program::Return((state, Err(Error::WrongState))),
            Some(buffer) => {
                let after = DecoderState { input_pool: state.input_pool.taken(0).0, ..state };
                mmal::act(
                    MmalOp::Send {
                        port: state.input,
                        buffer,
                        length: 0,
                        flags: BUFFER_FLAG_EOS,
                        pts: TIME_UNKNOWN,
                    },
                    |done: Result<(), MmalError>|
                        match done {
                            Err(error) => Program::Return((after, Err(Error::Mmal(error)))),
                            Ok(_) => Program::Return((after, Ok(()))),
                        },
                )
            },
        }
    }
}

/// One more, as far as can be counted.
pub open spec fn one_more(count: usize) -> usize {
    if count < usize::MAX {
        (count + 1) as usize
    } else {
        count
    }
}

/// One less, if there is one.
pub open spec fn one_less(count: usize) -> usize {
    if count > 0 {
        (count - 1) as usize
    } else {
        0
    }
}

/// Give the firmware every output buffer that waits and can take a frame. If that leaves
/// some, they are too small, and the shortest is told.
pub open spec fn hand_over_program(state: DecoderState, count: nat) -> MmalProgram<Step<()>>
    decreases count,
{
    match state.output_pool.taken(state.needed as nat).1 {
        None => match shortest(state.output_pool.slots, 0) {
            None => Program::Return((state, Ok(()))),
            Some(length) => Program::Return(
                (
                    state,
                    Err(
                        Error::BufferTooSmall {
                            provided: length as usize,
                            required: state.needed as usize,
                        },
                    ),
                ),
            ),
        },
        Some(buffer) => {
            let after = DecoderState {
                output_pool: state.output_pool.taken(state.needed as nat).0,
                ..state
            };
            mmal::act(
                MmalOp::Send {
                    port: state.output,
                    buffer,
                    length: 0,
                    flags: 0,
                    pts: TIME_UNKNOWN,
                },
                |done: Result<(), MmalError>|
                    match done {
                        Err(error) => Program::Return((after, Err(Error::Mmal(error)))),
                        Ok(_) => if count == 0 {
                            Program::Stuck
                        } else {
                            hand_over_program(
                                DecoderState {
                                    output_in_flight: one_more(state.output_in_flight),
                                    ..after
                                },
                                (count - 1) as nat,
                            )
                        },
                    },
            )
        },
    }
}

/// The output buffers that wait and can take a frame.
pub open spec fn usable(state: DecoderState) -> Seq<Seq<u8>> {
    waiting(state.output_pool.slots, state.needed as nat, 0)
}

/// Give the firmware every output buffer that waits, once it knows their format.
pub open spec fn refill_program(state: DecoderState) -> MmalProgram<Step<()>> {
    if !state.output_enabled || state.format is None {
        Program::Return((state, Ok(())))
    } else {
        hand_over_program(state, usable(state).len())
    }
}

/// What handing over comes to, unless the firmware failed: no buffer that can take a frame
/// waits any more. It succeeded if none waits at all; otherwise those that do are too
/// small, and the error says so of the shortest.
pub open spec fn handed_over(before: DecoderState, step: Step<()>) -> bool {
    !(step.1 matches Err(Error::Mmal(_))) ==> {
        let after = step.0;
        &&& usable(after).len() == 0
        &&& after.needed == before.needed
        &&& after.input_pool == before.input_pool
        &&& before.output_in_flight + usable(before).len() <= usize::MAX ==> after.output_in_flight
            == before.output_in_flight + usable(before).len()
        &&& match shortest(after.output_pool.slots, 0) {
            None => step.1 is Ok,
            Some(length) => step.1 == Err::<(), Error>(
                Error::BufferTooSmall {
                    provided: length as usize,
                    required: before.needed as usize,
                },
            ),
        }
    }
}

/// A request that, if it hands an output buffer over, hands over one that can take a frame.
pub open spec fn large_enough(needed: u32, op: MmalOp) -> bool {
    op matches MmalOp::Send { port, buffer, length, flags, pts } ==> buffer.len() >= needed
}

proof fn lemma_hand_over(state: DecoderState, count: nat)
    requires
        count == usable(state).len(),
    ensures
        hand_over_program(state, count).ends_in(|step: Step<()>| handed_over(state, step)),
        hand_over_program(state, count).every(|op: MmalOp| large_enough(state.needed, op)),
    decreases count,
{
    let holds = |step: Step<()>| handed_over(state, step);
    let large = |op: MmalOp| large_enough(state.needed, op);
    law_taken_in_order(state.output_pool, state.needed as nat);
    let program = hand_over_program(state, count);
    if let Some(buffer) = state.output_pool.taken(state.needed as nat).1 {
        let after = DecoderState {
            output_pool: state.output_pool.taken(state.needed as nat).0,
            ..state
        };
        let more = DecoderState { output_in_flight: one_more(state.output_in_flight), ..after };
        assert(count == 1 + usable(more).len());
        lemma_hand_over(more, (count - 1) as nat);
        let strong = |step: Step<()>| handed_over(more, step);
        crate::program::lemma_ends_in_weaker(
            hand_over_program(more, (count - 1) as nat),
            strong,
            holds,
        );
        let next = program->Request_1;
        assert forall|answer: MmalAnswer| (#[trigger] next(answer)).ends_in(holds) by {
            match answer {
                MmalAnswer::Done(done) => {
                    match done {
                        Err(error) => {
                            assert(holds((after, Err(Error::Mmal(error)))));
                        },
                        Ok(_) => {},
                    }
                },
                _ => {},
            }
        }
        assert forall|answer: MmalAnswer| (#[trigger] next(answer)).every(large) by {
            match answer {
                MmalAnswer::Done(Ok(_)) => {
                    assert(next(answer) == hand_over_program(more, (count - 1) as nat));
                    assert(large =~= (|op: MmalOp| large_enough(more.needed, op)));
                },
                _ => {},
            }
        }
    }
}

/// Once the format of the frames is known and the output port is open, the firmware
/// is given every output buffer that can take a frame, so that none of them is idle. It is
/// never given one that is too small for the format: that is told, and the buffer waits.
pub proof fn law_no_buffer_is_idle(state: DecoderState)
    requires
        state.output_enabled,
        state.format is Some,
    ensures
        refill_program(state).ends_in(|step: Step<()>| handed_over(state, step)),
        refill_program(state).every(|op: MmalOp| large_enough(state.needed, op)),
{
    lemma_hand_over(state, usable(state).len());
}

/// What a buffer that came back from the output port changes.
pub open spec fn came_back(state: DecoderState, flags: u32) -> DecoderState {
    DecoderState {
        output_in_flight: one_less(state.output_in_flight),
        eos: state.eos || flags & BUFFER_FLAG_EOS != 0,
        ..state
    }
}

/// A buffer that the firmware has given back while the output port was closed is
/// put away, and the end of the stream is noted; other reports are dropped.
pub open spec fn put_away(state: DecoderState, report: Option<Report>) -> DecoderState {
    match report {
        Some(Report::Buffer { port, buffer, length, flags, pts }) => if port
            == state.input.handle {
            DecoderState { input_pool: state.input_pool.put(buffer), ..state }
        } else {
            DecoderState {
                output_pool: state.output_pool.put(buffer),
                ..came_back(state, flags)
            }
        },
        Some(Report::Port(PortEvent::EndOfStream)) => DecoderState { eos: true, ..state },
        _ => state,
    }
}

/// Wait for the output buffers that the firmware has. After the deadline it is not
/// expected to give them back.
pub open spec fn drain_program(state: DecoderState, deadline: u64, looks: nat) -> MmalProgram<
    Step<()>,
>
    decreases looks,
{
    if state.output_in_flight == 0 {
        Program::Return((state, Ok(())))
    } else {
        mmal::next_report(
            |report: Result<Option<Report>, MmalError>|
                match report {
                    Err(error) => Program::Return((state, Err(Error::Mmal(error)))),
                    Ok(report) => mmal::clock(
                        |now: u64|
                            {
                                let after = put_away(state, report);
                                if now > deadline || looks == 0 {
                                    Program::Return(
                                        (DecoderState { output_in_flight: 0, ..after }, Ok(())),
                                    )
                                } else {
                                    drain_program(after, deadline, (looks - 1) as nat)
                                }
                            },
                    ),
                },
        )
    }
}

/// When the firmware is not expected to give buffers back any more.
pub open spec fn deadline_after(now: u64) -> u64 {
    if now > u64::MAX - DRAIN_TIMEOUT_US {
        u64::MAX
    } else {
        (now + DRAIN_TIMEOUT_US) as u64
    }
}

/// Wait for the output buffers that the firmware has, but not for ever.
pub open spec fn await_program(state: DecoderState) -> MmalProgram<Step<()>> {
    mmal::clock(|now: u64| drain_program(state, deadline_after(now), MAX_LOOKS as nat))
}

/// The bytes that a buffer needs for a frame of a format that the firmware has found.
pub open spec fn needed_for(changed: FormatChanged) -> u32 {
    if changed.buffer_size_min > changed.buffer_size_recommended {
        changed.buffer_size_min
    } else {
        changed.buffer_size_recommended
    }
}

/// The output port as it is asked for with a format that the firmware has found.
pub open spec fn output_for(state: DecoderState, port: PortInfo, changed: FormatChanged) -> PortInfo {
    PortInfo {
        es_type: EsType::Video,
        encoding: Encoding::I420,
        encoding_variant: 0,
        video: changed.video,
        buffer_num: buffer_count(state.output_pool.total, changed.buffer_num_min),
        buffer_size: needed_for(changed),
        ..port
    }
}

/// A number that is not below zero.
pub open spec fn at_least_zero(value: i32) -> u32 {
    if value < 0 {
        0
    } else {
        value as u32
    }
}

/// The geometry of the frames that follow.
pub open spec fn format_of(changed: FormatChanged) -> FrameFormat {
    FrameFormat {
        width: changed.video.width,
        height: changed.video.height,
        crop_width: at_least_zero(changed.video.crop_width),
        crop_height: at_least_zero(changed.video.crop_height),
        frame_rate_num: changed.video.frame_rate_num,
        frame_rate_den: changed.video.frame_rate_den,
        frame_size: (changed.video.width.wrapping_mul(changed.video.height).wrapping_mul(3)
            / 2) as usize,
    }
}

/// Set the closed output port up for a format, open it, and give it its buffers. The
/// buffers that wait must be large enough, and the port is told no larger size than
/// theirs; if none waits, it is told the size that it needs, and those that come back are
/// held to it then.
pub open spec fn reopen_program(state: DecoderState, changed: FormatChanged) -> MmalProgram<
    Step<()>,
> {
    mmal::get_port(
        state.component,
        PortType::Output,
        |port: Result<PortInfo, MmalError>|
            match port {
                Err(error) => Program::Return((state, Err(Error::Mmal(error)))),
                Ok(port) => {
                    let wanted = output_for(state, port, changed);
                    let smallest = shortest(state.output_pool.slots, 0);
                    if smallest is Some && smallest->0 < wanted.buffer_size {
                        Program::Return(
                            (
                                DecoderState { output: wanted, ..state },
                                Err(
                                    Error::BufferTooSmall {
                                        provided: smallest->0 as usize,
                                        required: wanted.buffer_size as usize,
                                    },
                                ),
                            ),
                        )
                    } else {
                        mmal::set_port(
                            PortInfo {
                                buffer_size: match smallest {
                                    Some(length) => (length as usize) as u32,
                                    None => wanted.buffer_size,
                                },
                                ..wanted
                            },
                            |output: PortInfo, done: Result<(), MmalError>|
                                {
                                    let state = DecoderState { output, ..state };
                                    match done {
                                        Err(error) => Program::Return(
                                            (state, Err(Error::Mmal(error))),
                                        ),
                                        Ok(_) => open_program(state, changed),
                                    }
                                },
                        )
                    }
                },
            },
    )
}

/// Open the output port, and give it its buffers.
pub open spec fn open_program(state: DecoderState, changed: FormatChanged) -> MmalProgram<
    Step<()>,
> {
    mmal::act(
        MmalOp::Action(state.output, PortAction::Enable),
        |done: Result<(), MmalError>|
            match done {
                Err(error) => Program::Return((state, Err(Error::Mmal(error)))),
                Ok(_) => refill_program(
                    DecoderState {
                        output: PortInfo { enabled: true, ..state.output },
                        format: Some(format_of(changed)),
                        needed: needed_for(changed),
                        output_enabled: true,
                        ..state
                    },
                ),
            },
    )
}

/// Close the output port, and wait for its buffers.
pub open spec fn close_program(state: DecoderState) -> MmalProgram<Step<()>> {
    if !state.output_enabled {
        Program::Return((state, Ok(())))
    } else {
        mmal::act(
            MmalOp::Action(state.output, PortAction::Disable),
            |done: Result<(), MmalError>|
                match done {
                    Err(error) => Program::Return((state, Err(Error::Mmal(error)))),
                    Ok(_) => await_program(
                        DecoderState {
                            output: PortInfo { enabled: false, ..state.output },
                            output_enabled: false,
                            ..state
                        },
                    ),
                },
        )
    }
}

/// Set the output port up for the format that the firmware has found.
pub open spec fn reconfigure_program(state: DecoderState) -> MmalProgram<Step<()>> {
    mmal::changed_format(
        |changed: Option<FormatChanged>|
            match changed {
                None => Program::Return((state, Ok(()))),
                Some(changed) => close_program(state).bind(
                    |closed: Step<()>|
                        match closed.1 {
                            Err(error) => Program::Return(closed),
                            Ok(_) => reopen_program(closed.0, changed),
                        },
                ),
            },
    )
}

/// What polling gives: a frame, nothing, or an error.
pub type Polled = Step<Option<Picture>>;

/// What comes of one report: the end of the poll, or a state to go on with.
pub enum Turn {
    Over(Polled),
    On(DecoderState),
}

/// Act on a report.
pub open spec fn report_program(state: DecoderState, report: Report) -> MmalProgram<Turn> {
    match report {
        Report::Buffer { port, buffer, length, flags, pts } => if port == state.input.handle {
            Program::Return(
                Turn::On(DecoderState { input_pool: state.input_pool.put(buffer), ..state }),
            )
        } else {
            let after = came_back(state, flags);
            match state.format {
                Some(format) => if length > 0 {
                    Program::Return(
                        Turn::Over(
                            (after, Ok(Some(Picture { buffer, length, pts, flags, format }))),
                        ),
                    )
                } else {
                    refill_program(
                        DecoderState { output_pool: after.output_pool.put(buffer), ..after },
                    ).bind(|step: Step<()>| Program::Return(turn(step)))
                },
                None => refill_program(
                    DecoderState { output_pool: after.output_pool.put(buffer), ..after },
                ).bind(|step: Step<()>| Program::Return(turn(step))),
            }
        },
        Report::Port(event) => match event {
            PortEvent::FormatChanged => reconfigure_program(state).bind(
                |step: Step<()>| Program::Return(turn(step)),
            ),
            PortEvent::EndOfStream => Program::Return(
                Turn::On(DecoderState { eos: true, ..state }),
            ),
            PortEvent::Error => Program::Return(Turn::Over((state, Err(Error::DecoderError)))),
            PortEvent::Other(_) => Program::Return(Turn::On(state)),
        },
    }
}

/// Go on after a step, unless it failed.
pub open spec fn turn(step: Step<()>) -> Turn {
    match step.1 {
        Ok(_) => Turn::On(step.0),
        Err(error) => Turn::Over((step.0, Err(error))),
    }
}

/// Whether a report says that the stream has ended: a buffer of the output port carries
/// the flag, or the event has come.
pub open spec fn says_ended(state: DecoderState, report: Report) -> bool {
    match report {
        Report::Buffer { port, buffer, length, flags, pts } => port != state.input.handle && flags
            & BUFFER_FLAG_EOS != 0,
        Report::Port(event) => event == PortEvent::EndOfStream,
    }
}

/// A state after which the stream has ended.
pub open spec fn ended() -> spec_fn(Step<()>) -> bool {
    |step: Step<()>| step.0.eos
}

proof fn lemma_hand_over_ended(state: DecoderState, count: nat)
    requires
        state.eos,
    ensures
        hand_over_program(state, count).ends_in(ended()),
    decreases count,
{
    let program = hand_over_program(state, count);
    if let Some(buffer) = state.output_pool.taken(state.needed as nat).1 {
        let after = DecoderState {
            output_pool: state.output_pool.taken(state.needed as nat).0,
            ..state
        };
        let more = DecoderState { output_in_flight: one_more(state.output_in_flight), ..after };
        if count > 0 {
            lemma_hand_over_ended(more, (count - 1) as nat);
        }
        let next = program->Request_1;
        assert forall|answer: MmalAnswer| (#[trigger] next(answer)).ends_in(ended()) by {
            match answer {
                MmalAnswer::Done(Err(error)) => {
                    assert(ended()((after, Err(Error::Mmal(error)))));
                },
                _ => {},
            }
        }
    }
}

/// The end of the stream is noticed whenever it is reported, by the flag of a buffer or by
/// an event, and also while the output port is being reconfigured.
pub proof fn law_end_is_noticed(state: DecoderState, report: Report)
    requires
        says_ended(state, report),
    ensures
        put_away(state, Some(report)).eos,
        report_program(state, report).ends_in(
            |turn: Turn|
                match turn {
                    Turn::Over(polled) => polled.0.eos,
                    Turn::On(after) => after.eos,
                },
        ),
{
    let holds = |turn: Turn|
        match turn {
            Turn::Over(polled) => polled.0.eos,
            Turn::On(after) => after.eos,
        };
    match report {
        Report::Buffer { port, buffer, length, flags, pts } => {
            let after = came_back(state, flags);
            let again = DecoderState { output_pool: after.output_pool.put(buffer), ..after };
            let refill = refill_program(again);
            lemma_hand_over_ended(again, usable(again).len());
            crate::program::lemma_reached(refill, ended());
            crate::program::lemma_ends_in_bind(
                refill,
                |step: Step<()>| Program::Return(turn(step)),
                holds,
            );
        },
        Report::Port(event) => {},
    }
}

/// Act on reports until there is a frame, or none is left.
pub open spec fn poll_program(state: DecoderState, looks: nat) -> MmalProgram<Polled>
    decreases looks,
{
    if looks == 0 {
        Program::Return((state, Ok(None)))
    } else {
        mmal::next_report(
            |report: Result<Option<Report>, MmalError>|
                match report {
                    Err(error) => Program::Return((state, Err(Error::Mmal(error)))),
                    Ok(None) => Program::Return((state, Ok(None))),
                    Ok(Some(report)) => report_program(state, report).bind(
                        |turn: Turn|
                            match turn {
                                Turn::Over(polled) => Program::Return(polled),
                                Turn::On(after) => poll_program(after, (looks - 1) as nat),
                            },
                    ),
                },
        )
    }
}

/// The H.264 decoder.
pub struct VideoDecoder<M> {
    mmal: Mmal<M>,
    component: Component,
    input: PortInfo,
    output: PortInfo,
    input_pool: Pool,
    output_pool: Pool,
    started: bool,
    output_enabled: bool,
    output_in_flight: usize,
    format: Option<FrameFormat>,
    needed: u32,
    eos: bool,
}

impl<M> View for VideoDecoder<M> {
    type V = DecoderState;

    closed spec fn view(&self) -> DecoderState {
        DecoderState {
            component: self.component,
            input: self.input,
            output: self.output,
            input_pool: self.input_pool@,
            output_pool: self.output_pool@,
            started: self.started,
            output_enabled: self.output_enabled,
            output_in_flight: self.output_in_flight,
            format: self.format,
            needed: self.needed,
            eos: self.eos,
        }
    }
}

/// What is promised of a decoder whatever is done with it: it stays sound, stays
/// started, keeps its component, and an ended stream stays ended.
pub open spec fn lasting(before: DecoderState, after: DecoderState) -> bool {
    &&& after.wf()
    &&& before.started ==> after.started
    &&& before.component == after.component
    &&& before.eos ==> after.eos
}

/// Creates the component, and has its ports described.
fn set_up<M: MmalClient>(mmal: &mut Mmal<M>) -> (result: Result<
    (Component, PortInfo, PortInfo),
    Error,
>)
    ensures
        set_up_program().ran(old(mmal)@, final(mmal)@, result),
{
    let component: Component = match mmal.component_create("ril.video_decode") {
        Ok(component) => component,
        Err(error) => return Err(Error::Mmal(error)),
    };
    let mut input: PortInfo = match mmal.port_info_get(&component, PortType::Input, 0) {
        Ok(input) => input,
        Err(error) => return Err(Error::Mmal(error)),
    };
    input.es_type = EsType::Video;
    input.encoding = Encoding::H264;
    input.encoding_variant = 0;
    match mmal.port_info_get(&component, PortType::Output, 0) {
        Ok(output) => Ok((component, input, output)),
        Err(error) => Err(Error::Mmal(error)),
    }
}

impl<M: MmalClient> VideoDecoder<M> {
    /// What the firmware was asked.
    pub closed spec fn history(&self) -> MmalHistory {
        self.mmal@
    }

    /// Creates the component that decodes. If that fails, the client is given back.
    pub fn new(mmal: Mmal<M>) -> (created: Result<Self, (Error, Mmal<M>)>)
        ensures
            match created {
                Ok(decoder) => {
                    &&& decoder@.wf()
                    &&& new_program().ran(mmal@, decoder.history(), Ok(decoder@))
                },
                Err((error, failed)) => new_program().ran(mmal@, failed@, Err(error)),
            },
    {
        let mut mmal = mmal;
        proof {
            crate::program::begin(mmal@, new_program());
        }
        match set_up(&mut mmal) {
            Err(error) => Err((error, mmal)),
            Ok((component, input, output)) => Ok(
                VideoDecoder {
                    mmal,
                    component,
                    input,
                    output,
                    input_pool: Pool::new(),
                    output_pool: Pool::new(),
                    started: false,
                    output_enabled: false,
                    output_in_flight: 0,
                    format: None,
                    needed: 0,
                    eos: false,
                },
            ),
        }
    }

    /// Adds a buffer for the stream; only before the start.
    pub fn add_input_buffer(&mut self, buffer: Vec<u8>) -> (result: Result<(), Error>)
        requires
            old(self)@.wf(),
        ensures
            lasting(old(self)@, final(self)@),
            final(self).history() == old(self).history(),
            if old(self)@.started {
                result == Err::<(), Error>(Error::WrongState) && final(self)@ == old(self)@
            } else {
                &&& result == old(self)@.input_pool.added(buffer@).1
                &&& final(self)@ == (DecoderState {
                    input_pool: old(self)@.input_pool.added(buffer@).0,
                    ..old(self)@
                })
            },
    {
        if self.started {
            return Err(Error::WrongState);
        }
        self.input_pool.add(buffer)
    }

    /// Adds a buffer for frames; only before the start.
    pub fn add_output_buffer(&mut self, buffer: Vec<u8>) -> (result: Result<(), Error>)
        requires
            old(self)@.wf(),
        ensures
            lasting(old(self)@, final(self)@),
            final(self).history() == old(self).history(),
            if old(self)@.started {
                result == Err::<(), Error>(Error::WrongState) && final(self)@ == old(self)@
            } else {
                &&& result == old(self)@.output_pool.added(buffer@).1
                &&& final(self)@ == (DecoderState {
                    output_pool: old(self)@.output_pool.added(buffer@).0,
                    ..old(self)@
                })
            },
    {
        if self.started {
            return Err(Error::WrongState);
        }
        self.output_pool.add(buffer)
    }

    /// Sets both ports up and enables the component.
    pub fn start(&mut self) -> (result: Result<(), Error>)
        requires
            old(self)@.wf(),
        ensures
            lasting(old(self)@, final(self)@),
            start_program(old(self)@).ran(
                old(self).history(),
                final(self).history(),
                (final(self)@, result),
            ),
    {
        if self.started {
            return Err(Error::WrongState);
        }
        if self.input_pool.total == 0 || self.output_pool.total == 0 {
            return Err(Error::NoBuffers);
        }
        let smallest: usize = self.input_pool.smallest();
        if smallest < self.input.buffer_size_min as usize {
            return Err(
                Error::BufferTooSmall {
                    provided: smallest,
                    required: self.input.buffer_size_min as usize,
                },
            );
        }
        let mut input: PortInfo = self.input;
        input.buffer_num = larger(self.input_pool.total, self.input.buffer_num_min);
        input.buffer_size = smallest as u32;
        let done = self.mmal.port_info_set(&mut input);
        self.input = input;
        match done {
            Ok(()) => {},
            Err(error) => return Err(Error::Mmal(error)),
        }
        let mut output: PortInfo = self.output;
        output.es_type = EsType::Video;
        output.encoding = Encoding::I420;
        output.encoding_variant = 0;
        output.buffer_num = larger(self.output_pool.total, self.output.buffer_num_min);
        let done = self.mmal.port_info_set(&mut output);
        self.output = output;
        match done {
            Ok(()) => {},
            Err(error) => return Err(Error::Mmal(error)),
        }
        self.enable()
    }

    fn enable(&mut self) -> (result: Result<(), Error>)
        requires
            old(self)@.wf(),
        ensures
            lasting(old(self)@, final(self)@),
            enable_program(old(self)@).ran(
                old(self).history(),
                final(self).history(),
                (final(self)@, result),
            ),
    {
        match self.mmal.component_enable(&self.component) {
            Ok(()) => {},
            Err(error) => return Err(Error::Mmal(error)),
        }
        match self.mmal.port_action(&self.output, PortAction::Enable) {
            Ok(()) => {},
            Err(error) => return Err(Error::Mmal(error)),
        }
        self.output.enabled = true;
        self.output_enabled = true;
        match self.mmal.port_action(&self.input, PortAction::Enable) {
            Ok(()) => {},
            Err(error) => return Err(Error::Mmal(error)),
        }
        self.input.enabled = true;
        self.started = true;
        Ok(())
    }

    /// Gives the firmware as much of `data` as fits into one buffer; says how much
    /// that is.
    pub fn feed(&mut self, data: &[u8], flags: u32, pts: i64) -> (result: Result<usize, Error>)
        requires
            old(self)@.wf(),
        ensures
            lasting(old(self)@, final(self)@),
            feed_program(old(self)@, data@, flags, pts).ran(
                old(self).history(),
                final(self).history(),
                (final(self)@, result),
            ),
    {
        if !self.started {
            return Err(Error::WrongState);
        }
        if data.len() == 0 {
            return Ok(0);
        }
        let mut buffer: Vec<u8> = match self.input_pool.take(0) {
            Some(buffer) => buffer,
            None => return Ok(0),
        };
        let length: usize = load(&mut buffer, data);
        match self.mmal.send_buffer(&self.input, buffer, length, flags, pts) {
            Ok(()) => Ok(length),
            Err(error) => Err(Error::Mmal(error)),
        }
    }

    /// Ends the stream.
    pub fn finish(&mut self) -> (result: Result<(), Error>)
        requires
            old(self)@.wf(),
        ensures
            lasting(old(self)@, final(self)@),
            finish_program(old(self)@).ran(
                old(self).history(),
                final(self).history(),
                (final(self)@, result),
            ),
    {
        if !self.started {
            return Err(Error::WrongState);
        }
        let buffer: Vec<u8> = match self.input_pool.take(0) {
            Some(buffer) => buffer,
            None => return Err(Error::WrongState),
        };
        match self.mmal.send_buffer(&self.input, buffer, 0, BUFFER_FLAG_EOS, TIME_UNKNOWN) {
            Ok(()) => Ok(()),
            Err(error) => Err(Error::Mmal(error)),
        }
    }

    fn refill_output(&mut self) -> (result: Result<(), Error>)
        requires
            old(self)@.wf(),
        ensures
            lasting(old(self)@, final(self)@),
            final(self)@.format == old(self)@.format,
            refill_program(old(self)@).ran(
                old(self).history(),
                final(self).history(),
                (final(self)@, result),
            ),
    {
        if !self.output_enabled || self.format.is_none() {
            return Ok(());
        }
        let ghost whole = refill_program(old(self)@);
        let ghost mut count = usable(self@).len();
        proof {
            crate::program::begin(self.history(), whole);
        }
        loop
            invariant
                lasting(old(self)@, self@),
                self@.format == old(self)@.format,
                whole == refill_program(old(self)@),
                count == usable(self@).len(),
                whole.leads(old(self).history(), self.history(), hand_over_program(self@, count)),
            decreases count,
        {
            proof {
                law_taken_in_order(self@.output_pool, self@.needed as nat);
            }
            let buffer: Vec<u8> = match self.output_pool.take(self.needed as usize) {
                Some(buffer) => buffer,
                None => {
                    return match self.output_pool.shortest() {
                        None => Ok(()),
                        Some(length) => Err(
                            Error::BufferTooSmall {
                                provided: length,
                                required: self.needed as usize,
                            },
                        ),
                    };
                },
            };
            match self.mmal.send_buffer(&self.output, buffer, 0, 0, TIME_UNKNOWN) {
                Ok(()) => {},
                Err(error) => return Err(Error::Mmal(error)),
            }
            if self.output_in_flight < usize::MAX {
                self.output_in_flight = self.output_in_flight + 1;
            }
            proof {
                count = (count - 1) as nat;
            }
        }
    }

    fn drain_output(&mut self) -> (result: Result<(), Error>)
        requires
            old(self)@.wf(),
        ensures
            lasting(old(self)@, final(self)@),
            final(self)@.format == old(self)@.format,
            await_program(old(self)@).ran(
                old(self).history(),
                final(self).history(),
                (final(self)@, result),
            ),
    {
        let ghost whole = await_program(self@);
        proof {
            crate::program::begin(self.history(), whole);
        }
        let now: u64 = self.mmal.now_micros();
        let deadline: u64 = if now > u64::MAX - DRAIN_TIMEOUT_US {
            u64::MAX
        } else {
            now + DRAIN_TIMEOUT_US
        };
        let mut looks: u64 = MAX_LOOKS;
        while self.output_in_flight > 0
            invariant
                lasting(old(self)@, self@),
                self@.format == old(self)@.format,
                whole == await_program(old(self)@),
                whole.leads(
                    old(self).history(),
                    self.history(),
                    drain_program(self@, deadline, looks as nat),
                ),
            decreases looks, self.output_in_flight,
        {
            match self.mmal.poll() {
                Ok(Some(Event::Buffer { port, buffer, flags, .. })) => {
                    if port == self.input.handle {
                        self.input_pool.put(buffer);
                    } else {
                        self.output_in_flight = self.output_in_flight - 1;
                        if flags & BUFFER_FLAG_EOS != 0 {
                            self.eos = true;
                        }
                        self.output_pool.put(buffer);
                    }
                },
                Ok(Some(Event::Port(PortEvent::EndOfStream))) => {
                    self.eos = true;
                },
                Ok(_) => {},
                Err(error) => return Err(Error::Mmal(error)),
            }
            let time: u64 = self.mmal.now_micros();
            if time > deadline || looks == 0 {
                self.output_in_flight = 0;
                return Ok(());
            }
            looks = looks - 1;
        }
        Ok(())
    }

    fn close_output(&mut self) -> (result: Result<(), Error>)
        requires
            old(self)@.wf(),
        ensures
            lasting(old(self)@, final(self)@),
            close_program(old(self)@).ran(
                old(self).history(),
                final(self).history(),
                (final(self)@, result),
            ),
    {
        if !self.output_enabled {
            return Ok(());
        }
        match self.mmal.port_action(&self.output, PortAction::Disable) {
            Ok(()) => {},
            Err(error) => return Err(Error::Mmal(error)),
        }
        self.output_enabled = false;
        self.output.enabled = false;
        self.drain_output()
    }

    fn open_output(&mut self, changed: FormatChanged) -> (result: Result<(), Error>)
        requires
            old(self)@.wf(),
        ensures
            lasting(old(self)@, final(self)@),
            open_program(old(self)@, changed).ran(
                old(self).history(),
                final(self).history(),
                (final(self)@, result),
            ),
    {
        match self.mmal.port_action(&self.output, PortAction::Enable) {
            Ok(()) => {},
            Err(error) => return Err(Error::Mmal(error)),
        }
        self.output.enabled = true;
        self.format = Some(
            FrameFormat {
                width: changed.video.width,
                height: changed.video.height,
                crop_width: if changed.video.crop_width < 0 {
                    0
                } else {
                    changed.video.crop_width as u32
                },
                crop_height: if changed.video.crop_height < 0 {
                    0
                } else {
                    changed.video.crop_height as u32
                },
                frame_rate_num: changed.video.frame_rate_num,
                frame_rate_den: changed.video.frame_rate_den,
                frame_size: (changed.video.width.wrapping_mul(
                    changed.video.height,
                ).wrapping_mul(3) / 2) as usize,
            },
        );
        self.needed = size_needed(&changed);
        self.output_enabled = true;
        self.refill_output()
    }

    fn reopen_output(&mut self, changed: FormatChanged) -> (result: Result<(), Error>)
        requires
            old(self)@.wf(),
        ensures
            lasting(old(self)@, final(self)@),
            reopen_program(old(self)@, changed).ran(
                old(self).history(),
                final(self).history(),
                (final(self)@, result),
            ),
    {
        let mut output: PortInfo = match self.mmal.port_info_get(
            &self.component,
            PortType::Output,
            0,
        ) {
            Ok(output) => output,
            Err(error) => return Err(Error::Mmal(error)),
        };
        output.es_type = EsType::Video;
        output.encoding = Encoding::I420;
        output.encoding_variant = 0;
        output.video = changed.video;
        output.buffer_num = larger(self.output_pool.total, changed.buffer_num_min);
        output.buffer_size = size_needed(&changed);
        match self.output_pool.shortest() {
            Some(smallest) => {
                if smallest < output.buffer_size as usize {
                    self.output = output;
                    return Err(
                        Error::BufferTooSmall {
                            provided: smallest,
                            required: output.buffer_size as usize,
                        },
                    );
                }
                output.buffer_size = smallest as u32;
            },
            None => {},
        }
        let done = self.mmal.port_info_set(&mut output);
        self.output = output;
        match done {
            Ok(()) => {},
            Err(error) => return Err(Error::Mmal(error)),
        }
        self.open_output(changed)
    }

    fn reconfigure_output(&mut self) -> (result: Result<(), Error>)
        requires
            old(self)@.wf(),
        ensures
            lasting(old(self)@, final(self)@),
            reconfigure_program(old(self)@).ran(
                old(self).history(),
                final(self).history(),
                (final(self)@, result),
            ),
    {
        let changed: FormatChanged = match self.mmal.format_changed() {
            Some(changed) => changed,
            None => return Ok(()),
        };
        match self.close_output() {
            Ok(()) => {},
            Err(error) => return Err(error),
        }
        self.reopen_output(changed)
    }

    fn on_event(&mut self, event: Event) -> (result: Result<Option<Frame>, Error>)
        requires
            old(self)@.wf(),
        ensures
            lasting(old(self)@, final(self)@),
            result matches Ok(Some(frame)) ==> {
                &&& final(self)@.format == Some(frame.format)
                &&& frame.length > 0
            },
            report_program(old(self)@, event@).ran(
                old(self).history(),
                final(self).history(),
                match result {
                    Ok(Some(frame)) => Turn::Over((final(self)@, Ok(Some(frame@)))),
                    Ok(None) => Turn::On(final(self)@),
                    Err(error) => Turn::Over((final(self)@, Err(error))),
                },
            ),
    {
        match event {
            Event::Buffer { port, buffer, length, flags, pts } => {
                if port == self.input.handle {
                    self.input_pool.put(buffer);
                    return Ok(None);
                }
                if self.output_in_flight > 0 {
                    self.output_in_flight = self.output_in_flight - 1;
                }
                if flags & BUFFER_FLAG_EOS != 0 {
                    self.eos = true;
                }
                match self.format {
                    Some(format) => {
                        if length > 0 {
                            return Ok(Some(Frame { buffer, length, pts, flags, format }));
                        }
                    },
                    None => {},
                }
                self.output_pool.put(buffer);
                match self.refill_output() {
                    Ok(()) => Ok(None),
                    Err(error) => Err(error),
                }
            },
            Event::Port(PortEvent::FormatChanged) => match self.reconfigure_output() {
                Ok(()) => Ok(None),
                Err(error) => Err(error),
            },
            Event::Port(PortEvent::EndOfStream) => {
                self.eos = true;
                Ok(None)
            },
            Event::Port(PortEvent::Error) => Err(Error::DecoderError),
            Event::Port(PortEvent::Other(_)) => Ok(None),
        }
    }

    /// Moves the decoder on; gives a frame, if one is ready. A frame comes only in a
    /// format that is known, and is never empty.
    pub fn poll(&mut self) -> (result: Result<Option<Frame>, Error>)
        requires
            old(self)@.wf(),
        ensures
            lasting(old(self)@, final(self)@),
            result matches Ok(Some(frame)) ==> {
                &&& final(self)@.format == Some(frame.format)
                &&& frame.length > 0
            },
            poll_program(old(self)@, MAX_LOOKS as nat).ran(
                old(self).history(),
                final(self).history(),
                (
                    final(self)@,
                    match result {
                        Ok(Some(frame)) => Ok(Some(frame@)),
                        Ok(None) => Ok(None),
                        Err(error) => Err(error),
                    },
                ),
            ),
    {
        let ghost whole = poll_program(self@, MAX_LOOKS as nat);
        let mut looks: u64 = MAX_LOOKS;
        proof {
            crate::program::begin(self.history(), whole);
        }
        while looks > 0
            invariant
                lasting(old(self)@, self@),
                whole == poll_program(old(self)@, MAX_LOOKS as nat),
                whole.leads(
                    old(self).history(),
                    self.history(),
                    poll_program(self@, looks as nat),
                ),
            decreases looks,
        {
            let event: Event = match self.mmal.poll() {
                Ok(Some(event)) => event,
                Ok(None) => return Ok(None),
                Err(error) => return Err(Error::Mmal(error)),
            };
            match self.on_event(event) {
                Ok(Some(frame)) => return Ok(Some(frame)),
                Ok(None) => {},
                Err(error) => return Err(error),
            }
            looks = looks - 1;
        }
        Ok(None)
    }

    /// Gives a frame's buffer back to the decoder.
    pub fn recycle(&mut self, frame: Frame) -> (result: Result<(), Error>)
        requires
            old(self)@.wf(),
        ensures
            lasting(old(self)@, final(self)@),
            refill_program(
                DecoderState {
                    output_pool: old(self)@.output_pool.put(frame.buffer@),
                    ..old(self)@
                },
            ).ran(old(self).history(), final(self).history(), (final(self)@, result)),
    {
        self.output_pool.put(frame.buffer);
        self.refill_output()
    }

    /// The geometry of the frames, once it is known.
    pub fn format(&self) -> (format: Option<FrameFormat>)
        ensures
            format == self@.format,
    {
        self.format
    }

    /// Whether the end of the stream has come out.
    pub fn end_of_stream(&self) -> (ended: bool)
        ensures
            ended == self@.eos,
    {
        self.eos
    }

    /// The way to the firmware.
    pub fn mmal(&mut self) -> (mmal: &mut Mmal<M>)
        ensures
            mmal@ == old(self).history(),
            final(self)@ == old(self)@,
            final(self).history() == final(mmal)@,
    {
        &mut self.mmal
    }

    /// The port that the stream goes in by.
    pub fn input_port(&self) -> (port: &PortInfo)
        ensures
            *port == self@.input,
    {
        &self.input
    }

    /// The port that frames come out by.
    pub fn output_port(&self) -> (port: &PortInfo)
        ensures
            *port == self@.output,
    {
        &self.output
    }
}

fn size_needed(changed: &FormatChanged) -> (size: u32)
    ensures
        size == needed_for(*changed),
{
    if changed.buffer_size_min > changed.buffer_size_recommended {
        changed.buffer_size_min
    } else {
        changed.buffer_size_recommended
    }
}

fn larger(total: usize, least: u32) -> (count: u32)
    ensures
        count == buffer_count(total, least),
{
    if total > least as usize {
        total as u32
    } else {
        least
    }
}

fn load(buffer: &mut Vec<u8>, data: &[u8]) -> (length: usize)
    ensures
        (final(buffer)@, length) == loaded(old(buffer)@, data@),
{
    let length: usize = if data.len() < buffer.len() {
        data.len()
    } else {
        buffer.len()
    };
    let mut at: usize = 0;
    while at < length
        invariant
            at <= length <= data@.len(),
            length <= buffer@.len(),
            buffer@.len() == old(buffer)@.len(),
            forall|i: int| 0 <= i < at ==> buffer@[i] == data@[i],
            forall|i: int| at <= i < buffer@.len() ==> buffer@[i] == old(buffer)@[i],
        decreases length - at,
    {
        buffer.set(at, data[at]);
        at = at + 1;
    }
    assert(buffer@ =~= loaded(old(buffer)@, data@).0);
    length
}

} // verus!

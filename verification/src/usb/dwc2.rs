//! The Synopsys DesignWare DWC2 USB host controller of the BCM283x, polled.
//!
//! A [`Dwc2Host`] brings the controller and its root port up and hands out host
//! channels; a [`Channel`] runs transactions, one at a time. A transaction to a
//! full- or low-speed device behind a high-speed hub is split: it is started at
//! the hub's transaction translator (a start split) and its outcome is collected
//! later (a complete split), packet by packet.
//!
//! A channel keeps two histories: what it did to the controller's registers, and
//! the transfers that this amounted to. Every transfer function states both, so
//! that code above this module can be stated in transfers alone.

use vstd::prelude::*;

use crate::program::{Exchange, Program};
use crate::usb::dwc2::hardware::{
    Change, CharacterFields, Dwc2Registers, Field, HwHistory, HwProgram, SizeFields, SplitFields,
    UsbPort,
};

pub mod asynch;
pub mod direct;
pub mod figures;
pub mod hardware;
pub mod host;
pub mod isolation;
pub mod plan;
pub mod upkeep;

pub use crate::usb::dwc2::host::Dwc2Host;

verus! {

broadcast use crate::program::group_program;

/// A data packet's identifier: which of the two data toggles, or SETUP.
#[derive(Clone, Copy, Debug, PartialEq, Eq, Structural)]
pub enum DataPid {
    Data0,
    Data1,
    Setup,
}

impl DataPid {
    /// The identifier's encoding in `HCTSIZ.DPID`.
    pub open spec fn encoding(self) -> u8 {
        match self {
            DataPid::Data0 => 0,
            DataPid::Data1 => 2,
            DataPid::Setup => 3,
        }
    }

    /// The identifier of the packet that follows.
    pub open spec fn following(self) -> DataPid {
        match self {
            DataPid::Data0 => DataPid::Data1,
            DataPid::Data1 => DataPid::Data0,
            DataPid::Setup => DataPid::Setup,
        }
    }

    pub(crate) fn bits(self) -> (bits: u8)
        ensures
            bits == self.encoding(),
    {
        match self {
            DataPid::Data0 => 0,
            DataPid::Data1 => 2,
            DataPid::Setup => 3,
        }
    }

    pub(crate) fn toggled(self) -> (next: DataPid)
        ensures
            next == self.following(),
    {
        match self {
            DataPid::Data0 => DataPid::Data1,
            DataPid::Data1 => DataPid::Data0,
            DataPid::Setup => DataPid::Setup,
        }
    }
}

/// The data identifier that a toggle stands for.
pub open spec fn pid_of(data_toggle: bool) -> DataPid {
    if data_toggle {
        DataPid::Data1
    } else {
        DataPid::Data0
    }
}

/// Two packets on, the data toggle is where it was.
pub proof fn law_toggle_twice(pid: DataPid)
    ensures
        pid.following().following() == pid,
{
}

/// The endpoint types this driver uses.
#[derive(Clone, Copy, Debug, PartialEq, Eq, Structural)]
pub enum EndpointType {
    Control,
    Interrupt,
    Bulk,
}

impl EndpointType {
    /// The type's encoding in `HCCHAR.EPTYP`.
    pub open spec fn encoding(self) -> u8 {
        match self {
            EndpointType::Control => 0,
            EndpointType::Bulk => 2,
            EndpointType::Interrupt => 3,
        }
    }

    fn bits(self) -> (bits: u8)
        ensures
            bits == self.encoding(),
    {
        match self {
            EndpointType::Control => 0,
            EndpointType::Bulk => 2,
            EndpointType::Interrupt => 3,
        }
    }
}

/// Why a transfer did not succeed.
#[derive(Clone, Copy, Debug, PartialEq, Eq, Structural)]
pub enum TransferError {
    /// The endpoint is stalled: it refuses the request.
    Stall,
    /// No valid handshake came back.
    TransactionError,
    /// The device sent more than it was asked for.
    Babble,
    /// The endpoint has nothing to say, or no room, for now; or the translator in front of
    /// it is not done. It can be tried again.
    Nak,
    /// The endpoint said so for as long as anyone was prepared to ask.
    NakTimeout,
    /// A periodic transfer missed its microframe.
    FrameOverrun,
    /// A packet came with the wrong data toggle.
    DataToggleError,
    /// The channel halted, and the controller gives no reason at all.
    Halted,
    /// The channel did not halt in time.
    Timeout,
}

/// The transaction translator that a device is reached through.
#[derive(Clone, Copy, Debug, PartialEq, Eq, Structural)]
pub struct SplitTarget {
    pub hub_address: u8,
    pub port: u8,
}

/// How a device is reached: its address and speed, the packet size of the
/// endpoint in question, and the translator in front of it.
#[derive(Clone, Copy, Debug, PartialEq, Eq, Structural)]
pub struct ControlEndpoint {
    pub address: u8,
    pub low_speed: bool,
    pub max_packet_size: u16,
    pub split: Option<SplitTarget>,
}

/// One transaction, or the packets of one transfer that the controller takes in
/// one go.
#[derive(Clone, Copy, Debug, PartialEq, Eq, Structural)]
pub struct Transaction {
    pub endpoint_number: u8,
    pub endpoint_type: EndpointType,
    pub direction_in: bool,
    pub pid: DataPid,
    pub transfer_size: u32,
    pub dma_address: u32,
}

/// The longest control or interrupt transfer, in bytes.
pub const MAX_TRANSFER_LEN: usize = 256;

/// The most host channels that any controller has.
pub const MAX_CHANNELS: u8 = 12;

/// `HCINT`: the transfer is complete.
pub const HCINT_XFRC: u32 = 0x001;

/// `HCINT`: the channel has halted.
pub const HCINT_CHH: u32 = 0x002;

/// `HCINT`: STALL.
pub const HCINT_STALL: u32 = 0x008;

/// `HCINT`: NAK.
pub const HCINT_NAK: u32 = 0x010;

/// `HCINT`: ACK.
pub const HCINT_ACK: u32 = 0x020;

/// `HCINT`: NYET.
pub const HCINT_NYET: u32 = 0x040;

/// `HCINT`: transaction error.
pub const HCINT_TXERR: u32 = 0x080;

/// `HCINT`: babble.
pub const HCINT_BBERR: u32 = 0x100;

/// `HCINT`: frame overrun.
pub const HCINT_FRMOR: u32 = 0x200;

/// `HCINT`: data toggle error.
pub const HCINT_DTERR: u32 = 0x400;

/// How often a complete split is tried.
pub const MAX_CSPLIT_POLLS: u32 = 8;

/// The pause between two tries: five microframes.
pub const CSPLIT_RETRY_DELAY_US: u64 = 625;

/// How long a channel may run, in microseconds.
pub const HALT_TIMEOUT_US: u64 = 50_000;

/// How long a channel that was told to stop may take, in microseconds.
pub const ABORT_TIMEOUT_US: u64 = 10_000;

/// How long a microframe is waited for, in microseconds.
pub const MICROFRAME_TIMEOUT_US: u64 = 2_000;

/// The most that any register is polled without a clock to stop it.
pub const MAX_SPINS: u64 = u64::MAX;

/// A physical address as the controller's DMA sees it: in the alias of RAM that
/// bypasses the VideoCore's cache.
pub open spec fn vc_bus_address(physical_address: u32) -> u32 {
    (physical_address & 0x3FFF_FFFF) | 0xC000_0000
}

pub(crate) fn to_vc_bus_address(physical_address: u32) -> (bus_address: u32)
    ensures
        bus_address == vc_bus_address(physical_address),
{
    (physical_address & 0x3FFF_FFFF) | 0xC000_0000
}

/// The time since `start`, on a clock that may wrap round.
pub open spec fn elapsed(now: u64, start: u64) -> u64 {
    now.wrapping_sub(start)
}

/// A packet size that can be divided by.
pub open spec fn packet_size(max_packet_size: u16) -> u32 {
    if max_packet_size == 0 {
        1
    } else {
        max_packet_size as u32
    }
}

fn nonzero_packet_size(max_packet_size: u16) -> (size: u32)
    ensures
        size == packet_size(max_packet_size),
        size >= 1,
{
    if max_packet_size == 0 {
        1
    } else {
        max_packet_size as u32
    }
}

/// The packets that `size` bytes take; even none take one.
pub open spec fn packets_for(size: u32, max_packet_size: u16) -> int {
    if size == 0 {
        1
    } else {
        (size - 1) / packet_size(max_packet_size) as int + 1
    }
}

/// The number of the microframe in its frame.
pub open spec fn microframe_of(frame_number: u32) -> u8 {
    (frame_number % 8) as u8
}

/// The microframe `count` after `frame`.
pub open spec fn frames_on(frame: u8, count: int) -> u8 {
    ((frame + count) % 8) as u8
}

/// The fields that start `txn` on a channel.
pub open spec fn character_of(
    endpoint: ControlEndpoint,
    txn: Transaction,
    odd_frame: bool,
) -> CharacterFields {
    CharacterFields {
        max_packet_size: endpoint.max_packet_size,
        endpoint_number: txn.endpoint_number,
        direction_in: txn.direction_in,
        low_speed: endpoint.low_speed,
        endpoint_type: txn.endpoint_type.encoding(),
        multi_count: 1,
        device_address: endpoint.address,
        odd_frame,
    }
}

/// The split fields of a transaction to `endpoint`, if it is split.
pub open spec fn split_of(endpoint: ControlEndpoint, complete: bool) -> Option<SplitFields> {
    match endpoint.split {
        Some(target) => Some(
            SplitFields {
                hub_address: target.hub_address,
                port: target.port,
                position: 3,
                complete,
            },
        ),
        None => None,
    }
}

/// Start `txn` on a channel: clear what it had pending, unmask the halt alone,
/// describe the transaction, and enable it. A transaction whose microframe is
/// not given goes by the parity of the current one, unless it is split.
pub open spec fn start_program(
    channel: u8,
    endpoint: ControlEndpoint,
    txn: Transaction,
    complete_split: bool,
    odd_frame: Option<bool>,
) -> HwProgram<()> {
    let go = |odd: bool|
        hardware::apply(
            Change::Start { channel, character: character_of(endpoint, txn, odd) },
            Program::Return(()),
        );
    hardware::apply(
        Change::AckInterrupts { channel, bits: 0xffff_ffff },
        hardware::apply(
            Change::InterruptMask { channel, bits: HCINT_CHH },
            hardware::apply(
                Change::Split { channel, split: split_of(endpoint, complete_split) },
                hardware::apply(
                    Change::DmaAddress { channel, bus_address: vc_bus_address(txn.dma_address) },
                    hardware::apply(
                        Change::TransferSize {
                            channel,
                            size: SizeFields {
                                bytes: txn.transfer_size,
                                packets: packets_for(
                                    txn.transfer_size,
                                    endpoint.max_packet_size,
                                ) as u16,
                                pid: txn.pid.encoding(),
                            },
                        },
                        match odd_frame {
                            Some(odd) => go(odd),
                            None => if endpoint.split is Some {
                                go(false)
                            } else {
                                hardware::read(
                                    Field::FrameNumber,
                                    |number: u32| go(number % 2 == 1),
                                )
                            },
                        },
                    ),
                ),
            ),
        ),
    )
}

/// Clear everything that a channel has pending.
pub open spec fn ack_program<T>(channel: u8, rest: HwProgram<T>) -> HwProgram<T> {
    hardware::apply(Change::AckInterrupts { channel, bits: 0xffff_ffff }, rest)
}

/// Wait for a stopped channel to halt, then clear what it has pending.
pub open spec fn abort_poll(channel: u8, start: u64, spins: nat) -> HwProgram<()>
    decreases spins,
{
    hardware::read(
        Field::Interrupts(channel),
        |hcint: u32|
            if hcint & HCINT_CHH != 0 {
                ack_program(channel, Program::Return(()))
            } else {
                hardware::now(
                    |now: u64|
                        if spins == 0 || elapsed(now, start) > ABORT_TIMEOUT_US {
                            ack_program(channel, Program::Return(()))
                        } else {
                            abort_poll(channel, start, (spins - 1) as nat)
                        },
                )
            },
    )
}

/// Stop a channel.
pub open spec fn abort_program(channel: u8) -> HwProgram<()> {
    hardware::apply(
        Change::Disable { channel },
        hardware::now(|start: u64| abort_poll(channel, start, MAX_SPINS as nat)),
    )
}

/// What a halt came to, and the channel's interrupts when it was noticed.
pub type Halt = (Result<u32, TransferError>, u32);

/// What a transaction came to: the bytes moved, or why not, and the channel's
/// interrupts at the last halt.
pub type Outcome = (Result<usize, TransferError>, u32);

/// Poll a channel until it has halted, and stop it if it takes too long.
pub open spec fn halt_poll(channel: u8, start: u64, spins: nat) -> HwProgram<Halt>
    decreases spins,
{
    hardware::read(
        Field::Interrupts(channel),
        |hcint: u32|
            if hcint & HCINT_CHH != 0 {
                ack_program(channel, Program::Return((Ok(hcint), hcint)))
            } else {
                hardware::now(
                    |now: u64|
                        if spins == 0 || elapsed(now, start) > HALT_TIMEOUT_US {
                            abort_program(channel).bind(
                                |done: ()|
                                    Program::Return((Err(TransferError::Timeout), hcint)),
                            )
                        } else {
                            halt_poll(channel, start, (spins - 1) as nat)
                        },
                )
            },
    )
}

/// Wait for a channel to halt.
pub open spec fn halt_program(channel: u8) -> HwProgram<Halt> {
    hardware::now(|start: u64| halt_poll(channel, start, MAX_SPINS as nat))
}

/// What a halt other than a completed transfer means. Where several reasons are
/// given, the first of these counts.
pub open spec fn halt_error(hcint: u32) -> TransferError {
    if hcint & HCINT_STALL != 0 {
        TransferError::Stall
    } else if hcint & HCINT_TXERR != 0 {
        TransferError::TransactionError
    } else if hcint & HCINT_BBERR != 0 {
        TransferError::Babble
    } else if hcint & HCINT_FRMOR != 0 {
        TransferError::FrameOverrun
    } else if hcint & HCINT_DTERR != 0 {
        TransferError::DataToggleError
    } else if hcint & (HCINT_NAK | HCINT_NYET) != 0 {
        TransferError::Nak
    } else {
        TransferError::Halted
    }
}

/// What else than a completed transfer a halt can be told to mean.
pub open spec fn faults(hcint: u32) -> u32 {
    hcint & (HCINT_STALL | HCINT_TXERR | HCINT_BBERR | HCINT_FRMOR | HCINT_DTERR)
}

/// A halt is without a reason only if the controller gives none; and a translator that is
/// never done, if nothing worse is told, ends in an error that can be tried again.
pub proof fn law_halts(hcint: u32)
    ensures
        halt_error(hcint) == TransferError::Halted <==> faults(hcint) == 0 && hcint & (HCINT_NAK
            | HCINT_NYET) == 0,
        not_yet(hcint) && faults(hcint) == 0 ==> halt_error(hcint) == TransferError::Nak,
{
    assert(hcint & (HCINT_STALL | HCINT_TXERR | HCINT_BBERR | HCINT_FRMOR | HCINT_DTERR) == 0
        <==> hcint & HCINT_STALL == 0 && hcint & HCINT_TXERR == 0 && hcint & HCINT_BBERR == 0
        && hcint & HCINT_FRMOR == 0 && hcint & HCINT_DTERR == 0) by (bit_vector);
    assert(HCINT_NAK | HCINT_NYET == HCINT_NYET | HCINT_NAK) by (bit_vector);
}

/// The bytes moved, of `requested`, when `left` are left to move.
pub open spec fn moved(requested: usize, left: u32) -> usize {
    if left <= requested {
        (requested - left) as usize
    } else {
        0
    }
}

/// Make out what a halt means. Of a completed transfer, the controller says how
/// much is left.
pub open spec fn interpret_program(channel: u8, hcint: u32, requested: usize) -> HwProgram<
    Result<usize, TransferError>,
> {
    if hcint & HCINT_XFRC != 0 {
        hardware::read(
            Field::BytesLeft(channel),
            |left: u32| Program::Return(Ok(moved(requested, left))),
        )
    } else {
        Program::Return(Err(halt_error(hcint)))
    }
}

/// Make out what a halt means, and remember the halt.
pub open spec fn conclude(channel: u8, hcint: u32, requested: usize) -> HwProgram<Outcome> {
    interpret_program(channel, hcint, requested).bind(
        |result: Result<usize, TransferError>| Program::Return((result, hcint)),
    )
}

/// Wait for a channel to halt, then go on with its interrupts, or give up.
pub open spec fn halted(channel: u8, rest: spec_fn(u32) -> HwProgram<Outcome>) -> HwProgram<
    Outcome,
> {
    halt_program(channel).bind(
        |halt: Halt|
            match halt.0 {
                Ok(hcint) => rest(hcint),
                Err(error) => Program::Return((Err(error), halt.1)),
            },
    )
}

/// Run a channel that has been started, to its end.
pub open spec fn channel_program(channel: u8) -> HwProgram<Outcome> {
    hardware::read(
        Field::BytesLeft(channel),
        |requested: u32|
            halted(channel, |hcint: u32| conclude(channel, hcint, requested as usize)),
    )
}

/// Whether a complete split ended the transaction: it is done, or a real error was told.
pub open spec fn settled(hcint: u32) -> bool {
    hcint & (HCINT_STALL | HCINT_TXERR | HCINT_BBERR | HCINT_XFRC) != 0
}

/// Whether a complete split should be tried again: the translator is not done or the
/// device is not ready, and nothing has ended the transaction.
pub open spec fn not_yet(hcint: u32) -> bool {
    hcint & (HCINT_NYET | HCINT_NAK) != 0 && !settled(hcint)
}

/// Collect a packet from the translator, from the given try on.
pub open spec fn complete_program(
    channel: u8,
    endpoint: ControlEndpoint,
    packet: Transaction,
    attempt: u32,
) -> HwProgram<Outcome>
    decreases MAX_CSPLIT_POLLS - attempt,
{
    let go = start_program(channel, endpoint, packet, true, None).bind(
        |started: ()|
            halted(
                channel,
                |hcint: u32|
                    if not_yet(hcint) && attempt + 1 < MAX_CSPLIT_POLLS {
                        complete_program(channel, endpoint, packet, (attempt + 1) as u32)
                    } else {
                        conclude(channel, hcint, packet.transfer_size as usize)
                    },
            ),
    );
    if attempt > 0 {
        hardware::delay(CSPLIT_RETRY_DELAY_US, go)
    } else {
        go
    }
}

/// Move one packet through a translator.
pub open spec fn split_program(
    channel: u8,
    endpoint: ControlEndpoint,
    packet: Transaction,
) -> HwProgram<Outcome> {
    start_program(channel, endpoint, packet, false, None).bind(
        |started: ()|
            halted(
                channel,
                |hcint: u32|
                    if hcint & HCINT_ACK == 0 {
                        conclude(channel, hcint, packet.transfer_size as usize)
                    } else {
                        complete_program(channel, endpoint, packet, 0)
                    },
            ),
    )
}

/// Wait for a microframe.
pub open spec fn frame_poll(frame: u8, start: u64, spins: nat) -> HwProgram<()>
    decreases spins,
{
    hardware::read(
        Field::FrameNumber,
        |number: u32|
            if microframe_of(number) == frame {
                Program::Return(())
            } else {
                hardware::now(
                    |now: u64|
                        if spins == 0 || elapsed(now, start) > MICROFRAME_TIMEOUT_US {
                            Program::Return(())
                        } else {
                            frame_poll(frame, start, (spins - 1) as nat)
                        },
                )
            },
    )
}

/// Wait for a microframe, but not for ever.
pub open spec fn frame_program(frame: u8) -> HwProgram<()> {
    hardware::now(|start: u64| frame_poll(frame, start, MAX_SPINS as nat))
}

/// Collect a periodic packet, in one microframe after another.
pub open spec fn periodic_complete_program(
    channel: u8,
    endpoint: ControlEndpoint,
    packet: Transaction,
    frame: u8,
    tries: u8,
) -> HwProgram<Outcome>
    decreases tries,
{
    frame_program(frame).bind(
        |waited: ()|
            start_program(channel, endpoint, packet, true, Some(frame % 2 == 1)).bind(
                |started: ()|
                    halted(
                        channel,
                        |hcint: u32|
                            if settled(hcint) {
                                conclude(channel, hcint, packet.transfer_size as usize)
                            } else if hcint & (HCINT_NYET | HCINT_ACK) != 0 {
                                if tries == 0 {
                                    Program::Return((Err(TransferError::Nak), hcint))
                                } else {
                                    periodic_complete_program(
                                        channel,
                                        endpoint,
                                        packet,
                                        frames_on(frame, 1),
                                        (tries - 1) as u8,
                                    )
                                }
                            } else if hcint & HCINT_NAK != 0 {
                                Program::Return((Err(TransferError::Nak), hcint))
                            } else {
                                conclude(channel, hcint, packet.transfer_size as usize)
                            },
                    ),
            ),
    )
}

/// The microframe for a start split when the current one is `frame`: the next,
/// but never the sixth.
pub open spec fn start_split_frame(frame: u8) -> u8 {
    if frames_on(frame, 1) == 6 {
        7
    } else {
        frames_on(frame, 1)
    }
}

/// Move one packet of a periodic endpoint through a translator, in step with
/// the microframes.
pub open spec fn periodic_split_program(
    channel: u8,
    endpoint: ControlEndpoint,
    packet: Transaction,
) -> HwProgram<Outcome> {
    hardware::read(
        Field::FrameNumber,
        |number: u32|
            {
                let frame = start_split_frame(microframe_of(number));
                frame_program(frame).bind(
                    |waited: ()|
                        start_program(
                            channel,
                            endpoint,
                            packet,
                            false,
                            Some(frame % 2 == 1),
                        ).bind(
                            |started: ()|
                                halted(
                                    channel,
                                    |hcint: u32|
                                        if hcint & HCINT_ACK == 0 {
                                            conclude(
                                                channel,
                                                hcint,
                                                packet.transfer_size as usize,
                                            )
                                        } else {
                                            periodic_complete_program(
                                                channel,
                                                endpoint,
                                                packet,
                                                frames_on(frame, 2),
                                                if frame != 5 {
                                                    3u8
                                                } else {
                                                    2u8
                                                },
                                            )
                                        },
                                ),
                        ),
                )
            },
    )
}

/// The packet of `txn` that starts `offset` bytes in.
pub open spec fn packet_at(
    endpoint: ControlEndpoint,
    txn: Transaction,
    offset: u32,
    pid: DataPid,
) -> Transaction {
    let left = (txn.transfer_size - offset) as u32;
    let size = packet_size(endpoint.max_packet_size);
    Transaction {
        transfer_size: if left <= size {
            left
        } else {
            size
        },
        dma_address: txn.dma_address.wrapping_add(offset),
        pid,
        ..txn
    }
}

/// How far a transfer is once a packet that started `offset` bytes in has moved
/// `count` bytes.
pub open spec fn reached_by(offset: u32, count: usize) -> u32 {
    (offset + count) as u32
}

/// Move the rest of `txn` through a translator, a packet at a time: until a
/// short packet, or the end.
pub open spec fn packets_program(
    channel: u8,
    endpoint: ControlEndpoint,
    txn: Transaction,
    offset: u32,
    pid: DataPid,
) -> HwProgram<Outcome>
    decreases txn.transfer_size - offset,
{
    let packet = packet_at(endpoint, txn, offset, pid);
    let one = if txn.endpoint_type == EndpointType::Interrupt {
        periodic_split_program(channel, endpoint, packet)
    } else {
        split_program(channel, endpoint, packet)
    };
    one.bind(
        |outcome: Outcome|
            match outcome.0 {
                Err(error) => Program::Return((Err(error), outcome.1)),
                Ok(count) => {
                    let reached = reached_by(offset, count);
                    if count < packet.transfer_size || reached >= txn.transfer_size || reached
                        <= offset {
                        Program::Return((Ok(reached as usize), outcome.1))
                    } else {
                        packets_program(channel, endpoint, txn, reached, pid.following())
                    }
                },
            },
    )
}

/// Run a transaction, however its endpoint is reached.
pub open spec fn transaction_program(
    channel: u8,
    endpoint: ControlEndpoint,
    txn: Transaction,
) -> HwProgram<Outcome> {
    if endpoint.split is None {
        start_program(channel, endpoint, txn, false, None).bind(
            |started: ()| channel_program(channel),
        )
    } else {
        packets_program(channel, endpoint, txn, 0, txn.pid)
    }
}

impl<H: Dwc2Registers> Channel<H> {
    fn start_channel(
        port: &mut UsbPort<H>,
        channel: u8,
        endpoint: ControlEndpoint,
        txn: &Transaction,
        complete_split: bool,
        odd_frame: Option<bool>,
    )
        ensures
            start_program(channel, endpoint, *txn, complete_split, odd_frame).ran(
                old(port)@,
                final(port)@,
                (),
            ),
    {
        port.apply(Change::AckInterrupts { channel, bits: 0xffff_ffff });
        port.apply(Change::InterruptMask { channel, bits: HCINT_CHH });

        let split: Option<SplitFields> = match endpoint.split {
            Some(target) => Some(
                SplitFields {
                    hub_address: target.hub_address,
                    port: target.port,
                    position: 3,
                    complete: complete_split,
                },
            ),
            None => None,
        };
        port.apply(Change::Split { channel, split });
        port.apply(
            Change::DmaAddress { channel, bus_address: to_vc_bus_address(txn.dma_address) },
        );

        let max_packet_size: u32 = nonzero_packet_size(endpoint.max_packet_size);
        let packets: u32 = if txn.transfer_size == 0 {
            1
        } else {
            let whole: u32 = (txn.transfer_size - 1) / max_packet_size;
            assert(whole <= txn.transfer_size - 1) by (nonlinear_arith)
                requires
                    whole == (txn.transfer_size - 1) / max_packet_size as int,
                    max_packet_size >= 1,
                    txn.transfer_size >= 1,
            ;
            whole + 1
        };
        let size = SizeFields {
            bytes: txn.transfer_size,
            packets: packets as u16,
            pid: txn.pid.bits(),
        };
        port.apply(Change::TransferSize { channel, size });

        let odd: bool = match odd_frame {
            Some(odd) => odd,
            None => if endpoint.split.is_some() {
                false
            } else {
                port.read(Field::FrameNumber) % 2 == 1
            },
        };
        let character = CharacterFields {
            max_packet_size: endpoint.max_packet_size,
            endpoint_number: txn.endpoint_number,
            direction_in: txn.direction_in,
            low_speed: endpoint.low_speed,
            endpoint_type: txn.endpoint_type.bits(),
            multi_count: 1,
            device_address: endpoint.address,
            odd_frame: odd,
        };
        port.apply(Change::Start { channel, character });
    }

    fn abort_channel(port: &mut UsbPort<H>, channel: u8)
        ensures
            abort_program(channel).ran(old(port)@, final(port)@, ()),
    {
        proof {
            crate::program::begin(port@, abort_program(channel));
        }

        port.apply(Change::Disable { channel });
        let start: u64 = port.now();
        let mut spins: u64 = MAX_SPINS;
        loop
            invariant
                abort_program(channel).leads(
                    old(port)@,
                    port@,
                    abort_poll(channel, start, spins as nat),
                ),
            decreases spins,
        {
            let hcint: u32 = port.read(Field::Interrupts(channel));
            if hcint & HCINT_CHH != 0 {
                port.apply(Change::AckInterrupts { channel, bits: 0xffff_ffff });
                return;
            }
            let now: u64 = port.now();
            if spins == 0 || now.wrapping_sub(start) > ABORT_TIMEOUT_US {
                port.apply(Change::AckInterrupts { channel, bits: 0xffff_ffff });
                return;
            }
            spins = spins - 1;
        }
    }

    fn wait_for_halt(port: &mut UsbPort<H>, channel: u8) -> (halt: Halt)
        ensures
            halt_program(channel).ran(old(port)@, final(port)@, halt),
            halt.0 matches Ok(hcint) ==> hcint == halt.1,
    {
        proof {
            crate::program::begin(port@, halt_program(channel));
        }

        let start: u64 = port.now();
        let mut spins: u64 = MAX_SPINS;
        loop
            invariant
                halt_program(channel).leads(
                    old(port)@,
                    port@,
                    halt_poll(channel, start, spins as nat),
                ),
            decreases spins,
        {
            let hcint: u32 = port.read(Field::Interrupts(channel));
            if hcint & HCINT_CHH != 0 {
                port.apply(Change::AckInterrupts { channel, bits: 0xffff_ffff });
                return (Ok(hcint), hcint);
            }
            let now: u64 = port.now();
            if spins == 0 || now.wrapping_sub(start) > HALT_TIMEOUT_US {
                Self::abort_channel(port, channel);
                return (Err(TransferError::Timeout), hcint);
            }
            spins = spins - 1;
        }
    }

    fn interpret_halt(port: &mut UsbPort<H>, channel: u8, hcint: u32, requested: usize) -> (result:
        Result<usize, TransferError>)
        ensures
            interpret_program(channel, hcint, requested).ran(old(port)@, final(port)@, result),
            result matches Ok(count) ==> count <= requested,
    {
        if hcint & HCINT_XFRC != 0 {
            let left: u32 = port.read(Field::BytesLeft(channel));
            if left as usize <= requested {
                Ok(requested - left as usize)
            } else {
                Ok(0)
            }
        } else if hcint & HCINT_STALL != 0 {
            Err(TransferError::Stall)
        } else if hcint & HCINT_TXERR != 0 {
            Err(TransferError::TransactionError)
        } else if hcint & HCINT_BBERR != 0 {
            Err(TransferError::Babble)
        } else if hcint & HCINT_FRMOR != 0 {
            Err(TransferError::FrameOverrun)
        } else if hcint & HCINT_DTERR != 0 {
            Err(TransferError::DataToggleError)
        } else if hcint & (HCINT_NAK | HCINT_NYET) != 0 {
            Err(TransferError::Nak)
        } else {
            Err(TransferError::Halted)
        }
    }

    fn run_channel(port: &mut UsbPort<H>, channel: u8) -> (outcome: Outcome)
        ensures
            channel_program(channel).ran(old(port)@, final(port)@, outcome),
    {
        let requested: u32 = port.read(Field::BytesLeft(channel));
        let halt = Self::wait_for_halt(port, channel);
        match halt.0 {
            Ok(hcint) => (Self::interpret_halt(port, channel, hcint, requested as usize), hcint),
            Err(error) => (Err(error), halt.1),
        }
    }

    fn run_split_packet(
        port: &mut UsbPort<H>,
        channel: u8,
        endpoint: ControlEndpoint,
        packet: &Transaction,
    ) -> (outcome: Outcome)
        ensures
            split_program(channel, endpoint, *packet).ran(old(port)@, final(port)@, outcome),
            outcome.0 matches Ok(count) ==> count <= packet.transfer_size,
    {
        proof {
            crate::program::begin(port@, split_program(channel, endpoint, *packet));
        }

        let requested: usize = packet.transfer_size as usize;

        Self::start_channel(port, channel, endpoint, packet, false, None);
        let halt = Self::wait_for_halt(port, channel);
        let hcint: u32 = match halt.0 {
            Ok(hcint) => hcint,
            Err(error) => return (Err(error), halt.1),
        };
        if hcint & HCINT_ACK == 0 {
            return (Self::interpret_halt(port, channel, hcint, requested), hcint);
        }

        let mut attempt: u32 = 0;
        loop
            invariant
                attempt < MAX_CSPLIT_POLLS,
                requested == packet.transfer_size as usize,
                split_program(channel, endpoint, *packet).leads(
                    old(port)@,
                    port@,
                    complete_program(channel, endpoint, *packet, attempt),
                ),
            decreases MAX_CSPLIT_POLLS - attempt,
        {
            if attempt > 0 {
                port.delay(CSPLIT_RETRY_DELAY_US);
            }
            Self::start_channel(port, channel, endpoint, packet, true, None);
            let halt = Self::wait_for_halt(port, channel);
            let hcint: u32 = match halt.0 {
                Ok(hcint) => hcint,
                Err(error) => return (Err(error), halt.1),
            };
            if hcint & (HCINT_NYET | HCINT_NAK) != 0 && hcint & (HCINT_STALL | HCINT_TXERR
                | HCINT_BBERR | HCINT_XFRC) == 0 && attempt + 1 < MAX_CSPLIT_POLLS {
                attempt = attempt + 1;
                continue;
            }
            return (Self::interpret_halt(port, channel, hcint, requested), hcint);
        }
    }

    fn current_microframe(port: &mut UsbPort<H>) -> (frame: u8)
        ensures
            hardware::read(
                Field::FrameNumber,
                |number: u32| Program::Return(microframe_of(number)),
            ).ran(old(port)@, final(port)@, frame),
            frame < 8,
    {
        (port.read(Field::FrameNumber) % 8) as u8
    }

    fn wait_for_microframe(port: &mut UsbPort<H>, frame: u8)
        ensures
            frame_program(frame).ran(old(port)@, final(port)@, ()),
    {
        proof {
            crate::program::begin(port@, frame_program(frame));
        }

        let start: u64 = port.now();
        let mut spins: u64 = MAX_SPINS;
        loop
            invariant
                frame_program(frame).leads(
                    old(port)@,
                    port@,
                    frame_poll(frame, start, spins as nat),
                ),
            decreases spins,
        {
            let number: u32 = port.read(Field::FrameNumber);
            if (number % 8) as u8 == frame {
                return;
            }
            let now: u64 = port.now();
            if spins == 0 || now.wrapping_sub(start) > MICROFRAME_TIMEOUT_US {
                return;
            }
            spins = spins - 1;
        }
    }

    fn run_periodic_split_packet(
        port: &mut UsbPort<H>,
        channel: u8,
        endpoint: ControlEndpoint,
        packet: &Transaction,
    ) -> (outcome: Outcome)
        ensures
            periodic_split_program(channel, endpoint, *packet).ran(
                old(port)@,
                final(port)@,
                outcome,
            ),
            outcome.0 matches Ok(count) ==> count <= packet.transfer_size,
    {
        proof {
            crate::program::begin(port@, periodic_split_program(channel, endpoint, *packet));
        }

        let requested: usize = packet.transfer_size as usize;

        let mut frame: u8 = ((port.read(Field::FrameNumber) % 8) as u8 + 1) % 8;
        if frame == 6 {
            frame = 7;
        }
        Self::wait_for_microframe(port, frame);
        Self::start_channel(port, channel, endpoint, packet, false, Some(frame % 2 == 1));
        let halt = Self::wait_for_halt(port, channel);
        let hcint: u32 = match halt.0 {
            Ok(hcint) => hcint,
            Err(error) => return (Err(error), halt.1),
        };
        if hcint & HCINT_ACK == 0 {
            return (Self::interpret_halt(port, channel, hcint, requested), hcint);
        }

        let mut tries: u8 = if frame != 5 {
            3
        } else {
            2
        };
        frame = (frame + 2) % 8;
        loop
            invariant
                frame < 8,
                requested == packet.transfer_size as usize,
                periodic_split_program(channel, endpoint, *packet).leads(
                    old(port)@,
                    port@,
                    periodic_complete_program(channel, endpoint, *packet, frame, tries),
                ),
            decreases tries,
        {
            Self::wait_for_microframe(port, frame);
            Self::start_channel(port, channel, endpoint, packet, true, Some(frame % 2 == 1));
            let halt = Self::wait_for_halt(port, channel);
            let hcint: u32 = match halt.0 {
                Ok(hcint) => hcint,
                Err(error) => return (Err(error), halt.1),
            };

            if hcint & (HCINT_STALL | HCINT_TXERR | HCINT_BBERR | HCINT_XFRC) != 0 {
                return (Self::interpret_halt(port, channel, hcint, requested), hcint);
            }
            if hcint & (HCINT_NYET | HCINT_ACK) != 0 {
                if tries == 0 {
                    return (Err(TransferError::Nak), hcint);
                }
                tries = tries - 1;
                frame = (frame + 1) % 8;
                continue;
            }
            if hcint & HCINT_NAK != 0 {
                return (Err(TransferError::Nak), hcint);
            }
            return (Self::interpret_halt(port, channel, hcint, requested), hcint);
        }
    }

    fn run_transaction(
        port: &mut UsbPort<H>,
        channel: u8,
        endpoint: ControlEndpoint,
        txn: &Transaction,
    ) -> (outcome: Outcome)
        ensures
            transaction_program(channel, endpoint, *txn).ran(old(port)@, final(port)@, outcome),
    {
        proof {
            crate::program::begin(port@, transaction_program(channel, endpoint, *txn));
        }

        if endpoint.split.is_none() {
            Self::start_channel(port, channel, endpoint, txn, false, None);
            return Self::run_channel(port, channel);
        }

        let periodic: bool = txn.endpoint_type == EndpointType::Interrupt;
        let max_packet_size: u32 = nonzero_packet_size(endpoint.max_packet_size);
        let mut offset: u32 = 0;
        let mut pid: DataPid = txn.pid;
        loop
            invariant
                endpoint.split is Some,
                periodic == (txn.endpoint_type == EndpointType::Interrupt),
                max_packet_size == packet_size(endpoint.max_packet_size),
                max_packet_size >= 1,
                offset <= txn.transfer_size,
                transaction_program(channel, endpoint, *txn).leads(
                    old(port)@,
                    port@,
                    packets_program(channel, endpoint, *txn, offset, pid),
                ),
            decreases txn.transfer_size - offset,
        {
            let left: u32 = txn.transfer_size - offset;
            let this_packet: u32 = if left <= max_packet_size {
                left
            } else {
                max_packet_size
            };
            let packet = Transaction {
                endpoint_number: txn.endpoint_number,
                endpoint_type: txn.endpoint_type,
                direction_in: txn.direction_in,
                pid,
                transfer_size: this_packet,
                dma_address: txn.dma_address.wrapping_add(offset),
            };
            let outcome = if periodic {
                Self::run_periodic_split_packet(port, channel, endpoint, &packet)
            } else {
                Self::run_split_packet(port, channel, endpoint, &packet)
            };
            assert(packet == packet_at(endpoint, *txn, offset, pid));
            let count: usize = match outcome.0 {
                Ok(count) => count,
                Err(error) => return (Err(error), outcome.1),
            };
            let reached: u32 = offset + count as u32;
            if (count as u32) < this_packet || reached >= txn.transfer_size {
                return (Ok(reached as usize), outcome.1);
            }
            offset = reached;
            pid = pid.toggled();
        }
    }
}

/// A transfer, or a look at the clock, asked of a channel.
pub enum Transfer {
    /// The SETUP stage of a control transfer.
    Setup(ControlEndpoint, Seq<u8>),
    /// The data stage of a control read: room for so many bytes.
    DataIn(ControlEndpoint, usize),
    /// The data stage of a control write.
    DataOut(ControlEndpoint, Seq<u8>),
    /// The status stage of a control write or a control transfer without data.
    StatusIn(ControlEndpoint),
    /// The status stage of a control read.
    StatusOut(ControlEndpoint),
    /// An interrupt transfer from an endpoint, with its data toggle.
    InterruptIn(ControlEndpoint, u8, bool, usize),
    /// A bulk transfer to an endpoint, with its data toggle.
    BulkOut(ControlEndpoint, u8, bool, Seq<u8>),
    /// A bulk transfer from an endpoint, with its data toggle.
    BulkIn(ControlEndpoint, u8, bool, usize),
    /// A pause, in milliseconds.
    DelayMs(u64),
    /// A look at the clock.
    Now,
}

/// What a transfer came to.
pub enum Reply {
    /// A pause is over.
    Done,
    /// The time, in microseconds.
    Time(u64),
    /// Whether a stage succeeded.
    Unit(Result<(), TransferError>),
    /// The bytes that came in.
    Bytes(Result<Seq<u8>, TransferError>),
    /// The bytes that went out, and the data toggle that follows.
    Sent(Result<(usize, bool), TransferError>),
    /// The bytes that came in, and the data toggle that follows.
    Received(Result<(Seq<u8>, bool), TransferError>),
}

/// A program over transfers.
pub type UsbProgram<T> = Program<Transfer, Reply, T>;

/// The transfers made on a channel, oldest first.
pub type UsbHistory = Seq<Exchange<Transfer, Reply>>;

/// A host channel, with what has been done with it.
pub struct Channel<H> {
    port: UsbPort<H>,
    index: u8,
    last_hcint: u32,
    transfers: Ghost<UsbHistory>,
}

impl<H> View for Channel<H> {
    type V = UsbHistory;

    closed spec fn view(&self) -> UsbHistory {
        self.transfers@
    }
}

/// The bytes that a read into `buf` put there, if it succeeded.
pub open spec fn landed(result: Result<usize, TransferError>, buf: Seq<u8>) -> Result<
    Seq<u8>,
    TransferError,
> {
    match result {
        Ok(count) => Ok(buf.take(count as int)),
        Err(error) => Err(error),
    }
}

/// What a read leaves in its buffer: what came in, in front of what was there.
pub open spec fn overwritten(
    result: Result<usize, TransferError>,
    before: Seq<u8>,
    after: Seq<u8>,
) -> bool {
    match result {
        Ok(count) => {
            &&& count <= before.len()
            &&& after.len() == before.len()
            &&& after.skip(count as int) == before.skip(count as int)
        },
        Err(error) => after == before,
    }
}

/// The smaller of two counts.
pub open spec fn at_most(count: usize, limit: usize) -> usize {
    if count <= limit {
        count
    } else {
        limit
    }
}

/// Run a transaction that moves data out, or none, at a given address.
pub open spec fn plain_program(
    channel: u8,
    endpoint: ControlEndpoint,
    txn: Transaction,
) -> HwProgram<(Result<(), TransferError>, u32)> {
    transaction_program(channel, endpoint, txn).bind(
        |outcome: Outcome|
            Program::Return(
                (
                    match outcome.0 {
                        Ok(count) => Ok(()),
                        Err(error) => Err(error),
                    },
                    outcome.1,
                ),
            ),
    )
}

/// Run a transaction that moves data in, then take what landed.
pub open spec fn inward_program(
    channel: u8,
    endpoint: ControlEndpoint,
    txn: Transaction,
    len: usize,
) -> HwProgram<(Result<Seq<u8>, TransferError>, u32)> {
    transaction_program(channel, endpoint, txn).bind(
        |outcome: Outcome|
            match outcome.0 {
                Ok(count) => hardware::fetch(
                    at_most(count, len),
                    |bytes: Seq<u8>| Program::Return((Ok(bytes), outcome.1)),
                ),
                Err(error) => Program::Return((Err(error), outcome.1)),
            },
    )
}

/// A transaction of a control transfer.
pub open spec fn control_txn(
    direction_in: bool,
    pid: DataPid,
    transfer_size: u32,
    dma_address: u32,
) -> Transaction {
    Transaction {
        endpoint_number: 0,
        endpoint_type: EndpointType::Control,
        direction_in,
        pid,
        transfer_size,
        dma_address,
    }
}

/// A transaction of a bulk transfer.
pub open spec fn bulk_txn(
    endpoint_number: u8,
    direction_in: bool,
    data_toggle: bool,
    transfer_size: u32,
    dma_address: u32,
) -> Transaction {
    Transaction {
        endpoint_number,
        endpoint_type: EndpointType::Bulk,
        direction_in,
        pid: pid_of(data_toggle),
        transfer_size,
        dma_address,
    }
}

/// Send the SETUP packet of a control transfer.
pub open spec fn setup_program(
    channel: u8,
    endpoint: ControlEndpoint,
    setup: Seq<u8>,
) -> HwProgram<(Result<(), TransferError>, u32)> {
    hardware::stage(
        setup,
        |address: u32|
            plain_program(channel, endpoint, control_txn(false, DataPid::Setup, 8, address)),
    )
}

/// Send the data of a control write.
pub open spec fn data_out_program(
    channel: u8,
    endpoint: ControlEndpoint,
    data: Seq<u8>,
) -> HwProgram<(Result<(), TransferError>, u32)> {
    hardware::stage(
        data,
        |address: u32|
            plain_program(
                channel,
                endpoint,
                control_txn(false, DataPid::Data1, data.len() as u32, address),
            ),
    )
}

/// Take the data of a control read.
pub open spec fn data_in_program(channel: u8, endpoint: ControlEndpoint, len: usize) -> HwProgram<
    (Result<Seq<u8>, TransferError>, u32),
> {
    hardware::landing(
        len,
        |address: u32|
            inward_program(
                channel,
                endpoint,
                control_txn(true, DataPid::Data1, len as u32, address),
                len,
            ),
    )
}

/// Exchange the empty packet that ends a control transfer.
pub open spec fn status_program(
    channel: u8,
    endpoint: ControlEndpoint,
    direction_in: bool,
) -> HwProgram<(Result<(), TransferError>, u32)> {
    hardware::landing(
        0,
        |address: u32|
            plain_program(
                channel,
                endpoint,
                control_txn(direction_in, DataPid::Data1, 0, address),
            ),
    )
}

/// Ask an interrupt endpoint for data.
pub open spec fn interrupt_program(
    channel: u8,
    endpoint: ControlEndpoint,
    endpoint_number: u8,
    data_toggle: bool,
    len: usize,
) -> HwProgram<(Result<Seq<u8>, TransferError>, u32)> {
    hardware::landing(
        len,
        |address: u32|
            inward_program(
                channel,
                endpoint,
                Transaction {
                    endpoint_number,
                    endpoint_type: EndpointType::Interrupt,
                    direction_in: true,
                    pid: pid_of(data_toggle),
                    transfer_size: len as u32,
                    dma_address: address,
                },
                len,
            ),
    )
}

/// Read the data toggle that follows: which of the two identifiers the controller
/// would send or expect next.
pub open spec fn next_toggle_program(channel: u8) -> HwProgram<bool> {
    hardware::read(
        Field::NextPid(channel),
        |pid: u32| Program::Return(pid == DataPid::Data1.encoding()),
    )
}

/// Send data to a bulk endpoint, and learn the data toggle that follows.
pub open spec fn bulk_out_program(
    channel: u8,
    endpoint: ControlEndpoint,
    endpoint_number: u8,
    data_toggle: bool,
    data: Seq<u8>,
) -> HwProgram<(Result<(usize, bool), TransferError>, u32)> {
    hardware::stage(
        data,
        |address: u32|
            transaction_program(
                channel,
                endpoint,
                bulk_txn(endpoint_number, false, data_toggle, data.len() as u32, address),
            ).bind(
                |outcome: Outcome|
                    match outcome.0 {
                        Ok(sent) => next_toggle_program(channel).bind(
                            |toggle: bool| Program::Return((Ok((sent, toggle)), outcome.1)),
                        ),
                        Err(error) => Program::Return((Err(error), outcome.1)),
                    },
            ),
    )
}

/// The bytes that a bulk read into `len` bytes asks for: whole packets.
pub open spec fn whole_packets(len: u32, max_packet_size: u16) -> u32 {
    (len - len % packet_size(max_packet_size)) as u32
}

/// Take data from a bulk endpoint, no more than whole packets that fit, and learn the data
/// toggle that follows.
pub open spec fn bulk_in_program(
    channel: u8,
    endpoint: ControlEndpoint,
    endpoint_number: u8,
    data_toggle: bool,
    len: usize,
) -> HwProgram<(Result<(Seq<u8>, bool), TransferError>, u32)> {
    hardware::landing(
        len,
        |address: u32|
            transaction_program(
                channel,
                endpoint,
                bulk_txn(
                    endpoint_number,
                    true,
                    data_toggle,
                    whole_packets(len as u32, endpoint.max_packet_size),
                    address,
                ),
            ).bind(
                |outcome: Outcome|
                    match outcome.0 {
                        Ok(count) => next_toggle_program(channel).bind(
                            |toggle: bool|
                                hardware::fetch(
                                    at_most(
                                        at_most(count, len),
                                        whole_packets(len as u32, endpoint.max_packet_size) as usize,
                                    ),
                                    |bytes: Seq<u8>|
                                        Program::Return((Ok((bytes, toggle)), outcome.1)),
                                ),
                        ),
                        Err(error) => Program::Return((Err(error), outcome.1)),
                    },
            ),
    )
}

/// Copies `bytes` over the front of `buf`.
fn overwrite(buf: &mut [u8], bytes: &Vec<u8>)
    requires
        bytes@.len() <= old(buf)@.len(),
    ensures
        final(buf)@ == bytes@ + old(buf)@.skip(bytes@.len() as int),
{
    let mut at: usize = 0;
    while at < bytes.len()
        invariant
            at <= bytes@.len() <= buf@.len(),
            buf@.len() == old(buf)@.len(),
            buf@ == bytes@.take(at as int) + old(buf)@.skip(at as int),
        decreases bytes@.len() - at,
    {
        let byte: u8 = bytes[at];
        buf[at] = byte;
        at = at + 1;
        assert(buf@ =~= bytes@.take(at as int) + old(buf)@.skip(at as int));
    }
    assert(bytes@.take(at as int) =~= bytes@);
}

impl<H> Channel<H> {
    /// What has been done to the controller on this channel's behalf.
    pub closed spec fn registers(&self) -> HwHistory {
        self.port@
    }

    /// The channel's number.
    pub closed spec fn number(&self) -> u8 {
        self.index
    }

    /// The channel's interrupts when its last transaction halted.
    pub closed spec fn last(&self) -> u32 {
        self.last_hcint
    }

    /// The number of this channel in the controller.
    pub fn index(&self) -> (index: usize)
        ensures
            index == self.number(),
    {
        self.index as usize
    }

    /// `HCINT` as it was when the last transaction on this channel halted, or
    /// was given up; 0 before the first.
    pub fn last_interrupt(&self) -> (hcint: u32)
        ensures
            hcint == self.last(),
    {
        self.last_hcint
    }
}

impl<H: Dwc2Registers> Channel<H> {
    /// A channel that nothing has been done with yet.
    pub(crate) fn fresh(port: UsbPort<H>, index: u8) -> (channel: Self)
        requires
            port@ == HwHistory::empty(),
        ensures
            channel.number() == index,
            channel.last() == 0,
            channel.registers() == HwHistory::empty(),
            channel@ == UsbHistory::empty(),
    {
        Channel { port, index, last_hcint: 0, transfers: Ghost(Seq::empty()) }
    }

    fn record(&mut self, request: Ghost<Transfer>, answer: Ghost<Reply>)
        ensures
            final(self)@ == old(self)@.push(Exchange { request: request@, answer: answer@ }),
            final(self).registers() == old(self).registers(),
            final(self).number() == old(self).number(),
            final(self).last() == old(self).last(),
    {
        self.transfers = Ghost(
            self.transfers@.push(Exchange { request: request@, answer: answer@ }),
        );
    }

    /// Waits for `ms` milliseconds.
    pub fn delay_ms(&mut self, ms: u32)
        ensures
            final(self)@ == old(self)@.push(
                Exchange { request: Transfer::DelayMs(ms as u64), answer: Reply::Done },
            ),
            hardware::delay((ms * 1000) as u64, Program::Return(())).ran(
                old(self).registers(),
                final(self).registers(),
                (),
            ),
            final(self).number() == old(self).number(),
            final(self).last() == old(self).last(),
    {
        self.port.delay(ms as u64 * 1000);
        self.record(Ghost(Transfer::DelayMs(ms as u64)), Ghost(Reply::Done));
    }

    /// The time, in microseconds.
    pub fn now_micros(&mut self) -> (micros: u64)
        ensures
            final(self)@ == old(self)@.push(
                Exchange { request: Transfer::Now, answer: Reply::Time(micros) },
            ),
            hardware::now(|time: u64| Program::Return(time)).ran(
                old(self).registers(),
                final(self).registers(),
                micros,
            ),
            final(self).number() == old(self).number(),
            final(self).last() == old(self).last(),
    {
        let micros: u64 = self.port.now();
        self.record(Ghost(Transfer::Now), Ghost(Reply::Time(micros)));
        micros
    }

    fn run_plain(&mut self, endpoint: ControlEndpoint, txn: &Transaction) -> (result: Result<
        (),
        TransferError,
    >)
        ensures
            plain_program(old(self).number(), endpoint, *txn).ran(
                old(self).registers(),
                final(self).registers(),
                (result, final(self).last()),
            ),
            final(self).number() == old(self).number(),
            final(self)@ == old(self)@,
    {
        let outcome = Self::run_transaction(&mut self.port, self.index, endpoint, txn);
        self.last_hcint = outcome.1;
        match outcome.0 {
            Ok(_) => Ok(()),
            Err(error) => Err(error),
        }
    }

    fn run_inward(
        &mut self,
        endpoint: ControlEndpoint,
        txn: &Transaction,
        buf: &mut [u8],
    ) -> (result: Result<usize, TransferError>)
        ensures
            inward_program(old(self).number(), endpoint, *txn, old(buf)@.len() as usize).ran(
                old(self).registers(),
                final(self).registers(),
                (landed(result, final(buf)@), final(self).last()),
            ),
            overwritten(result, old(buf)@, final(buf)@),
            final(self).number() == old(self).number(),
            final(self)@ == old(self)@,
    {
        let outcome = Self::run_transaction(&mut self.port, self.index, endpoint, txn);
        self.last_hcint = outcome.1;
        match outcome.0 {
            Ok(count) => {
                let received: usize = if count <= buf.len() {
                    count
                } else {
                    buf.len()
                };
                let bytes: Vec<u8> = self.port.fetch(received);
                overwrite(buf, &bytes);
                assert(buf@.take(received as int) =~= bytes@);
                assert(buf@.skip(received as int) =~= old(buf)@.skip(received as int));
                Ok(received)
            },
            Err(error) => Err(error),
        }
    }

    /// Sends the SETUP packet of a control transfer.
    pub fn control_setup(&mut self, endpoint: ControlEndpoint, setup: &[u8; 8]) -> (result: Result<
        (),
        TransferError,
    >)
        ensures
            setup_program(old(self).number(), endpoint, setup@).ran(
                old(self).registers(),
                final(self).registers(),
                (result, final(self).last()),
            ),
            final(self)@ == old(self)@.push(
                Exchange {
                    request: Transfer::Setup(endpoint, setup@),
                    answer: Reply::Unit(result),
                },
            ),
            final(self).number() == old(self).number(),
    {
        let address: u32 = self.port.stage(setup.as_slice());
        let txn = Transaction {
            endpoint_number: 0,
            endpoint_type: EndpointType::Control,
            direction_in: false,
            pid: DataPid::Setup,
            transfer_size: 8,
            dma_address: address,
        };
        let result = self.run_plain(endpoint, &txn);
        self.record(Ghost(Transfer::Setup(endpoint, setup@)), Ghost(Reply::Unit(result)));
        result
    }

    /// Takes the data of a control read into `buf`, and says how much came.
    pub fn control_data_in(&mut self, endpoint: ControlEndpoint, buf: &mut [u8]) -> (result: Result<
        usize,
        TransferError,
    >)
        requires
            old(buf)@.len() <= MAX_TRANSFER_LEN,
        ensures
            data_in_program(old(self).number(), endpoint, old(buf)@.len() as usize).ran(
                old(self).registers(),
                final(self).registers(),
                (landed(result, final(buf)@), final(self).last()),
            ),
            overwritten(result, old(buf)@, final(buf)@),
            final(self)@ == old(self)@.push(
                Exchange {
                    request: Transfer::DataIn(endpoint, old(buf)@.len() as usize),
                    answer: Reply::Bytes(landed(result, final(buf)@)),
                },
            ),
            final(self).number() == old(self).number(),
    {
        let address: u32 = self.port.landing(buf.len());
        let txn = Transaction {
            endpoint_number: 0,
            endpoint_type: EndpointType::Control,
            direction_in: true,
            pid: DataPid::Data1,
            transfer_size: buf.len() as u32,
            dma_address: address,
        };
        let result = self.run_inward(endpoint, &txn, buf);
        self.record(
            Ghost(Transfer::DataIn(endpoint, buf@.len() as usize)),
            Ghost(Reply::Bytes(landed(result, buf@))),
        );
        result
    }

    fn control_status(&mut self, endpoint: ControlEndpoint, direction_in: bool) -> (result: Result<
        (),
        TransferError,
    >)
        ensures
            status_program(old(self).number(), endpoint, direction_in).ran(
                old(self).registers(),
                final(self).registers(),
                (result, final(self).last()),
            ),
            final(self)@ == old(self)@,
            final(self).number() == old(self).number(),
    {
        let address: u32 = self.port.landing(0);
        let txn = Transaction {
            endpoint_number: 0,
            endpoint_type: EndpointType::Control,
            direction_in,
            pid: DataPid::Data1,
            transfer_size: 0,
            dma_address: address,
        };
        self.run_plain(endpoint, &txn)
    }

    /// Ends a control read: sends an empty packet.
    pub fn control_status_out(&mut self, endpoint: ControlEndpoint) -> (result: Result<
        (),
        TransferError,
    >)
        ensures
            status_program(old(self).number(), endpoint, false).ran(
                old(self).registers(),
                final(self).registers(),
                (result, final(self).last()),
            ),
            final(self)@ == old(self)@.push(
                Exchange { request: Transfer::StatusOut(endpoint), answer: Reply::Unit(result) },
            ),
            final(self).number() == old(self).number(),
    {
        let result = self.control_status(endpoint, false);
        self.record(Ghost(Transfer::StatusOut(endpoint)), Ghost(Reply::Unit(result)));
        result
    }

    /// Ends a control write, or a control transfer without data: takes an empty
    /// packet.
    pub fn control_status_in(&mut self, endpoint: ControlEndpoint) -> (result: Result<
        (),
        TransferError,
    >)
        ensures
            status_program(old(self).number(), endpoint, true).ran(
                old(self).registers(),
                final(self).registers(),
                (result, final(self).last()),
            ),
            final(self)@ == old(self)@.push(
                Exchange { request: Transfer::StatusIn(endpoint), answer: Reply::Unit(result) },
            ),
            final(self).number() == old(self).number(),
    {
        let result = self.control_status(endpoint, true);
        self.record(Ghost(Transfer::StatusIn(endpoint)), Ghost(Reply::Unit(result)));
        result
    }

    /// Sends the data of a control write.
    pub fn control_data_out(&mut self, endpoint: ControlEndpoint, data: &[u8]) -> (result: Result<
        (),
        TransferError,
    >)
        requires
            data@.len() <= MAX_TRANSFER_LEN,
        ensures
            data_out_program(old(self).number(), endpoint, data@).ran(
                old(self).registers(),
                final(self).registers(),
                (result, final(self).last()),
            ),
            final(self)@ == old(self)@.push(
                Exchange {
                    request: Transfer::DataOut(endpoint, data@),
                    answer: Reply::Unit(result),
                },
            ),
            final(self).number() == old(self).number(),
    {
        let address: u32 = self.port.stage(data);
        let txn = Transaction {
            endpoint_number: 0,
            endpoint_type: EndpointType::Control,
            direction_in: false,
            pid: DataPid::Data1,
            transfer_size: data.len() as u32,
            dma_address: address,
        };
        let result = self.run_plain(endpoint, &txn);
        self.record(Ghost(Transfer::DataOut(endpoint, data@)), Ghost(Reply::Unit(result)));
        result
    }

    /// Asks an interrupt endpoint for data. The data toggle moves on if some
    /// came, or an empty packet; a NAK leaves it where it was.
    pub fn interrupt_in(
        &mut self,
        endpoint: ControlEndpoint,
        endpoint_number: u8,
        data_toggle: &mut bool,
        buf: &mut [u8],
    ) -> (result: Result<usize, TransferError>)
        requires
            old(buf)@.len() <= MAX_TRANSFER_LEN,
        ensures
            interrupt_program(
                old(self).number(),
                endpoint,
                endpoint_number,
                *old(data_toggle),
                old(buf)@.len() as usize,
            ).ran(
                old(self).registers(),
                final(self).registers(),
                (landed(result, final(buf)@), final(self).last()),
            ),
            overwritten(result, old(buf)@, final(buf)@),
            *final(data_toggle) == (if result is Ok {
                !*old(data_toggle)
            } else {
                *old(data_toggle)
            }),
            final(self)@ == old(self)@.push(
                Exchange {
                    request: Transfer::InterruptIn(
                        endpoint,
                        endpoint_number,
                        *old(data_toggle),
                        old(buf)@.len() as usize,
                    ),
                    answer: Reply::Bytes(landed(result, final(buf)@)),
                },
            ),
            final(self).number() == old(self).number(),
    {
        let address: u32 = self.port.landing(buf.len());
        let txn = Transaction {
            endpoint_number,
            endpoint_type: EndpointType::Interrupt,
            direction_in: true,
            pid: Self::toggle_pid(*data_toggle),
            transfer_size: buf.len() as u32,
            dma_address: address,
        };
        let result = self.run_inward(endpoint, &txn, buf);
        self.record(
            Ghost(
                Transfer::InterruptIn(
                    endpoint,
                    endpoint_number,
                    *data_toggle,
                    buf@.len() as usize,
                ),
            ),
            Ghost(Reply::Bytes(landed(result, buf@))),
        );
        if result.is_ok() {
            *data_toggle = !*data_toggle;
        }
        result
    }

    /// Sends `buf` to a bulk endpoint, and says how much of it went. The data
    /// toggle becomes what the controller says follows, if the transfer
    /// succeeded.
    pub fn bulk_out(
        &mut self,
        endpoint: ControlEndpoint,
        endpoint_number: u8,
        data_toggle: &mut bool,
        buf: &[u8],
    ) -> (result: Result<usize, TransferError>)
        ensures
            bulk_out_program(
                old(self).number(),
                endpoint,
                endpoint_number,
                *old(data_toggle),
                buf@,
            ).ran(
                old(self).registers(),
                final(self).registers(),
                (
                    match result {
                        Ok(sent) => Ok((sent, *final(data_toggle))),
                        Err(error) => Err(error),
                    },
                    final(self).last(),
                ),
            ),
            result is Err ==> *final(data_toggle) == *old(data_toggle),
            final(self)@ == old(self)@.push(
                Exchange {
                    request: Transfer::BulkOut(endpoint, endpoint_number, *old(data_toggle), buf@),
                    answer: Reply::Sent(
                        match result {
                            Ok(sent) => Ok((sent, *final(data_toggle))),
                            Err(error) => Err(error),
                        },
                    ),
                },
            ),
            final(self).number() == old(self).number(),
    {
        let address: u32 = self.port.stage(buf);
        let txn = Transaction {
            endpoint_number,
            endpoint_type: EndpointType::Bulk,
            direction_in: false,
            pid: Self::toggle_pid(*data_toggle),
            transfer_size: buf.len() as u32,
            dma_address: address,
        };
        let outcome = Self::run_transaction(&mut self.port, self.index, endpoint, &txn);
        self.last_hcint = outcome.1;
        let ghost before = *data_toggle;
        match outcome.0 {
            Ok(sent) => {
                *data_toggle = Self::next_toggle(&mut self.port, self.index);
                self.record(
                    Ghost(Transfer::BulkOut(endpoint, endpoint_number, before, buf@)),
                    Ghost(Reply::Sent(Ok((sent, *data_toggle)))),
                );
                Ok(sent)
            },
            Err(error) => {
                self.record(
                    Ghost(Transfer::BulkOut(endpoint, endpoint_number, before, buf@)),
                    Ghost(Reply::Sent(Err(error))),
                );
                Err(error)
            },
        }
    }

    /// Takes data from a bulk endpoint into `buf`, as many whole packets as
    /// fit, and says how much came. The data toggle becomes what the controller
    /// says follows, if the transfer succeeded.
    pub fn bulk_in(
        &mut self,
        endpoint: ControlEndpoint,
        endpoint_number: u8,
        data_toggle: &mut bool,
        buf: &mut [u8],
    ) -> (result: Result<usize, TransferError>)
        ensures
            bulk_in_program(
                old(self).number(),
                endpoint,
                endpoint_number,
                *old(data_toggle),
                old(buf)@.len() as usize,
            ).ran(
                old(self).registers(),
                final(self).registers(),
                (
                    match result {
                        Ok(count) => Ok((final(buf)@.take(count as int), *final(data_toggle))),
                        Err(error) => Err(error),
                    },
                    final(self).last(),
                ),
            ),
            overwritten(result, old(buf)@, final(buf)@),
            result matches Ok(count) ==> count <= whole_packets(
                old(buf)@.len() as u32,
                endpoint.max_packet_size,
            ),
            result is Err ==> *final(data_toggle) == *old(data_toggle),
            final(self)@ == old(self)@.push(
                Exchange {
                    request: Transfer::BulkIn(
                        endpoint,
                        endpoint_number,
                        *old(data_toggle),
                        old(buf)@.len() as usize,
                    ),
                    answer: Reply::Received(
                        match result {
                            Ok(count) => Ok((final(buf)@.take(count as int), *final(data_toggle))),
                            Err(error) => Err(error),
                        },
                    ),
                },
            ),
            final(self).number() == old(self).number(),
    {
        let address: u32 = self.port.landing(buf.len());
        let max_packet_size: u32 = nonzero_packet_size(endpoint.max_packet_size);
        let len: u32 = buf.len() as u32;
        assert(len % max_packet_size <= len) by (nonlinear_arith)
            requires
                max_packet_size >= 1,
        ;
        let txn = Transaction {
            endpoint_number,
            endpoint_type: EndpointType::Bulk,
            direction_in: true,
            pid: Self::toggle_pid(*data_toggle),
            transfer_size: len - len % max_packet_size,
            dma_address: address,
        };
        let outcome = Self::run_transaction(&mut self.port, self.index, endpoint, &txn);
        self.last_hcint = outcome.1;
        let ghost before = *data_toggle;
        match outcome.0 {
            Ok(count) => {
                *data_toggle = Self::next_toggle(&mut self.port, self.index);
                let fitting: usize = if count <= buf.len() {
                    count
                } else {
                    buf.len()
                };
                let received: usize = if fitting <= txn.transfer_size as usize {
                    fitting
                } else {
                    txn.transfer_size as usize
                };
                let bytes: Vec<u8> = self.port.fetch(received);
                overwrite(buf, &bytes);
                assert(buf@.take(received as int) =~= bytes@);
                assert(buf@.skip(received as int) =~= old(buf)@.skip(received as int));
                self.record(
                    Ghost(
                        Transfer::BulkIn(endpoint, endpoint_number, before, buf@.len() as usize),
                    ),
                    Ghost(Reply::Received(Ok((buf@.take(received as int), *data_toggle)))),
                );
                Ok(received)
            },
            Err(error) => {
                self.record(
                    Ghost(
                        Transfer::BulkIn(endpoint, endpoint_number, before, buf@.len() as usize),
                    ),
                    Ghost(Reply::Received(Err(error))),
                );
                Err(error)
            },
        }
    }

    fn toggle_pid(data_toggle: bool) -> (pid: DataPid)
        ensures
            pid == pid_of(data_toggle),
    {
        if data_toggle {
            DataPid::Data1
        } else {
            DataPid::Data0
        }
    }

    fn next_toggle(port: &mut UsbPort<H>, channel: u8) -> (toggle: bool)
        ensures
            next_toggle_program(channel).ran(old(port)@, final(port)@, toggle),
    {
        port.read(Field::NextPid(channel)) == DataPid::Data1.bits() as u32
    }
}

/// A transaction that asks an interrupt endpoint for data.
pub open spec fn interrupt_txn(
    endpoint_number: u8,
    data_toggle: bool,
    transfer_size: u32,
    dma_address: u32,
) -> Transaction {
    Transaction {
        endpoint_number,
        endpoint_type: EndpointType::Interrupt,
        direction_in: true,
        pid: pid_of(data_toggle),
        transfer_size,
        dma_address,
    }
}

/// Take what a transaction moved in.
pub open spec fn collect_program(moved: Result<usize, TransferError>, len: usize) -> HwProgram<
    Result<Seq<u8>, TransferError>,
> {
    match moved {
        Ok(count) => hardware::fetch(
            at_most(count, len),
            |bytes: Seq<u8>| Program::Return(Ok(bytes)),
        ),
        Err(error) => Program::Return(Err(error)),
    }
}

/// Transfers that are awaited: what comes before a transaction, and what after it.
/// The transaction itself is run in between, an errand at a time.
impl<H: Dwc2Registers> Channel<H> {
    /// The way to the controller.
    pub fn port(&mut self) -> (port: &mut UsbPort<H>)
        ensures
            port@ == old(self).registers(),
            final(self).registers() == final(port)@,
            final(self)@ == old(self)@,
            final(self).number() == old(self).number(),
            final(self).last() == old(self).last(),
    {
        &mut self.port
    }

    /// Puts data to be sent where the controller finds it; gives the transaction.
    pub fn stage_control(&mut self, pid: DataPid, data: &[u8]) -> (txn: Transaction)
        requires
            data@.len() <= MAX_TRANSFER_LEN,
        ensures
            hardware::stage(
                data@,
                |address: u32|
                    Program::Return(control_txn(false, pid, data@.len() as u32, address)),
            ).ran(old(self).registers(), final(self).registers(), txn),
            final(self)@ == old(self)@,
            final(self).number() == old(self).number(),
    {
        let address: u32 = self.port.stage(data);
        Transaction {
            endpoint_number: 0,
            endpoint_type: EndpointType::Control,
            direction_in: false,
            pid,
            transfer_size: data.len() as u32,
            dma_address: address,
        }
    }

    /// Finds room for data of a control read, or for an empty packet; gives the
    /// transaction.
    pub fn room_for_control(&mut self, direction_in: bool, len: usize) -> (txn: Transaction)
        requires
            len <= MAX_TRANSFER_LEN,
        ensures
            hardware::landing(
                len,
                |address: u32|
                    Program::Return(
                        control_txn(direction_in, DataPid::Data1, len as u32, address),
                    ),
            ).ran(old(self).registers(), final(self).registers(), txn),
            final(self)@ == old(self)@,
            final(self).number() == old(self).number(),
    {
        let address: u32 = self.port.landing(len);
        Transaction {
            endpoint_number: 0,
            endpoint_type: EndpointType::Control,
            direction_in,
            pid: DataPid::Data1,
            transfer_size: len as u32,
            dma_address: address,
        }
    }

    /// Finds room for data of an interrupt endpoint; gives the transaction.
    pub fn room_for_interrupt(&mut self, endpoint_number: u8, data_toggle: bool, len: usize) -> (txn:
        Transaction)
        requires
            len <= MAX_TRANSFER_LEN,
        ensures
            hardware::landing(
                len,
                |address: u32|
                    Program::Return(
                        interrupt_txn(endpoint_number, data_toggle, len as u32, address),
                    ),
            ).ran(old(self).registers(), final(self).registers(), txn),
            final(self)@ == old(self)@,
            final(self).number() == old(self).number(),
    {
        let address: u32 = self.port.landing(len);
        Transaction {
            endpoint_number,
            endpoint_type: EndpointType::Interrupt,
            direction_in: true,
            pid: Self::toggle_pid(data_toggle),
            transfer_size: len as u32,
            dma_address: address,
        }
    }

    /// Puts data for a bulk endpoint where the controller finds it; gives the
    /// transaction.
    pub fn stage_bulk(&mut self, endpoint_number: u8, data_toggle: bool, data: &[u8]) -> (txn:
        Transaction)
        ensures
            hardware::stage(
                data@,
                |address: u32|
                    Program::Return(
                        bulk_txn(endpoint_number, false, data_toggle, data@.len() as u32, address),
                    ),
            ).ran(old(self).registers(), final(self).registers(), txn),
            final(self)@ == old(self)@,
            final(self).number() == old(self).number(),
    {
        let address: u32 = self.port.stage(data);
        Transaction {
            endpoint_number,
            endpoint_type: EndpointType::Bulk,
            direction_in: false,
            pid: Self::toggle_pid(data_toggle),
            transfer_size: data.len() as u32,
            dma_address: address,
        }
    }

    /// Finds room for whole packets of a bulk endpoint; gives the transaction.
    pub fn room_for_bulk(
        &mut self,
        endpoint: ControlEndpoint,
        endpoint_number: u8,
        data_toggle: bool,
        len: usize,
    ) -> (txn: Transaction)
        ensures
            hardware::landing(
                len,
                |address: u32|
                    Program::Return(
                        bulk_txn(
                            endpoint_number,
                            true,
                            data_toggle,
                            whole_packets(len as u32, endpoint.max_packet_size),
                            address,
                        ),
                    ),
            ).ran(old(self).registers(), final(self).registers(), txn),
            final(self)@ == old(self)@,
            final(self).number() == old(self).number(),
    {
        let address: u32 = self.port.landing(len);
        let max_packet_size: u32 = nonzero_packet_size(endpoint.max_packet_size);
        let room: u32 = len as u32;
        assert(room % max_packet_size <= room) by (nonlinear_arith)
            requires
                max_packet_size >= 1,
        ;
        Transaction {
            endpoint_number,
            endpoint_type: EndpointType::Bulk,
            direction_in: true,
            pid: Self::toggle_pid(data_toggle),
            transfer_size: room - room % max_packet_size,
            dma_address: address,
        }
    }

    /// Takes what a transaction moved in into `buf`; says how much that is.
    pub fn collect(&mut self, moved: Result<usize, TransferError>, buf: &mut [u8]) -> (result:
        Result<usize, TransferError>)
        ensures
            collect_program(moved, old(buf)@.len() as usize).ran(
                old(self).registers(),
                final(self).registers(),
                landed(result, final(buf)@),
            ),
            overwritten(result, old(buf)@, final(buf)@),
            final(self)@ == old(self)@,
            final(self).number() == old(self).number(),
    {
        match moved {
            Ok(count) => {
                let received: usize = if count <= buf.len() {
                    count
                } else {
                    buf.len()
                };
                let bytes: Vec<u8> = self.port.fetch(received);
                overwrite(buf, &bytes);
                assert(buf@.take(received as int) =~= bytes@);
                assert(buf@.skip(received as int) =~= old(buf)@.skip(received as int));
                Ok(received)
            },
            Err(error) => Err(error),
        }
    }

    /// The data toggle that follows a bulk transaction that succeeded.
    pub fn following_toggle(&mut self) -> (toggle: bool)
        ensures
            next_toggle_program(old(self).number()).ran(
                old(self).registers(),
                final(self).registers(),
                toggle,
            ),
            final(self)@ == old(self)@,
            final(self).number() == old(self).number(),
            final(self).last() == old(self).last(),
    {
        Self::next_toggle(&mut self.port, self.index)
    }

    /// Starts a packet on this channel.
    pub fn launch(
        &mut self,
        endpoint: ControlEndpoint,
        packet: &Transaction,
        complete_split: bool,
        odd_frame: Option<bool>,
    )
        ensures
            start_program(
                old(self).number(),
                endpoint,
                *packet,
                complete_split,
                odd_frame,
            ).ran(old(self).registers(), final(self).registers(), ()),
            final(self)@ == old(self)@,
            final(self).number() == old(self).number(),
            final(self).last() == old(self).last(),
    {
        Self::start_channel(&mut self.port, self.index, endpoint, packet, complete_split, odd_frame)
    }

    /// Remembers the interrupts that this channel had when it halted.
    pub fn remember(&mut self, hcint: u32)
        ensures
            final(self).last() == hcint,
            final(self).registers() == old(self).registers(),
            final(self)@ == old(self)@,
            final(self).number() == old(self).number(),
    {
        self.last_hcint = hcint;
    }

    /// Which microframe it is.
    pub fn microframe(&mut self) -> (frame: u8)
        ensures
            hardware::read(
                Field::FrameNumber,
                |number: u32| Program::Return(microframe_of(number)),
            ).ran(old(self).registers(), final(self).registers(), frame),
            frame < 8,
            final(self)@ == old(self)@,
            final(self).number() == old(self).number(),
            final(self).last() == old(self).last(),
    {
        Self::current_microframe(&mut self.port)
    }

    /// Makes out what a halt means, and remembers the halt.
    pub fn interpret(&mut self, hcint: u32, requested: usize) -> (result: Result<
        usize,
        TransferError,
    >)
        ensures
            interpret_program(old(self).number(), hcint, requested).ran(
                old(self).registers(),
                final(self).registers(),
                result,
            ),
            result matches Ok(count) ==> count <= requested,
            final(self)@ == old(self)@,
            final(self).number() == old(self).number(),
            final(self).last() == hcint,
    {
        self.last_hcint = hcint;
        Self::interpret_halt(&mut self.port, self.index, hcint, requested)
    }

    /// Stops this channel.
    pub fn abort(&mut self)
        ensures
            abort_program(old(self).number()).ran(
                old(self).registers(),
                final(self).registers(),
                (),
            ),
            final(self)@ == old(self)@,
            final(self).number() == old(self).number(),
            final(self).last() == old(self).last(),
    {
        Self::abort_channel(&mut self.port, self.index)
    }
}

} // verus!

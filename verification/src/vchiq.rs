//! VCHIQ: the shared-memory message transport to the VideoCore firmware, the
//! ARM's side of it.
//!
//! A region of RAM ([`SharedMemory`]) is handed to the firmware once. Its first
//! 4 KB, slot zero, hold the protocol's bookkeeping: a header and one state block
//! for each side. The slots behind it are a ring of messages: each side writes
//! messages into the slots it owns and moves a byte position on that the other
//! side reads. A message is an 8-byte header, its kind and its two ports and its
//! length, and its data; it starts on an 8-byte boundary and does not straddle
//! two slots. A slot that has been read through is handed back to its owner.
//!
//! The firmware is signalled by a doorbell, and only if it asked for that; it
//! never signals this side, which polls. Payloads too large for a message are
//! moved by the firmware's DMA: this side describes the buffer in a page list, and
//! the firmware completes the transfers of each direction in the order in which
//! they were asked for.

use vstd::prelude::*;

use crate::bytes;
use crate::program::Program;
use crate::vchiq::memory::{Op, SharedPlatform, SharedPort, ShmHistory, ShmProgram};

pub mod layout;
pub mod memory;
pub mod messages;
pub mod page_lists;
pub mod places;
pub mod ports;
pub mod ram;
pub mod slot_zero;

verus! {

broadcast use crate::program::group_program;

/// Bytes in a slot.
pub const SLOT_SIZE: u32 = 4096;

/// Entries in the queue of slots of one side.
pub const MAX_SLOTS_PER_SIDE: u32 = 64;

/// The most slots of both sides.
pub const MAX_SLOTS: u32 = 128;

/// `VCHI`, the first letter in the top byte.
pub const MAGIC: u32 = 0x5643_4849;

/// The protocol's version (8) and the oldest that is compatible (3), as the word
/// that holds both.
pub const VERSION_WORD: u32 = 0x0003_0008;

/// Filler up to the end of a slot.
pub const MSG_PADDING: u32 = 0;

/// The handshake of both sides.
pub const MSG_CONNECT: u32 = 1;

/// Open a service.
pub const MSG_OPEN: u32 = 2;

/// A service is open; its port at the peer is the source.
pub const MSG_OPENACK: u32 = 3;

/// Close a service.
pub const MSG_CLOSE: u32 = 4;

/// A message of a service.
pub const MSG_DATA: u32 = 5;

/// Write into the memory of a page list.
pub const MSG_BULK_RX: u32 = 6;

/// Read the memory of a page list.
pub const MSG_BULK_TX: u32 = 7;

/// A transfer into this side's memory is done.
pub const MSG_BULK_RX_DONE: u32 = 8;

/// A transfer out of this side's memory is done.
pub const MSG_BULK_TX_DONE: u32 = 9;

/// Bytes in a message's header.
pub const HEADER_SIZE: u32 = 8;

/// The most bulk transfers in flight in one direction.
pub const MAX_BULKS: usize = 4;

/// The most services open at once.
pub const MAX_SERVICES: usize = 4;

/// The longest message, in bytes of data.
pub const MAX_MESSAGE_SIZE: usize = 4088;

/// Bytes in slot zero.
pub const SLOT_ZERO_SIZE: u32 = 1288;

/// Offset of the firmware's state block in slot zero.
pub const MASTER_OFFSET: u32 = 32;

/// Offset of this side's state block in slot zero.
pub const SLAVE_OFFSET: u32 = 404;

/// Offset of the slots' reference counts in slot zero.
pub const SLOTS_OFFSET: u32 = 776;

/// State block: nonzero once its owner has filled it in.
pub const INITIALISED: u32 = 0;

/// State block: the first slot that its owner writes messages into.
pub const SLOT_FIRST: u32 = 4;

/// State block: the last such slot.
pub const SLOT_LAST: u32 = 8;

/// State block: the slot for synchronous messages.
pub const SLOT_SYNC: u32 = 12;

/// State block: the event that says a message has been written.
pub const TRIGGER: u32 = 16;

/// State block: the byte position of the next message.
pub const TX_POS: u32 = 28;

/// State block: the event that says a slot has been handed back.
pub const RECYCLE: u32 = 32;

/// State block: where the next slot handed back goes in the queue.
pub const SLOT_QUEUE_RECYCLE: u32 = 44;

/// State block: the event that says the synchronous slot is free.
pub const SYNC_RELEASE: u32 = 60;

/// State block: the queue of slots.
pub const SLOT_QUEUE: u32 = 72;

/// Event: its receiver wants the doorbell.
pub const ARMED: u32 = 0;

/// Event: it has happened.
pub const FIRED: u32 = 4;

/// Offset of the fragment area, behind the 65 slots.
pub const FRAGMENTS_OFFSET: u32 = 266_240;

/// Fragments in that area.
pub const MAX_FRAGMENTS: u32 = 64;

/// Offset of the page lists, behind the fragments.
pub const PAGELISTS_OFFSET: u32 = 274_432;

/// Bytes between two page lists.
pub const PAGELIST_SIZE: u32 = 64;

/// Bytes in the page that a page list counts in.
pub const PAGE_SIZE: u32 = 4096;

/// Page list: the firmware reads.
pub const PAGELIST_WRITE: u32 = 0;

/// Page list: the firmware writes.
pub const PAGELIST_READ: u32 = 1;

/// Bytes of shared memory.
pub const SHARED_MEMORY_SIZE: u32 = 0x20_0000;

/// The slot for this side's synchronous messages; the 31 behind it are the slots
/// that this side writes messages into.
pub const SLAVE_SYNC: u32 = 33;

/// The last of those.
pub const SLAVE_LAST: u32 = 64;

/// How long the firmware may take over a handshake, in microseconds.
pub const HANDSHAKE_US: u64 = 1_000_000;

/// The most that anything is polled without a clock to stop it.
pub const MAX_SPINS: u64 = u64::MAX;

/// The RAM that is shared with the VideoCore.
pub struct SharedMemory {
    bytes: Vec<u8>,
}

impl View for SharedMemory {
    type V = Seq<u8>;

    closed spec fn view(&self) -> Seq<u8> {
        self.bytes@
    }
}

impl SharedMemory {
    /// A region of zeros.
    pub fn new() -> (memory: Self)
        ensures
            memory@.len() == SHARED_MEMORY_SIZE,
            forall|i: int| 0 <= i < memory@.len() ==> memory@[i] == 0,
    {
        let mut bytes: Vec<u8> = Vec::new();
        while bytes.len() < SHARED_MEMORY_SIZE as usize
            invariant
                bytes@.len() <= SHARED_MEMORY_SIZE,
                forall|i: int| 0 <= i < bytes@.len() ==> bytes@[i] == 0,
            decreases SHARED_MEMORY_SIZE - bytes@.len(),
        {
            bytes.push(0);
        }
        SharedMemory { bytes }
    }
}

impl Default for SharedMemory {
    /// A region of zeros.
    fn default() -> (memory: Self)
        ensures
            memory@.len() == SHARED_MEMORY_SIZE,
            forall|i: int| 0 <= i < memory@.len() ==> memory@[i] == 0,
    {
        Self::new()
    }
}

/// What can go wrong with the transport.
#[derive(Clone, Copy, Debug, PartialEq, Eq, Structural)]
pub enum Error {
    /// The mailbox call that hands the memory over failed, with this code.
    Mailbox(u32),
    /// The firmware looked at slot zero and refused it, with this status.
    SlotsRejected(u32),
    /// The firmware never filled in its own state block.
    FirmwareNotReady,
    /// The caches could not be taken off the shared memory, for this reason.
    Mmu(u32),
    /// The firmware did not answer in time.
    Timeout,
    /// The transport, or the service, is not open.
    NotConnected,
    /// As many services are in use as can be at once: open, or closed by this side without
    /// an answer yet.
    TooManyServices,
    /// The firmware has no service of that name.
    ServiceRefused,
    /// A message is longer than [`MAX_MESSAGE_SIZE`].
    MessageTooLong,
    /// Every slot of this side holds messages that the firmware has not read.
    OutOfSlots,
    /// The most bulk transfers are in flight in that direction.
    TooManyBulks {
        /// Whether it is the direction into this side's memory.
        receive: bool,
    },
    /// A completion came for a transfer that nobody asked for, or a request that
    /// only a bulk master can serve.
    Protocol,
}

/// An open service.
#[derive(Clone, Copy, Debug, PartialEq, Eq, Structural)]
pub struct ServiceId(u16);

impl ServiceId {
    /// The service's port on this side.
    pub closed spec fn port(self) -> u16 {
        self.0
    }

    /// There is such a port.
    pub open spec fn wf(self) -> bool {
        self.port() < MAX_SERVICES
    }

    /// The service at a port.
    pub closed spec fn at(port: u16) -> ServiceId {
        ServiceId(port)
    }

    /// A service is known by its port.
    pub proof fn lemma_at(port: u16)
        ensures
            ServiceId::at(port).port() == port,
    {
    }
}

/// Running counts of what has crossed the transport.
#[derive(Clone, Copy, Debug, PartialEq, Eq, Structural)]
pub struct Stats {
    /// Messages written.
    pub messages_sent: u32,
    /// Messages read, of every kind.
    pub messages_received: u32,
    /// Messages of services among them.
    pub data_received: u32,
    /// Bulk transfers out of this side's memory that were asked for.
    pub bulk_transmits: u32,
    /// Those that are done.
    pub bulk_transmits_done: u32,
    /// Bulk transfers into this side's memory that were asked for.
    pub bulk_receives: u32,
    /// Those that are done.
    pub bulk_receives_done: u32,
    /// Messages of a kind that this side does not act on.
    pub messages_skipped: u32,
    /// The kind of the last of those.
    pub last_skipped_type: u32,
    /// Slots handed back.
    pub slots_recycled: u32,
}

impl Default for Stats {
    /// Nothing has crossed yet.
    fn default() -> (stats: Self)
        ensures
            stats == no_stats(),
    {
        Stats {
            messages_sent: 0,
            messages_received: 0,
            data_received: 0,
            bulk_transmits: 0,
            bulk_transmits_done: 0,
            bulk_receives: 0,
            bulk_receives_done: 0,
            messages_skipped: 0,
            last_skipped_type: 0,
            slots_recycled: 0,
        }
    }
}

/// Something that arrived.
#[derive(Clone, Copy, Debug, PartialEq, Eq, Structural)]
pub enum Event {
    /// The handshake is complete.
    Connected,
    /// A service is open.
    ServiceOpened(ServiceId),
    /// A service is closed.
    ServiceClosed(ServiceId),
    /// A message of a service, now at the front of the buffer.
    Message {
        service: ServiceId,
        /// Its length, which may be more than the buffer took.
        len: usize,
    },
    /// A transfer out of this side's memory is done.
    BulkTransmitDone { context: u32, actual: usize },
    /// A transfer into this side's memory is done.
    BulkReceiveDone { context: u32, actual: usize },
}

/// Where a port is in its life.
#[derive(Clone, Copy, Debug, PartialEq, Eq, Structural)]
pub enum ServiceState {
    /// Not in use.
    Free,
    /// The firmware has been asked, and has not answered.
    Opening,
    Open,
    /// Closed by one side, and not yet told as closed.
    Closed,
}

/// A port of this side.
#[derive(Clone, Copy, Debug, PartialEq, Eq, Structural)]
pub struct Service {
    pub state: ServiceState,
    /// The port at the peer.
    pub remote_port: u16,
}

/// A bulk transfer in flight.
#[derive(Clone, Copy, Debug, PartialEq, Eq, Structural)]
pub struct Bulk {
    pub address: u32,
    pub len: usize,
    pub context: u32,
    /// Which of its direction's page lists describes it.
    pub list: u32,
}

/// The transport as a value.
#[verifier::ext_equal]
pub struct Link {
    /// Address of the shared memory.
    pub base: u32,
    /// How far the firmware's messages have been read.
    pub rx_pos: u32,
    /// How far this side's messages have been written.
    pub tx_pos: u32,
    /// Address of the slot being written.
    pub tx_data: u32,
    /// Address of the slot being read; 0 between slots.
    pub rx_data: u32,
    /// Number of that slot.
    pub rx_slot: u32,
    /// How many slots have ever been put into this side's queue.
    pub available: u32,
    pub connected: bool,
    pub services: Seq<Service>,
    /// Transfers in flight out of this side's memory, oldest first.
    pub bulk_tx: Seq<Bulk>,
    /// Transfers in flight into this side's memory, oldest first.
    pub bulk_rx: Seq<Bulk>,
    pub stats: Stats,
}

impl Link {
    /// What always holds: messages are written at multiples of eight, there are
    /// so many ports, no more transfers are in flight than the protocol allows,
    /// and each of them has a page list of its own.
    pub open spec fn wf(self) -> bool {
        &&& self.tx_pos % 8 == 0
        &&& self.services.len() == MAX_SERVICES
        &&& apart(self.bulk_tx)
        &&& apart(self.bulk_rx)
    }

    /// The transport before anything has happened.
    pub open spec fn fresh(base: u32) -> Link {
        Link {
            base,
            rx_pos: 0,
            tx_pos: 0,
            tx_data: 0,
            rx_data: 0,
            rx_slot: 0,
            available: 0,
            connected: false,
            services: Seq::new(
                MAX_SERVICES as nat,
                |i: int| Service { state: ServiceState::Free, remote_port: 0 },
            ),
            bulk_tx: Seq::empty(),
            bulk_rx: Seq::empty(),
            stats: no_stats(),
        }
    }

    /// Address of a field of this side's state block.
    pub open spec fn local(self, field: u32) -> u32 {
        block_field(self.base, SLAVE_OFFSET, field)
    }

    /// Address of a field of the firmware's state block.
    pub open spec fn remote(self, field: u32) -> u32 {
        block_field(self.base, MASTER_OFFSET, field)
    }
}

/// Some transfer in flight is described by this page list.
pub open spec fn in_use(flight: Seq<Bulk>, list: u32) -> bool {
    exists|i: int| 0 <= i < flight.len() && (#[trigger] flight[i]).list == list
}

/// No more transfers are in flight in a direction than there can be, and no two of
/// them share a page list.
pub open spec fn apart(flight: Seq<Bulk>) -> bool {
    &&& flight.len() <= MAX_BULKS
    &&& forall|i: int| 0 <= i < flight.len() ==> (#[trigger] flight[i]).list < MAX_BULKS
    &&& forall|i: int, j: int|
        0 <= i < j < flight.len() ==> (#[trigger] flight[i]).list != (#[trigger] flight[j]).list
}

/// The lowest page list from `from` on that is not in use.
pub open spec fn lowest_list(flight: Seq<Bulk>, from: u32) -> u32
    decreases MAX_BULKS - from,
{
    if from >= MAX_BULKS || !in_use(flight, from) {
        from
    } else {
        lowest_list(flight, (from + 1) as u32)
    }
}

/// The page list for one more transfer: that of its place in the queue, or the lowest
/// that is not in use if another transfer still has that one.
pub open spec fn next_list(flight: Seq<Bulk>) -> u32 {
    if in_use(flight, flight.len() as u32) {
        lowest_list(flight, 0)
    } else {
        flight.len() as u32
    }
}

proof fn lemma_lowest_list(flight: Seq<Bulk>, from: u32)
    requires
        from <= MAX_BULKS,
    ensures
        from <= lowest_list(flight, from) <= MAX_BULKS,
        lowest_list(flight, from) < MAX_BULKS ==> !in_use(flight, lowest_list(flight, from)),
        forall|list: u32| from <= list < lowest_list(flight, from) ==> #[trigger] in_use(flight, list),
    decreases MAX_BULKS - from,
{
    if from < MAX_BULKS && in_use(flight, from) {
        lemma_lowest_list(flight, (from + 1) as u32);
    }
}

/// While there is room for one more transfer, there is a page list for it that no
/// transfer in flight has; and transfers that leave the queue, or join it with that
/// page list, leave each with one of its own.
pub proof fn law_page_lists(flight: Seq<Bulk>, bulk: Bulk)
    requires
        apart(flight),
    ensures
        flight.len() > 0 ==> apart(flight.skip(1)),
        flight.len() < MAX_BULKS ==> next_list(flight) < MAX_BULKS && !in_use(
            flight,
            next_list(flight),
        ),
        flight.len() < MAX_BULKS && bulk.list == next_list(flight) ==> apart(flight.push(bulk)),
{
    if flight.len() < MAX_BULKS {
        lemma_lowest_list(flight, 0);
        if lowest_list(flight, 0) == MAX_BULKS {
            assert(in_use(flight, 0) && in_use(flight, 1) && in_use(flight, 2) && in_use(
                flight,
                3,
            ));
            let a = choose|i: int| 0 <= i < flight.len() && (#[trigger] flight[i]).list == 0;
            let b = choose|i: int| 0 <= i < flight.len() && (#[trigger] flight[i]).list == 1;
            let c = choose|i: int| 0 <= i < flight.len() && (#[trigger] flight[i]).list == 2;
            let d = choose|i: int| 0 <= i < flight.len() && (#[trigger] flight[i]).list == 3;
            assert(a != b && a != c && a != d && b != c && b != d && c != d);
            assert(false);
        }
        let list = next_list(flight);
        assert(!in_use(flight, list));
        let longer = flight.push(bulk);
        if bulk.list == list {
            assert forall|i: int, j: int| 0 <= i < j < longer.len() implies (
            #[trigger] longer[i]).list != (#[trigger] longer[j]).list by {
                assert(flight[i] == longer[i]);
                if j < flight.len() {
                    assert(flight[j] == longer[j]);
                }
            }
        }
    }
}

/// Address of a field of a state block.
#[verifier::opaque]
pub open spec fn block_field(base: u32, block: u32, field: u32) -> u32 {
    base.wrapping_add((block + field) as u32)
}

/// Nothing counted yet.
pub open spec fn no_stats() -> Stats {
    Stats {
        messages_sent: 0,
        messages_received: 0,
        data_received: 0,
        bulk_transmits: 0,
        bulk_transmits_done: 0,
        bulk_receives: 0,
        bulk_receives_done: 0,
        messages_skipped: 0,
        last_skipped_type: 0,
        slots_recycled: 0,
    }
}

/// A physical address as the VideoCore sees it.
pub open spec fn bus_of(physical_address: u32) -> u32 {
    (physical_address & 0x3FFF_FFFF) | 0xC000_0000
}

fn to_bus(physical_address: u32) -> (bus_address: u32)
    ensures
        bus_address == bus_of(physical_address),
{
    (physical_address & 0x3FFF_FFFF) | 0xC000_0000
}

/// The bytes that a message with `size` bytes of data takes: its header and its
/// data, up to the next multiple of eight.
#[verifier::opaque]
pub open spec fn stride_of(size: u32) -> u32 {
    let end = size.wrapping_add(15);
    (end - end % 8) as u32
}

fn stride(size: u32) -> (bytes: u32)
    ensures
        bytes == stride_of(size),
        bytes % 8 == 0,
        size <= MAX_MESSAGE_SIZE ==> size + 8 <= bytes <= SLOT_SIZE,
{
    reveal(stride_of);
    let end: u32 = size.wrapping_add(15);
    end - end % 8
}

fn address_of_slot(base: u32, slot: u32) -> (address: u32)
    ensures
        address == slot_address(base, slot),
{
    reveal(slot_address);
    base.wrapping_add(slot.wrapping_mul(SLOT_SIZE))
}

/// Messages stay on multiples of eight, where a slot always has room for a
/// header.
proof fn lemma_aligned(position: u32, step: u32)
    requires
        position % 8 == 0,
        step % 8 == 0,
    ensures
        position.wrapping_add(step) % 8 == 0,
        position % SLOT_SIZE <= SLOT_SIZE - 8,
        (SLOT_SIZE - position % SLOT_SIZE) % 8 == 0,
{
}

/// The header word of a message: its kind, the sender's port, the receiver's.
pub open spec fn message_id(kind: u32, source: u32, destination: u32) -> u32 {
    (kind << 24) | (source << 12) | destination
}

fn make_id(kind: u32, source: u32, destination: u32) -> (id: u32)
    ensures
        id == message_id(kind, source, destination),
{
    (kind << 24) | (source << 12) | destination
}

/// The kind of a message.
pub open spec fn kind_of(id: u32) -> u32 {
    id >> 24
}

/// The sender's port.
pub open spec fn source_of(id: u32) -> u16 {
    ((id >> 12) & 0xFFF) as u16
}

/// The receiver's port.
pub open spec fn destination_of(id: u32) -> u16 {
    (id & 0xFFF) as u16
}

/// A message's header gives back the kind and the ports that it was made of.
pub proof fn law_message_id(kind: u32, source: u32, destination: u32)
    requires
        kind < 256,
        source < 4096,
        destination < 4096,
    ensures
        kind_of(message_id(kind, source, destination)) == kind,
        source_of(message_id(kind, source, destination)) == source,
        destination_of(message_id(kind, source, destination)) == destination,
{
    let id = message_id(kind, source, destination);
    assert(id >> 24 == kind && ((id >> 12) & 0xFFF) == source && (id & 0xFFF) == destination)
        by (bit_vector)
        requires
            kind < 256,
            source < 4096,
            destination < 4096,
            id == (kind << 24) | (source << 12) | destination,
    ;
}

/// Write zeros over slot zero, from the given word on.
pub open spec fn clear_program(base: u32, word: u32) -> ShmProgram<()>
    decreases SLOT_ZERO_SIZE / 4 - word,
{
    if word >= SLOT_ZERO_SIZE / 4 {
        Program::Return(())
    } else {
        memory::write(
            base.wrapping_add((word * 4) as u32),
            0,
            clear_program(base, (word + 1) as u32),
        )
    }
}

/// Write slot zero's header.
pub open spec fn header_program(base: u32) -> ShmProgram<()> {
    memory::write(
        base,
        MAGIC,
        memory::write(
            base.wrapping_add(4),
            VERSION_WORD,
            memory::write(
                base.wrapping_add(8),
                SLOT_ZERO_SIZE,
                memory::write(
                    base.wrapping_add(12),
                    SLOT_SIZE,
                    memory::write(
                        base.wrapping_add(16),
                        MAX_SLOTS,
                        memory::write(
                            base.wrapping_add(20),
                            MAX_SLOTS_PER_SIDE,
                            memory::write(
                                base.wrapping_add(24),
                                bus_of(base.wrapping_add(FRAGMENTS_OFFSET)),
                                memory::write(
                                    base.wrapping_add(28),
                                    MAX_FRAGMENTS,
                                    Program::Return(()),
                                ),
                            ),
                        ),
                    ),
                ),
            ),
        ),
    )
}

/// Divide the slots between the two sides: a synchronous slot and 31 others each.
pub open spec fn division_program(link: Link) -> ShmProgram<()> {
    memory::write(
        link.remote(SLOT_SYNC),
        1,
        memory::write(
            link.remote(SLOT_FIRST),
            2,
            memory::write(
                link.remote(SLOT_LAST),
                32,
                memory::write(
                    link.local(SLOT_SYNC),
                    SLAVE_SYNC,
                    memory::write(
                        link.local(SLOT_FIRST),
                        34,
                        memory::write(link.local(SLOT_LAST), SLAVE_LAST, Program::Return(())),
                    ),
                ),
            ),
        ),
    )
}

/// Queue this side's slots, from `slot` on.
pub open spec fn queue_program(link: Link, slot: u32) -> ShmProgram<()>
    decreases 65 - slot,
{
    if slot > SLAVE_LAST {
        Program::Return(())
    } else {
        memory::write(
            link.local((SLOT_QUEUE + (slot - 34) * 4) as u32),
            slot,
            queue_program(link, (slot + 1) as u32),
        )
    }
}

/// Make the synchronous slot empty and free, and say that this side is ready:
/// last, behind a barrier.
pub open spec fn ready_program(link: Link) -> ShmProgram<()> {
    memory::write(
        link.local(SLOT_QUEUE_RECYCLE),
        31,
        memory::write(
            link.base.wrapping_add((SLAVE_SYNC * SLOT_SIZE) as u32),
            message_id(MSG_PADDING, 0, 0),
            memory::write(
                link.local((SYNC_RELEASE + FIRED) as u32),
                1,
                memory::act(
                    Op::Barrier,
                    memory::write(link.local(INITIALISED), 1, Program::Return(())),
                ),
            ),
        ),
    )
}

/// Fill slot zero in.
pub open spec fn init_program(link: Link) -> ShmProgram<()> {
    clear_program(link.base, 0).bind(
        |cleared: ()|
            header_program(link.base).bind(
                |header: ()|
                    division_program(link).bind(
                        |divided: ()|
                            queue_program(link, 34).bind(|queued: ()| ready_program(link)),
                    ),
            ),
    )
}

/// Fire one of the firmware's events, and ring the doorbell if it asked for it.
pub open spec fn signal_program(link: Link, event: u32) -> ShmProgram<()> {
    memory::write(
        link.remote((event + FIRED) as u32),
        1,
        memory::act(
            Op::Barrier,
            memory::read(
                link.remote((event + ARMED) as u32),
                |armed: u32|
                    if armed != 0 {
                        memory::act(Op::Doorbell, Program::Return(()))
                    } else {
                        Program::Return(())
                    },
            ),
        ),
    )
}

/// Address of a slot.
#[verifier::opaque]
pub open spec fn slot_address(base: u32, slot: u32) -> u32 {
    base.wrapping_add(slot.wrapping_mul(SLOT_SIZE))
}

/// Find room for `space` bytes at `tx_pos`, which is in front of a slot or has
/// room behind it in its slot.
pub open spec fn take_room(link: Link, tx_pos: u32, space: u32) -> ShmProgram<
    (Link, Result<u32, Error>),
> {
    if tx_pos % SLOT_SIZE == 0 {
        if tx_pos / SLOT_SIZE == link.available {
            memory::write(
                link.local(TX_POS),
                link.tx_pos,
                memory::act(
                    Op::Barrier,
                    signal_program(link, TRIGGER).bind(
                        |signalled: ()| Program::Return((link, Err(Error::OutOfSlots))),
                    ),
                ),
            )
        } else {
            memory::read(
                link.local((SLOT_QUEUE + (tx_pos / SLOT_SIZE) % MAX_SLOTS_PER_SIDE * 4) as u32),
                |slot: u32|
                    Program::Return(
                        (
                            Link {
                                tx_data: slot_address(link.base, slot),
                                tx_pos: tx_pos.wrapping_add(space),
                                ..link
                            },
                            Ok(slot_address(link.base, slot)),
                        ),
                    ),
            )
        }
    } else {
        Program::Return(
            (
                Link { tx_pos: tx_pos.wrapping_add(space), ..link },
                Ok(link.tx_data.wrapping_add(tx_pos % SLOT_SIZE)),
            ),
        )
    }
}

/// Find room for `space` bytes. If what is left of the slot does not do, it
/// becomes a padding message, and the next slot is used.
pub open spec fn reserve_program(link: Link, space: u32) -> ShmProgram<
    (Link, Result<u32, Error>),
> {
    let left = (SLOT_SIZE - link.tx_pos % SLOT_SIZE) as u32;
    if space > left {
        let header = link.tx_data.wrapping_add(link.tx_pos % SLOT_SIZE);
        memory::write(
            header,
            message_id(MSG_PADDING, 0, 0),
            memory::write(
                header.wrapping_add(4),
                (left - HEADER_SIZE) as u32,
                take_room(link, link.tx_pos.wrapping_add(left), space),
            ),
        )
    } else {
        take_room(link, link.tx_pos, space)
    }
}

/// Write the rest of `data` at `address`, from byte `at` on.
pub open spec fn payload_program(address: u32, data: Seq<u8>, at: int) -> ShmProgram<()>
    decreases data.len() - at,
{
    if at >= data.len() {
        Program::Return(())
    } else {
        memory::act(
            Op::WriteByte(address.wrapping_add(at as u32), data[at]),
            payload_program(address, data, at + 1),
        )
    }
}

/// The transport with one more message sent.
pub open spec fn sent(link: Link) -> Link {
    Link {
        stats: Stats { messages_sent: link.stats.messages_sent.wrapping_add(1), ..link.stats },
        ..link
    }
}

/// Write a message where there is room for it: its data first, then its header, and
/// only then, behind a barrier, the position that shows it to the firmware.
pub open spec fn place_program(link: Link, header: u32, id: u32, data: Seq<u8>) -> ShmProgram<
    (Link, Result<(), Error>),
> {
    payload_program(header.wrapping_add(HEADER_SIZE), data, 0).bind(
        |written: ()|
            memory::write(
                header,
                id,
                memory::write(
                    header.wrapping_add(4),
                    data.len() as u32,
                    memory::act(
                        Op::Barrier,
                        memory::write(
                            link.local(TX_POS),
                            link.tx_pos,
                            memory::act(
                                Op::Barrier,
                                signal_program(link, TRIGGER).bind(
                                    |signalled: ()| Program::Return((sent(link), Ok(()))),
                                ),
                            ),
                        ),
                    ),
                ),
            ),
    )
}

/// Send a message.
pub open spec fn send_program(link: Link, id: u32, data: Seq<u8>) -> ShmProgram<
    (Link, Result<(), Error>),
> {
    reserve_program(link, stride_of(data.len() as u32)).bind(
        |reserved: (Link, Result<u32, Error>)|
            match reserved.1 {
                Err(error) => Program::Return((reserved.0, Err(error))),
                Ok(header) => place_program(reserved.0, header, id, data),
            },
    )
}

/// Take `count` bytes at `address`, behind those taken already.
pub open spec fn copy_program(address: u32, count: nat, taken: Seq<u8>) -> ShmProgram<Seq<u8>>
    decreases count - taken.len(),
{
    if taken.len() >= count {
        Program::Return(taken)
    } else {
        memory::read_byte(
            address.wrapping_add(taken.len() as u32),
            |byte: u8| copy_program(address, count, taken.push(byte)),
        )
    }
}

/// What came of reading: the transport, the bytes copied out, and the result.
pub type Heard = (Link, Seq<u8>, Result<Option<Event>, Error>);

/// What a result says was copied to the front of a buffer.
pub open spec fn copied(result: Result<Option<Event>, Error>, buffer: Seq<u8>) -> Seq<u8> {
    match result {
        Ok(Some(Event::Message { service, len })) => if len <= buffer.len() {
            buffer.take(len as int)
        } else {
            buffer
        },
        _ => Seq::empty(),
    }
}

/// Nothing changed in a buffer but what a result says was copied there.
pub open spec fn untouched(
    result: Result<Option<Event>, Error>,
    before: Seq<u8>,
    after: Seq<u8>,
) -> bool {
    let count = copied(result, after).len() as int;
    after.len() == before.len() && after.skip(count) == before.skip(count)
}

/// A result that copies nothing out.
pub open spec fn heard(link: Link, result: Result<Option<Event>, Error>) -> ShmProgram<Heard> {
    Program::Return((link, Seq::empty(), result))
}

/// The transport with one of its ports changed.
pub open spec fn with_service(link: Link, port: int, service: Service) -> Link {
    Link { services: link.services.update(port, service), ..link }
}

/// A signed byte count; a negative one means that the transfer was aborted.
pub open spec fn actual_count(word: u32) -> usize {
    if word >= 0x8000_0000 {
        0
    } else {
        word as usize
    }
}

/// Act on a completion of the oldest transfer of one direction.
pub open spec fn completion_program(link: Link, receive: bool, data: u32) -> ShmProgram<Heard> {
    if receive {
        if link.bulk_rx.len() == 0 {
            heard(link, Err(Error::Protocol))
        } else {
            let bulk = link.bulk_rx[0];
            memory::read(
                data,
                |word: u32|
                    memory::act(
                        Op::Invalidate(bulk.address, bulk.len),
                        heard(
                            Link {
                                bulk_rx: link.bulk_rx.skip(1),
                                stats: Stats {
                                    bulk_receives_done: link.stats.bulk_receives_done.wrapping_add(
                                        1,
                                    ),
                                    ..link.stats
                                },
                                ..link
                            },
                            Ok(
                                Some(
                                    Event::BulkReceiveDone {
                                        context: bulk.context,
                                        actual: actual_count(word),
                                    },
                                ),
                            ),
                        ),
                    ),
            )
        }
    } else {
        if link.bulk_tx.len() == 0 {
            heard(link, Err(Error::Protocol))
        } else {
            let bulk = link.bulk_tx[0];
            memory::read(
                data,
                |word: u32|
                    heard(
                        Link {
                            bulk_tx: link.bulk_tx.skip(1),
                            stats: Stats {
                                bulk_transmits_done: link.stats.bulk_transmits_done.wrapping_add(1),
                                ..link.stats
                            },
                            ..link
                        },
                        Ok(
                            Some(
                                Event::BulkTransmitDone {
                                    context: bulk.context,
                                    actual: actual_count(word),
                                },
                            ),
                        ),
                    ),
            )
        }
    }
}

/// The transport with one more message received.
pub open spec fn received(link: Link) -> Link {
    Link {
        stats: Stats {
            messages_received: link.stats.messages_received.wrapping_add(1),
            ..link.stats
        },
        ..link
    }
}

/// Act on a message that has been counted. A port is free again once its service has been
/// told as closed; one whose opening is refused is left to whoever waits for it.
pub open spec fn act_program(link: Link, id: u32, size: u32, data: u32, room: usize) -> ShmProgram<
    Heard,
> {
    let kind = kind_of(id);
    let source = source_of(id);
    let port = destination_of(id);
    if kind == MSG_CONNECT {
        heard(Link { connected: true, ..link }, Ok(Some(Event::Connected)))
    } else if kind == MSG_OPENACK {
        if port < MAX_SERVICES && link.services[port as int].state == ServiceState::Opening {
            heard(
                with_service(
                    link,
                    port as int,
                    Service { state: ServiceState::Open, remote_port: source },
                ),
                Ok(Some(Event::ServiceOpened(ServiceId::at(port)))),
            )
        } else {
            heard(link, Ok(None))
        }
    } else if kind == MSG_CLOSE {
        if port < MAX_SERVICES {
            let state = link.services[port as int].state;
            let event = Ok(Some(Event::ServiceClosed(ServiceId::at(port))));
            if state == ServiceState::Open {
                send_program(
                    in_state(link, port as int, ServiceState::Closed),
                    message_id(MSG_CLOSE, port as u32, source as u32),
                    Seq::empty(),
                ).bind(
                    |acknowledged: (Link, Result<(), Error>)|
                        match acknowledged.1 {
                            Ok(()) => heard(
                                in_state(acknowledged.0, port as int, ServiceState::Free),
                                event,
                            ),
                            Err(error) => heard(acknowledged.0, Err(error)),
                        },
                )
            } else if state == ServiceState::Opening {
                heard(in_state(link, port as int, ServiceState::Closed), event)
            } else {
                heard(in_state(link, port as int, ServiceState::Free), event)
            }
        } else {
            heard(link, Ok(None))
        }
    } else if kind == MSG_DATA {
        if port < MAX_SERVICES && link.services[port as int].state == ServiceState::Open {
            let count = if size as usize <= room {
                size as nat
            } else {
                room as nat
            };
            copy_program(data, count, Seq::empty()).bind(
                |bytes: Seq<u8>|
                    Program::Return(
                        (
                            Link {
                                stats: Stats {
                                    data_received: link.stats.data_received.wrapping_add(1),
                                    ..link.stats
                                },
                                ..link
                            },
                            bytes,
                            Ok(
                                Some(
                                    Event::Message {
                                        service: ServiceId::at(port),
                                        len: size as usize,
                                    },
                                ),
                            ),
                        ),
                    ),
            )
        } else {
            heard(link, Ok(None))
        }
    } else if kind == MSG_BULK_TX_DONE || kind == MSG_BULK_RX_DONE {
        completion_program(link, kind == MSG_BULK_RX_DONE, data)
    } else if kind == MSG_BULK_TX || kind == MSG_BULK_RX {
        heard(link, Err(Error::Protocol))
    } else {
        heard(
            Link {
                stats: Stats {
                    messages_skipped: link.stats.messages_skipped.wrapping_add(1),
                    last_skipped_type: kind,
                    ..link.stats
                },
                ..link
            },
            Ok(None),
        )
    }
}

/// Act on a message.
pub open spec fn parse_program(
    link: Link,
    id: u32,
    size: u32,
    data: u32,
    room: usize,
) -> ShmProgram<Heard> {
    act_program(received(link), id, size, data, room)
}

/// Hand a slot back to the firmware if every reference to it has been dropped.
pub open spec fn release_program(link: Link, slot: u32) -> ShmProgram<Link> {
    let info = link.base.wrapping_add(SLOTS_OFFSET).wrapping_add(slot.wrapping_mul(4));
    memory::read_half(
        info,
        |uses: u16|
            memory::read_half(
                info.wrapping_add(2),
                |dropped: u16|
                    {
                        let releases = dropped.wrapping_add(1);
                        memory::act(
                            Op::WriteHalf(info.wrapping_add(2), releases),
                            if releases != uses {
                                Program::Return(link)
                            } else {
                                memory::read(
                                    link.remote(SLOT_QUEUE_RECYCLE),
                                    |recycle: u32|
                                        memory::write(
                                            link.remote(
                                                (SLOT_QUEUE + recycle % MAX_SLOTS_PER_SIDE
                                                    * 4) as u32,
                                            ),
                                            slot,
                                            memory::write(
                                                link.remote(SLOT_QUEUE_RECYCLE),
                                                recycle.wrapping_add(1),
                                                memory::act(
                                                    Op::Barrier,
                                                    signal_program(link, RECYCLE).bind(
                                                        |signalled: ()|
                                                            Program::Return(
                                                                Link {
                                                                    stats: Stats {
                                                                        slots_recycled:
                                                                            link.stats.slots_recycled.wrapping_add(
                                                                            1,
                                                                        ),
                                                                        ..link.stats
                                                                    },
                                                                    ..link
                                                                },
                                                            ),
                                                    ),
                                                ),
                                            ),
                                        ),
                                )
                            },
                        )
                    },
            ),
    )
}

/// Make sure that the slot being read is known: the firmware's queue names it.
/// It gets one reference, which is dropped when it has been read through.
pub open spec fn enter_program(link: Link) -> ShmProgram<Link> {
    if link.rx_data == 0 {
        memory::read(
            link.remote((SLOT_QUEUE + (link.rx_pos / SLOT_SIZE) % MAX_SLOTS_PER_SIDE * 4) as u32),
            |slot: u32|
                memory::write(
                    link.base.wrapping_add(SLOTS_OFFSET).wrapping_add(slot.wrapping_mul(4)),
                    1,
                    Program::Return(
                        Link { rx_slot: slot, rx_data: slot_address(link.base, slot), ..link },
                    ),
                ),
        )
    } else {
        Program::Return(link)
    }
}

/// Move past a message of `size` bytes, and out of the slot if that was its last.
pub open spec fn advance_program(link: Link, size: u32) -> ShmProgram<Link> {
    let moved = Link { rx_pos: link.rx_pos.wrapping_add(stride_of(size)), ..link };
    if moved.rx_pos % SLOT_SIZE == 0 {
        release_program(moved, moved.rx_slot).bind(
            |released: Link| Program::Return(Link { rx_data: 0, ..released }),
        )
    } else {
        Program::Return(moved)
    }
}

/// Read one message, and move past it unless it is a fault.
pub open spec fn message_program(link: Link, room: usize) -> ShmProgram<Heard> {
    enter_program(link).bind(
        |entered: Link|
            {
                let header = entered.rx_data.wrapping_add(entered.rx_pos % SLOT_SIZE);
                memory::read(
                    header,
                    |id: u32|
                        memory::read(
                            header.wrapping_add(4),
                            |size: u32|
                                parse_program(
                                    entered,
                                    id,
                                    size,
                                    header.wrapping_add(HEADER_SIZE),
                                    room,
                                ).bind(|parsed: Heard| past_program(parsed, size)),
                        ),
                )
            },
    )
}

/// Move past a message that has been acted on.
pub open spec fn past_program(parsed: Heard, size: u32) -> ShmProgram<Heard> {
    match parsed.2 {
        Err(error) => Program::Return(parsed),
        Ok(event) => advance_program(parsed.0, size).bind(
            |advanced: Link| Program::Return((advanced, parsed.1, parsed.2)),
        ),
    }
}

/// Whether the caller need not be told of what was heard.
pub open spec fn of_no_interest(heard: Heard) -> bool {
    heard.2 == Ok::<Option<Event>, Error>(None)
}

/// Read messages until one needs the caller, or none is left.
pub open spec fn listen_program(link: Link, room: usize, spins: nat) -> ShmProgram<Heard>
    decreases spins,
{
    memory::read(
        link.remote(TX_POS),
        |tx_pos: u32|
            if link.rx_pos == tx_pos || spins == 0 {
                heard(link, Ok(None))
            } else {
                message_program(link, room).bind(
                    |heard: Heard|
                        if of_no_interest(heard) {
                            listen_program(heard.0, room, (spins - 1) as nat)
                        } else {
                            Program::Return(heard)
                        },
                )
            },
    )
}

/// Notice the slots that the firmware has handed back, then read messages.
pub open spec fn poll_program(link: Link, room: usize) -> ShmProgram<Heard> {
    memory::read(
        link.local(SLOT_QUEUE_RECYCLE),
        |recycle: u32|
            listen_program(Link { available: recycle, ..link }, room, MAX_SPINS as nat),
    )
}

/// Poll until the firmware has connected, or the deadline has passed.
pub open spec fn await_connection(link: Link, deadline: u64, spins: nat) -> ShmProgram<
    (Link, Result<(), Error>),
>
    decreases spins,
{
    if link.connected {
        Program::Return((link, Ok(())))
    } else {
        poll_program(link, 0).bind(
            |polled: Heard|
                match polled.2 {
                    Err(error) => Program::Return((polled.0, Err(error))),
                    Ok(event) => memory::now(
                        |now: u64|
                            if now > deadline || spins == 0 {
                                Program::Return((polled.0, Err(Error::Timeout)))
                            } else {
                                await_connection(polled.0, deadline, (spins - 1) as nat)
                            },
                    ),
                },
        )
    }
}

/// Shake hands with the firmware.
pub open spec fn connect_program(link: Link) -> ShmProgram<(Link, Result<(), Error>)> {
    send_program(link, message_id(MSG_CONNECT, 0, 0), Seq::empty()).bind(
        |asked: (Link, Result<(), Error>)|
            match asked.1 {
                Err(error) => Program::Return(asked),
                Ok(()) => memory::now(
                    |start: u64|
                        await_connection(
                            asked.0,
                            start.wrapping_add(HANDSHAKE_US),
                            MAX_SPINS as nat,
                        ),
                ),
            },
    )
}

/// The transport with a port's state changed.
pub open spec fn in_state(link: Link, port: int, state: ServiceState) -> Link {
    with_service(link, port, Service { state, ..link.services[port] })
}

/// Poll until the firmware has opened the port or closed it, or the deadline has
/// passed; a port that does not open becomes free again.
pub open spec fn await_service(link: Link, port: u16, deadline: u64, spins: nat) -> ShmProgram<
    (Link, Result<ServiceId, Error>),
>
    decreases spins,
{
    let state = link.services[port as int].state;
    if state == ServiceState::Open {
        Program::Return((link, Ok(ServiceId::at(port))))
    } else if state == ServiceState::Closed {
        Program::Return(
            (in_state(link, port as int, ServiceState::Free), Err(Error::ServiceRefused)),
        )
    } else {
        poll_program(link, 0).bind(
            |polled: Heard|
                match polled.2 {
                    Err(error) => Program::Return(
                        (in_state(polled.0, port as int, ServiceState::Free), Err(error)),
                    ),
                    Ok(event) => memory::now(
                        |now: u64|
                            if now > deadline || spins == 0 {
                                Program::Return(
                                    (
                                        in_state(polled.0, port as int, ServiceState::Free),
                                        Err(Error::Timeout),
                                    ),
                                )
                            } else {
                                await_service(polled.0, port, deadline, (spins - 1) as nat)
                            },
                    ),
                },
        )
    }
}

/// The data of a request to open a service: its name, read as a number with its
/// first letter on top; a client number; and the version pair.
pub open spec fn open_payload(fourcc: Seq<u8>, version: u16, version_min: u16) -> Seq<u8> {
    seq![fourcc[3], fourcc[2], fourcc[1], fourcc[0], 1, 0, 0, 0] + bytes::le16_bytes(version)
        + bytes::le16_bytes(version_min)
}

/// The lowest free port is `port`.
pub open spec fn lowest_free(services: Seq<Service>, port: int) -> bool {
    &&& 0 <= port < services.len()
    &&& services[port].state == ServiceState::Free
    &&& forall|lower: int|
        0 <= lower < port ==> #[trigger] services[lower].state != ServiceState::Free
}

/// Ask for a service on a free port, and wait for the answer.
pub open spec fn open_program(
    link: Link,
    port: u16,
    fourcc: Seq<u8>,
    version: u16,
    version_min: u16,
) -> ShmProgram<(Link, Result<ServiceId, Error>)> {
    send_program(
        with_service(
            link,
            port as int,
            Service { state: ServiceState::Opening, remote_port: 0 },
        ),
        message_id(MSG_OPEN, port as u32, 0),
        open_payload(fourcc, version, version_min),
    ).bind(
        |asked: (Link, Result<(), Error>)|
            match asked.1 {
                Err(error) => Program::Return(
                    (in_state(asked.0, port as int, ServiceState::Free), Err(error)),
                ),
                Ok(()) => memory::now(
                    |start: u64|
                        await_service(
                            asked.0,
                            port,
                            start.wrapping_add(HANDSHAKE_US),
                            MAX_SPINS as nat,
                        ),
                ),
            },
    )
}

/// A port that this side closes: in use until the firmware's answer has been told, unless
/// it is free already.
pub open spec fn closing(link: Link, port: u16) -> Link {
    if link.services[port as int].state == ServiceState::Free {
        link
    } else {
        in_state(link, port as int, ServiceState::Closed)
    }
}

/// Close a service.
pub open spec fn close_program(link: Link, port: u16) -> ShmProgram<(Link, Result<(), Error>)> {
    send_program(
        closing(link, port),
        message_id(MSG_CLOSE, port as u32, link.services[port as int].remote_port as u32),
        Seq::empty(),
    )
}

/// Address of the page list of a transfer: the transmits' come first.
pub open spec fn list_address(base: u32, receive: bool, index: int) -> u32 {
    base.wrapping_add(
        (PAGELISTS_OFFSET + (if receive {
            MAX_BULKS + index
        } else {
            index
        }) * PAGELIST_SIZE) as u32,
    )
}

/// The pages that a buffer touches.
pub open spec fn pages_of(address: u32, len: usize) -> int {
    (len + address % PAGE_SIZE + PAGE_SIZE - 1) / PAGE_SIZE as int
}

/// The pages that a buffer is said to lie in begin with the one that its first byte is in,
/// reach to its end, and none of them could be left out.
pub proof fn law_pages_cover(address: u32, len: usize)
    ensures
        address - address % 4096 + 4096 * pages_of(address, len) >= address + len,
        len > 0 ==> address - address % 4096 + 4096 * (pages_of(address, len) - 1) < address + len,
        len > 0 ==> pages_of(address, len) >= 1,
{
}

/// On the bus, memory is in a window of a gigabyte that begins at three.
pub proof fn law_bus_window(physical_address: u32)
    ensures
        bus_of(physical_address) == 0xC000_0000 + physical_address % 0x4000_0000,
{
    assert((physical_address & 0x3FFF_FFFF) | 0xC000_0000 == 0xC000_0000 + physical_address
        % 0x4000_0000) by (bit_vector);
}

/// The transport with one more transfer in flight.
pub open spec fn with_bulk(link: Link, bulk: Bulk, receive: bool) -> Link {
    if receive {
        Link {
            bulk_rx: link.bulk_rx.push(bulk),
            stats: Stats {
                bulk_receives: link.stats.bulk_receives.wrapping_add(1),
                ..link.stats
            },
            ..link
        }
    } else {
        Link {
            bulk_tx: link.bulk_tx.push(bulk),
            stats: Stats {
                bulk_transmits: link.stats.bulk_transmits.wrapping_add(1),
                ..link.stats
            },
            ..link
        }
    }
}

/// Ask for a bulk transfer that there is room for: write its page list, then
/// send the request. It is in flight once the request has been sent.
pub open spec fn transfer_program(
    link: Link,
    port: u16,
    bulk: Bulk,
    receive: bool,
) -> ShmProgram<(Link, Result<(), Error>)> {
    let list = list_address(link.base, receive, bulk.list as int);
    let offset = bulk.address % PAGE_SIZE;
    memory::write(
        list,
        bulk.len as u32,
        memory::write(
            list.wrapping_add(4),
            ((if receive {
                PAGELIST_READ
            } else {
                PAGELIST_WRITE
            }) + offset * 65536) as u32,
            memory::write(
                list.wrapping_add(8),
                bus_of((bulk.address - offset) as u32) | (pages_of(bulk.address, bulk.len)
                    - 1) as u32,
                send_program(
                    link,
                    message_id(
                        if receive {
                            MSG_BULK_RX
                        } else {
                            MSG_BULK_TX
                        },
                        port as u32,
                        link.services[port as int].remote_port as u32,
                    ),
                    bytes::le32_bytes(bus_of(list)) + bytes::le32_bytes(bulk.len as u32),
                ).bind(
                    |sent: (Link, Result<(), Error>)|
                        match sent.1 {
                            Err(error) => Program::Return((sent.0, Err(error))),
                            Ok(()) => Program::Return((with_bulk(sent.0, bulk, receive), Ok(()))),
                        },
                ),
            ),
        ),
    )
}

/// The transfers in flight in a direction.
pub open spec fn flight(link: Link, receive: bool) -> Seq<Bulk> {
    if receive {
        link.bulk_rx
    } else {
        link.bulk_tx
    }
}

/// Whether a bulk transfer can be asked for: the service is open and there is room.
pub open spec fn can_transfer(link: Link, port: u16, receive: bool) -> bool {
    link.services[port as int].state == ServiceState::Open && flight(link, receive).len()
        < MAX_BULKS
}

/// Ask for a bulk transfer, if the service is open and there is room.
pub open spec fn bulk_program(link: Link, port: u16, bulk: Bulk, receive: bool) -> ShmProgram<
    (Link, Result<(), Error>),
> {
    if link.services[port as int].state != ServiceState::Open {
        Program::Return((link, Err(Error::NotConnected)))
    } else if flight(link, receive).len() >= MAX_BULKS {
        Program::Return((link, Err(Error::TooManyBulks { receive })))
    } else {
        transfer_program(link, port, bulk, receive)
    }
}

/// Poll until the firmware has filled its state block in, or the deadline has
/// passed.
pub open spec fn await_firmware(link: Link, deadline: u64, spins: nat) -> ShmProgram<
    Result<Link, Error>,
>
    decreases spins,
{
    memory::read(
        link.remote(INITIALISED),
        |ready: u32|
            if ready != 0 {
                Program::Return(Ok(link))
            } else {
                memory::now(
                    |now: u64|
                        if now > deadline || spins == 0 {
                            Program::Return(Err(Error::FirmwareNotReady))
                        } else {
                            await_firmware(link, deadline, (spins - 1) as nat)
                        },
                )
            },
    )
}

/// Hand the prepared memory to the firmware, and wait for it to take it.
pub open spec fn hand_over_program(link: Link) -> ShmProgram<Result<Link, Error>> {
    memory::call(
        Op::HandOver(bus_of(link.base)),
        |status: Result<u32, u32>|
            match status {
                Err(code) => Program::Return(Err(Error::Mailbox(code))),
                Ok(word) => if word != 0 {
                    Program::Return(Err(Error::SlotsRejected(word)))
                } else {
                    memory::now(
                        |start: u64|
                            await_firmware(
                                link,
                                start.wrapping_add(HANDSHAKE_US),
                                MAX_SPINS as nat,
                            ),
                    )
                },
            },
    )
}

/// Find the memory, and take the caches off it.
pub open spec fn claim_program() -> ShmProgram<Result<u32, Error>> {
    memory::ask(
        Op::Locate,
        |base: u32|
            memory::call(
                Op::SetUncached(base, SHARED_MEMORY_SIZE),
                |status: Result<u32, u32>|
                    match status {
                        Err(code) => Program::Return(Err(Error::Mmu(code))),
                        Ok(done) => Program::Return(Ok(base)),
                    },
            ),
    )
}

/// Bring the transport up: take the caches off the memory before anything is
/// written there, fill slot zero in, and hand the memory over.
pub open spec fn new_program() -> ShmProgram<Result<Link, Error>> {
    claim_program().bind(
        |claimed: Result<u32, Error>|
            match claimed {
                Err(error) => Program::Return(Err(error)),
                Ok(base) => init_program(Link::fresh(base)).bind(
                    |filled: ()|
                        memory::act(
                            Op::Barrier,
                            hand_over_program(Link { available: 31, ..Link::fresh(base) }),
                        ),
                ),
            },
    )
}

/// The transport.
pub struct Vchiq<P> {
    port: SharedPort<P>,
    base: u32,
    rx_pos: u32,
    local_tx_pos: u32,
    tx_data: u32,
    rx_data: u32,
    rx_slot: u32,
    slot_queue_available: u32,
    connected: bool,
    services: [Service; 4],
    bulk_tx: Vec<Bulk>,
    bulk_rx: Vec<Bulk>,
    stats: Stats,
    memory: SharedMemory,
}

impl<P> View for Vchiq<P> {
    type V = Link;

    closed spec fn view(&self) -> Link {
        Link {
            base: self.base,
            rx_pos: self.rx_pos,
            tx_pos: self.local_tx_pos,
            tx_data: self.tx_data,
            rx_data: self.rx_data,
            rx_slot: self.rx_slot,
            available: self.slot_queue_available,
            connected: self.connected,
            services: self.services@,
            bulk_tx: self.bulk_tx@,
            bulk_rx: self.bulk_rx@,
            stats: self.stats,
        }
    }
}

impl<P> Vchiq<P> {
    /// What has been done to shared memory.
    pub closed spec fn history(&self) -> ShmHistory {
        self.port@
    }
}

/// Finds the memory, and takes the caches off it; gives its address.
fn claim<P: SharedPlatform>(port: &mut SharedPort<P>, memory: &SharedMemory) -> (claimed: Result<
    u32,
    Error,
>)
    ensures
        claim_program().ran(old(port)@, final(port)@, claimed),
{
    let base: u32 = port.locate(memory);
    match port.set_uncached(base, SHARED_MEMORY_SIZE) {
        Ok(_) => Ok(base),
        Err(code) => Err(Error::Mmu(code)),
    }
}

impl<P: SharedPlatform> Vchiq<P> {
    /// Brings the transport up: takes the caches off `memory`, fills slot zero
    /// in, hands it to the firmware, and waits for the firmware to take it. If that
    /// fails, the platform is given back.
    pub fn new(memory: SharedMemory, port: SharedPort<P>) -> (result: Result<
        Self,
        (Error, SharedPort<P>),
    >)
        ensures
            match result {
                Ok(vchiq) => {
                    &&& vchiq@.wf()
                    &&& new_program().ran(port@, vchiq.history(), Ok(vchiq@))
                },
                Err((error, failed)) => new_program().ran(port@, failed@, Err(error)),
            },
    {
        let ghost start = port@;
        let mut port = port;
        proof {
            crate::program::begin(start, new_program());
        }
        let base: u32 = match claim(&mut port, &memory) {
            Ok(base) => base,
            Err(error) => {
                return Err((error, port));
            },
        };

        let mut vchiq = Vchiq {
            port,
            base,
            rx_pos: 0,
            local_tx_pos: 0,
            tx_data: 0,
            rx_data: 0,
            rx_slot: 0,
            slot_queue_available: 0,
            connected: false,
            services: [Service { state: ServiceState::Free, remote_port: 0 };4],
            bulk_tx: Vec::new(),
            bulk_rx: Vec::new(),
            stats: Stats::default(),
            memory,
        };
        assert(vchiq@ =~= Link::fresh(base));

        vchiq.init_slot_zero();
        vchiq.port.barrier();
        match vchiq.hand_over() {
            Ok(()) => Ok(vchiq),
            Err(error) => Err((error, vchiq.port)),
        }
    }

    /// Hands the prepared memory to the firmware, and waits for it to take it.
    fn hand_over(&mut self) -> (result: Result<(), Error>)
        requires
            old(self)@.wf(),
        ensures
            final(self)@ == old(self)@,
            hand_over_program(old(self)@).ran(
                old(self).history(),
                final(self).history(),
                match result {
                    Ok(()) => Ok(old(self)@),
                    Err(error) => Err(error),
                },
            ),
    {
        let ghost link = self@;
        proof {
            crate::program::begin(self.history(), hand_over_program(link));
        }
        match self.port.hand_over(to_bus(self.base)) {
            Err(code) => {
                return Err(Error::Mailbox(code));
            },
            Ok(word) => {
                if word != 0 {
                    return Err(Error::SlotsRejected(word));
                }
            },
        }

        let deadline: u64 = self.port.now().wrapping_add(HANDSHAKE_US);
        let mut spins: u64 = MAX_SPINS;
        loop
            invariant
                self@ == link,
                link == old(self)@,
                link.wf(),
                hand_over_program(link).leads(
                    old(self).history(),
                    self.history(),
                    await_firmware(link, deadline, spins as nat),
                ),
            decreases spins,
        {
            let ready: u32 = self.port.read(self.remote(INITIALISED));
            if ready != 0 {
                return Ok(());
            }
            let now: u64 = self.port.now();
            if now > deadline || spins == 0 {
                return Err(Error::FirmwareNotReady);
            }
            spins = spins - 1;
        }
    }

    /// Completes the handshake, after which services can be opened.
    pub fn connect(&mut self) -> (result: Result<(), Error>)
        requires
            old(self)@.wf(),
        ensures
            final(self)@.wf(),
            connect_program(old(self)@).ran(
                old(self).history(),
                final(self).history(),
                (final(self)@, result),
            ),
    {
        proof {
            crate::program::begin(self.history(), connect_program(self@));
        }
        match self.queue_bare(make_id(MSG_CONNECT, 0, 0)) {
            Ok(()) => {},
            Err(error) => return Err(error),
        }
        let deadline: u64 = self.port.now().wrapping_add(HANDSHAKE_US);
        let mut spins: u64 = MAX_SPINS;
        loop
            invariant
                self@.wf(),
                connect_program(old(self)@).leads(
                    old(self).history(),
                    self.history(),
                    await_connection(self@, deadline, spins as nat),
                ),
            decreases spins,
        {
            if self.connected {
                return Ok(());
            }
            let mut scratch: [u8; 0] = [];
            match self.poll(&mut scratch) {
                Ok(_) => {},
                Err(error) => return Err(error),
            }
            let now: u64 = self.port.now();
            if now > deadline || spins == 0 {
                return Err(Error::Timeout);
            }
            spins = spins - 1;
        }
    }

    /// Opens the service named `fourcc`, on the lowest free port.
    pub fn open_service(&mut self, fourcc: [u8; 4], version: u16, version_min: u16) -> (result:
        Result<ServiceId, Error>)
        requires
            old(self)@.wf(),
        ensures
            final(self)@.wf(),
            result matches Ok(service) ==> service.wf(),
            if !old(self)@.connected {
                &&& result == Err::<ServiceId, Error>(Error::NotConnected)
                &&& *final(self) == *old(self)
            } else if forall|port: int|
                0 <= port < MAX_SERVICES ==> #[trigger] old(self)@.services[port].state
                    != ServiceState::Free {
                &&& result == Err::<ServiceId, Error>(Error::TooManyServices)
                &&& *final(self) == *old(self)
            } else {
                exists|port: u16|
                    {
                        &&& lowest_free(old(self)@.services, port as int)
                        &&& #[trigger] open_program(
                            old(self)@,
                            port,
                            fourcc@,
                            version,
                            version_min,
                        ).ran(old(self).history(), final(self).history(), (final(self)@, result))
                    }
            },
    {
        if !self.connected {
            return Err(Error::NotConnected);
        }

        let mut port: usize = 0;
        while port < MAX_SERVICES && self.services[port].state != ServiceState::Free
            invariant
                *self == *old(self),
                port <= MAX_SERVICES,
                self@.services.len() == MAX_SERVICES,
                forall|lower: int|
                    0 <= lower < port ==> #[trigger] self@.services[lower].state
                        != ServiceState::Free,
            decreases MAX_SERVICES - port,
        {
            port = port + 1;
        }
        if port == MAX_SERVICES {
            return Err(Error::TooManyServices);
        }
        let index: u16 = port as u16;
        assert(lowest_free(self@.services, index as int));
        assert(old(self)@.services[index as int].state == ServiceState::Free);
        self.open_on(index, fourcc, version, version_min)
    }

    fn open_on(&mut self, index: u16, fourcc: [u8; 4], version: u16, version_min: u16) -> (result:
        Result<ServiceId, Error>)
        requires
            old(self)@.wf(),
            index < MAX_SERVICES,
        ensures
            final(self)@.wf(),
            result matches Ok(service) ==> service.wf(),
            open_program(old(self)@, index, fourcc@, version, version_min).ran(
                old(self).history(),
                final(self).history(),
                (final(self)@, result),
            ),
    {
        let port: usize = index as usize;
        proof {
            crate::program::begin(
                self.history(),
                open_program(self@, index, fourcc@, version, version_min),
            );
        }
        let opening = Service { state: ServiceState::Opening, remote_port: 0 };
        self.services[port] = opening;

        let payload: [u8; 12] = [
            fourcc[3],
            fourcc[2],
            fourcc[1],
            fourcc[0],
            1,
            0,
            0,
            0,
            (version % 256) as u8,
            (version / 256) as u8,
            (version_min % 256) as u8,
            (version_min / 256) as u8,
        ];
        assert(payload@ =~= open_payload(fourcc@, version, version_min));
        match self.queue_message(make_id(MSG_OPEN, port as u32, 0), payload.as_slice()) {
            Ok(()) => {},
            Err(error) => {
                self.set_state(port, ServiceState::Free);
                return Err(error);
            },
        }

        let deadline: u64 = self.port.now().wrapping_add(HANDSHAKE_US);
        let mut spins: u64 = MAX_SPINS;
        loop
            invariant
                self@.wf(),
                port == index,
                port < MAX_SERVICES,
                open_program(old(self)@, index, fourcc@, version, version_min).leads(
                    old(self).history(),
                    self.history(),
                    await_service(self@, index, deadline, spins as nat),
                ),
            decreases spins,
        {
            let service: Service = self.services[port];
            match service.state {
                ServiceState::Open => {
                    proof {
                        ServiceId::lemma_at(index);
                    }
                    return Ok(ServiceId(index));
                },
                ServiceState::Closed => {
                    self.set_state(port, ServiceState::Free);
                    return Err(Error::ServiceRefused);
                },
                _ => {},
            }
            let mut scratch: [u8; 0] = [];
            match self.poll(&mut scratch) {
                Ok(_) => {},
                Err(error) => {
                    self.set_state(port, ServiceState::Free);
                    return Err(error);
                },
            }
            let now: u64 = self.port.now();
            if now > deadline || spins == 0 {
                self.set_state(port, ServiceState::Free);
                return Err(Error::Timeout);
            }
            spins = spins - 1;
        }
    }

    fn set_state(&mut self, port: usize, state: ServiceState)
        requires
            old(self)@.wf(),
            port < MAX_SERVICES,
        ensures
            final(self)@ == in_state(old(self)@, port as int, state),
            final(self)@.wf(),
            final(self).history() == old(self).history(),
    {
        let service: Service = self.services[port];
        self.services[port] = Service { state, remote_port: service.remote_port };
    }

    /// Closes a service. The firmware's answer comes as
    /// [`Event::ServiceClosed`]; with it the service's port is free again.
    pub fn close_service(&mut self, service: ServiceId) -> (result: Result<(), Error>)
        requires
            old(self)@.wf(),
            service.wf(),
        ensures
            final(self)@.wf(),
            close_program(old(self)@, service.port()).ran(
                old(self).history(),
                final(self).history(),
                (final(self)@, result),
            ),
    {
        let port: usize = service.0 as usize;
        let remote: u16 = self.services[port].remote_port;
        if self.services[port].state != ServiceState::Free {
            self.set_state(port, ServiceState::Closed);
        }
        self.queue_bare(make_id(MSG_CLOSE, port as u32, remote as u32))
    }

    /// Sends a message to an open service. [`Error::OutOfSlots`] means that the
    /// firmware has not read enough yet: poll, and try again.
    pub fn send(&mut self, service: ServiceId, data: &[u8]) -> (result: Result<(), Error>)
        requires
            old(self)@.wf(),
            service.wf(),
        ensures
            final(self)@.wf(),
            if old(self)@.services[service.port() as int].state != ServiceState::Open {
                result == Err::<(), Error>(Error::NotConnected) && *final(self) == *old(self)
            } else if data@.len() > MAX_MESSAGE_SIZE {
                result == Err::<(), Error>(Error::MessageTooLong) && *final(self) == *old(self)
            } else {
                send_program(
                    old(self)@,
                    message_id(
                        MSG_DATA,
                        service.port() as u32,
                        old(self)@.services[service.port() as int].remote_port as u32,
                    ),
                    data@,
                ).ran(old(self).history(), final(self).history(), (final(self)@, result))
            },
    {
        let port: usize = service.0 as usize;
        if self.services[port].state != ServiceState::Open {
            return Err(Error::NotConnected);
        }
        if data.len() > MAX_MESSAGE_SIZE {
            return Err(Error::MessageTooLong);
        }
        let remote: u16 = self.services[port].remote_port;
        self.queue_message(make_id(MSG_DATA, port as u32, remote as u32), data)
    }

    /// Asks the firmware to read `len` bytes at `address`; this side must not
    /// write them until [`Event::BulkTransmitDone`] comes with `context`.
    pub fn bulk_transmit(&mut self, service: ServiceId, address: u32, len: usize, context: u32) -> (
    result: Result<(), Error>)
        requires
            old(self)@.wf(),
            service.wf(),
            can_transfer(old(self)@, service.port(), false) ==> 1 <= len + address % PAGE_SIZE
                <= u32::MAX,
        ensures
            final(self)@.wf(),
            memory::act(
                Op::Clean(address, len),
                bulk_program(
                    old(self)@,
                    service.port(),
                    Bulk { address, len, context, list: next_list(old(self)@.bulk_tx) },
                    false,
                ),
            ).ran(old(self).history(), final(self).history(), (final(self)@, result)),
    {
        self.port.clean(address, len);
        self.queue_bulk(service, address, len, context, false)
    }

    /// Asks the firmware to write `len` bytes at `address`; this side must not
    /// touch them until [`Event::BulkReceiveDone`] comes with `context`.
    pub fn bulk_receive(&mut self, service: ServiceId, address: u32, len: usize, context: u32) -> (
    result: Result<(), Error>)
        requires
            old(self)@.wf(),
            service.wf(),
            can_transfer(old(self)@, service.port(), true) ==> 1 <= len + address % PAGE_SIZE
                <= u32::MAX,
        ensures
            final(self)@.wf(),
            memory::act(
                Op::CleanInvalidate(address, len),
                bulk_program(
                    old(self)@,
                    service.port(),
                    Bulk { address, len, context, list: next_list(old(self)@.bulk_rx) },
                    true,
                ),
            ).ran(old(self).history(), final(self).history(), (final(self)@, result)),
    {
        self.port.clean_invalidate(address, len);
        self.queue_bulk(service, address, len, context, true)
    }

    /// Reads the firmware's messages, and gives the first thing that needs the
    /// caller. The data of a message goes to the front of `buffer`, as much as
    /// fits.
    pub fn poll(&mut self, buffer: &mut [u8]) -> (result: Result<Option<Event>, Error>)
        requires
            old(self)@.wf(),
        ensures
            final(self)@.wf(),
            poll_program(old(self)@, old(buffer)@.len() as usize).ran(
                old(self).history(),
                final(self).history(),
                (final(self)@, copied(result, final(buffer)@), result),
            ),
            untouched(result, old(buffer)@, final(buffer)@),
    {
        let room: usize = buffer.len();
        proof {
            crate::program::begin(self.history(), poll_program(self@, room));
        }
        let recycle: u32 = self.port.read(self.local(SLOT_QUEUE_RECYCLE));
        self.slot_queue_available = recycle;

        let mut spins: u64 = MAX_SPINS;
        loop
            invariant
                self@.wf(),
                room == buffer@.len(),
                buffer@ == old(buffer)@,
                poll_program(old(self)@, room).leads(
                    old(self).history(),
                    self.history(),
                    listen_program(self@, room, spins as nat),
                ),
            decreases spins,
        {
            let tx_pos: u32 = self.port.read(self.remote(TX_POS));
            if self.rx_pos == tx_pos || spins == 0 {
                return Ok(None);
            }

            match self.take_message(buffer) {
                Ok(None) => {
                    assert(buffer@ =~= buffer@.skip(0));
                    assert(old(buffer)@ =~= old(buffer)@.skip(0));
                },
                result => {
                    return result;
                },
            }
            spins = spins - 1;
        }
    }

    /// What has crossed the transport since it was brought up.
    pub fn stats(&self) -> (stats: Stats)
        ensures
            stats == self@.stats,
    {
        self.stats
    }

    fn take_message(&mut self, buffer: &mut [u8]) -> (result: Result<Option<Event>, Error>)
        requires
            old(self)@.wf(),
        ensures
            final(self)@.wf(),
            message_program(old(self)@, old(buffer)@.len() as usize).ran(
                old(self).history(),
                final(self).history(),
                (final(self)@, copied(result, final(buffer)@), result),
            ),
            untouched(result, old(buffer)@, final(buffer)@),
    {
        self.enter_slot();
        let header: u32 = self.rx_data.wrapping_add(self.rx_pos % SLOT_SIZE);
        let id: u32 = self.port.read(header);
        let size: u32 = self.port.read(header.wrapping_add(4));
        let result = self.parse(id, size, header.wrapping_add(HEADER_SIZE), buffer);
        if result.is_ok() {
            self.advance(size);
        }
        result
    }

    fn enter_slot(&mut self)
        requires
            old(self)@.wf(),
        ensures
            final(self)@.wf(),
            enter_program(old(self)@).ran(
                old(self).history(),
                final(self).history(),
                final(self)@,
            ),
    {
        if self.rx_data == 0 {
            let queue_index: u32 = (self.rx_pos / SLOT_SIZE) % MAX_SLOTS_PER_SIDE;
            let slot: u32 = self.port.read(self.remote(SLOT_QUEUE + queue_index * 4));
            self.rx_slot = slot;
            self.rx_data = address_of_slot(self.base, slot);
            self.port.write(
                self.base.wrapping_add(SLOTS_OFFSET).wrapping_add(slot.wrapping_mul(4)),
                1,
            );
        }
    }

    fn advance(&mut self, size: u32)
        requires
            old(self)@.wf(),
        ensures
            final(self)@.wf(),
            advance_program(old(self)@, size).ran(
                old(self).history(),
                final(self).history(),
                final(self)@,
            ),
    {
        self.rx_pos = self.rx_pos.wrapping_add(stride(size));
        if self.rx_pos % SLOT_SIZE == 0 {
            self.release_slot(self.rx_slot);
            self.rx_data = 0;
        }
    }

    fn parse(&mut self, id: u32, size: u32, data: u32, buffer: &mut [u8]) -> (result: Result<
        Option<Event>,
        Error,
    >)
        requires
            old(self)@.wf(),
        ensures
            final(self)@.wf(),
            parse_program(old(self)@, id, size, data, old(buffer)@.len() as usize).ran(
                old(self).history(),
                final(self).history(),
                (final(self)@, copied(result, final(buffer)@), result),
            ),
            untouched(result, old(buffer)@, final(buffer)@),
            result matches Ok(None) ==> final(buffer)@ == old(buffer)@,
    {
        let room: usize = buffer.len();
        let kind: u32 = id >> 24;
        let source: u16 = ((id >> 12) & 0xFFF) as u16;
        let port: u16 = (id & 0xFFF) as u16;
        self.stats.messages_received = self.stats.messages_received.wrapping_add(1);
        assert(self@ =~= received(old(self)@));

        if kind == MSG_CONNECT {
            self.connected = true;
            Ok(Some(Event::Connected))
        } else if kind == MSG_OPENACK {
            if port as usize >= MAX_SERVICES {
                return Ok(None);
            }
            if self.services[port as usize].state != ServiceState::Opening {
                return Ok(None);
            }
            self.services[port as usize] =
            Service { state: ServiceState::Open, remote_port: source };
            Ok(Some(Event::ServiceOpened(ServiceId(port))))
        } else if kind == MSG_CLOSE {
            if port as usize >= MAX_SERVICES {
                return Ok(None);
            }
            let state: ServiceState = self.services[port as usize].state;
            if state == ServiceState::Open {
                self.set_state(port as usize, ServiceState::Closed);
                match self.queue_bare(make_id(MSG_CLOSE, port as u32, source as u32)) {
                    Ok(()) => {},
                    Err(error) => return Err(error),
                }
                self.set_state(port as usize, ServiceState::Free);
            } else if state == ServiceState::Opening {
                self.set_state(port as usize, ServiceState::Closed);
            } else {
                self.set_state(port as usize, ServiceState::Free);
            }
            Ok(Some(Event::ServiceClosed(ServiceId(port))))
        } else if kind == MSG_DATA {
            if port as usize >= MAX_SERVICES {
                return Ok(None);
            }
            if self.services[port as usize].state != ServiceState::Open {
                return Ok(None);
            }
            let count: usize = self.copy_out(data, size, buffer);
            self.stats.data_received = self.stats.data_received.wrapping_add(1);
            let event = Event::Message { service: ServiceId(port), len: size as usize };
            assert(buffer@.take(count as int) =~= copied(Ok(Some(event)), buffer@));
            Ok(Some(event))
        } else if kind == MSG_BULK_TX_DONE || kind == MSG_BULK_RX_DONE {
            self.complete(kind == MSG_BULK_RX_DONE, data)
        } else if kind == MSG_BULK_TX || kind == MSG_BULK_RX {
            Err(Error::Protocol)
        } else {
            self.stats.messages_skipped = self.stats.messages_skipped.wrapping_add(1);
            self.stats.last_skipped_type = kind;
            Ok(None)
        }
    }

    fn copy_out(&mut self, data: u32, size: u32, buffer: &mut [u8]) -> (count: usize)
        ensures
            final(self)@ == old(self)@,
            count == (if size as usize <= old(buffer)@.len() {
                size as int
            } else {
                old(buffer)@.len() as int
            }),
            final(buffer)@.len() == old(buffer)@.len(),
            final(buffer)@.skip(count as int) == old(buffer)@.skip(count as int),
            copy_program(data, count as nat, Seq::empty()).ran(
                old(self).history(),
                final(self).history(),
                final(buffer)@.take(count as int),
            ),
    {
        let count: usize = if size as usize <= buffer.len() {
            size as usize
        } else {
            buffer.len()
        };
        let ghost program = copy_program(data, count as nat, Seq::empty());
        proof {
            crate::program::begin(self.history(), program);
        }
        let mut at: usize = 0;
        assert(buffer@.take(0) =~= Seq::<u8>::empty());
        while at < count
            invariant
                at <= count <= buffer@.len(),
                count <= u32::MAX,
                buffer@.len() == old(buffer)@.len(),
                self@ == old(self)@,
                buffer@.skip(at as int) == old(buffer)@.skip(at as int),
                program == copy_program(data, count as nat, Seq::empty()),
                program.leads(
                    old(self).history(),
                    self.history(),
                    copy_program(data, count as nat, buffer@.take(at as int)),
                ),
            decreases count - at,
        {
            let ghost taken = buffer@.take(at as int);
            let byte: u8 = self.port.read_byte(data.wrapping_add(at as u32));
            let ghost before = buffer@;
            buffer[at] = byte;
            at = at + 1;
            proof {
                assert(buffer@.take(at as int) =~= taken.push(byte));
                assert forall|i: int| at <= i < buffer@.len() implies buffer@[i] == old(
                    buffer,
                )@[i] by {
                    assert(before.skip(at - 1)[i - at + 1] == old(buffer)@.skip(at - 1)[i - at + 1]);
                }
                assert(buffer@.skip(at as int) =~= old(buffer)@.skip(at as int));
            }
        }
        count
    }

    fn complete(&mut self, receive: bool, data: u32) -> (result: Result<Option<Event>, Error>)
        requires
            old(self)@.wf(),
        ensures
            final(self)@.wf(),
            result matches Ok(event) ==> event is Some && event->0 !is Message,
            completion_program(old(self)@, receive, data).ran(
                old(self).history(),
                final(self).history(),
                (final(self)@, Seq::empty(), result),
            ),
    {
        if receive {
            if self.bulk_rx.len() == 0 {
                return Err(Error::Protocol);
            }
            let bulk: Bulk = self.bulk_rx.remove(0);
            assert(self.bulk_rx@ =~= old(self).bulk_rx@.skip(1));
            let word: u32 = self.port.read(data);
            let actual: usize = if word >= 0x8000_0000 {
                0
            } else {
                word as usize
            };
            self.stats.bulk_receives_done = self.stats.bulk_receives_done.wrapping_add(1);
            self.port.invalidate(bulk.address, bulk.len);
            Ok(Some(Event::BulkReceiveDone { context: bulk.context, actual }))
        } else {
            if self.bulk_tx.len() == 0 {
                return Err(Error::Protocol);
            }
            let bulk: Bulk = self.bulk_tx.remove(0);
            assert(self.bulk_tx@ =~= old(self).bulk_tx@.skip(1));
            let word: u32 = self.port.read(data);
            let actual: usize = if word >= 0x8000_0000 {
                0
            } else {
                word as usize
            };
            self.stats.bulk_transmits_done = self.stats.bulk_transmits_done.wrapping_add(1);
            Ok(Some(Event::BulkTransmitDone { context: bulk.context, actual }))
        }
    }

    fn has_list(flight: &Vec<Bulk>, list: u32) -> (used: bool)
        ensures
            used == in_use(flight@, list),
    {
        let mut at: usize = 0;
        while at < flight.len()
            invariant
                at <= flight@.len(),
                forall|i: int| 0 <= i < at ==> (#[trigger] flight@[i]).list != list,
            decreases flight@.len() - at,
        {
            if flight[at].list == list {
                assert(flight@[at as int].list == list);
                return true;
            }
            at = at + 1;
        }
        false
    }

    fn free_list(flight: &Vec<Bulk>) -> (list: u32)
        requires
            apart(flight@),
            flight@.len() < MAX_BULKS,
        ensures
            list == next_list(flight@),
            list < MAX_BULKS,
    {
        let place: u32 = flight.len() as u32;
        if !Self::has_list(flight, place) {
            return place;
        }
        proof {
            law_page_lists(flight@, flight@[0]);
        }
        let mut list: u32 = 0;
        while Self::has_list(flight, list)
            invariant
                list <= lowest_list(flight@, 0) < MAX_BULKS,
                lowest_list(flight@, list) == lowest_list(flight@, 0),
            decreases MAX_BULKS - list,
        {
            proof {
                lemma_lowest_list(flight@, list);
            }
            list = list + 1;
        }
        list
    }

    fn queue_bulk(
        &mut self,
        service: ServiceId,
        address: u32,
        len: usize,
        context: u32,
        receive: bool,
    ) -> (result: Result<(), Error>)
        requires
            old(self)@.wf(),
            service.wf(),
            can_transfer(old(self)@, service.port(), receive) ==> 1 <= len + address % PAGE_SIZE
                <= u32::MAX,
        ensures
            final(self)@.wf(),
            bulk_program(
                old(self)@,
                service.port(),
                Bulk {
                    address,
                    len,
                    context,
                    list: next_list(flight(old(self)@, receive)),
                },
                receive,
            ).ran(old(self).history(), final(self).history(), (final(self)@, result)),
    {
        let port: usize = service.0 as usize;
        if self.services[port].state != ServiceState::Open {
            return Err(Error::NotConnected);
        }

        let index: usize = if receive {
            self.bulk_rx.len()
        } else {
            self.bulk_tx.len()
        };
        if index >= MAX_BULKS {
            return Err(Error::TooManyBulks { receive });
        }
        let free: u32 = if receive {
            Self::free_list(&self.bulk_rx)
        } else {
            Self::free_list(&self.bulk_tx)
        };
        let bulk = Bulk { address, len, context, list: free };
        proof {
            law_page_lists(self.bulk_rx@, bulk);
            law_page_lists(self.bulk_tx@, bulk);
        }

        let list_index: u32 = if receive {
            4 + free
        } else {
            free
        };
        let list: u32 = self.base.wrapping_add(PAGELISTS_OFFSET + list_index * PAGELIST_SIZE);

        let offset: u32 = address % PAGE_SIZE;
        let pages: u32 = (len as u32 + offset - 1) / PAGE_SIZE + 1;
        assert(pages == pages_of(address, len));
        let kind: u32 = if receive {
            PAGELIST_READ
        } else {
            PAGELIST_WRITE
        };
        self.port.write(list, len as u32);
        self.port.write(list.wrapping_add(4), kind + offset * 65536);
        self.port.write(list.wrapping_add(8), to_bus(address - offset) | (pages - 1));

        let remote: u16 = self.services[port].remote_port;
        let message: u32 = if receive {
            MSG_BULK_RX
        } else {
            MSG_BULK_TX
        };
        let bus: u32 = to_bus(list);
        let size: u32 = len as u32;
        let payload: [u8; 8] = [
            (bus % 256) as u8,
            (bus / 256 % 256) as u8,
            (bus / 65536 % 256) as u8,
            (bus / 16777216) as u8,
            (size % 256) as u8,
            (size / 256 % 256) as u8,
            (size / 65536 % 256) as u8,
            (size / 16777216) as u8,
        ];
        assert(payload@ =~= bytes::le32_bytes(bus) + bytes::le32_bytes(size));
        match self.queue_message(make_id(message, port as u32, remote as u32), payload.as_slice()) {
            Err(error) => return Err(error),
            Ok(()) => {},
        }
        if receive {
            self.bulk_rx.push(bulk);
            self.stats.bulk_receives = self.stats.bulk_receives.wrapping_add(1);
        } else {
            self.bulk_tx.push(bulk);
            self.stats.bulk_transmits = self.stats.bulk_transmits.wrapping_add(1);
        }
        Ok(())
    }

    fn queue_message(&mut self, id: u32, data: &[u8]) -> (result: Result<(), Error>)
        requires
            old(self)@.wf(),
            data@.len() <= MAX_MESSAGE_SIZE,
        ensures
            final(self)@.wf(),
            send_program(old(self)@, id, data@).ran(
                old(self).history(),
                final(self).history(),
                (final(self)@, result),
            ),
            final(self)@.bulk_tx == old(self)@.bulk_tx,
            final(self)@.bulk_rx == old(self)@.bulk_rx,
    {
        let space: u32 = stride(data.len() as u32);
        let header: u32 = match self.reserve_space(space) {
            Ok(header) => header,
            Err(error) => return Err(error),
        };
        self.write_payload(header.wrapping_add(HEADER_SIZE), data);
        self.port.write(header, id);
        self.port.write(header.wrapping_add(4), data.len() as u32);

        self.port.barrier();
        self.port.write(self.local(TX_POS), self.local_tx_pos);
        self.port.barrier();

        self.signal_remote(TRIGGER);
        self.stats.messages_sent = self.stats.messages_sent.wrapping_add(1);
        Ok(())
    }

    fn queue_bare(&mut self, id: u32) -> (result: Result<(), Error>)
        requires
            old(self)@.wf(),
        ensures
            final(self)@.wf(),
            send_program(old(self)@, id, Seq::empty()).ran(
                old(self).history(),
                final(self).history(),
                (final(self)@, result),
            ),
    {
        let nothing: [u8; 0] = [];
        assert(nothing@ =~= Seq::<u8>::empty());
        self.queue_message(id, nothing.as_slice())
    }

    fn write_payload(&mut self, address: u32, data: &[u8])
        requires
            data@.len() <= MAX_MESSAGE_SIZE,
        ensures
            final(self)@ == old(self)@,
            payload_program(address, data@, 0).ran(
                old(self).history(),
                final(self).history(),
                (),
            ),
    {
        proof {
            crate::program::begin(self.history(), payload_program(address, data@, 0));
        }
        let mut at: usize = 0;
        while at < data.len()
            invariant
                at <= data@.len() <= MAX_MESSAGE_SIZE,
                self@ == old(self)@,
                payload_program(address, data@, 0).leads(
                    old(self).history(),
                    self.history(),
                    payload_program(address, data@, at as int),
                ),
            decreases data@.len() - at,
        {
            let byte: u8 = data[at];
            self.port.write_byte(address.wrapping_add(at as u32), byte);
            at = at + 1;
        }
    }

    #[verifier::rlimit(60)]
    #[verifier::spinoff_prover]
    fn reserve_space(&mut self, space: u32) -> (result: Result<u32, Error>)
        requires
            old(self)@.wf(),
            space % 8 == 0,
            space <= SLOT_SIZE,
        ensures
            final(self)@.wf(),
            reserve_program(old(self)@, space).ran(
                old(self).history(),
                final(self).history(),
                (final(self)@, result),
            ),
            final(self)@.bulk_tx == old(self)@.bulk_tx,
            final(self)@.bulk_rx == old(self)@.bulk_rx,
    {
        let mut tx_pos: u32 = self.local_tx_pos;
        let left: u32 = SLOT_SIZE - tx_pos % SLOT_SIZE;
        proof {
            lemma_aligned(tx_pos, left);
            lemma_aligned(tx_pos, space);
            lemma_aligned(tx_pos.wrapping_add(left), space);
        }

        if space > left {
            let header: u32 = self.tx_data.wrapping_add(tx_pos % SLOT_SIZE);
            self.port.write(header, make_id(MSG_PADDING, 0, 0));
            self.port.write(header.wrapping_add(4), left - HEADER_SIZE);
            tx_pos = tx_pos.wrapping_add(left);
        }

        if tx_pos % SLOT_SIZE == 0 {
            if tx_pos / SLOT_SIZE == self.slot_queue_available {
                self.port.write(self.local(TX_POS), self.local_tx_pos);
                self.port.barrier();
                self.signal_remote(TRIGGER);
                return Err(Error::OutOfSlots);
            }
            let queue_index: u32 = (tx_pos / SLOT_SIZE) % MAX_SLOTS_PER_SIDE;
            let slot: u32 = self.port.read(self.local(SLOT_QUEUE + queue_index * 4));
            self.tx_data = address_of_slot(self.base, slot);
            self.local_tx_pos = tx_pos.wrapping_add(space);
            return Ok(self.tx_data);
        }

        self.local_tx_pos = tx_pos.wrapping_add(space);
        Ok(self.tx_data.wrapping_add(tx_pos % SLOT_SIZE))
    }

    fn release_slot(&mut self, slot: u32)
        requires
            old(self)@.wf(),
        ensures
            final(self)@.wf(),
            release_program(old(self)@, slot).ran(
                old(self).history(),
                final(self).history(),
                final(self)@,
            ),
    {
        let info: u32 = self.base.wrapping_add(SLOTS_OFFSET).wrapping_add(slot.wrapping_mul(4));
        let use_count: u16 = self.port.read_half(info);
        let release_count: u16 = self.port.read_half(info.wrapping_add(2)).wrapping_add(1);
        self.port.write_half(info.wrapping_add(2), release_count);
        if release_count != use_count {
            return;
        }

        let recycle: u32 = self.port.read(self.remote(SLOT_QUEUE_RECYCLE));
        self.port.write(self.remote(SLOT_QUEUE + recycle % MAX_SLOTS_PER_SIDE * 4), slot);
        self.port.write(self.remote(SLOT_QUEUE_RECYCLE), recycle.wrapping_add(1));
        self.port.barrier();
        self.signal_remote(RECYCLE);
        self.stats.slots_recycled = self.stats.slots_recycled.wrapping_add(1);
    }

    fn signal_remote(&mut self, event: u32)
        requires
            event <= 1000,
        ensures
            final(self)@ == old(self)@,
            signal_program(old(self)@, event).ran(
                old(self).history(),
                final(self).history(),
                (),
            ),
    {
        self.port.write(self.remote(event + FIRED), 1);
        self.port.barrier();
        if self.port.read(self.remote(event + ARMED)) != 0 {
            self.port.ring_doorbell();
        }
    }

    fn init_slot_zero(&mut self)
        requires
            old(self)@.wf(),
            old(self)@.available == 0,
        ensures
            final(self)@ == (Link { available: 31, ..old(self)@ }),
            init_program(old(self)@).ran(old(self).history(), final(self).history(), ()),
    {
        self.clear_slot_zero();
        self.write_header();
        self.divide_slots();
        self.queue_slots();
        self.port.write(self.local(SLOT_QUEUE_RECYCLE), self.slot_queue_available);
        self.port.write(
            self.base.wrapping_add(SLAVE_SYNC * SLOT_SIZE),
            make_id(MSG_PADDING, 0, 0),
        );
        self.port.write(self.local(SYNC_RELEASE + FIRED), 1);
        self.port.barrier();
        self.port.write(self.local(INITIALISED), 1);
    }

    fn clear_slot_zero(&mut self)
        ensures
            final(self)@ == old(self)@,
            clear_program(old(self)@.base, 0).ran(old(self).history(), final(self).history(), ()),
    {
        proof {
            crate::program::begin(self.history(), clear_program(self@.base, 0));
        }
        let mut word: u32 = 0;
        while word < SLOT_ZERO_SIZE / 4
            invariant
                word <= SLOT_ZERO_SIZE / 4,
                self@ == old(self)@,
                clear_program(old(self)@.base, 0).leads(
                    old(self).history(),
                    self.history(),
                    clear_program(self@.base, word),
                ),
            decreases SLOT_ZERO_SIZE / 4 - word,
        {
            self.port.write(self.base.wrapping_add(word * 4), 0);
            word = word + 1;
        }
    }

    fn write_header(&mut self)
        ensures
            final(self)@ == old(self)@,
            header_program(old(self)@.base).ran(old(self).history(), final(self).history(), ()),
    {
        self.port.write(self.base, MAGIC);
        self.port.write(self.base.wrapping_add(4), VERSION_WORD);
        self.port.write(self.base.wrapping_add(8), SLOT_ZERO_SIZE);
        self.port.write(self.base.wrapping_add(12), SLOT_SIZE);
        self.port.write(self.base.wrapping_add(16), MAX_SLOTS);
        self.port.write(self.base.wrapping_add(20), MAX_SLOTS_PER_SIDE);
        self.port.write(
            self.base.wrapping_add(24),
            to_bus(self.base.wrapping_add(FRAGMENTS_OFFSET)),
        );
        self.port.write(self.base.wrapping_add(28), MAX_FRAGMENTS);
    }

    fn divide_slots(&mut self)
        ensures
            final(self)@ == old(self)@,
            division_program(old(self)@).ran(old(self).history(), final(self).history(), ()),
    {
        self.port.write(self.remote(SLOT_SYNC), 1);
        self.port.write(self.remote(SLOT_FIRST), 2);
        self.port.write(self.remote(SLOT_LAST), 32);
        self.port.write(self.local(SLOT_SYNC), SLAVE_SYNC);
        self.port.write(self.local(SLOT_FIRST), SLAVE_SYNC + 1);
        self.port.write(self.local(SLOT_LAST), SLAVE_LAST);
    }

    fn queue_slots(&mut self)
        requires
            old(self)@.available == 0,
        ensures
            final(self)@ == (Link { available: 31, ..old(self)@ }),
            queue_program(old(self)@, 34).ran(old(self).history(), final(self).history(), ()),
    {
        proof {
            crate::program::begin(self.history(), queue_program(self@, 34));
        }
        let mut slot: u32 = SLAVE_SYNC + 1;
        while slot <= SLAVE_LAST
            invariant
                34 <= slot <= 65,
                self@ == (Link { available: (slot - 34) as u32, ..old(self)@ }),
                queue_program(old(self)@, 34).leads(
                    old(self).history(),
                    self.history(),
                    queue_program(old(self)@, slot),
                ),
            decreases 65 - slot,
        {
            self.port.write(self.local(SLOT_QUEUE + (slot - 34) * 4), slot);
            self.slot_queue_available = self.slot_queue_available + 1;
            slot = slot + 1;
        }
    }

    fn local(&self, field: u32) -> (address: u32)
        requires
            field <= 2000,
        ensures
            address == self@.local(field),
    {
        reveal(block_field);
        self.base.wrapping_add(SLAVE_OFFSET + field)
    }

    fn remote(&self, field: u32) -> (address: u32)
        requires
            field <= 2000,
        ensures
            address == self@.remote(field),
    {
        reveal(block_field);
        self.base.wrapping_add(MASTER_OFFSET + field)
    }
}

} // verus!

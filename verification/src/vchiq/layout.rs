//! What the words that pass between the two sides mean, read as the firmware reads them.

use vstd::prelude::*;

use crate::bytes;
use crate::program::Program;
use crate::vchiq;
use crate::vchiq::memory::{Answer, Op, ShmProgram};
use crate::vchiq::{Bulk, Error, Event, Link, ServiceState, PAGE_SIZE};

verus! {

/// The first page that a buffer touches begins here.
pub open spec fn first_page(address: u32) -> int {
    address - address % 4096
}

/// What a page list says of a buffer, once its three words are read: its length; which way
/// the data goes, 1 if it is to be received, and how far behind the start of a page it
/// begins; and that page, as it is on the bus, with the number of further pages in the bits
/// below it. The pages reach from the buffer's first byte to its last, and no further.
pub open spec fn describes(words: Seq<u32>, address: u32, len: usize, receive: bool) -> bool {
    let pages = words[2] % 4096 + 1;
    &&& words.len() == 3
    &&& words[0] == len
    &&& words[1] % 65536 == if receive { 1int } else { 0 }
    &&& words[1] / 65536 == address % 4096
    &&& words[2] - words[2] % 4096 == 0xC000_0000 + first_page(address) % 0x4000_0000
    &&& first_page(address) + 4096 * pages >= address + len
    &&& first_page(address) + 4096 * (pages - 1) < address + len
}

/// A transfer that can be asked for is described to the firmware by its page list before
/// it is asked for: whatever is answered, the first three words that are written are those
/// of its page list, one behind the other, and what they say is where the buffer is.
pub proof fn law_page_list_covers(link: Link, port: u16, bulk: Bulk, receive: bool)
    requires
        vchiq::can_transfer(link, port, receive),
        bulk.len > 0,
        bulk.address % 4096 + bulk.len <= 4096 * 4096,
    ensures
        exists|words: Seq<u32>| #[trigger]
            describes(words, bulk.address, bulk.len, receive) && vchiq::bulk_program(
                link,
                port,
                bulk,
                receive,
            ).starts_with(
                seq![
                    Op::Write(vchiq::list_address(link.base, receive, bulk.list as int), words[0]),
                    Op::Write(
                        vchiq::list_address(link.base, receive, bulk.list as int).wrapping_add(4),
                        words[1],
                    ),
                    Op::Write(
                        vchiq::list_address(link.base, receive, bulk.list as int).wrapping_add(8),
                        words[2],
                    ),
                ],
            ),
{
    let list = vchiq::list_address(link.base, receive, bulk.list as int);
    let offset = bulk.address % PAGE_SIZE;
    let first = (bulk.address - offset) as u32;
    let pages = vchiq::pages_of(bulk.address, bulk.len);
    vchiq::law_pages_cover(bulk.address, bulk.len);
    assert(1 <= pages <= 4096);
    let more = (pages - 1) as u32;
    let bus = vchiq::bus_of(first);
    vchiq::law_bus_window(first);
    let last: u32 = bus | more;
    assert(last == bus + more && last % 4096 == more) by (bit_vector)
        requires
            bus % 4096 == 0,
            more < 4096,
            last == bus | more,
    ;
    let words = seq![
        bulk.len as u32,
        ((if receive {
            1int
        } else {
            0
        }) + offset * 65536) as u32,
        last,
    ];
    assert(describes(words, bulk.address, bulk.len, receive));
    let requests = seq![
        Op::Write(list, words[0]),
        Op::Write(list.wrapping_add(4), words[1]),
        Op::Write(list.wrapping_add(8), words[2]),
    ];
    reveal_with_fuel(Program::starts_with, 4);
    assert(requests.skip(1) =~= seq![
        Op::Write(list.wrapping_add(4), words[1]),
        Op::Write(list.wrapping_add(8), words[2]),
    ]);
    assert(requests.skip(1).skip(1) =~= seq![Op::Write(list.wrapping_add(8), words[2])]);
    assert(requests.skip(1).skip(1).skip(1).len() == 0);
}

/// The message that asks for a transfer carries the address of its page list, as it is on
/// the bus, and the length of the buffer. It is of kind 6 if the data is to be received and
/// of kind 7 if it is to be sent, and it goes from the port to the service behind it.
pub proof fn law_transfer_is_asked_for(
    link: Link,
    port: u16,
    bulk: Bulk,
    receive: bool,
    written: Seq<Answer>,
)
    requires
        vchiq::can_transfer(link, port, receive),
        link.wf(),
        port < 4,
        link.services[port as int].remote_port < 4096,
        bulk.len <= u32::MAX,
        written.len() == 3,
    ensures
        exists|id: u32, data: Seq<u8>, rest: spec_fn((Link, Result<(), Error>)) -> ShmProgram<
            (Link, Result<(), Error>),
        >|
            {
                &&& vchiq::bulk_program(link, port, bulk, receive).given(written)
                    == #[trigger] vchiq::send_program(link, id, data).bind(rest)
                &&& id == (if receive { 6int } else { 7 }) * 0x100_0000 + port * 4096
                    + link.services[port as int].remote_port
                &&& data.len() == 8
                &&& bytes::le32(data[0], data[1], data[2], data[3]) == 0xC000_0000
                    + vchiq::list_address(link.base, receive, bulk.list as int) % 0x4000_0000
                &&& bytes::le32(data[4], data[5], data[6], data[7]) == bulk.len
            },
{
    let list = vchiq::list_address(link.base, receive, bulk.list as int);
    vchiq::law_bus_window(list);
    let kind: u32 = if receive {
        6
    } else {
        7
    };
    let remote = link.services[port as int].remote_port as u32;
    let id = vchiq::message_id(kind, port as u32, remote);
    law_message_word(kind, port as u32, remote);
    let data = bytes::le32_bytes(vchiq::bus_of(list)) + bytes::le32_bytes(bulk.len as u32);
    bytes::law_le32(vchiq::bus_of(list));
    bytes::law_le32(bulk.len as u32);
    let rest = |sent: (Link, Result<(), Error>)|
        match sent.1 {
            Err(error) => Program::Return((sent.0, Err(error))),
            Ok(()) => Program::Return((vchiq::with_bulk(sent.0, bulk, receive), Ok(()))),
        };
    reveal_with_fuel(Program::given, 4);
    assert(written.skip(1).skip(1).skip(1).len() == 0);
    assert(vchiq::bulk_program(link, port, bulk, receive).given(written) == vchiq::send_program(
        link,
        id,
        data,
    ).bind(rest));
}

/// The first word of a message: its kind in the top byte, then the sender's port and the
/// receiver's in twelve bits each.
pub proof fn law_message_word(kind: u32, source: u32, destination: u32)
    requires
        kind < 256,
        source < 4096,
        destination < 4096,
    ensures
        vchiq::message_id(kind, source, destination) == kind * 0x100_0000 + source * 4096
            + destination,
{
    assert((kind << 24) | (source << 12) | destination == kind * 0x100_0000 + source * 4096
        + destination) by (bit_vector)
        requires
            kind < 256,
            source < 4096,
            destination < 4096,
    ;
}

/// What is read of the first word of a message that came in, whatever it is.
pub proof fn law_message_word_read(id: u32)
    ensures
        vchiq::kind_of(id) == id / 0x100_0000,
        vchiq::source_of(id) == id / 4096 % 4096,
        vchiq::destination_of(id) == id % 4096,
{
    assert(id >> 24 == id / 0x100_0000 && (id >> 12) & 0xFFF == id / 4096 % 4096 && id & 0xFFF
        == id % 4096) by (bit_vector);
}

/// The messages that shake hands and close a service: kind 1, from nowhere to nowhere; and
/// kind 4, from the port to the service behind it. Neither has data.
pub proof fn law_service_messages(link: Link, port: u16)
    requires
        port < 4,
        link.services.len() == 4,
        link.services[port as int].remote_port < 4096,
    ensures
        exists|rest: spec_fn((Link, Result<(), Error>)) -> ShmProgram<(Link, Result<(), Error>)>|
            vchiq::connect_program(link) == #[trigger] vchiq::send_program(
                link,
                0x100_0000,
                Seq::empty(),
            ).bind(rest),
        vchiq::close_program(link, port) == vchiq::send_program(
            vchiq::closing(link, port),
            (0x400_0000 + port * 4096 + link.services[port as int].remote_port) as u32,
            Seq::empty(),
        ),
        vchiq::closing(link, port).services[port as int].state == vchiq::ServiceState::Free
            || vchiq::closing(link, port).services[port as int].state
            == vchiq::ServiceState::Closed,
{
    law_message_word(1, 0, 0);
    law_message_word(4, port as u32, link.services[port as int].remote_port as u32);
    let rest = |asked: (Link, Result<(), Error>)|
        match asked.1 {
            Err(error) => Program::Return(asked),
            Ok(()) => crate::vchiq::memory::now(
                |start: u64|
                    vchiq::await_connection(
                        asked.0,
                        start.wrapping_add(vchiq::HANDSHAKE_US),
                        vchiq::MAX_SPINS as nat,
                    ),
            ),
        };
    assert(vchiq::connect_program(link) == vchiq::send_program(
        link,
        0x100_0000,
        Seq::empty(),
    ).bind(rest));
}

/// The message that asks for a service: kind 2, from the port that it is to have.
pub proof fn law_open_message(
    link: Link,
    port: u16,
    fourcc: Seq<u8>,
    version: u16,
    version_min: u16,
)
    requires
        port < 4,
        link.services.len() == 4,
    ensures
        exists|
            asking: Link,
            rest: spec_fn((Link, Result<(), Error>)) -> ShmProgram<
                (Link, Result<vchiq::ServiceId, Error>),
            >,
        |
            {
                &&& vchiq::open_program(link, port, fourcc, version, version_min)
                    == #[trigger] vchiq::send_program(
                    asking,
                    (0x200_0000 + port * 4096) as u32,
                    vchiq::open_payload(fourcc, version, version_min),
                ).bind(rest)
                &&& asking.services == link.services.update(
                    port as int,
                    vchiq::Service { state: vchiq::ServiceState::Opening, remote_port: 0 },
                )
                &&& asking.tx_pos == link.tx_pos
            },
{
    law_message_word(2, port as u32, 0);
    let asking = vchiq::with_service(
        link,
        port as int,
        vchiq::Service { state: vchiq::ServiceState::Opening, remote_port: 0 },
    );
    let rest = |asked: (Link, Result<(), Error>)|
        match asked.1 {
            Err(error) => Program::Return(
                (
                    vchiq::in_state(asked.0, port as int, vchiq::ServiceState::Free),
                    Err(error),
                ),
            ),
            Ok(()) => crate::vchiq::memory::now(
                |start: u64|
                    vchiq::await_service(
                        asked.0,
                        port,
                        start.wrapping_add(vchiq::HANDSHAKE_US),
                        vchiq::MAX_SPINS as nat,
                    ),
            ),
        };
    assert(vchiq::open_program(link, port, fourcc, version, version_min) == vchiq::send_program(
        asking,
        (0x200_0000 + port * 4096) as u32,
        vchiq::open_payload(fourcc, version, version_min),
    ).bind(rest));
}

/// A request to open a service: its name as a number, the first letter in the top byte; the
/// client's number, 1; and the version, and the lowest version that will do.
pub proof fn law_open_payload(fourcc: Seq<u8>, version: u16, version_min: u16)
    requires
        fourcc.len() == 4,
    ensures
        ({
            let p = vchiq::open_payload(fourcc, version, version_min);
            &&& p.len() == 12
            &&& bytes::le32(p[0], p[1], p[2], p[3]) == fourcc[0] * 0x100_0000 + fourcc[1] * 0x1_0000
                + fourcc[2] * 0x100 + fourcc[3]
            &&& bytes::le32(p[4], p[5], p[6], p[7]) == 1
            &&& bytes::le16(p[8], p[9]) == version
            &&& bytes::le16(p[10], p[11]) == version_min
        }),
{
    bytes::law_le16(version);
    bytes::law_le16(version_min);
}

/// A transfer that is done has moved as many bytes as the firmware says, or none if it says
/// fewer than none.
pub proof fn law_actual_count(word: u32)
    ensures
        word < 0x8000_0000 ==> vchiq::actual_count(word) == word,
        word >= 0x8000_0000 ==> vchiq::actual_count(word) == 0,
{
}

/// Slots are 4096 bytes each, one behind the other from the start of the memory.
pub proof fn law_slots(base: u32, slot: u32)
    requires
        base + 4096 * slot + 4095 <= u32::MAX,
    ensures
        vchiq::slot_address(base, slot) == base + 4096 * slot,
{
    reveal(vchiq::slot_address);
    let bytes: int = slot * 4096;
    assert(0 <= bytes <= u32::MAX);
    assert(slot.wrapping_mul(4096) == bytes);
}

/// No two page lists overlap: each has 64 bytes of its own.
pub proof fn law_page_lists_apart(base: u32, receive: bool, index: int, other: bool, at: int)
    requires
        base + 0x20_0000 <= u32::MAX,
        0 <= index < 4,
        0 <= at < 4,
        (receive, index) != (other, at),
    ensures
        ({
            let one = vchiq::list_address(base, receive, index) as int;
            let two = vchiq::list_address(base, other, at) as int;
            &&& one + 64 <= two || two + 64 <= one
            &&& base <= one && one + 64 <= base + 0x20_0000
        }),
{
}

/// A completion is that of the oldest transfer of its direction, which is in flight no more:
/// its context is told, with the count that the firmware gives. What was received is made
/// visible to this side first.
pub proof fn law_completion(link: Link, receive: bool, data: u32, word: u32, done: Answer)
    requires
        vchiq::flight(link, receive).len() > 0,
    ensures
        ({
            let program = vchiq::completion_program(link, receive, data);
            let oldest = vchiq::flight(link, receive)[0];
            let answers = if receive {
                seq![Answer::Word(word), done]
            } else {
                seq![Answer::Word(word)]
            };
            &&& program.asked(answers) == if receive {
                seq![Op::Read(data), Op::Invalidate(oldest.address, oldest.len)]
            } else {
                seq![Op::Read(data)]
            }
            &&& program.given(answers) matches Program::Return(heard)
            &&& vchiq::flight(heard.0, receive) == vchiq::flight(link, receive).skip(1)
            &&& vchiq::flight(heard.0, !receive) == vchiq::flight(link, !receive)
            &&& heard.0.services == link.services
            &&& heard.2 == if receive {
                Ok::<Option<Event>, Error>(
                    Some(
                        Event::BulkReceiveDone {
                            context: oldest.context,
                            actual: vchiq::actual_count(word),
                        },
                    ),
                )
            } else {
                Ok::<Option<Event>, Error>(
                    Some(
                        Event::BulkTransmitDone {
                            context: oldest.context,
                            actual: vchiq::actual_count(word),
                        },
                    ),
                )
            }
        }),
{
    reveal_with_fuel(Program::asked, 3);
    reveal_with_fuel(Program::given, 3);
    assert(seq![Answer::Word(word), done].skip(1) =~= seq![done]);
    assert(seq![done].skip(1).len() == 0);
    assert(seq![Answer::Word(word)].skip(1).len() == 0);
}

/// A bulk transfer is asked for only of an open service, and only while fewer than four are in
/// flight in its direction; otherwise nothing is written. It is in flight only if the message
/// that asks for it could be sent.
pub proof fn law_bulk_refused(link: Link, port: u16, bulk: Bulk, receive: bool)
    ensures
        ({
            let program = vchiq::bulk_program(link, port, bulk, receive);
            let open = link.services[port as int].state == ServiceState::Open;
            let busy = (if receive {
                link.bulk_rx
            } else {
                link.bulk_tx
            }).len() >= 4;
            let refused = |error: Error|
                program == ShmProgram::<(Link, Result<(), Error>)>::Return((link, Err(error)));
            &&& !open ==> refused(Error::NotConnected)
            &&& open && busy ==> refused(Error::TooManyBulks { receive })
            &&& open && !busy ==> program == vchiq::transfer_program(link, port, bulk, receive)
        }),
{
}

} // verus!

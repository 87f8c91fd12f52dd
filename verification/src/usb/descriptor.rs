//! USB descriptors: a configuration is a run of descriptors, each of which
//! starts with its length and its type.

use vstd::prelude::*;

use crate::bytes;
use crate::bytes::u16_from;

verus! {

/// The type of a configuration descriptor.
pub const DESCRIPTOR_TYPE_CONFIGURATION: u8 = 2;

/// The type of an interface descriptor.
pub const DESCRIPTOR_TYPE_INTERFACE: u8 = 4;

/// The type of an endpoint descriptor.
pub const DESCRIPTOR_TYPE_ENDPOINT: u8 = 5;

/// The parts of a device descriptor that say what the device is.
#[derive(Clone, Copy, Debug, PartialEq, Eq, Structural)]
pub struct DeviceDescriptor {
    pub device_class: u8,
    /// The largest packet of endpoint 0.
    pub max_packet_size0: u8,
    pub vendor_id: u16,
    pub product_id: u16,
}

/// What the 18 bytes of a device descriptor say.
pub open spec fn device_of(bytes: Seq<u8>) -> DeviceDescriptor {
    DeviceDescriptor {
        device_class: bytes[4],
        max_packet_size0: bytes[7],
        vendor_id: bytes::le16(bytes[8], bytes[9]),
        product_id: bytes::le16(bytes[10], bytes[11]),
    }
}

impl DeviceDescriptor {
    /// Reads a device descriptor.
    pub fn from_bytes(bytes: &[u8; 18]) -> (descriptor: Self)
        ensures
            descriptor == device_of(bytes@),
    {
        Self {
            device_class: bytes[4],
            max_packet_size0: bytes[7],
            vendor_id: u16_from(bytes[8], bytes[9]),
            product_id: u16_from(bytes[10], bytes[11]),
        }
    }
}

/// The descriptors in `bytes` from `at` on. They end where no whole one follows:
/// at a length below two, or one that runs over the end.
pub open spec fn descriptors(bytes: Seq<u8>, at: int) -> Seq<Seq<u8>>
    decreases bytes.len() - at,
{
    if at < 0 || at + 2 > bytes.len() || bytes[at] < 2 || at + bytes[at] > bytes.len() {
        Seq::empty()
    } else {
        seq![bytes.subrange(at, at + bytes[at])] + descriptors(bytes, at + bytes[at])
    }
}

/// Goes through the descriptors in a buffer.
pub struct Descriptors<'a> {
    buf: &'a [u8],
    pos: usize,
}

impl<'a> View for Descriptors<'a> {
    /// The descriptors still to come.
    type V = Seq<Seq<u8>>;

    closed spec fn view(&self) -> Seq<Seq<u8>> {
        descriptors(self.buf@, self.pos as int)
    }
}

impl<'a> Descriptors<'a> {
    /// What has been gone through lies in the buffer.
    pub closed spec fn wf(&self) -> bool {
        self.pos <= self.buf@.len()
    }

    /// How much of the buffer is left to go through.
    pub closed spec fn left(&self) -> nat {
        (self.buf@.len() - self.pos) as nat
    }

    /// Starts at the front of `buf`.
    pub fn new(buf: &'a [u8]) -> (walk: Self)
        ensures
            walk.wf(),
            walk@ == descriptors(buf@, 0),
    {
        Self { buf, pos: 0 }
    }

    /// The next descriptor, if a whole one follows.
    pub fn next(&mut self) -> (descriptor: Option<&'a [u8]>)
        requires
            old(self).wf(),
        ensures
            final(self).wf(),
            match descriptor {
                Some(descriptor) => {
                    &&& old(self)@.len() > 0
                    &&& descriptor@ == old(self)@[0]
                    &&& descriptor@.len() >= 2
                    &&& descriptor@.len() == descriptor@[0]
                    &&& final(self)@ == old(self)@.skip(1)
                    &&& final(self).left() < old(self).left()
                },
                None => old(self)@.len() == 0 && *final(self) == *old(self),
            },
    {
        if self.buf.len() - self.pos < 2 {
            return None;
        }
        let len: usize = self.buf[self.pos] as usize;
        if len < 2 || len > self.buf.len() - self.pos {
            return None;
        }
        let end: usize = self.pos + len;
        let descriptor: &'a [u8] = vstd::slice::slice_subrange(self.buf, self.pos, end);
        self.pos = end;
        assert(self@ =~= old(self)@.skip(1));
        Some(descriptor)
    }
}

/// Taking a configuration apart loses nothing and invents nothing: the
/// descriptors, one after the other, are the front of the buffer.
pub proof fn law_descriptors_are_the_bytes(bytes: Seq<u8>, at: int)
    requires
        0 <= at <= bytes.len(),
    ensures
        descriptors(bytes, at).flatten().len() <= bytes.len() - at,
        descriptors(bytes, at).flatten() == bytes.subrange(
            at,
            at + descriptors(bytes, at).flatten().len(),
        ),
    decreases bytes.len() - at,
{
    let all = descriptors(bytes, at);
    if all.len() == 0 {
        assert(bytes.subrange(at, at) =~= Seq::<u8>::empty());
        assert(all.flatten() =~= Seq::<u8>::empty());
    } else {
        let next = at + bytes[at];
        law_descriptors_are_the_bytes(bytes, next);
        assert(all.drop_first() =~= descriptors(bytes, next));
        assert(all.first() == bytes.subrange(at, next));
        assert(all.flatten() == all.first() + all.drop_first().flatten());
        let rest = descriptors(bytes, next).flatten();
        assert(bytes.subrange(at, next) + bytes.subrange(next, next + rest.len())
            =~= bytes.subrange(at, next + rest.len()));
    }
}

/// Descriptors that lie one behind the other, each with its length in front, are all found,
/// as they are and in their order.
pub proof fn law_descriptors_found(all: Seq<Seq<u8>>)
    requires
        forall|i: int| 0 <= i < all.len() ==> (#[trigger] all[i]).len() >= 2,
        forall|i: int| 0 <= i < all.len() ==> (#[trigger] all[i]).len() == all[i][0],
    ensures
        descriptors(all.flatten(), 0) == all,
{
    lemma_found(Seq::empty(), all);
    assert(Seq::<u8>::empty() + all.flatten() =~= all.flatten());
}

proof fn lemma_found(before: Seq<u8>, all: Seq<Seq<u8>>)
    requires
        forall|i: int| 0 <= i < all.len() ==> (#[trigger] all[i]).len() >= 2,
        forall|i: int| 0 <= i < all.len() ==> (#[trigger] all[i]).len() == all[i][0],
    ensures
        descriptors(before + all.flatten(), before.len() as int) == all,
    decreases all.len(),
{
    let bytes = before + all.flatten();
    if all.len() == 0 {
        assert(all.flatten() =~= Seq::<u8>::empty());
        assert(descriptors(bytes, before.len() as int) =~= all);
    } else {
        let first = all.first();
        let rest = all.drop_first();
        assert(all.flatten() == first + rest.flatten());
        assert(first == all[0]);
        assert forall|i: int| 0 <= i < rest.len() implies (#[trigger] rest[i]).len() >= 2
            && rest[i].len() == rest[i][0] by {
            assert(rest[i] == all[i + 1]);
        }
        lemma_found(before + first, rest);
        assert(before + first + rest.flatten() =~= bytes);
        let end = (before.len() + first.len()) as int;
        assert(bytes.subrange(before.len() as int, end) =~= first);
        assert(bytes[before.len() as int] == first[0]);
        assert(seq![first] + rest =~= all);
    }
}

/// What a device says of itself is read where it says it: its class, the largest packet of
/// endpoint 0, who made it, and which of their devices it is.
pub proof fn law_device_fields(
    front: Seq<u8>,
    class: u8,
    packet: u8,
    vendor: u16,
    product: u16,
    rest: Seq<u8>,
)
    requires
        front.len() == 4,
    ensures
        device_of(
            front + seq![class, 0, 0, packet] + seq![
                (vendor % 256) as u8,
                (vendor / 256) as u8,
                (product % 256) as u8,
                (product / 256) as u8,
            ] + rest,
        ) == (DeviceDescriptor {
            device_class: class,
            max_packet_size0: packet,
            vendor_id: vendor,
            product_id: product,
        }),
{
}

/// What an endpoint is, is read as its descriptor is written: the number and the direction
/// in its address, how it transfers in the low two bits of its attributes, and its largest
/// packet, low byte first.
pub proof fn law_endpoint_fields(
    number: u8,
    sends: bool,
    kind: u8,
    more: u8,
    size: u16,
    interval: u8,
)
    requires
        number < 16,
        kind < 4,
        more < 64,
    ensures
        ({
            let descriptor = seq![
                7,
                5,
                (number + if sends { 128int } else { 0 }) as u8,
                (4 * more + kind) as u8,
                (size % 256) as u8,
                (size / 256) as u8,
                interval,
            ];
            &&& is_endpoint(descriptor) && !is_interface(descriptor) && !is_configuration(
                descriptor,
            )
            &&& endpoint_number(descriptor) == number
            &&& endpoint_in(descriptor) == sends
            &&& forall|other: u8| #[trigger] endpoint_kind(descriptor, other) <==> other == kind
            &&& endpoint_packet_size(descriptor) == size
        }),
{
    let address: u8 = (number + if sends { 128int } else { 0 }) as u8;
    let attributes: u8 = (4 * more + kind) as u8;
    lemma_endpoint_bits(address, attributes);
}

pub(crate) proof fn lemma_endpoint_bits(address: u8, attributes: u8)
    ensures
        address & 0x0f == address % 16,
        address & 0x80 != 0 <==> address >= 128,
        attributes & 0x03 == attributes % 4,
{
    assert(address & 0x0f == address % 16 && (address & 0x80 != 0) == (address >= 128)
        && attributes & 0x03 == attributes % 4) by (bit_vector);
}

/// An endpoint descriptor of a bulk endpoint, in the given direction.
pub open spec fn moves_bulk(descriptor: Seq<u8>, inward: bool) -> bool {
    &&& descriptor.len() >= 7
    &&& descriptor[1] == 5
    &&& descriptor[3] % 4 == 2
    &&& (descriptor[2] >= 128) == inward
}

/// The bulk endpoint of a direction is the last one that is declared for it: its number,
/// its largest packet, and an even toggle to begin with.
pub proof fn law_last_bulk(all: Seq<Seq<u8>>, inward: bool, count: int)
    requires
        0 <= count <= all.len(),
    ensures
        match last_bulk(all, inward, count) {
            Some(endpoint) => exists|i: int|
                0 <= i < count && #[trigger] moves_bulk(all[i], inward) && endpoint.number
                    == all[i][2] % 16 && endpoint.max_packet_size == all[i][4] + 256 * all[i][5]
                    && !endpoint.toggle && forall|j: int|
                    i < j < count ==> !#[trigger] moves_bulk(all[j], inward),
            None => forall|i: int| 0 <= i < count ==> !#[trigger] moves_bulk(all[i], inward),
        },
    decreases count,
{
    if count > 0 {
        law_last_bulk(all, inward, count - 1);
        let item = all[count - 1];
        lemma_endpoint_bits(item[2], item[3]);
        assert(moves_bulk(item, inward) <==> is_endpoint(item) && endpoint_kind(item, 2)
            && endpoint_in(item) == inward);
    }
}

/// A chip has its pair of bulk endpoints if its configuration declares one for each
/// direction.
pub proof fn law_bulk_pair(config: Seq<u8>)
    ensures
        ({
            let all = descriptors(config, 0);
            let inward = exists|i: int| 0 <= i < all.len() && #[trigger] moves_bulk(all[i], true);
            let outward = exists|i: int| 0 <= i < all.len() && #[trigger] moves_bulk(all[i], false);
            &&& bulk_pair(config) is Some <==> inward && outward
            &&& bulk_pair(config) matches Some(pair) ==> last_bulk(all, true, all.len() as int)
                == Some(pair.0) && last_bulk(all, false, all.len() as int) == Some(pair.1)
        }),
{
    let all = descriptors(config, 0);
    law_last_bulk(all, true, all.len() as int);
    law_last_bulk(all, false, all.len() as int);
}

/// A whole configuration descriptor.
pub open spec fn is_configuration(descriptor: Seq<u8>) -> bool {
    descriptor.len() >= 9 && descriptor[1] == DESCRIPTOR_TYPE_CONFIGURATION
}

/// A whole interface descriptor.
pub open spec fn is_interface(descriptor: Seq<u8>) -> bool {
    descriptor.len() >= 9 && descriptor[1] == DESCRIPTOR_TYPE_INTERFACE
}

/// A whole endpoint descriptor.
pub open spec fn is_endpoint(descriptor: Seq<u8>) -> bool {
    descriptor.len() >= 7 && descriptor[1] == DESCRIPTOR_TYPE_ENDPOINT
}

/// A configuration descriptor.
pub struct ConfigurationDescriptor<'a>(&'a [u8]);

impl<'a> View for ConfigurationDescriptor<'a> {
    type V = Seq<u8>;

    closed spec fn view(&self) -> Seq<u8> {
        self.0@
    }
}

impl<'a> ConfigurationDescriptor<'a> {
    /// Takes `descriptor` for a configuration descriptor if it is one.
    pub fn parse(descriptor: &'a [u8]) -> (parsed: Option<Self>)
        ensures
            match parsed {
                Some(parsed) => is_configuration(descriptor@) && parsed@ == descriptor@,
                None => !is_configuration(descriptor@),
            },
    {
        if descriptor.len() >= 9 && descriptor[1] == DESCRIPTOR_TYPE_CONFIGURATION {
            Some(Self(descriptor))
        } else {
            None
        }
    }

    /// The value that selects this configuration.
    pub fn value(&self) -> (value: u8)
        requires
            is_configuration(self@),
        ensures
            value == self@[5],
    {
        self.0[5]
    }
}

/// An interface descriptor.
pub struct InterfaceDescriptor<'a>(&'a [u8]);

impl<'a> View for InterfaceDescriptor<'a> {
    type V = Seq<u8>;

    closed spec fn view(&self) -> Seq<u8> {
        self.0@
    }
}

impl<'a> InterfaceDescriptor<'a> {
    /// Takes `descriptor` for an interface descriptor if it is one.
    pub fn parse(descriptor: &'a [u8]) -> (parsed: Option<Self>)
        ensures
            match parsed {
                Some(parsed) => is_interface(descriptor@) && parsed@ == descriptor@,
                None => !is_interface(descriptor@),
            },
    {
        if descriptor.len() >= 9 && descriptor[1] == DESCRIPTOR_TYPE_INTERFACE {
            Some(Self(descriptor))
        } else {
            None
        }
    }

    /// The interface's number.
    pub fn number(&self) -> (number: u8)
        requires
            is_interface(self@),
        ensures
            number == self@[2],
    {
        self.0[2]
    }

    /// The interface's class.
    pub fn class(&self) -> (class: u8)
        requires
            is_interface(self@),
        ensures
            class == self@[5],
    {
        self.0[5]
    }

    /// The interface's subclass.
    pub fn subclass(&self) -> (subclass: u8)
        requires
            is_interface(self@),
        ensures
            subclass == self@[6],
    {
        self.0[6]
    }

    /// The interface's protocol.
    pub fn protocol(&self) -> (protocol: u8)
        requires
            is_interface(self@),
        ensures
            protocol == self@[7],
    {
        self.0[7]
    }
}

/// The number of an endpoint: the low four bits of its address.
pub open spec fn endpoint_number(descriptor: Seq<u8>) -> u8 {
    descriptor[2] & 0x0f
}

/// Whether an endpoint sends to the host: the top bit of its address.
pub open spec fn endpoint_in(descriptor: Seq<u8>) -> bool {
    descriptor[2] & 0x80 != 0
}

/// Whether an endpoint is of the given transfer type: 2 bulk, 3 interrupt.
pub open spec fn endpoint_kind(descriptor: Seq<u8>, kind: u8) -> bool {
    descriptor[3] & 0x03 == kind
}

/// The largest packet of an endpoint.
pub open spec fn endpoint_packet_size(descriptor: Seq<u8>) -> u16 {
    bytes::le16(descriptor[4], descriptor[5])
}

/// An endpoint descriptor.
pub struct EndpointDescriptor<'a>(&'a [u8]);

impl<'a> View for EndpointDescriptor<'a> {
    type V = Seq<u8>;

    closed spec fn view(&self) -> Seq<u8> {
        self.0@
    }
}

impl<'a> EndpointDescriptor<'a> {
    /// Takes `descriptor` for an endpoint descriptor if it is one.
    pub fn parse(descriptor: &'a [u8]) -> (parsed: Option<Self>)
        ensures
            match parsed {
                Some(parsed) => is_endpoint(descriptor@) && parsed@ == descriptor@,
                None => !is_endpoint(descriptor@),
            },
    {
        if descriptor.len() >= 7 && descriptor[1] == DESCRIPTOR_TYPE_ENDPOINT {
            Some(Self(descriptor))
        } else {
            None
        }
    }

    /// The endpoint's number.
    pub fn number(&self) -> (number: u8)
        requires
            is_endpoint(self@),
        ensures
            number == endpoint_number(self@),
    {
        self.0[2] & 0x0f
    }

    /// Whether the endpoint sends to the host.
    pub fn is_in(&self) -> (inward: bool)
        requires
            is_endpoint(self@),
        ensures
            inward == endpoint_in(self@),
    {
        self.0[2] & 0x80 != 0
    }

    /// Whether this is an interrupt endpoint.
    pub fn is_interrupt(&self) -> (interrupt: bool)
        requires
            is_endpoint(self@),
        ensures
            interrupt == endpoint_kind(self@, 3),
    {
        self.0[3] & 0x03 == 3
    }

    /// Whether this is a bulk endpoint.
    pub fn is_bulk(&self) -> (bulk: bool)
        requires
            is_endpoint(self@),
        ensures
            bulk == endpoint_kind(self@, 2),
    {
        self.0[3] & 0x03 == 2
    }

    /// The largest packet of the endpoint.
    pub fn max_packet_size(&self) -> (size: u16)
        requires
            is_endpoint(self@),
        ensures
            size == endpoint_packet_size(self@),
    {
        u16_from(self.0[4], self.0[5])
    }

    /// How often the endpoint wants to be asked, as the descriptor encodes it.
    pub fn interval(&self) -> (interval: u8)
        requires
            is_endpoint(self@),
        ensures
            interval == self@[6],
    {
        self.0[6]
    }
}

/// The bulk endpoints that a driver needs: one in each direction.
#[derive(Clone, Copy, Debug, PartialEq, Eq, Structural)]
pub struct BulkEndpoint {
    pub number: u8,
    pub max_packet_size: u16,
    /// The data toggle of its next packet.
    pub toggle: bool,
}

/// A bulk endpoint as its descriptor gives it, with its toggle at the start.
pub open spec fn bulk_endpoint_of(descriptor: Seq<u8>) -> BulkEndpoint {
    BulkEndpoint {
        number: endpoint_number(descriptor),
        max_packet_size: endpoint_packet_size(descriptor),
        toggle: false,
    }
}

/// The last bulk endpoint of one direction among the first `count` of `all`.
pub open spec fn last_bulk(all: Seq<Seq<u8>>, inward: bool, count: int) -> Option<BulkEndpoint>
    decreases count,
{
    if count <= 0 {
        None
    } else if is_endpoint(all[count - 1]) && endpoint_kind(all[count - 1], 2) && endpoint_in(
        all[count - 1],
    ) == inward {
        Some(bulk_endpoint_of(all[count - 1]))
    } else {
        last_bulk(all, inward, count - 1)
    }
}

/// The bulk endpoints of a configuration, in and out: of each direction the last
/// that is listed, and none unless both directions have one.
pub open spec fn bulk_pair(config: Seq<u8>) -> Option<(BulkEndpoint, BulkEndpoint)> {
    let all = descriptors(config, 0);
    match (last_bulk(all, true, all.len() as int), last_bulk(all, false, all.len() as int)) {
        (Some(inward), Some(outward)) => Some((inward, outward)),
        _ => None,
    }
}

/// Picks the bulk endpoints out of a configuration.
pub fn find_bulk_endpoints(config: &[u8]) -> (pair: Option<(BulkEndpoint, BulkEndpoint)>)
    ensures
        pair == bulk_pair(config@),
{
    let ghost all = descriptors(config@, 0);
    let ghost mut count: int = 0;
    let mut bulk_in: Option<BulkEndpoint> = None;
    let mut bulk_out: Option<BulkEndpoint> = None;
    let mut walk = Descriptors::new(config);
    assert(all.skip(0) =~= all);
    loop
        invariant
            walk.wf(),
            all == descriptors(config@, 0),
            0 <= count <= all.len(),
            walk@ == all.skip(count),
            bulk_in == last_bulk(all, true, count),
            bulk_out == last_bulk(all, false, count),
        decreases walk.left(),
    {
        match walk.next() {
            Some(descriptor) => {
                proof {
                    assert(all.skip(count)[0] == all[count]);
                    assert(all.skip(count).skip(1) =~= all.skip(count + 1));
                    count = count + 1;
                }
                match EndpointDescriptor::parse(descriptor) {
                    Some(endpoint) => {
                        if endpoint.is_bulk() {
                            let info = BulkEndpoint {
                                number: endpoint.number(),
                                max_packet_size: endpoint.max_packet_size(),
                                toggle: false,
                            };
                            if endpoint.is_in() {
                                bulk_in = Some(info);
                            } else {
                                bulk_out = Some(info);
                            }
                        }
                    },
                    None => {},
                }
            },
            None => {
                return match (bulk_in, bulk_out) {
                    (Some(inward), Some(outward)) => Some((inward, outward)),
                    _ => None,
                };
            },
        }
    }
}

} // verus!

//! The protocol headers at the front of a packet.
use vstd::prelude::*;
use vstd::slice::slice_subrange;

verus! {

/// Length of an Ethernet II header.
pub const ETHERNET_HEADER_LENGTH: usize = 14;

/// The Ethernet type of IPv4.
pub const ETHERTYPE_IPV4: u16 = 0x0800;

/// The IP protocol number of TCP.
pub const PROTOCOL_TCP: u8 = 6;

/// The number that two bytes stand for, the more significant one first.
pub open spec fn be16(bytes: Seq<u8>, at: int) -> int {
    bytes[at] * 256 + bytes[at + 1]
}

/// The number that four bytes stand for, the most significant one first.
pub open spec fn be32(bytes: Seq<u8>, at: int) -> int {
    be16(bytes, at) * 65536 + be16(bytes, at + 2)
}

/// `bytes` begin with a whole Ethernet II header.
pub open spec fn has_ethernet(bytes: Seq<u8>) -> bool {
    bytes.len() >= ETHERNET_HEADER_LENGTH
}

/// What an Ethernet II header says of what follows it.
pub open spec fn ether_type_of(bytes: Seq<u8>) -> int {
    be16(bytes, 12)
}

/// `bytes` begin with a whole IPv4 header: the version is 4, the header is at least five
/// words long, and all of it is there.
pub open spec fn has_ipv4(bytes: Seq<u8>) -> bool {
    &&& bytes.len() >= 20
    &&& bytes[0] / 16 == 4
    &&& bytes[0] % 16 >= 5
    &&& bytes.len() >= ipv4_length(bytes)
}

/// The length of an IPv4 header, options counted, in bytes.
pub open spec fn ipv4_length(bytes: Seq<u8>) -> int {
    (bytes[0] % 16) * 4
}

/// `bytes` begin with a whole TCP header.
pub open spec fn has_tcp(bytes: Seq<u8>) -> bool {
    &&& bytes.len() >= 20
    &&& bytes[12] / 16 >= 5
    &&& bytes.len() >= tcp_length(bytes)
}

/// The length of a TCP header, options counted, in bytes.
pub open spec fn tcp_length(bytes: Seq<u8>) -> int {
    (bytes[12] / 16) * 4
}

/// What is read of an IPv4 header.
#[derive(Debug, Clone, Copy)]
pub struct Ipv4Fields {
    /// Length of the header in bytes.
    pub length: usize,
    /// The ECN code point.
    pub ecn: u8,
    pub identification: u16,
    pub protocol: u8,
    pub checksum: u16,
    pub source: [u8; 4],
    pub destination: [u8; 4],
}

impl Ipv4Fields {
    /// These are the fields of the header that `bytes` begin with.
    pub open spec fn read_from(self, bytes: Seq<u8>) -> bool {
        &&& self.length == ipv4_length(bytes)
        &&& self.ecn == bytes[1] % 4
        &&& self.identification == be16(bytes, 4)
        &&& self.protocol == bytes[9]
        &&& self.checksum == be16(bytes, 10)
        &&& self.source@ == bytes.subrange(12, 16)
        &&& self.destination@ == bytes.subrange(16, 20)
    }
}

/// What is read of a TCP header.
#[derive(Debug, Clone, Copy)]
pub struct TcpFields {
    pub sequence: u32,
    pub acknowledgment: u32,
    /// Length of the header in words of four bytes.
    pub data_offset: u8,
}

impl TcpFields {
    /// These are the fields of the header that `bytes` begin with.
    pub open spec fn read_from(self, bytes: Seq<u8>) -> bool {
        &&& self.sequence == be32(bytes, 4)
        &&& self.acknowledgment == be32(bytes, 8)
        &&& self.data_offset == bytes[12] / 16
    }
}

/// Reads an Ethernet II header with `etherparse::Ethernet2HeaderSlice::from_slice`, which
/// succeeds on any fourteen bytes, and returns the `ether_type` that it finds in the last
/// two of them.
#[verifier::external_body]
fn ethernet2_header(bytes: &[u8]) -> (ether_type: Option<u16>)
    ensures
        ether_type is Some <==> has_ethernet(bytes@),
        ether_type is Some ==> ether_type->0 == ether_type_of(bytes@),
{
    match etherparse::Ethernet2HeaderSlice::from_slice(bytes) {
        Ok(header) => Some(header.ether_type().0),
        Err(_) => None,
    }
}

/// Reads an IPv4 header with `etherparse::Ipv4HeaderSlice::from_slice`, which checks the
/// version and the header length and nothing else, and returns the fields as its accessors
/// give them.
#[verifier::external_body]
fn ipv4_header(bytes: &[u8]) -> (fields: Option<Ipv4Fields>)
    ensures
        fields is Some <==> has_ipv4(bytes@),
        fields is Some ==> fields->0.read_from(bytes@),
{
    match etherparse::Ipv4HeaderSlice::from_slice(bytes) {
        Ok(header) => Some(
            Ipv4Fields {
                length: header.slice().len(),
                ecn: header.ecn().value(),
                identification: header.identification(),
                protocol: header.protocol().0,
                checksum: header.header_checksum(),
                source: header.source(),
                destination: header.destination(),
            },
        ),
        Err(_) => None,
    }
}

/// Reads a TCP header with `etherparse::TcpHeaderSlice::from_slice`, which checks the data
/// offset and nothing else, and returns the fields as its accessors give them.
#[verifier::external_body]
fn tcp_header(bytes: &[u8]) -> (fields: Option<TcpFields>)
    ensures
        fields is Some <==> has_tcp(bytes@),
        fields is Some ==> fields->0.read_from(bytes@),
{
    match etherparse::TcpHeaderSlice::from_slice(bytes) {
        Ok(header) => Some(
            TcpFields {
                sequence: header.sequence_number(),
                acknowledgment: header.acknowledgment_number(),
                data_offset: header.data_offset(),
            },
        ),
        Err(_) => None,
    }
}

/// What follows the first `n` bytes; nothing, if there are not that many.
pub open spec fn rest_after(bytes: Seq<u8>, n: int) -> Seq<u8> {
    if n <= bytes.len() {
        bytes.subrange(n, bytes.len() as int)
    } else {
        Seq::empty()
    }
}

/// What follows the first `n` bytes; nothing, if there are not that many.
pub fn skip_bytes(bytes: &[u8], n: usize) -> (rest: &[u8])
    ensures
        rest@ == rest_after(bytes@, n as int),
{
    if n <= bytes.len() {
        slice_subrange(bytes, n, bytes.len())
    } else {
        let end: usize = bytes.len();
        slice_subrange(bytes, end, end)
    }
}

/// The Ethernet type of a frame.
pub fn ether_hdr(frame: &[u8]) -> (ether_type: Option<u16>)
    ensures
        ether_type is Some <==> has_ethernet(frame@),
        ether_type is Some ==> ether_type->0 == ether_type_of(frame@),
{
    ethernet2_header(frame)
}

/// The IPv4 header of an Ethernet frame.
pub fn ip_hdr(frame: &[u8]) -> (fields: Option<Ipv4Fields>)
    ensures
        fields is Some <==> has_ethernet(frame@) && has_ipv4(
            rest_after(frame@, ETHERNET_HEADER_LENGTH as int),
        ),
        fields is Some ==> fields->0.read_from(rest_after(frame@, ETHERNET_HEADER_LENGTH as int)),
{
    match ethernet2_header(frame) {
        Some(_) => ipv4_header(skip_bytes(frame, ETHERNET_HEADER_LENGTH)),
        None => None,
    }
}

/// The TCP header that `segment` begins with.
pub fn tcp_hdr(segment: &[u8]) -> (fields: Option<TcpFields>)
    ensures
        fields is Some <==> has_tcp(segment@),
        fields is Some ==> fields->0.read_from(segment@),
{
    tcp_header(segment)
}

/// Numbers are read with the most significant byte first, so different bytes are different
/// numbers.
pub proof fn law_numbers_are_read_from_the_left(a: Seq<u8>, b: Seq<u8>, at: int)
    ensures
        0 <= be16(a, at) <= 0xffff,
        0 <= be32(a, at) <= 0xffff_ffff,
        be16(a, at) == a[at] * 256 + a[at + 1],
        be32(a, at) == ((a[at] * 256 + a[at + 1]) * 256 + a[at + 2]) * 256 + a[at + 3],
        be16(a, at) == be16(b, at) ==> a[at] == b[at] && a[at + 1] == b[at + 1],
        be32(a, at) == be32(b, at) ==> a[at] == b[at] && a[at + 1] == b[at + 1] && a[at + 2]
            == b[at + 2] && a[at + 3] == b[at + 3],
{
}

/// What is left after some bytes begins with the byte behind them, and the bytes and the rest
/// make up the whole.
pub proof fn law_rest_follows_the_front(bytes: Seq<u8>, n: int)
    requires
        0 <= n,
    ensures
        n <= bytes.len() ==> bytes.take(n) + rest_after(bytes, n) == bytes,
        n > bytes.len() ==> rest_after(bytes, n).len() == 0,
{
    if n <= bytes.len() {
        assert(bytes.take(n) + rest_after(bytes, n) =~= bytes);
    }
}

/// A header is there only as a whole: the words that its length counts, at least five of
/// them, are all there.
pub proof fn law_headers_are_whole(bytes: Seq<u8>)
    ensures
        has_ipv4(bytes) ==> bytes[0] / 16 == 4 && 20 <= 4 * (bytes[0] % 16) <= bytes.len()
            && ipv4_length(bytes) == 4 * (bytes[0] % 16),
        has_tcp(bytes) ==> 20 <= 4 * (bytes[12] / 16) <= bytes.len() && tcp_length(bytes) == 4 * (
        bytes[12] / 16),
        bytes.len() >= 20 && bytes[0] / 16 == 4 && 20 <= 4 * (bytes[0] % 16) <= bytes.len()
            ==> has_ipv4(bytes),
        bytes.len() >= 20 && 20 <= 4 * (bytes[12] / 16) <= bytes.len() ==> has_tcp(bytes),
{
}

} // verus!

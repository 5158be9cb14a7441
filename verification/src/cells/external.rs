//! What is not created by the emulator: network interfaces, physical or virtual. Packets
//! that enter or leave through them can be logged.
use crate::error::Error;
use crate::headers::{
    be16, be32, ether_hdr, ether_type_of, has_ethernet, has_ipv4, has_tcp, ip_hdr, ipv4_length,
    rest_after, skip_bytes, tcp_hdr, ETHERNET_HEADER_LENGTH, ETHERTYPE_IPV4, PROTOCOL_TCP,
};
use crate::packet::{RawPacket, StdPacket};
use crate::text::{decimal, digits};
use bitfield::{BitRange, BitRangeMut};
use vstd::arithmetic::power2::{lemma2_to64, pow2};
use vstd::prelude::*;
use vstd::slice::slice_to_vec;
use vstd::string::StringExecFns;

verus! {

/// Bits `lsb` to `msb` of `word`.
pub open spec fn bits_of(word: nat, msb: nat, lsb: nat) -> nat {
    (word / pow2(lsb)) % pow2((msb - lsb + 1) as nat)
}

/// `word` with `value` in its bits `lsb` to `msb`.
pub open spec fn with_bits(word: nat, msb: nat, lsb: nat, value: nat) -> int {
    word - bits_of(word, msb, lsb) * pow2(lsb) + (value % pow2((msb - lsb + 1) as nat)) * pow2(lsb)
}

/// A field between two powers of two, in numbers.
proof fn lemma_field(word: nat, msb: nat, lsb: nat, value: nat, low: nat, width: nat)
    requires
        lsb <= msb,
        pow2(lsb) == low,
        pow2((msb - lsb + 1) as nat) == width,
        low > 0,
        width > 0,
    ensures
        bits_of(word, msb, lsb) == (word / low) % width,
        with_bits(word, msb, lsb, value) == word - ((word / low) % width) * low + (value % width)
            * low,
{
}

/// The upper and the lower byte of a word, and the upper half of a long word.
proof fn lemma_halves(word: nat, value: nat)
    ensures
        bits_of(word, 15, 8) == (word / 256) % 256,
        with_bits(word, 15, 8, value) == word - ((word / 256) % 256) * 256 + (value % 256) * 256,
        bits_of(word, 7, 0) == word % 256,
        with_bits(word, 7, 0, value) == word - word % 256 + value % 256,
        with_bits(word, 31, 16, value) == word - ((word / 65536) % 65536) * 65536 + (value % 65536)
            * 65536,
{
    lemma2_to64();
    lemma_field(word, 15, 8, value, 256, 256);
    lemma_field(word, 7, 0, value, 1, 256);
    lemma_field(word, 31, 16, value, 65536, 65536);
}

/// Reads bits `lsb` to `msb` of a word with `bitfield::BitRange::bit_range`.
#[verifier::external_body]
fn bit_range(word: u16, msb: usize, lsb: usize) -> (bits: u8)
    requires
        lsb <= msb < 16,
        msb - lsb < 8,
    ensures
        bits == bits_of(word as nat, msb as nat, lsb as nat),
{
    BitRange::<u8>::bit_range(&word, msb, lsb)
}

/// Writes `value` to bits `lsb` to `msb` of a word with
/// `bitfield::BitRangeMut::set_bit_range`. The other bits stay as they are.
#[verifier::external_body]
fn set_bit_range(word: &mut u16, msb: usize, lsb: usize, value: u8)
    requires
        lsb <= msb < 16,
        msb - lsb < 8,
    ensures
        *final(word) == with_bits(*old(word) as nat, msb as nat, lsb as nat, value as nat),
{
    BitRangeMut::<u8>::set_bit_range(word, msb, lsb, value);
}

/// Writes `value` to bits `lsb` to `msb` of a long word with
/// `bitfield::BitRangeMut::set_bit_range`. The other bits stay as they are.
#[verifier::external_body]
fn set_bit_range_long(word: &mut u32, msb: usize, lsb: usize, value: u16)
    requires
        lsb <= msb < 32,
        msb - lsb < 16,
    ensures
        *final(word) == with_bits(*old(word) as nat, msb as nat, lsb as nat, value as nat),
{
    BitRangeMut::<u16>::set_bit_range(word, msb, lsb, value);
}

/// The number of a virtual Ethernet device: its network namespace in the upper byte and its
/// place in the namespace in the lower one.
#[derive(Debug, Clone, Copy)]
pub struct VirtualEthernetId {
    number: u16,
}

impl VirtualEthernetId {
    /// Namespace and place as one number.
    pub closed spec fn number(self) -> u16 {
        self.number
    }

    /// The network namespace.
    pub open spec fn ns(self) -> u8 {
        (self.number() / 256) as u8
    }

    /// The place in the namespace.
    pub open spec fn veth(self) -> u8 {
        (self.number() % 256) as u8
    }

    pub fn new() -> (id: Self)
        ensures
            id.ns() == 0,
            id.veth() == 0,
            id.number() == 0,
    {
        VirtualEthernetId { number: 0 }
    }

    pub fn set_ns_id(&mut self, ns_id: u8)
        ensures
            final(self).ns() == ns_id,
            final(self).veth() == old(self).veth(),
            final(self).number() == ns_id * 256 + old(self).veth(),
    {
        proof {
            lemma_halves(self.number as nat, ns_id as nat);
        }
        let mut number: u16 = self.number;
        set_bit_range(&mut number, 15, 8, ns_id);
        self.number = number;
    }

    pub fn set_ns_id_copied(&self, ns_id: u8) -> (id: Self)
        ensures
            id.ns() == ns_id,
            id.veth() == self.veth(),
            id.number() == ns_id * 256 + self.veth(),
    {
        let mut copied = *self;
        copied.set_ns_id(ns_id);
        copied
    }

    pub fn get_ns_id(&self) -> (ns_id: u8)
        ensures
            ns_id == self.ns(),
    {
        proof {
            lemma_halves(self.number as nat, 0);
        }
        bit_range(self.number, 15, 8)
    }

    pub fn set_veth_id(&mut self, veth_id: u8)
        ensures
            final(self).veth() == veth_id,
            final(self).ns() == old(self).ns(),
            final(self).number() == old(self).ns() * 256 + veth_id,
    {
        proof {
            lemma_halves(self.number as nat, veth_id as nat);
        }
        let mut number: u16 = self.number;
        set_bit_range(&mut number, 7, 0, veth_id);
        self.number = number;
    }

    pub fn set_veth_id_copied(&self, veth_id: u8) -> (id: Self)
        ensures
            id.veth() == veth_id,
            id.ns() == self.ns(),
            id.number() == self.ns() * 256 + veth_id,
    {
        let mut copied = *self;
        copied.set_veth_id(veth_id);
        copied
    }

    pub fn get_veth_id(&self) -> (veth_id: u8)
        ensures
            veth_id == self.veth(),
    {
        proof {
            lemma_halves(self.number as nat, 0);
        }
        bit_range(self.number, 7, 0)
    }

    /// The device as it is shown: `ns1-veth2`.
    pub fn to_text(&self) -> (s: String)
        ensures
            s@ == "ns"@ + digits(self.ns() as nat) + "-veth"@ + digits(self.veth() as nat),
    {
        let ns = "ns".to_owned().concat(decimal(self.get_ns_id() as u64).as_str());
        ns.concat("-veth").concat(decimal(self.get_veth_id() as u64).as_str())
    }
}

impl Default for VirtualEthernetId {
    fn default() -> (id: Self)
        ensures
            id.ns() == 0,
            id.veth() == 0,
            id.number() == 0,
    {
        VirtualEthernetId::new()
    }
}

/// Spreads packets over the queues of a device, one after the other.
#[derive(Debug)]
pub struct Demux {
    index: usize,
}

impl Demux {
    /// How many packets have been spread.
    pub closed spec fn count(self) -> nat {
        self.index as nat
    }

    pub fn new() -> (d: Self)
        ensures
            d.count() == 0,
    {
        Demux { index: 0 }
    }

    /// The queue of `n` that the next packet goes to.
    pub fn next_queue(&mut self, n: usize) -> (queue: usize)
        requires
            n > 0,
            old(self).count() < usize::MAX,
        ensures
            queue == old(self).count() % n as nat,
            final(self).count() == old(self).count() + 1,
    {
        let queue: usize = self.index % n;
        self.index = self.index + 1;
        queue
    }
}

/// What the packets of a TCP flow have in common.
#[derive(Debug, Clone, Copy, PartialEq, Eq, Structural)]
pub struct FlowDesc {
    pub source: u32,
    pub destination: u32,
    pub source_port: u16,
    pub destination_port: u16,
}

impl FlowDesc {
    /// This is the flow of the TCP segment that `frame` carries.
    pub open spec fn read_from(self, frame: Seq<u8>) -> bool {
        let ip = rest_after(frame, ETHERNET_HEADER_LENGTH as int);
        let tcp = rest_after(frame, segment_index(frame));
        &&& self.source == be32(ip, 12)
        &&& self.destination == be32(ip, 16)
        &&& self.source_port == be16(tcp, 0)
        &&& self.destination_port == be16(tcp, 2)
    }
}

/// The number that four bytes stand for, the most significant one first.
fn long_number(bytes: &[u8; 4]) -> (n: u32)
    ensures
        n == be32(bytes@, 0),
{
    ((bytes[0] as u32) * 256 + (bytes[1] as u32)) * 65536 + ((bytes[2] as u32) * 256 + (
    bytes[3] as u32))
}

/// The TCP flow that a frame belongs to; none, unless it carries a TCP segment over IPv4.
pub fn flow_desc(frame: &[u8]) -> (desc: Option<FlowDesc>)
    ensures
        desc is Some <==> is_tcp(frame@),
        desc is Some ==> desc->0.read_from(frame@),
{
    match ether_hdr(frame) {
        Some(ether_type) => if ether_type != ETHERTYPE_IPV4 {
            return None;
        },
        None => return None,
    }
    let ip = match ip_hdr(frame) {
        Some(ip) => ip,
        None => return None,
    };
    if ip.protocol != PROTOCOL_TCP {
        return None;
    }
    let segment: &[u8] = skip_bytes(frame, ETHERNET_HEADER_LENGTH + ip.length);
    match tcp_hdr(segment) {
        Some(_) => Some(
            FlowDesc {
                source: long_number(&ip.source),
                destination: long_number(&ip.destination),
                source_port: (segment[0] as u16) * 256 + (segment[1] as u16),
                destination_port: (segment[2] as u16) * 256 + (segment[3] as u16),
            },
        ),
        None => None,
    }
}

/// The flows that a device has seen, and the number of each.
#[derive(Debug)]
pub struct FlowMap {
    entries: Vec<(FlowDesc, u32)>,
    id: u32,
    base: u32,
}

impl FlowMap {
    /// The flows in the order in which they were first seen.
    pub closed spec fn flows(self) -> Seq<FlowDesc> {
        self.entries@.map_values(|e: (FlowDesc, u32)| e.0)
    }

    /// The number of the flow that was seen first.
    pub closed spec fn base(self) -> nat {
        self.base as nat
    }

    /// The number of the `k`-th flow.
    pub open spec fn id_of(self, k: int) -> u32 {
        ((self.base() + k) % 0x1_0000_0000) as u32
    }

    /// The number that a flow has, or gets when it is seen for the first time.
    pub open spec fn number_of(self, desc: FlowDesc) -> u32 {
        if self.flows().contains(desc) {
            self.id_of(self.flows().index_of(desc))
        } else {
            self.id_of(self.flows().len() as int)
        }
    }

    /// The flows once this one has been seen.
    pub open spec fn flows_with(self, desc: FlowDesc) -> Seq<FlowDesc> {
        if self.flows().contains(desc) {
            self.flows()
        } else {
            self.flows().push(desc)
        }
    }

    /// No flow is listed twice, and the flows are numbered in a row.
    pub closed spec fn valid(self) -> bool {
        &&& self.id == (self.base + self.entries@.len()) % 0x1_0000_0000
        &&& forall|k: int|
            0 <= k < self.entries@.len() ==> (#[trigger] self.entries@[k]).1 == self.id_of(k)
        &&& forall|i: int, j: int|
            0 <= i < j < self.entries@.len() ==> (#[trigger] self.entries@[i]).0 != (
            #[trigger] self.entries@[j]).0
    }

    /// No flow seen yet. The first one is numbered with the device in the upper half and zero
    /// in the lower one.
    pub fn new(veth_id: VirtualEthernetId) -> (m: Self)
        ensures
            m.valid(),
            m.flows().len() == 0,
            m.base() == veth_id.number() * 65536,
    {
        proof {
            lemma_halves(0, veth_id.number as nat);
        }
        let mut id: u32 = 0;
        set_bit_range_long(&mut id, 31, 16, veth_id.number);
        FlowMap { entries: Vec::new(), id, base: id }
    }

    /// The number of a flow, and whether it is seen for the first time.
    pub fn get_id(&mut self, desc: FlowDesc) -> (r: (u32, bool))
        requires
            old(self).valid(),
        ensures
            final(self).valid(),
            final(self).base() == old(self).base(),
            final(self).flows() == old(self).flows_with(desc),
            r.0 == old(self).number_of(desc),
            r.1 == !old(self).flows().contains(desc),
    {
        let mut i: usize = 0;
        while i < self.entries.len()
            invariant
                i <= self.entries@.len(),
                *self == *old(self),
                self.valid(),
                forall|k: int| 0 <= k < i ==> (#[trigger] self.entries@[k]).0 != desc,
            decreases self.entries@.len() - i,
        {
            if self.entries[i].0 == desc {
                proof {
                    let k = self.flows().index_of(desc);
                    assert(self.flows()[i as int] == desc);
                    assert(self.flows()[k] == desc);
                    assert(self.entries@[k].0 == self.entries@[i as int].0);
                }
                return (self.entries[i].1, false);
            }
            i = i + 1;
        }
        proof {
            assert forall|k: int| 0 <= k < self.flows().len() implies self.flows()[k] != desc by {
                assert(self.entries@[k].0 != desc);
            }
        }
        let id: u32 = self.id;
        self.entries.push((desc, id));
        self.id = if id == 0xffff_ffff {
            0
        } else {
            id + 1
        };
        assert(self.flows() =~= old(self).flows().push(desc));
        (id, true)
    }
}

/// What is logged of each packet.
#[derive(Debug, Clone, Copy, PartialEq, Eq, Structural)]
pub enum PacketLogMode {
    /// The fields of TCP segments that matter.
    CompactTCP,
    /// The network and transport headers as they are.
    RawIP,
    /// The transport header as it is.
    RawTCP,
}

/// What a device does with a packet.
#[derive(Debug, Clone, Copy, PartialEq, Eq, Structural)]
pub enum PktAction {
    Send,
    Recv,
}

/// What is logged of a TCP segment.
#[derive(Debug, Clone, Copy, PartialEq, Eq, Structural)]
pub struct TcpLogRecord {
    pub pkt_length: u16,
    pub action: PktAction,
    /// Microseconds since the start of the log.
    pub ts: u32,
    pub flow_id: u32,
    pub ip_id: u16,
    pub ip_frag: u16,
    pub checksum: u16,
    pub seq: u32,
    pub ack: u32,
    pub flags: u8,
    pub dataofs: u8,
}

/// What is logged of a packet whose headers are kept as they are.
#[derive(Debug)]
pub struct RawLogRecord {
    pub pkt_length: u16,
    pub action: PktAction,
    /// Microseconds since the start of the log.
    pub ts: u32,
    pub mode: PacketLogMode,
    pub raw: Vec<u8>,
}

/// What is logged of a flow.
#[derive(Debug, Clone, Copy, PartialEq, Eq, Structural)]
pub struct FlowLogRecord {
    pub flow_id: u32,
    pub base_ts: i64,
    pub desc: FlowDesc,
}

/// One entry of the log.
#[derive(Debug)]
pub enum LogOp {
    Flow(FlowLogRecord),
    Entry(TcpLogRecord),
    RawEntry(RawLogRecord),
}

/// Microseconds from `base_ts` to `clock`, both in nanoseconds, within 32 bits.
pub open spec fn log_time(clock: i64, base_ts: i64) -> u32 {
    if clock <= base_ts {
        0
    } else if (clock - base_ts) / 1000 > u32::MAX {
        u32::MAX
    } else {
        ((clock - base_ts) / 1000) as u32
    }
}

/// Microseconds from `base_ts` to `clock`, both in nanoseconds, within 32 bits.
pub fn log_timestamp(clock: i64, base_ts: i64) -> (ts: u32)
    ensures
        ts == log_time(clock, base_ts),
{
    if clock <= base_ts {
        return 0;
    }
    let us: i128 = ((clock as i128) - (base_ts as i128)) / 1000;
    if us > u32::MAX as i128 {
        u32::MAX
    } else {
        us as u32
    }
}

/// Where the TCP segment of a frame begins.
pub open spec fn segment_index(frame: Seq<u8>) -> int {
    ETHERNET_HEADER_LENGTH + ipv4_length(rest_after(frame, ETHERNET_HEADER_LENGTH as int))
}

/// The frame carries a TCP segment over IPv4, with whole headers.
pub open spec fn is_tcp(frame: Seq<u8>) -> bool {
    let ip = rest_after(frame, ETHERNET_HEADER_LENGTH as int);
    &&& has_ethernet(frame)
    &&& ether_type_of(frame) == ETHERTYPE_IPV4
    &&& has_ipv4(ip)
    &&& ip[9] == PROTOCOL_TCP
    &&& has_tcp(rest_after(frame, segment_index(frame)))
}

impl TcpLogRecord {
    /// This is what is logged of `frame`.
    pub open spec fn describes(
        self,
        frame: Seq<u8>,
        flow_id: u32,
        action: PktAction,
        ts: u32,
    ) -> bool {
        let ip = rest_after(frame, ETHERNET_HEADER_LENGTH as int);
        let tcp = rest_after(frame, segment_index(frame));
        &&& self.pkt_length == frame.len() % 65536
        &&& self.action == action
        &&& self.ts == ts
        &&& self.flow_id == flow_id
        &&& self.ip_id == be16(ip, 4)
        &&& self.ip_frag == be16(ip, 6)
        &&& self.checksum == be16(ip, 10)
        &&& self.seq == be32(tcp, 4)
        &&& self.ack == be32(tcp, 8)
        &&& self.flags == tcp[13]
        &&& self.dataofs == tcp[12] / 16
    }
}

/// The lower 16 bits of a length.
fn short_length(n: usize) -> (short: u16)
    ensures
        short == n % 65536,
{
    (n % 65536) as u16
}

/// What is logged of `frame` in compact form: something for TCP segments over IPv4, and
/// nothing for all else.
pub fn log_compact(frame: &[u8], flow_id: u32, action: PktAction, ts: u32) -> (record: Option<
    TcpLogRecord,
>)
    ensures
        record is Some <==> is_tcp(frame@),
        record is Some ==> record->0.describes(frame@, flow_id, action, ts),
{
    match ether_hdr(frame) {
        Some(ether_type) => if ether_type != ETHERTYPE_IPV4 {
            return None;
        },
        None => return None,
    }
    let ip = match ip_hdr(frame) {
        Some(ip) => ip,
        None => return None,
    };
    let datagram: &[u8] = skip_bytes(frame, ETHERNET_HEADER_LENGTH);
    let ip_frag: u16 = (datagram[6] as u16) * 256 + (datagram[7] as u16);
    if ip.protocol != PROTOCOL_TCP {
        return None;
    }
    let segment: &[u8] = skip_bytes(frame, ETHERNET_HEADER_LENGTH + ip.length);
    match tcp_hdr(segment) {
        Some(tcp) => Some(
            TcpLogRecord {
                pkt_length: short_length(frame.len()),
                action,
                ts,
                flow_id,
                ip_id: ip.identification,
                ip_frag,
                checksum: ip.checksum,
                seq: tcp.sequence,
                ack: tcp.acknowledgment,
                flags: segment[13],
                dataofs: tcp.data_offset,
            },
        ),
        None => None,
    }
}

/// The lengths of the headers of a frame, layer by layer: link, network and transport, each
/// if it is there; nothing, if the frame cannot be read.
pub uninterp spec fn parsed_lengths(frame: Seq<u8>) -> Option<
    (Option<usize>, Option<usize>, Option<usize>),
>;

/// Reads all headers of a frame with `etherparse::PacketHeaders::from_ethernet_slice` and
/// returns what `header_len` gives for each layer. They are a function of the frame.
#[verifier::external_body]
fn header_lengths(frame: &[u8]) -> (lengths: Option<
    (Option<usize>, Option<usize>, Option<usize>),
>)
    ensures
        lengths == parsed_lengths(frame@),
{
    match etherparse::PacketHeaders::from_ethernet_slice(frame) {
        Ok(headers) => Some(
            (
                headers.link.map(|h| h.header_len()),
                headers.net.map(|h| h.header_len()),
                headers.transport.map(|h| h.header_len()),
            ),
        ),
        Err(_) => None,
    }
}

/// The part of a frame that `mode` keeps, where its headers have the given lengths: the
/// network and transport headers, or the transport header alone. Nothing is kept if a layer
/// is missing, or if the headers do not fit into the frame.
pub open spec fn kept_part(
    frame: Seq<u8>,
    mode: PacketLogMode,
    lengths: Option<(Option<usize>, Option<usize>, Option<usize>)>,
) -> Option<Seq<u8>> {
    match lengths {
        Some((Some(l2), Some(l3), Some(l4))) => {
            let end = l2 + l3 + l4;
            let start = if mode == PacketLogMode::RawIP {
                l2 as int
            } else {
                l2 + l3
            };
            if end <= frame.len() {
                Some(frame.subrange(start, end))
            } else {
                None
            }
        },
        _ => None,
    }
}

/// The part of a frame that `mode` keeps, where its headers have the given lengths.
pub fn raw_part(
    frame: &[u8],
    mode: PacketLogMode,
    lengths: Option<(Option<usize>, Option<usize>, Option<usize>)>,
) -> (raw: Option<Vec<u8>>)
    ensures
        match raw {
            Some(v) => kept_part(frame@, mode, lengths) == Some(v@),
            None => kept_part(frame@, mode, lengths) is None,
        },
{
    match lengths {
        Some((Some(l2), Some(l3), Some(l4))) => {
            let total: u128 = (l2 as u128) + (l3 as u128) + (l4 as u128);
            if total > frame.len() as u128 {
                return None;
            }
            let end: usize = l2 + l3 + l4;
            let start: usize = if mode == PacketLogMode::RawIP {
                l2
            } else {
                l2 + l3
            };
            let part: &[u8] = vstd::slice::slice_subrange(frame, start, end);
            Some(slice_to_vec(part))
        },
        _ => None,
    }
}

/// `op` is what is logged of a frame in `mode`.
pub open spec fn logged_as(
    mode: PacketLogMode,
    frame: Seq<u8>,
    flow_id: u32,
    action: PktAction,
    ts: u32,
    op: Option<LogOp>,
) -> bool {
    match mode {
        PacketLogMode::CompactTCP => {
            &&& op is Some <==> is_tcp(frame)
            &&& op is Some ==> op->0 is Entry && op->0->Entry_0.describes(
                frame,
                flow_id,
                action,
                ts,
            )
        },
        _ => {
            let part = kept_part(frame, mode, parsed_lengths(frame));
            &&& op is Some <==> part is Some
            &&& op is Some ==> {
                let record = op->0->RawEntry_0;
                &&& op->0 is RawEntry
                &&& record.pkt_length == frame.len() % 65536
                &&& record.action == action
                &&& record.ts == ts
                &&& record.mode == mode
                &&& record.raw@ == part->0
            }
        },
    }
}

/// What is logged of a frame at `clock`. Nothing is, unless logging is on and a mode is set.
pub fn log_packet(
    logging: bool,
    mode: Option<PacketLogMode>,
    frame: &[u8],
    flow_id: u32,
    action: PktAction,
    clock: i64,
    base_ts: i64,
) -> (op: Option<LogOp>)
    ensures
        !logging || mode is None ==> op is None,
        logging && mode is Some ==> logged_as(
            mode->0,
            frame@,
            flow_id,
            action,
            log_time(clock, base_ts),
            op,
        ),
{
    if !logging {
        return None;
    }
    let mode = match mode {
        Some(mode) => mode,
        None => return None,
    };
    let ts: u32 = log_timestamp(clock, base_ts);
    match mode {
        PacketLogMode::CompactTCP => match log_compact(frame, flow_id, action, ts) {
            Some(record) => Some(LogOp::Entry(record)),
            None => None,
        },
        _ => match raw_part(frame, mode, header_lengths(frame)) {
            Some(raw) => Some(
                LogOp::RawEntry(
                    RawLogRecord {
                        pkt_length: short_length(frame.len()),
                        action,
                        ts,
                        mode,
                        raw,
                    },
                ),
            ),
            None => None,
        },
    }
}

impl FlowMap {
    /// A packet of the flow `desc`, if it belongs to one, has been received: it is labelled
    /// with the number of its flow. What is logged of the flow, if it is a new one, and what
    /// is logged of the packet is returned.
    pub fn receive(
        &mut self,
        packet: &mut StdPacket,
        desc: Option<FlowDesc>,
        logging: bool,
        mode: Option<PacketLogMode>,
        clock: i64,
        base_ts: i64,
    ) -> (ops: (Option<LogOp>, Option<LogOp>))
        requires
            old(self).valid(),
        ensures
            final(self).valid(),
            final(self).base() == old(self).base(),
            final(packet).buf == old(packet).buf,
            final(packet).timestamp == old(packet).timestamp,
            match desc {
                Some(desc) => {
                    &&& final(self).flows() == old(self).flows_with(desc)
                    &&& final(packet).flow_id == old(self).number_of(desc)
                    &&& ops.0 == if logging && !old(self).flows().contains(desc) {
                        Some(
                            LogOp::Flow(
                                FlowLogRecord {
                                    flow_id: old(self).number_of(desc),
                                    base_ts,
                                    desc,
                                },
                            ),
                        )
                    } else {
                        None
                    }
                },
                None => {
                    &&& *final(self) == *old(self)
                    &&& final(packet).flow_id == old(packet).flow_id
                    &&& ops.0 is None
                },
            },
            !logging || mode is None ==> ops.1 is None,
            logging && mode is Some ==> logged_as(
                mode->0,
                old(packet).buf@,
                final(packet).flow_id,
                PktAction::Recv,
                log_time(clock, base_ts),
                ops.1,
            ),
    {
        let mut flow_op: Option<LogOp> = None;
        match desc {
            Some(desc) => {
                let (flow_id, is_new) = self.get_id(desc);
                if logging && is_new {
                    flow_op = Some(LogOp::Flow(FlowLogRecord { flow_id, base_ts, desc }));
                }
                packet.set_flow_id(flow_id);
            },
            None => {},
        }
        let packet_op = log_packet(
            logging,
            mode,
            packet.as_slice(),
            packet.flow_id,
            PktAction::Recv,
            clock,
            base_ts,
        );
        (flow_op, packet_op)
    }
}

#[derive(Debug, Clone, Copy)]
pub struct VirtualEthernetConfig {}

/// Where a virtual Ethernet device is configured. There is nothing to configure.
#[derive(Debug)]
pub struct VirtualEthernetControlInterface {
    pub config: VirtualEthernetConfig,
}

impl VirtualEthernetControlInterface {
    pub fn set_config(&self, config: VirtualEthernetConfig) -> (r: Result<(), Error>)
        ensures
            r is Ok,
    {
        Ok(())
    }
}

/// Namespace and place tell devices apart.
pub proof fn law_device_is_told_by_its_parts(a: VirtualEthernetId, b: VirtualEthernetId)
    ensures
        a.ns() == b.ns() && a.veth() == b.veth() <==> a.number() == b.number(),
        a.number() == a.ns() * 256 + a.veth(),
{
}

/// Different flows have different numbers, as long as there are fewer than 2^32 of them.
pub proof fn law_flow_numbers_are_unique(m: FlowMap, i: int, j: int)
    requires
        0 <= i < j < m.flows().len(),
        m.flows().len() <= 0x1_0000_0000,
    ensures
        m.id_of(i) != m.id_of(j),
{
}

/// A flow keeps its number: once it has been seen, it has the same number whatever flow is
/// seen next.
pub proof fn law_flow_keeps_its_number(
    before: FlowMap,
    after: FlowMap,
    seen: FlowDesc,
    desc: FlowDesc,
)
    requires
        before.valid(),
        after.valid(),
        after.base() == before.base(),
        after.flows() == before.flows_with(seen),
        desc == seen || before.flows().contains(desc),
    ensures
        after.flows().contains(desc),
        after.number_of(desc) == before.number_of(desc),
{
    if before.flows().contains(desc) {
        let k = before.flows().index_of(desc);
        assert(after.flows()[k] == desc);
        lemma_place_of_flow(after, desc, k);
    } else {
        assert(after.flows()[before.flows().len() as int] == desc);
        lemma_place_of_flow(after, desc, before.flows().len() as int);
    }
}

/// A flow is listed in one place.
proof fn lemma_place_of_flow(m: FlowMap, desc: FlowDesc, k: int)
    requires
        m.valid(),
        0 <= k < m.flows().len(),
        m.flows()[k] == desc,
    ensures
        m.flows().contains(desc),
        m.flows().index_of(desc) == k,
{
    let i = m.flows().index_of(desc);
    assert(m.flows()[i] == desc);
    assert(m.entries@[i].0 == m.entries@[k].0);
}

/// Flows are numbered in a row as they are first seen, from the number of the device on: a
/// flow that has not been seen gets the next number, and is listed from then on, behind the
/// others.
pub proof fn law_flows_are_numbered_in_a_row(m: FlowMap, desc: FlowDesc, k: int)
    requires
        m.valid(),
        k >= 0,
        m.base() <= u32::MAX,
    ensures
        m.id_of(0) == m.base(),
        m.id_of(k + 1) == if m.id_of(k) == u32::MAX {
            0
        } else {
            m.id_of(k) + 1
        },
        !m.flows().contains(desc) ==> m.number_of(desc) == m.id_of(m.flows().len() as int)
            && m.flows_with(desc) == m.flows().push(desc),
        m.flows().contains(desc) ==> m.flows_with(desc) == m.flows() && exists|i: int|
            0 <= i < m.flows().len() && #[trigger] m.flows()[i] == desc && m.number_of(desc)
                == m.id_of(i),
{
    if m.flows().contains(desc) {
        let i = m.flows().index_of(desc);
        assert(m.flows()[i] == desc);
    }
}

/// The log counts whole microseconds from its start, and stays at the ends of what it can
/// hold; it never goes back while the clock does not.
pub proof fn law_log_counts_microseconds(clock: i64, later: i64, base_ts: i64)
    requires
        clock <= later,
    ensures
        clock <= base_ts ==> log_time(clock, base_ts) == 0,
        clock > base_ts && log_time(clock, base_ts) < u32::MAX ==> 1000 * log_time(clock, base_ts)
            <= clock - base_ts < 1000 * (log_time(clock, base_ts) + 1),
        log_time(clock, base_ts) == u32::MAX ==> clock - base_ts >= 1000 * u32::MAX,
        log_time(clock, base_ts) <= log_time(later, base_ts),
{
}

/// What is kept of a frame are its network and transport headers, or the transport header
/// alone, as they are; nothing, unless all layers are there and fit into the frame.
pub proof fn law_headers_are_kept_as_they_are(
    frame: Seq<u8>,
    mode: PacketLogMode,
    l2: usize,
    l3: usize,
    l4: usize,
    i: int,
)
    requires
        mode != PacketLogMode::CompactTCP,
    ensures
        ({
            let part = kept_part(frame, mode, Some((Some(l2), Some(l3), Some(l4))));
            &&& part is Some <==> l2 + l3 + l4 <= frame.len()
            &&& part is Some && mode == PacketLogMode::RawIP ==> part->0.len() == l3 + l4 && (0
                <= i < l3 + l4 ==> part->0[i] == frame[l2 + i])
            &&& part is Some && mode == PacketLogMode::RawTCP ==> part->0.len() == l4 && (0 <= i
                < l4 ==> part->0[i] == frame[l2 + l3 + i])
        }),
        kept_part(frame, mode, None) is None,
        kept_part(frame, mode, Some((Some(l2), Some(l3), None))) is None,
        kept_part(frame, mode, Some((Some(l2), None, Some(l4)))) is None,
        kept_part(frame, mode, Some((None, Some(l3), Some(l4)))) is None,
{
}

/// A frame carries a TCP segment exactly if its type is that of IPv4, its protocol that of
/// TCP, and both headers are whole.
pub proof fn law_segment_is_told_by_its_headers(frame: Seq<u8>)
    ensures
        is_tcp(frame) ==> frame.len() >= 54 && frame[12] == 8 && frame[13] == 0 && frame[14] / 16
            == 4 && frame[23] == 6,
        is_tcp(frame) ==> frame.len() >= 14 + 4 * (frame[14] % 16) + 20,
        frame.len() >= 54 && frame[12] == 8 && frame[13] == 0 && frame[14] == 0x45 && frame[23]
            == 6 && frame[46] == 0x50 ==> is_tcp(frame),
{
    if frame.len() >= 14 {
        let ip = rest_after(frame, ETHERNET_HEADER_LENGTH as int);
        assert(ip.len() == frame.len() - 14);
        if ip.len() >= 20 {
            assert(ip[0] == frame[14] && ip[9] == frame[23]);
            let n = segment_index(frame);
            let tcp = rest_after(frame, n);
            if frame[14] == 0x45 && frame.len() >= 54 {
                assert(n == 34);
                assert(tcp[12] == frame[46]);
            }
        }
    }
}

/// What is logged of a segment is read from its frame: the header of IPv4 begins behind 14
/// bytes, and that of TCP behind the header of IPv4.
pub proof fn law_record_is_read_from_the_frame(
    record: TcpLogRecord,
    frame: Seq<u8>,
    flow_id: u32,
    action: PktAction,
    ts: u32,
)
    requires
        is_tcp(frame),
        record.describes(frame, flow_id, action, ts),
    ensures
        ({
            let t = 14 + 4 * (frame[14] % 16);
            &&& record.pkt_length == frame.len() % 65536
            &&& record.action == action && record.ts == ts && record.flow_id == flow_id
            &&& record.ip_id == frame[18] * 256 + frame[19]
            &&& record.ip_frag == frame[20] * 256 + frame[21]
            &&& record.checksum == frame[24] * 256 + frame[25]
            &&& record.seq == ((frame[t + 4] * 256 + frame[t + 5]) * 256 + frame[t + 6]) * 256
                + frame[t + 7]
            &&& record.ack == ((frame[t + 8] * 256 + frame[t + 9]) * 256 + frame[t + 10]) * 256
                + frame[t + 11]
            &&& record.flags == frame[t + 13]
            &&& record.dataofs == frame[t + 12] / 16
        }),
{
    let ip = rest_after(frame, ETHERNET_HEADER_LENGTH as int);
    let n = segment_index(frame);
    let tcp = rest_after(frame, n);
    assert(ip[0] == frame[14]);
    assert(n == 14 + 4 * (frame[14] % 16));
    assert(forall|i: int| 0 <= i < 20 ==> #[trigger] ip[i] == frame[14 + i]);
    assert(forall|i: int| 0 <= i < 20 ==> #[trigger] tcp[i] == frame[n + i]);
    assert(ip[4] == frame[18] && ip[5] == frame[19] && ip[6] == frame[20] && ip[7] == frame[21]);
    assert(ip[10] == frame[24] && ip[11] == frame[25]);
}

/// A flow is told by the addresses and ports in its frames, in this order: from where and to
/// where.
pub proof fn law_flow_is_read_from_the_frame(desc: FlowDesc, frame: Seq<u8>)
    requires
        is_tcp(frame),
        desc.read_from(frame),
    ensures
        ({
            let t = 14 + 4 * (frame[14] % 16);
            &&& desc.source == ((frame[26] * 256 + frame[27]) * 256 + frame[28]) * 256 + frame[29]
            &&& desc.destination == ((frame[30] * 256 + frame[31]) * 256 + frame[32]) * 256
                + frame[33]
            &&& desc.source_port == frame[t] * 256 + frame[t + 1]
            &&& desc.destination_port == frame[t + 2] * 256 + frame[t + 3]
        }),
{
    let ip = rest_after(frame, ETHERNET_HEADER_LENGTH as int);
    let n = segment_index(frame);
    let tcp = rest_after(frame, n);
    assert(ip[0] == frame[14]);
    assert(n == 14 + 4 * (frame[14] % 16));
    assert(forall|i: int| 0 <= i < 20 ==> #[trigger] ip[i] == frame[14 + i]);
    assert(forall|i: int| 0 <= i < 20 ==> #[trigger] tcp[i] == frame[n + i]);
    assert(ip[12] == frame[26] && ip[13] == frame[27] && ip[14] == frame[28] && ip[15]
        == frame[29]);
    assert(ip[16] == frame[30] && ip[17] == frame[31] && ip[18] == frame[32] && ip[19]
        == frame[33]);
    assert(tcp[0] == frame[n] && tcp[1] == frame[n + 1] && tcp[2] == frame[n + 2] && tcp[3]
        == frame[n + 3]);
}

/// Every mode logs what it is for: the compact one the segments of TCP and nothing else, the
/// others the headers that they keep.
pub proof fn law_mode_decides_what_is_logged(
    mode: PacketLogMode,
    frame: Seq<u8>,
    flow_id: u32,
    action: PktAction,
    ts: u32,
    op: Option<LogOp>,
)
    requires
        logged_as(mode, frame, flow_id, action, ts, op),
    ensures
        mode == PacketLogMode::CompactTCP ==> (op is Some <==> is_tcp(frame)),
        mode == PacketLogMode::CompactTCP && op is Some ==> op->0 is Entry
            && op->0->Entry_0.flow_id == flow_id && op->0->Entry_0.ts == ts
            && op->0->Entry_0.action == action,
        mode != PacketLogMode::CompactTCP && op is Some ==> op->0 is RawEntry && {
            let record = op->0->RawEntry_0;
            &&& record.mode == mode
            &&& record.ts == ts
            &&& record.action == action
            &&& record.pkt_length == frame.len() % 65536
            &&& kept_part(frame, mode, parsed_lengths(frame)) == Some(record.raw@)
        },
        mode != PacketLogMode::CompactTCP && op is None ==> kept_part(
            frame,
            mode,
            parsed_lengths(frame),
        ) is None,
{
}

} // verus!

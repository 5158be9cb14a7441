//! Explicit congestion notification in the IPv4 header of a frame.
use crate::headers::{
    be16, has_ethernet, has_ipv4, ip_hdr, ipv4_length, rest_after, ETHERNET_HEADER_LENGTH,
};
use crate::packet::RawPacket;
use vstd::prelude::*;

verus! {

/// Where the type of service is in a frame.
pub const TOS_INDEX: usize = 15;

/// Where the checksum of the IPv4 header is in a frame.
pub const CHECKSUM_INDEX: usize = 24;

/// Not capable of ECN.
pub const NOT_ECT: u8 = 0;

/// Congestion was experienced.
pub const CE: u8 = 3;

/// The frame carries an IPv4 packet.
pub open spec fn is_ip(frame: Seq<u8>) -> bool {
    has_ethernet(frame) && has_ipv4(rest_after(frame, ETHERNET_HEADER_LENGTH as int))
}

/// The ECN code point of a frame: 0 for not capable, 1 for ECT(1), 2 for ECT(0), 3 for
/// congestion experienced. A frame without an IPv4 header is not capable.
pub open spec fn code_point(frame: Seq<u8>) -> u8 {
    if is_ip(frame) {
        frame[TOS_INDEX as int] % 4
    } else {
        NOT_ECT
    }
}

/// Whether a mark changes the frame: it is capable of ECN and not marked yet.
pub open spec fn markable(frame: Seq<u8>) -> bool {
    code_point(frame) == 1 || code_point(frame) == 2
}

/// The sum of two 16-bit numbers in one's complement.
pub open spec fn ones_complement_sum(a: int, b: int) -> int {
    if a + b > 0xffff {
        a + b - 0xffff
    } else {
        a + b
    }
}

/// The checksum once the type of service has grown from ECT to congestion experienced.
pub open spec fn marked_checksum(frame: Seq<u8>) -> int {
    ones_complement_sum(
        be16(frame, CHECKSUM_INDEX as int),
        0xffff - (CE - code_point(frame)),
    )
}

/// The frame with congestion experienced, where it is capable of ECN; the header checksum
/// is brought up to date.
pub open spec fn ce_marked(frame: Seq<u8>) -> Seq<u8> {
    if markable(frame) {
        frame.update(
            TOS_INDEX as int,
            (frame[TOS_INDEX as int] + (CE - code_point(frame))) as u8,
        ).update(CHECKSUM_INDEX as int, (marked_checksum(frame) / 256) as u8).update(
            CHECKSUM_INDEX + 1,
            (marked_checksum(frame) % 256) as u8,
        )
    } else {
        frame
    }
}

/// `after` is `before` with congestion experienced, and the same otherwise.
pub open spec fn marked_as<P: RawPacket>(before: P, after: P) -> bool {
    &&& after.bytes() == ce_marked(before.bytes())
    &&& after.label() == before.label()
    &&& after.timestamp() == before.timestamp()
    &&& after.l3() == before.l3()
}

/// The ECN code point of a packet.
pub fn classify<P: RawPacket>(packet: &P) -> (ect: u8)
    ensures
        ect == code_point(packet.bytes()),
{
    match ip_hdr(packet.as_slice()) {
        Some(header) => header.ecn,
        None => NOT_ECT,
    }
}

/// Marks a packet with congestion experienced, if it is capable of ECN. Tells whether the
/// packet carries the mark now.
pub fn set_ce<P: RawPacket>(packet: &mut P) -> (marked: bool)
    ensures
        marked_as(*old(packet), *final(packet)),
        marked == (code_point(old(packet).bytes()) != NOT_ECT),
{
    let ghost frame = packet.bytes();
    let ect: u8 = classify(packet);
    if ect == NOT_ECT || ect == CE {
        return ect == CE;
    }
    let tos: u8 = packet.as_slice()[TOS_INDEX];
    packet.set_byte(TOS_INDEX, tos + (CE - ect));
    let high: u8 = packet.as_slice()[CHECKSUM_INDEX];
    let low: u8 = packet.as_slice()[CHECKSUM_INDEX + 1];
    let sum: u32 = (high as u32) * 256 + (low as u32) + (0xffff - ((CE - ect) as u32));
    let check: u32 = if sum > 0xffff {
        sum - 0xffff
    } else {
        sum
    };
    assert(check == marked_checksum(frame));
    packet.set_byte(CHECKSUM_INDEX, (check / 256) as u8);
    packet.set_byte(CHECKSUM_INDEX + 1, (check % 256) as u8);
    assert(packet.bytes() =~= ce_marked(frame));
    true
}

/// A packet and the ECN code point it came with.
#[derive(Debug)]
pub struct ControlBuffer<P> {
    pub ect: u8,
    pub packet: P,
}

impl<P: RawPacket> ControlBuffer<P> {
    pub fn new(packet: P) -> (b: Self)
        ensures
            b == (ControlBuffer { ect: code_point(packet.bytes()), packet }),
    {
        ControlBuffer { ect: classify(&packet), packet }
    }

    /// Marks the packet with congestion experienced, if it is capable of ECN. Tells whether
    /// the packet carries the mark now.
    pub fn set_ce(&mut self) -> (marked: bool)
        ensures
            marked_as(old(self).packet, final(self).packet),
            marked == (code_point(old(self).packet.bytes()) != NOT_ECT),
            final(self).ect == if markable(old(self).packet.bytes()) {
                CE
            } else {
                old(self).ect
            },
    {
        let ect: u8 = classify(&self.packet);
        let marked: bool = set_ce(&mut self.packet);
        if ect == 1 || ect == 2 {
            self.ect = CE;
        }
        marked
    }
}

/// The sum of the first `n` 16-bit words of the IPv4 header of a frame.
pub open spec fn word_sum(frame: Seq<u8>, n: nat) -> int
    decreases n,
{
    if n == 0 {
        0
    } else {
        word_sum(frame, (n - 1) as nat) + be16(
            frame,
            ETHERNET_HEADER_LENGTH + 2 * (n - 1),
        )
    }
}

/// The checksum of the IPv4 header of a frame is right: in one's complement, the words of
/// the header add up to zero.
pub open spec fn checksum_holds(frame: Seq<u8>) -> bool {
    word_sum(
        frame,
        (ipv4_length(rest_after(frame, ETHERNET_HEADER_LENGTH as int)) / 2) as nat,
    ) % 0xffff == 0
}

/// A mark changes the first and the sixth word of the header, and no other.
proof fn lemma_word_sum_marked(frame: Seq<u8>, n: nat)
    requires
        markable(frame),
        ETHERNET_HEADER_LENGTH + 2 * n <= frame.len(),
    ensures
        word_sum(ce_marked(frame), n) - word_sum(frame, n) == (if n > 0 {
            CE - code_point(frame)
        } else {
            0
        }) + (if n > 5 {
            marked_checksum(frame) - be16(frame, CHECKSUM_INDEX as int)
        } else {
            0
        }),
    decreases n,
{
    if n > 0 {
        lemma_word_sum_marked(frame, (n - 1) as nat);
        assert(0 <= marked_checksum(frame) <= 0xffff);
    }
}

/// Marking a frame keeps its header checksum right, and its length and its header length.
/// The marked frame reads as congestion experienced.
pub proof fn law_marking_keeps_the_checksum(frame: Seq<u8>)
    requires
        is_ip(frame),
    ensures
        is_ip(ce_marked(frame)),
        ce_marked(frame).len() == frame.len(),
        checksum_holds(ce_marked(frame)) == checksum_holds(frame),
        code_point(frame) != NOT_ECT ==> code_point(ce_marked(frame)) == CE,
        code_point(frame) == NOT_ECT ==> ce_marked(frame) == frame,
{
    let ip = rest_after(frame, ETHERNET_HEADER_LENGTH as int);
    let marked = rest_after(ce_marked(frame), ETHERNET_HEADER_LENGTH as int);
    assert(ip[0] == frame[14] && marked[0] == ce_marked(frame)[14]);
    assert(ce_marked(frame)[14] == frame[14]);
    if markable(frame) {
        lemma_word_sum_marked(frame, (ipv4_length(ip) / 2) as nat);
    }
}

/// Marking a frame twice is marking it once.
pub proof fn law_marking_twice_is_marking_once(frame: Seq<u8>)
    ensures
        ce_marked(ce_marked(frame)) == ce_marked(frame),
{
    if is_ip(frame) {
        law_marking_keeps_the_checksum(frame);
    }
}

/// The code point of an IPv4 frame are the two lower bits of its type of service. A mark sets
/// both of them, and apart from them and the header checksum it changes nothing in the frame.
pub proof fn law_mark_changes_the_code_point_only(frame: Seq<u8>, i: int)
    requires
        0 <= i < frame.len(),
        is_ip(frame),
    ensures
        code_point(frame) == frame[15] % 4,
        i != 15 && i != 24 && i != 25 ==> ce_marked(frame)[i] == frame[i],
        ce_marked(frame)[15] / 4 == frame[15] / 4,
        frame[15] % 4 == 0 ==> ce_marked(frame)[15] % 4 == 0,
        frame[15] % 4 != 0 ==> ce_marked(frame)[15] % 4 == 3,
        frame[15] % 4 == 0 || frame[15] % 4 == 3 ==> ce_marked(frame) == frame,
{
}

/// A frame that is no IPv4 packet is not capable, and stays as it is.
pub proof fn law_other_frames_are_not_capable(frame: Seq<u8>)
    requires
        frame.len() < 34 || frame[14] / 16 != 4,
    ensures
        code_point(frame) == 0,
        ce_marked(frame) == frame,
{
    if frame.len() >= 14 {
        let ip = rest_after(frame, ETHERNET_HEADER_LENGTH as int);
        assert(ip.len() == frame.len() - 14);
        if frame.len() >= 15 {
            assert(ip[0] == frame[14]);
        }
    }
}

} // verus!

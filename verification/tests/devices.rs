//! The queues of bandwidth devices: FQ-CoDel, PIE and DualPI2, and the marks they set.
use etherparse::PacketBuilder;
use rattan_core::cells::bandwidth::BwType;
use rattan_core::devices::bandwidth::queue::dual_pi2::{
    Chance, DualPI2ClassificationResult, DualPI2PacketControlBuffer, DualPI2Queue,
    DualPI2QueueConfig, ECNThreshHold, EcnCodePointMask,
};
use rattan_core::devices::bandwidth::queue::ecn::{classify, set_ce, ControlBuffer};
use rattan_core::devices::bandwidth::queue::fq_codel::{
    flow_index, FqCoDelFlowTuple, FqCoDelQueue, FqCoDelQueueConfig,
};
use rattan_core::devices::bandwidth::queue::pie::{PIEQueue, PIEQueueConfig};
use rattan_core::packet::StdPacket;
use rattan_core::time::{Duration, Instant, MILLISECOND};
use rand::rngs::StdRng;
use rand::{RngCore, SeedableRng};
use siphasher::sip::SipHasher13;

const MS: Instant = 1_000_000;

/// A UDP datagram from `port`, with an ECN code point and a total of `size` bytes after the
/// Ethernet header.
fn datagram(port: u16, ecn: u8, size: usize) -> StdPacket {
    let builder = PacketBuilder::ethernet2([1; 6], [2; 6])
        .ipv4([10, 0, 0, 1], [10, 0, 0, 2], 64)
        .udp(port, 443);
    let mut frame = vec![];
    builder.write(&mut frame, &vec![0; size - 28]).unwrap();
    frame[15] |= ecn;
    let mut packet = StdPacket::from_raw_buffer(frame, 0);
    fix_checksum(&mut packet);
    packet
}

fn word_sum(packet: &StdPacket) -> u32 {
    packet.buf[14..34].chunks(2).map(|w| w[0] as u32 * 256 + w[1] as u32).sum()
}

fn fix_checksum(packet: &mut StdPacket) {
    packet.buf[24] = 0;
    packet.buf[25] = 0;
    let sum = word_sum(packet) % 0xffff;
    let check = 0xffff - sum as u16;
    packet.buf[24..26].copy_from_slice(&check.to_be_bytes());
}

fn checksum_holds(packet: &StdPacket) -> bool {
    word_sum(packet) % 0xffff == 0
}

fn law(interval: Duration, count: u32) -> Duration {
    (interval as f64 / (count as f64).sqrt()) as u128
}

#[test]
fn marks_keep_the_checksum() {
    for ecn in [1, 2] {
        for port in 0..50 {
            let mut packet = datagram(port, ecn, 100 + port as usize);
            assert!(checksum_holds(&packet));
            assert_eq!(classify(&packet), ecn);
            assert!(set_ce(&mut packet));
            assert_eq!(classify(&packet), 3);
            assert!(checksum_holds(&packet));
            let once = packet.buf.clone();
            assert!(set_ce(&mut packet));
            assert_eq!(packet.buf, once);
        }
    }
    let mut packet = datagram(1, 0, 100);
    let before = packet.buf.clone();
    assert!(!set_ce(&mut packet));
    assert_eq!(packet.buf, before);
    let mut short = StdPacket::from_raw_buffer(vec![0xff; 20], 0);
    assert!(!set_ce(&mut short));
    let mut buffer = ControlBuffer::new(datagram(1, 2, 100));
    assert_eq!(buffer.ect, 2);
    assert!(buffer.set_ce());
    assert_eq!(buffer.ect, 3);
}

#[test]
fn a_flow_is_told_by_addresses_and_ports() {
    let tuple = FqCoDelFlowTuple::new(&datagram(0x1234, 0, 100)).into_bytes();
    assert_eq!(tuple, [10, 0, 0, 1, 10, 0, 0, 2, 0x12, 0x34, 0x01, 0xbb, 4]);
    let other = FqCoDelFlowTuple::new(&StdPacket::from_raw_buffer(vec![1; 30], 0)).into_bytes();
    assert_eq!(other, [0; 13]);
    assert_eq!(flow_index(0, 1024), 0);
    assert_eq!(flow_index(0xffff_ffff, 1024), 1023);
    assert_eq!(flow_index(0xdead_beef_8000_0000, 1024), 512);
}

fn fq(config: FqCoDelQueueConfig) -> FqCoDelQueue<StdPacket, fn(Duration, u32) -> Duration> {
    FqCoDelQueue::new(config, 0, law)
}

fn port_of(packet: &StdPacket) -> u16 {
    u16::from_be_bytes([packet.buf[34], packet.buf[35]])
}

#[test]
fn flows_take_turns() {
    let mut queue = fq(FqCoDelQueueConfig::default());
    // The hashes are given, so that the flows are different ones.
    for _ in 0..4 {
        queue.enqueue_hashed(datagram(1, 0, 1500), 0, 0);
    }
    for _ in 0..2 {
        queue.enqueue_hashed(datagram(2, 0, 1500), 0xffff_ffff, 0);
    }
    let order: Vec<u16> =
        std::iter::from_fn(|| queue.dequeue(MS)).map(|p| port_of(&p)).collect();
    assert_eq!(order, vec![1, 2, 1, 2, 1, 1]);
}

#[test]
fn packets_of_a_flow_stay_together() {
    let mut queue = fq(FqCoDelQueueConfig::default());
    for i in 0..6u16 {
        queue.enqueue(datagram(100 + i % 2, 0, 300), i as i128);
    }
    let mut last = [0, 0];
    let mut count = 0;
    while let Some(p) = queue.dequeue(MS) {
        let flow = (port_of(&p) - 100) as usize;
        assert!(p.timestamp >= last[flow]);
        last[flow] = p.timestamp;
        count += 1;
    }
    assert_eq!(count, 6);
}

#[test]
fn a_full_queue_sheds_the_fattest_flow() {
    let config = FqCoDelQueueConfig {
        packet_limit: Some(10),
        drop_batch_size: 3,
        ..FqCoDelQueueConfig::default()
    };
    let mut queue = fq(config);
    for _ in 0..8 {
        queue.enqueue_hashed(datagram(1, 0, 1000), 0, 0);
    }
    for _ in 0..2 {
        queue.enqueue_hashed(datagram(2, 0, 1000), 0xffff_ffff, 0);
    }
    // The packet is lost, and a batch of the fattest flow with it.
    queue.enqueue_hashed(datagram(3, 0, 1000), 0x8000_0000, 0);
    let mut left = [0; 4];
    while let Some(p) = queue.dequeue(MS) {
        left[port_of(&p) as usize] += 1;
    }
    assert_eq!(left, [0, 5, 2, 0]);
}

#[test]
fn codel_works_on_each_flow() {
    let mut queue = fq(FqCoDelQueueConfig { use_ecn: false, ..FqCoDelQueueConfig::default() });
    for _ in 0..10 {
        queue.enqueue_hashed(datagram(1, 0, 1000), 0, 0);
    }
    assert!(queue.dequeue(10 * MS).is_some());
    assert!(queue.dequeue(110 * MS).is_some());
    let mut left = 0;
    while queue.dequeue(110 * MS).is_some() {
        left += 1;
    }
    // One packet was dropped.
    assert_eq!(left, 7);
    queue.configure(FqCoDelQueueConfig::default());
    assert!(queue.dequeue(111 * MS).is_none());
}

#[test]
fn pie_lets_a_burst_through() {
    let mut queue: PIEQueue<StdPacket> = PIEQueue::new(PIEQueueConfig::default(), 0);
    for _ in 0..50 {
        assert!(queue.arrival_prob(&datagram(1, 0, 1500), 0).is_none());
        queue.enqueue_rolled(datagram(1, 0, 1500), true, 0);
    }
    let mut left = 0;
    while queue.dequeue(MS).is_some() {
        left += 1;
    }
    assert_eq!(left, 50);
}

#[test]
fn pie_keeps_its_limits() {
    let config = PIEQueueConfig {
        packet_limit: Some(3),
        byte_limit: Some(2500),
        ..PIEQueueConfig::default()
    };
    let mut queue: PIEQueue<StdPacket> = PIEQueue::new(config, 0);
    for size in [1000, 1000, 1000, 400, 100] {
        queue.enqueue(datagram(1, 0, size), 0);
    }
    let sizes: Vec<usize> =
        std::iter::from_fn(|| queue.dequeue(MS)).map(|p| p.buf.len() - 14).collect();
    assert_eq!(sizes, vec![1000, 1000, 400]);
}

/// Runs a PIE queue that gets packets twice as fast as it can send them.
fn overloaded(config: PIEQueueConfig, ecn: u8) -> (usize, usize) {
    let mut queue: PIEQueue<StdPacket> = PIEQueue::new(config, 0);
    let mut sent = 0;
    let mut marked = 0;
    for i in 0..4000i128 {
        let now = i * MS / 2;
        queue.enqueue(datagram(1, ecn, 1500), now);
        if i % 2 == 1 {
            if let Some(p) = queue.dequeue(now) {
                sent += 1;
                if classify(&p) == 3 {
                    assert!(checksum_holds(&p));
                    marked += 1;
                }
            }
        }
    }
    let mut left = 0;
    while queue.dequeue(2000 * MS).is_some() {
        left += 1;
    }
    (sent + left, marked)
}

#[test]
fn pie_drops_under_load() {
    let (passed, marked) = overloaded(PIEQueueConfig::default(), 2);
    assert!(passed < 4000);
    assert_eq!(marked, 0);
    let (passed, marked) =
        overloaded(PIEQueueConfig { use_ecn: true, ..PIEQueueConfig::default() }, 2);
    assert!(passed <= 4000);
    assert!(marked > 0);
}

#[test]
fn gains_are_scaled() {
    let config = PIEQueueConfig::new(
        None,
        None,
        1500,
        15 * MILLISECOND,
        15 * MILLISECOND,
        2,
        20,
        false,
        false,
        false,
        BwType::NetworkLayer,
    );
    assert_eq!(config.alpha, PIEQueueConfig::scale_alpha_beta(2));
    assert_eq!(config.beta, PIEQueueConfig::scale_alpha_beta(20));
    assert!(config.beta >= 10 * config.alpha);
    assert!(DualPI2QueueConfig::scale_alpha_beta(41) < DualPI2QueueConfig::scale_alpha_beta(819));
}

#[test]
fn masks_select_code_points() {
    assert_eq!(EcnCodePointMask::NoECN.value(), 0);
    assert_eq!(EcnCodePointMask::L4SECT.value(), 1);
    assert_eq!(EcnCodePointMask::AnyECT.value(), 3);
    let class = |mask: &EcnCodePointMask, ecn| {
        let mut b = DualPI2PacketControlBuffer::new(datagram(1, ecn, 100));
        b.classify(mask);
        b.is_l4s()
    };
    let classes: Vec<bool> =
        (0..4).map(|ecn| class(&EcnCodePointMask::L4SECT, ecn)).collect();
    assert_eq!(classes, vec![false, true, false, true]);
    assert!(!class(&EcnCodePointMask::NoECN, 3));
    assert!(class(&EcnCodePointMask::AnyECT, 2));
    assert!(matches!(
        DualPI2ClassificationResult::from_number(0),
        DualPI2ClassificationResult::Classic
    ));
}

#[test]
fn a_short_dual_queue_keeps_its_packets() {
    let mut queue: DualPI2Queue<StdPacket> = DualPI2Queue::new(DualPI2QueueConfig::default(), 0);
    for ecn in [0, 1, 2, 1, 0] {
        assert!(matches!(queue.arrival_chance(&datagram(1, ecn, 100), 0), Chance::Never));
        queue.enqueue(datagram(1, ecn, 100), 0);
    }
    let mut left = 0;
    while queue.dequeue(0).is_some() {
        left += 1;
    }
    assert_eq!(left, 5);
}

#[test]
fn a_dual_queue_has_limits() {
    let config =
        DualPI2QueueConfig { packet_limit: Some(2), ..DualPI2QueueConfig::default() };
    let mut queue: DualPI2Queue<StdPacket> = DualPI2Queue::new(config, 0);
    for _ in 0..4 {
        queue.enqueue(datagram(1, 0, 100), 0);
    }
    assert!(queue.dequeue(0).is_some());
    assert!(queue.dequeue(0).is_some());
    assert!(queue.dequeue(0).is_none());
}

#[test]
fn low_latency_packets_are_marked_by_their_delay() {
    let config = DualPI2QueueConfig {
        ecn_thresh: ECNThreshHold::Delay(MILLISECOND),
        ..DualPI2QueueConfig::default()
    };
    let mut queue: DualPI2Queue<StdPacket> = DualPI2Queue::new(config, 0);
    for _ in 0..3 {
        queue.enqueue(datagram(1, 1, 1500), 0);
    }
    let early = queue.dequeue(MS / 2).unwrap();
    assert_eq!(classify(&early), 1);
    // Only a packet that found others waiting is marked for its delay.
    let second = queue.dequeue(5 * MS).unwrap();
    assert_eq!(classify(&second), 1);
    let third = queue.dequeue(5 * MS).unwrap();
    assert_eq!(classify(&third), 3);
    assert!(checksum_holds(&third));
}

#[test]
fn a_dual_queue_controls_its_delay() {
    let mut queue: DualPI2Queue<StdPacket> = DualPI2Queue::new(DualPI2QueueConfig::default(), 0);
    let mut passed = 0;
    for i in 0..6000i128 {
        let now = i * MS / 2;
        queue.enqueue(datagram(1, 0, 1500), now);
        if i % 2 == 1 && queue.dequeue(now).is_some() {
            passed += 1;
        }
    }
    while queue.dequeue(3000 * MS).is_some() {
        passed += 1;
    }
    assert!(passed < 6000);
    assert!(passed > 2000);
}

#[test]
fn flows_are_hashed_under_a_seeded_key() {
    let mut rng = StdRng::seed_from_u64(42);
    let (first, second) = (rng.next_u64(), rng.next_u64());
    let hasher = SipHasher13::new_with_keys(second, first);
    let mut by_packet = fq(FqCoDelQueueConfig::default());
    let mut by_hash = fq(FqCoDelQueueConfig::default());
    for i in 0..200u16 {
        let packet = datagram(i % 7, 0, 1500);
        let hash = hasher.hash(&FqCoDelFlowTuple::new(&packet).into_bytes());
        by_hash.enqueue_hashed(packet, hash, 0);
        by_packet.enqueue(datagram(i % 7, 0, 1500), 0);
    }
    for _ in 0..201 {
        let ports = [by_packet.dequeue(MS), by_hash.dequeue(MS)].map(|p| p.map(|p| port_of(&p)));
        assert_eq!(ports[0], ports[1]);
    }
}

#[test]
fn pie_draws_from_a_seeded_generator() {
    let mut rng = StdRng::seed_from_u64(42);
    let config = || PIEQueueConfig { packet_limit: None, ..PIEQueueConfig::default() };
    let mut queue: PIEQueue<StdPacket> = PIEQueue::new(config(), 0);
    let mut shown: PIEQueue<StdPacket> = PIEQueue::new(config(), 0);
    let (mut draws, mut hits) = (0, 0);
    for i in 0..4000i128 {
        let now = i * MS / 2;
        queue.enqueue(datagram(1, 0, 1500), now);
        let packet = datagram(1, 0, 1500);
        let rolled = match shown.arrival_prob(&packet, now) {
            Some(prob) => {
                draws += 1;
                (rng.next_u64() >> 8) < prob
            }
            None => false,
        };
        hits += rolled as usize;
        shown.enqueue_rolled(packet, rolled, now);
        if i % 2 == 1 {
            assert_eq!(queue.dequeue(now).is_some(), shown.dequeue(now).is_some());
        }
    }
    assert!(0 < hits && hits < draws);
    let left = |queue: &mut PIEQueue<StdPacket>| {
        std::iter::from_fn(|| queue.dequeue(2000 * MS)).count()
    };
    assert_eq!(left(&mut queue), left(&mut shown));
}

#[test]
fn a_dual_queue_draws_from_a_seeded_generator() {
    let mut rng = StdRng::seed_from_u64(42);
    let config = || DualPI2QueueConfig { drop_early: true, ..DualPI2QueueConfig::default() };
    let mut queue: DualPI2Queue<StdPacket> = DualPI2Queue::new(config(), 0);
    let mut shown: DualPI2Queue<StdPacket> = DualPI2Queue::new(config(), 0);
    let (mut draws, mut hits) = (0, 0);
    for i in 0..6000i128 {
        let now = i * MS / 2;
        queue.enqueue(datagram(1, 0, 1500), now);
        let packet = datagram(1, 0, 1500);
        let chance = shown.arrival_chance(&packet, now);
        draws += (chance != Chance::Never) as usize;
        let rolled = match chance {
            Chance::Never => false,
            Chance::Once(prob) => rng.next_u32() <= prob,
            Chance::Twice(prob) => rng.next_u32() <= prob && rng.next_u32() <= prob,
        };
        hits += rolled as usize;
        shown.enqueue_rolled(packet, rolled, now);
        if i % 2 == 1 {
            assert_eq!(queue.dequeue(now).is_some(), shown.dequeue(now).is_some());
        }
    }
    assert!(0 < hits && hits < draws);
    let left = |queue: &mut DualPI2Queue<StdPacket>| {
        std::iter::from_fn(|| queue.dequeue(3000 * MS)).count()
    };
    assert_eq!(left(&mut queue), left(&mut shown));
}

//! Links of limited rate and the queues behind them.
use rattan_core::cells::bandwidth::link::{transfer_time, LinkAction};
use rattan_core::cells::bandwidth::queue::{
    CoDelQueue, CoDelQueueConfig, DropHeadQueue, DropHeadQueueConfig, DropTailQueue,
    DropTailQueueConfig, InfiniteQueue, InfiniteQueueConfig, PacketQueue, AQM,
};
use rattan_core::cells::bandwidth::{
    BwCellConfig, BwCellControlInterface, BwCellEgress, BwReplayCellConfig,
    BwReplayCellControlInterface, BwReplayCellEgress, BwType, MAX_BANDWIDTH,
};
use rattan_core::cells::CellState;
use rattan_core::error::Error;
use rattan_core::packet::{Packet, StdPacket};
use rattan_core::time::{Duration, Instant, LARGE_DURATION, MILLISECOND};
use std::cell::{Cell, RefCell};

const MS: Instant = 1_000_000;

fn packet(number: u8, size: usize, timestamp: Instant) -> StdPacket {
    StdPacket::from_raw_buffer(vec![number; size], timestamp)
}

fn transfer(bits: u64, bandwidth: u64) -> Duration {
    bits as u128 * 1_000_000_000 / bandwidth as u128
}

fn rescale(d: Duration, rates: (u64, u64)) -> Duration {
    d * rates.0 as u128 / rates.1 as u128
}

fn law(interval: Duration, count: u32) -> Duration {
    (interval as f64 / (count as f64).sqrt()) as u128
}

/// What a packet was, when it was sent and when it left.
#[derive(Debug, PartialEq)]
struct Received {
    number: u8,
    delay: Instant,
    at: Instant,
}

/// Sends packets of 270 bytes at a pace, and collects what leaves the cell.
fn paced<Q, T, S>(
    egress: &mut BwCellEgress<StdPacket, Q, T, S>,
    count: u8,
    interval: Instant,
    start: Instant,
    expected: usize,
) -> Vec<Received>
where
    Q: PacketQueue<StdPacket>,
    T: Fn(u64, u64) -> Duration,
    S: Fn(Duration, (u64, u64)) -> Duration,
{
    let mut received = vec![];
    let mut sent: u8 = 0;
    let mut now: Instant = start - 10 * MS;
    while received.len() < expected {
        let wake = egress.wake_time(now);
        let next = start + sent as Instant * interval;
        let action = if sent < count && next <= wake {
            now = now.max(next);
            sent += 1;
            egress.on_packet(Some(packet(sent - 1, 256 + 14, next)), now)
        } else {
            now = now.max(wake);
            egress.on_timer(wake, now)
        };
        if let LinkAction::Return(Some(p)) = action {
            let number = p.buf[0];
            let came = start + number as Instant * interval;
            received.push(Received { number, delay: p.get_timestamp() - came, at: now - start });
        }
    }
    received
}

#[test]
fn test_send_interval() {
    // A packet of 256 bytes after its Ethernet header takes 80 ms.
    for interval in [50i128, 80, 90] {
        let queue = InfiniteQueue::new(InfiniteQueueConfig {});
        let mut egress = BwCellEgress::new(
            Some(25600),
            queue,
            Some(BwType::NetworkLayer),
            0,
            transfer,
            rescale,
        );
        egress.change_state(CellState::Normal);
        let received = paced(&mut egress, 16, interval * MS, 10 * MS, 16);
        for (i, r) in received.iter().enumerate() {
            let i = i as i128;
            assert_eq!(r.number as i128, i);
            assert_eq!(r.delay, (80 + i * (80 - interval).max(0)) * MS);
            let expected = 80 * (i + 1) + (interval - 80).max(0) * i;
            assert!((r.at - expected * MS).abs() <= MS);
        }
    }
}

#[test]
fn zero_buffer_bw() {
    let queue = DropTailQueue::new(DropTailQueueConfig::new(None, Some(0), BwType::NetworkLayer));
    let mut egress =
        BwCellEgress::new(Some(25600), queue, Some(BwType::NetworkLayer), 0, transfer, rescale);
    egress.change_state(CellState::Normal);
    let received = paced(&mut egress, 16, 25 * MS, 10 * MS, 4);
    for (i, r) in received.iter().enumerate() {
        assert_eq!(r.number as usize, i * 4);
        assert_eq!(r.delay, 80 * MS);
        let expected = (100 * (i as i128 + 1) - 10) * MS;
        assert!((r.at + 10 * MS - expected).abs() <= MS);
    }
}

#[test]
fn zero_buffer_bw_replay() {
    let queue = DropTailQueue::new(DropTailQueueConfig::new(None, Some(0), BwType::NetworkLayer));
    let mut egress = BwReplayCellEgress::<StdPacket, _, _, _>::new(
        queue,
        Some(BwType::NetworkLayer),
        0,
        transfer,
        rescale,
    );
    egress.reset(0);
    egress.change_state(CellState::Normal);
    let mut trace = vec![(25600u64, 400 * MILLISECOND), (12800, 40_000 * MILLISECOND)].into_iter();
    let start: Instant = 10 * MS;
    let interval: Instant = 50 * MS;
    let mut expecting =
        vec![(0u8, 80i128), (2, 80), (4, 80), (6, 80), (8, 160), (12, 160)].into_iter();
    let mut left = 6;
    let mut sent: u8 = 0;
    let mut now: Instant = 0;
    while left > 0 {
        let next = start + sent as Instant * interval;
        let wake = egress.wake_time(now);
        let change = egress.change_time();
        let sleep = match (wake, change) {
            (Some(w), Some(c)) => w.min(c),
            (Some(w), None) => w,
            (None, Some(c)) => c,
            (None, None) => unreachable!(),
        };
        let action = if sent < 16 && next < sleep {
            now = now.max(next);
            sent += 1;
            egress.on_packet(Some(packet(sent - 1, 256 + 14, next)), now)
        } else if change == Some(sleep) {
            now = now.max(sleep);
            assert!(egress.update_bw(trace.next(), sleep, now));
            LinkAction::Wait
        } else {
            now = now.max(sleep);
            egress.on_timer(sleep, now)
        };
        if let LinkAction::Return(Some(p)) = action {
            let (number, delay) = expecting.next().unwrap();
            let came = start + number as Instant * interval;
            assert_eq!(p.buf[0], number);
            assert_eq!(p.get_timestamp() - came, delay * MS);
            assert!((now - came - delay * MS).abs() <= MS);
            left -= 1;
        }
    }
}

#[test]
fn packets_leave_one_after_the_other() {
    let queue = InfiniteQueue::new(InfiniteQueueConfig {});
    let mut egress = BwCellEgress::new(Some(25600), queue, None, 0, transfer, rescale);
    egress.change_state(CellState::Normal);
    let received = paced(&mut egress, 16, MS, 10 * MS, 16);
    for pair in received.windows(2) {
        let left = |r: &Received| r.number as Instant * MS + r.delay;
        assert!(left(&pair[0]) + 80 * MS <= left(&pair[1]));
    }
}

#[test]
fn a_link_obeys_its_state() {
    let queue = InfiniteQueue::new(InfiniteQueueConfig {});
    let mut egress = BwCellEgress::new(Some(25600), queue, None, 0, transfer, rescale);
    assert!(matches!(egress.on_packet(Some(packet(1, 270, 0)), 0), LinkAction::Return(None)));
    egress.change_state(CellState::PassThrough);
    match egress.on_packet(Some(packet(2, 270, 5)), 5) {
        LinkAction::Return(Some(p)) => assert_eq!((p.buf[0], p.get_timestamp()), (2, 5)),
        _ => panic!("the packet is passed through"),
    }
    assert!(matches!(egress.on_packet(None, 5), LinkAction::Wait));
}

#[test]
fn an_idle_link_ends_with_its_source() {
    let queue = InfiniteQueue::new(InfiniteQueueConfig {});
    let mut egress =
        BwCellEgress::<StdPacket, _, _, _>::new(Some(25600), queue, None, 0, transfer, rescale);
    egress.change_state(CellState::Normal);
    assert!(matches!(egress.on_timer(0, 0), LinkAction::Wait));
    assert_eq!(egress.wake_time(7), 7 + LARGE_DURATION as i128);
    assert!(matches!(egress.on_packet(None, 8), LinkAction::Return(None)));
}

#[test]
fn a_new_rate_applies_to_the_packet_on_the_wire() {
    let queue = InfiniteQueue::new(InfiniteQueueConfig {});
    let mut egress = BwCellEgress::new(Some(25600), queue, None, 0, transfer, rescale);
    egress.change_state(CellState::Normal);
    assert!(matches!(egress.on_packet(Some(packet(1, 270, 0)), 0), LinkAction::Return(None)));
    assert_eq!(egress.wake_time(0), 80 * MS);
    // Half of the packet is left, at half the rate.
    egress.set_config(BwCellConfig::new(Some(12800), None, None), 40 * MS);
    assert_eq!(egress.wake_time(40 * MS), 120 * MS);
}

#[test]
fn link_layer_counts_the_frame() {
    assert_eq!(BwType::NetworkLayer.extra_length(), 0);
    assert_eq!(BwType::LinkLayer.extra_length(), 38);
    assert_eq!(transfer_time(&transfer, 256, 25600, BwType::NetworkLayer), 80 * MILLISECOND);
    assert_eq!(transfer_time(&transfer, 256, 1000, BwType::LinkLayer), 2352 * MILLISECOND);
    assert_eq!(transfer_time(&transfer, 256, 0, BwType::NetworkLayer), LARGE_DURATION);
}

#[test]
fn bandwidth_is_checked_before_it_is_handed_on() {
    let taken = RefCell::new(vec![]);
    let control = BwCellControlInterface {
        send: |config: BwCellConfig<InfiniteQueueConfig>| {
            taken.borrow_mut().push(config.bandwidth);
            true
        },
    };
    assert!(control.set_config(BwCellConfig::new(Some(100), None, None)).is_ok());
    match control.set_config(BwCellConfig::new(None, None, None)) {
        Err(Error::ConfigError(message)) => assert_eq!(
            message,
            "At least one of bandwidth, queue_config and bw_type should be set"
        ),
        _ => panic!("there is nothing to set"),
    }
    match control.set_config(BwCellConfig::new(Some(MAX_BANDWIDTH + 1), None, None)) {
        Err(Error::ConfigError(message)) => {
            assert_eq!(message, "Bandwidth should be less than 2^64 bps")
        }
        _ => panic!("the bandwidth is too high"),
    }
    assert_eq!(*taken.borrow(), vec![Some(100)]);
    let closed = BwCellControlInterface { send: |_: BwCellConfig<InfiniteQueueConfig>| false };
    match closed.set_config(BwCellConfig::new(Some(100), None, None)) {
        Err(Error::ConfigError(message)) => assert_eq!(message, "Control channel is closed."),
        _ => panic!("nobody takes the configuration"),
    }
}

#[test]
fn a_replay_is_configured_in_the_same_way() {
    let handed_on = Cell::new(0);
    let control = BwReplayCellControlInterface {
        send: |config: BwReplayCellConfig<InfiniteQueueConfig>| {
            handed_on.set(handed_on.get() + 1);
            config.trace.is_some()
        },
    };
    assert!(control
        .set_config(BwReplayCellConfig::new(Some(Some((100, MILLISECOND))), None, None))
        .is_ok());
    assert!(control
        .set_config(BwReplayCellConfig::new(None, None, Some(BwType::LinkLayer)))
        .is_err());
    match control.set_config(BwReplayCellConfig::new(None, None, None)) {
        Err(Error::ConfigError(message)) => assert_eq!(
            message,
            "At least one of bandwidth, queue_config and bw_type should be set"
        ),
        _ => panic!("there is nothing to set"),
    }
    assert_eq!(handed_on.get(), 2);
}

#[test]
fn a_replay_without_steps_drops() {
    let queue = InfiniteQueue::new(InfiniteQueueConfig {});
    let mut egress = BwReplayCellEgress::new(queue, None, 0, transfer, rescale);
    egress.change_state(CellState::PassThrough);
    egress.set_config(BwReplayCellConfig::new(Some(None), None, None), 5);
    assert!(matches!(egress.on_packet(Some(packet(1, 270, 5)), 5), LinkAction::Return(None)));
    assert!(!egress.update_bw(None, 9, 9));
}

#[test]
fn drop_tail_drops_what_does_not_fit() {
    let mut queue =
        DropTailQueue::new(DropTailQueueConfig::new(Some(3), Some(500), BwType::NetworkLayer));
    queue.enqueue(packet(0, 214, 0));
    queue.enqueue(packet(1, 214, 0));
    // 400 bytes are queued, and 200 more would be too many.
    queue.enqueue(packet(2, 214, 0));
    assert_eq!(queue.length(), 2);
    queue.enqueue(packet(3, 24, 0));
    assert_eq!(queue.length(), 3);
    queue.enqueue(packet(4, 24, 0));
    assert_eq!(queue.length(), 3);
    assert_eq!(queue.get_front_size(), Some(200));
    let order: Vec<u8> =
        std::iter::from_fn(|| queue.dequeue_at(0).map(|p: StdPacket| p.buf[0])).collect();
    assert_eq!(order, vec![0, 1, 3]);
    assert!(queue.is_empty());
}

#[test]
fn drop_tail_retains_what_it_is_told_to() {
    let mut queue =
        DropTailQueue::new(DropTailQueueConfig::new(None, Some(700), BwType::NetworkLayer));
    for i in 0..3 {
        queue.enqueue(packet(i, 214, 0));
    }
    queue.retain(|p: &StdPacket| p.buf[0] != 1);
    assert_eq!(queue.length(), 2);
    // The bytes of the packet that is gone are free again.
    queue.enqueue(packet(7, 314, 0));
    let order: Vec<u8> =
        std::iter::from_fn(|| queue.dequeue_at(0).map(|p: StdPacket| p.buf[0])).collect();
    assert_eq!(order, vec![0, 2, 7]);
}

#[test]
fn drop_head_keeps_the_newest() {
    let mut queue =
        DropHeadQueue::new(DropHeadQueueConfig::new(Some(3), Some(500), BwType::NetworkLayer));
    for i in 0..3 {
        queue.enqueue(packet(i, 214, 0));
    }
    // 600 bytes are too many: one packet goes.
    assert_eq!(queue.length(), 2);
    queue.enqueue(packet(3, 414, 0));
    // 800 bytes are too many: two go.
    let order: Vec<u8> =
        std::iter::from_fn(|| queue.dequeue_at(0).map(|p: StdPacket| p.buf[0])).collect();
    assert_eq!(order, vec![3]);
}

#[test]
fn codel_drops_after_an_interval_above_target() {
    let mut queue: CoDelQueue<StdPacket, _> =
        CoDelQueue::new(CoDelQueueConfig::default(), 0, law);
    for i in 0..40 {
        queue.enqueue(packet(i, 1014, 0));
    }
    // Below the target nothing happens.
    assert_eq!(queue.dequeue_at(4 * MS).map(|p| p.buf[0]), Some(0));
    // Above it, packets are still handed out for an interval.
    assert_eq!(queue.dequeue_at(10 * MS).map(|p| p.buf[0]), Some(1));
    assert_eq!(queue.dequeue_at(109 * MS).map(|p| p.buf[0]), Some(2));
    // Then one is dropped, and the next one an interval later.
    assert_eq!(queue.dequeue_at(110 * MS).map(|p| p.buf[0]), Some(3));
    assert_eq!(queue.length(), 35);
    assert_eq!(queue.dequeue_at(209 * MS).map(|p| p.buf[0]), Some(5));
    assert_eq!(queue.dequeue_at(210 * MS).map(|p| p.buf[0]), Some(7));
    // With the second drop the spacing shrinks to 100 ms / sqrt(2).
    assert_eq!(queue.dequeue_at(280 * MS).map(|p| p.buf[0]), Some(8));
    assert_eq!(queue.dequeue_at(281 * MS).map(|p| p.buf[0]), Some(10));
}

#[test]
fn codel_has_limits_too() {
    let mut queue: CoDelQueue<StdPacket, _> = CoDelQueue::new(
        CoDelQueueConfig::new(Some(2), None, 1, 1, 1500, BwType::NetworkLayer),
        0,
        law,
    );
    for i in 0..3 {
        queue.enqueue(packet(i, 114, 0));
    }
    assert_eq!(queue.length(), 2);
    assert!(!queue.is_zero_buffer());
    queue.configure(CoDelQueueConfig::new(None, Some(0), 1, 1, 1500, BwType::LinkLayer));
    assert!(queue.is_zero_buffer());
    assert_eq!(queue.get_front_size(), Some(138));
}

#[test]
fn packets_enter_the_queue_by_their_timestamps() {
    let queue = DropTailQueue::new(DropTailQueueConfig::new(Some(1), None, BwType::NetworkLayer));
    let mut aqm: AQM<_, StdPacket> = AQM::new(queue);
    assert!(aqm.need_more_packets(0));
    assert!(aqm.enqueue(packet(1, 100, 10)).is_none());
    assert!(aqm.enqueue(packet(2, 100, 20)).is_none());
    assert!(aqm.need_more_packets(20));
    assert!(!aqm.need_more_packets(19));
    assert_eq!(aqm.next_call_time(0), 10);
    assert!(aqm.dequeue_at(9).is_none());
    assert_eq!(aqm.dequeue_at(10).map(|p| p.buf[0]), Some(1));
    assert!(aqm.dequeue_at(19).is_none());
    assert_eq!(aqm.dequeue_at(20).map(|p| p.buf[0]), Some(2));
    assert_eq!(aqm.next_call_time(20), 20 + LARGE_DURATION as i128);
}

#[test]
fn codel_always_hands_a_packet_out() {
    let mut queue: CoDelQueue<StdPacket, _> =
        CoDelQueue::new(CoDelQueueConfig::default(), 0, law);
    for number in 0..200 {
        queue.enqueue(packet(number, 1514, 0));
    }
    let mut now = 100 * MS;
    let mut handed = 0;
    while !queue.is_empty() {
        assert!(queue.dequeue_at(now).is_some());
        handed += 1;
        now += 40 * MS;
    }
    assert!(handed < 200);
    assert!(queue.dequeue_at(now).is_none());
}

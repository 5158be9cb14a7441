//! RED and PIE: queues that drop at random before they are full.
use rattan_core::cells::bandwidth::queue::pie::{Measurement, PieQueue, PieQueueConfig};
use rattan_core::cells::bandwidth::queue::red::{
    AverageUpdate, Configured, RedQueue, RedQueueConfig, Zone,
};
use rattan_core::cells::bandwidth::BwType;
use rattan_core::number::Real;
use rattan_core::packet::{Packet, StdPacket};
use rattan_core::time::{Instant, MILLISECOND, SECOND};

const MS: Instant = 1_000_000;

fn packet_at(timestamp: Instant) -> StdPacket {
    StdPacket::from_raw_buffer(vec![0; 114], timestamp)
}

fn create_packet(size: usize) -> StdPacket {
    StdPacket::from_raw_buffer(vec![0u8; size], 0)
}

/// The part of PIE that is computed in floating point.
struct Pie {
    queue: PieQueue<StdPacket>,
    ref_del: f64,
    p: f64,
    burst_allowance: f64,
    old_del: f64,
    avg_drate: f64,
}

impl Pie {
    fn new(config: PieQueueConfig) -> Pie {
        Pie {
            queue: PieQueue::new(config).unwrap(),
            ref_del: 0.015,
            p: 0.0,
            burst_allowance: 0.15,
            old_del: 0.0,
            avg_drate: 0.0,
        }
    }

    fn update_drop_probability(&mut self, backlog: usize) {
        let cur_del =
            if self.avg_drate > 0.0 { backlog as f64 / self.avg_drate } else { 0.0 };
        let mut increment =
            0.125 * (cur_del - self.ref_del) + 1.25 * (cur_del - self.old_del);
        if self.p < 0.000001 {
            increment /= 2048.0;
        }
        self.p += increment;
        self.old_del = cur_del;
    }

    fn enqueue(&mut self, packet: StdPacket) {
        let (update, pending) = self.queue.on_arrival(packet);
        if update {
            let backlog = self.queue.backlog();
            self.update_drop_probability(backlog);
        }
        let bursting = self.burst_allowance > 0.0;
        let calm = self.old_del < self.ref_del / 2.0 && self.p < 0.2;
        let rolled = self.queue.needs_draw(&pending, bursting, calm) && self.p >= 1.0;
        self.queue.enqueue(pending, bursting, calm, rolled);
    }

    fn dequeue_at(&mut self, t: Instant) -> Option<StdPacket> {
        let (packet, measurement) = self.queue.dequeue_at(t);
        if let Some(m) = measurement {
            let rate = m.bytes as f64 / (m.interval as f64 / 1e9);
            self.avg_drate =
                if self.avg_drate > 0.0 { 0.9 * self.avg_drate + 0.1 * rate } else { rate };
        }
        packet
    }
}

#[test]
fn test_pie_queue_basic() {
    let mut pie = Pie::new(PieQueueConfig::default());
    assert!(pie.queue.is_empty());
    pie.enqueue(create_packet(500));
    assert!(!pie.queue.is_empty());
    assert_eq!(pie.queue.length(), 1);
    assert!(pie.dequeue_at(0).is_some());
    assert!(pie.queue.is_empty());
}

#[test]
fn test_pie_queue_hard_limit_packet() {
    let mut pie =
        Pie::new(PieQueueConfig { packet_limit: Some(2), ..PieQueueConfig::default() });
    pie.enqueue(create_packet(100));
    pie.enqueue(create_packet(100));
    assert_eq!(pie.queue.length(), 2);
    pie.enqueue(create_packet(100));
    assert_eq!(pie.queue.length(), 2);
}

#[test]
fn test_pie_queue_hard_limit_byte() {
    let mut pie =
        Pie::new(PieQueueConfig { byte_limit: Some(150), ..PieQueueConfig::default() });
    pie.enqueue(create_packet(100));
    assert_eq!(pie.queue.length(), 1);
    pie.enqueue(create_packet(100));
    assert_eq!(pie.queue.length(), 1);
}

#[test]
fn test_pie_queue_burst_allowance() {
    let mut pie = Pie::new(PieQueueConfig::default());
    pie.p = 1.0;
    pie.burst_allowance = 100.0;
    pie.enqueue(create_packet(1500));
    assert_eq!(pie.queue.length(), 1);
    pie.enqueue(create_packet(1500));
    pie.enqueue(create_packet(1500));
    assert_eq!(pie.queue.length(), 3);
    pie.burst_allowance = 0.0;
    pie.enqueue(create_packet(1500));
    assert_eq!(pie.queue.length(), 3);
}

#[test]
fn test_pie_queue_work_conserving() {
    let mut pie = Pie::new(PieQueueConfig::default());
    pie.p = 1.0;
    pie.burst_allowance = 0.0;
    pie.enqueue(create_packet(1500));
    assert_eq!(pie.queue.length(), 1);
    pie.enqueue(create_packet(1500));
    assert_eq!(pie.queue.length(), 2);
    pie.enqueue(create_packet(1500));
    assert_eq!(pie.queue.length(), 3);
    pie.enqueue(create_packet(1500));
    assert_eq!(pie.queue.length(), 3);
    pie.p = 0.15;
    pie.old_del = pie.ref_del / 3.0;
    pie.enqueue(create_packet(1500));
    assert_eq!(pie.queue.length(), 4);
}

#[test]
fn test_pie_queue_avg_drate_update() {
    let mut pie = Pie::new(PieQueueConfig::default());
    pie.enqueue(create_packet(10014));
    pie.enqueue(create_packet(10014));
    pie.enqueue(create_packet(10014));
    assert_eq!(pie.queue.backlog(), 30000);
    assert!(!pie.queue.is_measuring());
    let first = 5 * MS;
    pie.dequeue_at(first);
    assert!(pie.queue.is_measuring());
    assert_eq!(pie.queue.backlog(), 20000);
    let mut second = create_packet(10014);
    second.delay_until(first + 10 * MS);
    pie.enqueue(second);
    pie.dequeue_at(first + 10 * MS);
    assert!(pie.avg_drate > 0.0);
    assert!(!pie.queue.is_measuring());
}

#[test]
fn test_pie_queue_update_drop_probability() {
    let mut pie = Pie::new(PieQueueConfig::default());
    pie.avg_drate = 1000.0;
    pie.old_del = 50.0;
    pie.burst_allowance = 1000.0;
    pie.enqueue(create_packet(100014));
    assert_eq!(pie.queue.backlog(), 100000);
    let expected = (0.125 * (100.0 - 0.015) + 1.25 * (100.0 - 50.0)) / 2048.0;
    let mut packet = create_packet(14);
    packet.delay_until(16 * MS);
    pie.enqueue(packet);
    assert!((pie.p - expected).abs() < f64::EPSILON);
}

#[test]
fn pie_updates_once_per_arrival_on_a_grid() {
    let mut queue: PieQueue<StdPacket> = PieQueue::new(PieQueueConfig::default()).unwrap();
    assert!(!queue.on_arrival(packet_at(0)).0);
    assert!(!queue.on_arrival(packet_at(14 * MS)).0);
    // Three intervals have gone by: they are caught up with one by one.
    assert!(queue.on_arrival(packet_at(47 * MS)).0);
    assert!(queue.on_arrival(packet_at(47 * MS)).0);
    assert!(queue.on_arrival(packet_at(47 * MS)).0);
    assert!(!queue.on_arrival(packet_at(47 * MS)).0);
    assert!(queue.on_arrival(packet_at(60 * MS)).0);
}

#[test]
fn pie_measures_what_leaves() {
    let mut queue: PieQueue<StdPacket> = PieQueue::new(PieQueueConfig::default()).unwrap();
    for _ in 0..4 {
        let (_, pending) = queue.on_arrival(create_packet(10014));
        queue.enqueue(pending, true, false, false);
    }
    assert_eq!(queue.dequeue_at(0).1.is_none(), true);
    match queue.dequeue_at(8 * MS).1 {
        Some(Measurement { bytes, interval }) => {
            assert_eq!((bytes, interval), (20000, 8 * MILLISECOND))
        }
        None => panic!("a cycle is complete"),
    }
}

#[test]
fn pie_refuses_what_is_not_positive() {
    let bad = PieQueueConfig { ref_del: Real::Zero, ..PieQueueConfig::default() };
    assert!(bad.validate().is_err());
    assert!(PieQueue::<StdPacket>::new(bad).is_err());
    let bad = PieQueueConfig { max_burst: Real::Negative, ..PieQueueConfig::default() };
    assert!(bad.validate().is_err());
    let bad = PieQueueConfig { t_update: 0, ..PieQueueConfig::default() };
    assert!(bad.validate().is_err());
    assert!(PieQueueConfig::default().validate().is_ok());
    let mut queue: PieQueue<StdPacket> = PieQueue::new(PieQueueConfig::default()).unwrap();
    assert!(matches!(queue.configure(bad), Configured::Discarded(_)));
    assert!(!queue.is_zero_buffer());
}

/// The part of RED that is computed in floating point.
struct Red {
    queue: RedQueue<StdPacket>,
    min_th: f64,
    max_th: f64,
    max_p: f64,
    average: f64,
    state: u64,
}

impl Red {
    /// A queue whose average follows its length at once.
    fn new(config: RedQueueConfig, max_p: f64) -> Red {
        let min_th = config.min_th as f64;
        let max_th = config.max_th as f64;
        Red { queue: RedQueue::new(config).unwrap(), min_th, max_th, max_p, average: 0.0, state: 42 }
    }

    fn draw(&mut self) -> f64 {
        self.state = self.state.wrapping_mul(6364136223846793005).wrapping_add(1442695040888963407);
        (self.state >> 11) as f64 / (1u64 << 53) as f64
    }

    fn enqueue(&mut self, packet: StdPacket) {
        let (arrival, pending) = self.queue.on_arrival(packet);
        if let AverageUpdate::Blend(bytes) = arrival.average {
            self.average = bytes as f64;
        }
        if arrival.adapt {
            let span = self.max_th - self.min_th;
            if self.average > self.min_th + 0.6 * span && self.max_p <= 0.5 {
                self.max_p += (self.max_p / 4.0).min(0.01);
            } else if self.average < self.min_th + 0.4 * span && self.max_p >= 0.01 {
                self.max_p *= 0.9;
            }
        }
        let zone = if self.average < self.min_th {
            Zone::Below
        } else if self.average >= self.max_th {
            Zone::Above
        } else {
            Zone::Between
        };
        let rolled = match self.queue.draw_for(&pending, zone) {
            Some(count) => {
                let p_b =
                    self.max_p * (self.average - self.min_th) / (self.max_th - self.min_th);
                let rest = 1.0 - count as f64 * p_b;
                let p_a = if rest > 0.0 { (p_b / rest).min(1.0) } else { 1.0 };
                self.draw() < p_a
            }
            None => false,
        };
        self.queue.enqueue(pending, zone, rolled);
    }
}

fn thresholds(min_th: usize, max_th: usize) -> RedQueueConfig {
    RedQueueConfig::default().with_min_th(min_th).with_max_th(max_th)
}

#[test]
fn test_red_queue_basic() {
    let mut red = Red::new(thresholds(1000, 2000), 0.02);
    assert!(red.queue.is_empty());
    red.enqueue(create_packet(500));
    assert!(!red.queue.is_empty());
    assert_eq!(red.queue.length(), 1);
    assert!(red.queue.dequeue_at(0).is_some());
    assert!(red.queue.is_empty());
}

#[test]
fn test_red_queue_hard_limit_packet() {
    let mut red = Red::new(thresholds(100000, 200000).with_packet_limit(2), 0.02);
    red.enqueue(create_packet(100));
    red.enqueue(create_packet(100));
    assert_eq!(red.queue.length(), 2);
    red.enqueue(create_packet(100));
    assert_eq!(red.queue.length(), 2);
}

#[test]
fn test_red_queue_hard_limit_byte() {
    let mut red = Red::new(thresholds(100000, 200000).with_byte_limit(150), 0.02);
    red.enqueue(create_packet(100));
    assert_eq!(red.queue.length(), 1);
    red.enqueue(create_packet(100));
    assert_eq!(red.queue.length(), 1);
}

#[test]
fn test_red_queue_max_th_drop() {
    let mut red = Red::new(thresholds(100, 200).with_w_q(Real::UpToOne), 0.02);
    red.enqueue(create_packet(100));
    red.enqueue(create_packet(300));
    let before = red.queue.length();
    red.enqueue(create_packet(100));
    assert_eq!(red.queue.length(), before);
}

#[test]
fn test_red_queue_min_th_no_drop() {
    let mut red = Red::new(thresholds(1000, 2000).with_w_q(Real::UpToOne), 0.02);
    red.enqueue(create_packet(514));
    assert_eq!(red.queue.length(), 1);
    red.enqueue(create_packet(414));
    assert_eq!(red.queue.length(), 2);
    assert_eq!(red.queue.count_since_drop(), -1);
}

#[test]
fn test_red_queue_probabilistic_drop() {
    let mut red = Red::new(thresholds(100, 300), 0.5);
    red.enqueue(create_packet(214));
    assert_eq!(red.queue.length(), 1);
    let mut drop_count = 0;
    let total_packets = 1000;
    for _ in 0..total_packets {
        let before = red.queue.length();
        red.enqueue(create_packet(14));
        if red.queue.length() == before {
            drop_count += 1;
        }
    }
    let p_b = 0.25;
    let expected_drop_rate = (2.0 * p_b) / (1.0 + p_b);
    let expected_drop_count = (total_packets as f64 * expected_drop_rate) as usize;
    let std_dev = (total_packets as f64 * expected_drop_rate * (1.0 - expected_drop_rate)).sqrt();
    let margin = (3.0 * std_dev) as usize;
    assert!(drop_count >= expected_drop_count.saturating_sub(margin));
    assert!(drop_count <= expected_drop_count + margin);
    assert!(drop_count > 0);
    assert!(drop_count < total_packets);
}

#[test]
fn test_red_queue_adaptive_max_p_increase() {
    let mut red = Red::new(thresholds(100, 200).with_adaptive(true), 0.02);
    red.enqueue(create_packet(194));
    assert_eq!(red.average, 0.0);
    red.enqueue(create_packet(14));
    assert_eq!(red.average, 180.0);
    let mut third = create_packet(14);
    third.delay_until(600 * MS);
    let before = red.max_p;
    red.enqueue(third);
    assert!(red.max_p > before);
}

#[test]
fn test_red_queue_adaptive_max_p_decrease() {
    let mut red = Red::new(thresholds(100, 200).with_adaptive(true), 0.05);
    red.enqueue(create_packet(134));
    assert_eq!(red.average, 0.0);
    red.enqueue(create_packet(14));
    assert_eq!(red.average, 120.0);
    let mut third = create_packet(14);
    third.delay_until(600 * MS);
    let before = red.max_p;
    red.enqueue(third);
    assert!(red.max_p < before);
}

#[test]
fn red_adapts_once_per_arrival_on_a_grid() {
    let mut queue: RedQueue<StdPacket> =
        RedQueue::new(thresholds(100, 200).with_adaptive(true)).unwrap();
    assert!(!queue.on_arrival(packet_at(0)).0.adapt);
    assert!(!queue.on_arrival(packet_at(499 * MS)).0.adapt);
    assert!(queue.on_arrival(packet_at(1100 * MS)).0.adapt);
    assert!(queue.on_arrival(packet_at(1100 * MS)).0.adapt);
    assert!(!queue.on_arrival(packet_at(1100 * MS)).0.adapt);
    assert!(queue.on_arrival(packet_at(1500 * MS)).0.adapt);
}

#[test]
fn red_lets_the_average_decay_while_idle() {
    let mut queue: RedQueue<StdPacket> = RedQueue::new(thresholds(100, 200)).unwrap();
    let (arrival, first) = queue.on_arrival(create_packet(114));
    assert!(matches!(arrival.average, AverageUpdate::Keep));
    queue.enqueue(first, Zone::Below, false);
    assert!(matches!(queue.on_arrival(packet_at(1)).0.average, AverageUpdate::Blend(100)));
    assert!(queue.dequeue_at(2 * MS).is_some());
    match queue.on_arrival(packet_at(2 * MS + SECOND as i128)).0.average {
        AverageUpdate::Decay(d) => assert_eq!(d, SECOND),
        _ => panic!("the queue has been idle"),
    }
}

#[test]
fn red_refuses_what_makes_no_sense() {
    let good = thresholds(100, 200);
    assert!(good.validate().is_ok());
    assert!(good.with_w_q(Real::AboveOne).validate().is_err());
    assert!(good.with_w_q(Real::Zero).validate().is_err());
    assert!(good.with_max_p(Real::Negative).validate().is_err());
    assert!(good.with_min_th(200).validate().is_err());
    assert!(good.with_pkt_tx_time(Real::NotFinite).validate().is_err());
    assert!(RedQueue::<StdPacket>::new(good.with_min_th(200)).is_err());
    let mut queue: RedQueue<StdPacket> = RedQueue::new(good).unwrap();
    assert!(matches!(queue.configure(good.with_min_th(200)), Configured::Discarded(_)));
    assert!(matches!(queue.configure(good), Configured::Taken { reseed: false }));
    assert!(matches!(queue.configure(good.with_seed(7)), Configured::Taken { reseed: true }));
    let wide = good.with_seed(7).with_bw_type(BwType::LinkLayer);
    assert!(matches!(queue.configure(wide), Configured::Taken { reseed: false }));
    assert_eq!(queue.get_extra_length(), 38);
}

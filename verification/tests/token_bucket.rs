//! Token buckets, and the cells that send by them.
use rattan_core::cells::token_bucket::bucket::{Token, TokenBucket};
use rattan_core::cells::token_bucket::polled;
use rattan_core::cells::token_bucket::{
    TokenAction, TokenBucketCellConfig, TokenBucketCellControlInterface, TokenBucketCellEgress,
};
use rattan_core::cells::CellState;
use rattan_core::error::Error;
use rattan_core::packet::{Packet, StdPacket};
use rattan_core::time::{Duration, Instant, MILLISECOND};
use std::cell::Cell;
use std::collections::VecDeque;

const MS: Instant = 1_000_000;
const MEGABIT: u128 = 1_000_000;
const KILOBYTE: u64 = 1000;

/// The time that a number of bytes takes.
fn timing(bytes: u64, rate: u128) -> Duration {
    bytes as u128 * 8 * 1_000_000_000 / rate
}

fn rescale(d: Duration, rates: (u128, u128)) -> Duration {
    d * rates.0 / rates.1
}

fn packet(size: usize, timestamp: Instant, flow_id: u32) -> StdPacket {
    let mut p = StdPacket::from_raw_buffer(vec![0; size], timestamp);
    p.set_flow_id(flow_id);
    p
}

fn use_2(a: &mut TokenBucket, b: &mut TokenBucket, size: u64) -> Option<u64> {
    let token_a: Option<Token> = a.reserve(size, &timing);
    let token_b: Option<Token> = b.reserve(size, &timing);
    if let (Some(token_a), Some(token_b)) = (token_a, token_b) {
        a.consume(token_a);
        b.consume(token_b);
        Some(size)
    } else {
        None
    }
}

#[test]
fn test_two_token_buckets() {
    let start: Instant = 0;
    let kb = KILOBYTE;
    let mut small = TokenBucket::new(60 * kb, 16 * MEGABIT, start, &timing);
    let mut large = TokenBucket::new(80 * kb, 8 * MEGABIT, start, &timing);
    assert_eq!(use_2(&mut small, &mut large, 50 * kb), Some(50 * kb));
    assert_eq!(small.next_available(40 * kb, &timing) - start, 15 * MS);
    assert_eq!(large.next_available(40 * kb, &timing) - start, 10 * MS);
    // Nothing happens if one of the buckets is not available.
    assert_eq!(use_2(&mut small, &mut large, 50 * kb), None);
    assert_eq!(small.next_available(40 * kb, &timing) - start, 15 * MS);
    assert_eq!(large.next_available(40 * kb, &timing) - start, 10 * MS);
    let time = start + 13 * MS;
    small.update(time);
    large.update(time);
    assert_eq!(small.next_available(40 * kb, &timing) - time, 2 * MS);
    assert_eq!((large.next_available(40 * kb, &timing) - time).max(0), 0);
}

#[test]
fn test_token_bucket() {
    let start: Instant = 0;
    let kb = KILOBYTE;
    let mut bucket = TokenBucket::new(10 * kb, MEGABIT, start, &timing);
    let token = bucket.reserve(5 * kb, &timing).unwrap();
    assert_eq!(token.send_time, 40 * MILLISECOND);
    bucket.consume(token);

    let time = start + 8 * MS;
    assert_eq!(bucket.next_available(6 * kb, &timing), time);
    assert!(bucket.reserve(6 * kb, &timing).is_none());
    bucket.update(time - 4 * MS);
    assert_eq!(bucket.next_available(6 * kb, &timing), time);
    assert!(bucket.reserve(6 * kb, &timing).is_none());
    bucket.update(time);
    assert_eq!(bucket.next_available(6 * kb, &timing), time);
    assert!(bucket
        .reserve(6 * kb, &timing)
        .is_some_and(|t| t.send_time == 48 * MILLISECOND));

    bucket.change_config(20 * kb, 500_000, time, &timing, &rescale);
    assert_eq!(bucket.next_available(6 * kb, &timing), time);
    assert!(bucket
        .reserve(6 * kb, &timing)
        .is_some_and(|t| t.send_time == 96 * MILLISECOND));
    assert_eq!(bucket.next_available(16 * kb, &timing), time + 160 * MS);

    // With room for 4 kB only, the bucket is full.
    bucket.change_config(4 * kb, MEGABIT, time, &timing, &rescale);
    assert_eq!(bucket.next_available(4 * kb, &timing), time);
    let token = bucket.reserve(3 * kb, &timing).unwrap();
    assert_eq!(token.send_time, 24 * MILLISECOND);
    bucket.consume(token);
    assert_eq!(bucket.next_available(3 * kb, &timing), time + 16 * MS);

    let time = time + 1_000_000 * MS;
    bucket.update(time);
    let token = bucket.reserve(3 * kb, &timing).unwrap();
    assert_eq!(token.send_time, 24 * MILLISECOND);
    bucket.consume(token);
    assert_eq!(bucket.next_available(3 * kb, &timing), time + 16 * MS);
}

#[test]
fn a_bucket_is_ready_no_sooner_than_it_says() {
    let mut bucket = TokenBucket::new(1000, 8000, 0, &timing);
    let token = bucket.reserve(1000, &timing).unwrap();
    bucket.consume(token);
    let ready = bucket.next_available(250, &timing);
    assert_eq!(ready, 250 * MS);
    bucket.update(ready - 1);
    assert!(bucket.reserve(250, &timing).is_none());
    bucket.update(ready);
    assert!(bucket.reserve(250, &timing).is_some());
    // Updating in two steps is updating in one.
    let mut other = TokenBucket::new(1000, 8000, 0, &timing);
    let token = other.reserve(1000, &timing).unwrap();
    other.consume(token);
    other.update(ready);
    assert_eq!(bucket.next_available(900, &timing), other.next_available(900, &timing));
}

fn config(
    limit: Option<usize>,
    rate: Option<u128>,
    burst: Option<u64>,
    peakrate: Option<u128>,
    minburst: Option<u64>,
) -> TokenBucketCellConfig {
    TokenBucketCellConfig::new(limit, rate, burst, peakrate, minburst)
}

type Egress = TokenBucketCellEgress<StdPacket, fn(u64, u128) -> Duration>;

fn cell(c: TokenBucketCellConfig, now: Instant) -> Egress {
    let mut egress: Egress = TokenBucketCellEgress::new(c, now, timing);
    egress.reset(now);
    egress.change_state(CellState::Normal);
    egress
}

/// Waits for a packet to leave: what has come is taken first.
fn receive(egress: &mut Egress, inbox: &mut VecDeque<StdPacket>, now: &mut Instant) -> StdPacket {
    loop {
        let action = match inbox.pop_front() {
            Some(p) => egress.on_packet(Some(p)),
            None => {
                *now = (*now).max(egress.wake_time());
                egress.on_timer(*now)
            }
        };
        if let TokenAction::Return(Some(p)) = action {
            return p;
        }
    }
}

/// The delays of packets of which each is sent a while after the last one was received.
fn get_delays(number: usize, size: usize, c: TokenBucketCellConfig, pause: Instant) -> Vec<Instant> {
    let mut now: Instant = 0;
    let mut egress = cell(c, now);
    let mut inbox = VecDeque::new();
    let mut sent = 10 * MS;
    let mut delays = vec![];
    for _ in 0..number {
        now = now.max(sent);
        inbox.push_back(packet(size, sent, 0));
        let p = receive(&mut egress, &mut inbox, &mut now);
        assert_eq!(p.length(), size);
        assert_eq!(p.get_timestamp(), now);
        delays.push(p.get_timestamp() - sent);
        sent = p.get_timestamp() + pause;
    }
    delays
}

#[test]
fn mod_test_token_bucket_cell_basic() {
    let c = config(Some(1024), Some(4096), Some(512), None, None);
    let delays = get_delays(8, 256 + 14, c, 10 * MS);
    let expected: Vec<Instant> =
        vec![0, 0, 480 * MS, 490 * MS, 490 * MS, 490 * MS, 490 * MS, 490 * MS];
    assert_eq!(delays, expected);
}

#[test]
fn mod_test_token_bucket_cell_prate_low() {
    let c = config(Some(1024), Some(8192), Some(1024), Some(4096), Some(128));
    let delays = get_delays(5, 128 + 14, c, 10 * MS);
    assert_eq!(delays, vec![0, 240 * MS, 240 * MS, 240 * MS, 240 * MS]);
}

#[test]
fn mod_test_token_bucket_cell_prate_high() {
    let c = config(Some(1024), Some(4096), Some(512), Some(8192), Some(256));
    let delays = get_delays(5, 128 + 14, c, 10 * MS);
    assert_eq!(delays, vec![0, 0, 105 * MS, 115 * MS, 115 * MS]);
}

fn burst_delays(
    egress: &mut Egress,
    number: usize,
    size: usize,
    sent: Instant,
    now: &mut Instant,
) -> Vec<Instant> {
    let mut inbox: VecDeque<StdPacket> = (0..number).map(|i| packet(size, sent, i as u32)).collect();
    *now = (*now).max(sent);
    (0..number)
        .map(|i| {
            let p = receive(egress, &mut inbox, now);
            assert_eq!(p.length(), size);
            assert_eq!(p.get_flow_id(), i as u32);
            p.get_timestamp() - sent
        })
        .collect()
}

#[test]
fn mod_test_token_bucket_cell_config_update_down() {
    let mut now: Instant = 0;
    let mut egress = cell(config(Some(1024), Some(4096), Some(512), None, None), now);
    let delays = burst_delays(&mut egress, 4, 256 + 14, 10 * MS, &mut now);
    assert_eq!(delays, vec![0, 0, 500 * MS, 1000 * MS]);
    egress.set_config(config(None, Some(2048), Some(512), None, None), now);
    let sent = now + 10 * MS;
    let delays = burst_delays(&mut egress, 4, 256 + 14, sent, &mut now);
    assert_eq!(delays, vec![0, 0, 1000 * MS, 2000 * MS]);
}

#[test]
fn mod_test_token_bucket_cell_config_update_up() {
    let mut now: Instant = 0;
    let mut egress = cell(config(Some(1024), Some(2048), Some(256), None, None), now);
    let delays = burst_delays(&mut egress, 4, 256 + 14, 10 * MS, &mut now);
    assert_eq!(delays, vec![0, 1000 * MS, 2000 * MS, 3000 * MS]);
    egress.set_config(config(None, Some(4096), Some(256), None, None), now);
    let sent = now + 10 * MS;
    let delays = burst_delays(&mut egress, 4, 256 + 14, sent, &mut now);
    assert_eq!(delays, vec![0, 500 * MS, 1000 * MS, 1500 * MS]);
}

fn near(t: Instant, milliseconds: f64) -> bool {
    (t as f64 / 1e6 - milliseconds).abs() <= 1.0
}

#[test]
fn mod_test_token_bucket_cell_queue() {
    let mut now: Instant = 0;
    let mut egress = cell(config(Some(1024), Some(4096), Some(512), None, None), now);
    let mut inbox: VecDeque<StdPacket> = (0..5).map(|i| packet(256, 0, i)).collect();
    let mut received = vec![false; 5];
    let mut delays = vec![];
    for _ in 0..4 {
        let start = now;
        let p = receive(&mut egress, &mut inbox, &mut now);
        delays.push(now - start);
        received[p.get_flow_id() as usize] = true;
        assert_eq!(p.length(), 256);
    }
    assert!(near(delays[0], 0.0));
    assert!(near(delays[1], 0.0));
    assert!(near(delays[2], 417.875));
    assert!(near(delays[3], 472.65625));
    assert_eq!(received, vec![true, true, true, true, false]);
}

#[test]
fn mod_test_token_bucket_cell_burst() {
    let mut now: Instant = 0;
    let mut egress = cell(config(Some(1024), Some(4096), Some(512), None, None), now);
    let mut delays = burst_delays(&mut egress, 5, 128, 0, &mut now);
    let sent = now + 1000 * MS;
    delays.extend(burst_delays(&mut egress, 5, 128, sent, &mut now));
    let last: Instant = 113_281_250;
    assert_eq!(delays, vec![0, 0, 0, 0, last, 0, 0, 0, 0, last]);
}

#[test]
fn mod_test_token_bucket_cell_max_size() {
    let mut now: Instant = 0;
    let mut egress = cell(config(None, Some(4096), Some(512), None, None), now);
    let mut inbox = VecDeque::new();
    inbox.push_back(packet(1024, 0, 0));
    inbox.push_back(packet(512, 0, 1));
    let p = receive(&mut egress, &mut inbox, &mut now);
    assert_eq!((p.get_flow_id(), p.length()), (1, 512));

    egress.set_config(config(None, Some(4096), Some(1024), None, None), now);
    inbox.push_back(packet(1024, now, 0));
    let p = receive(&mut egress, &mut inbox, &mut now);
    assert_eq!(p.length(), 1024);

    for i in 0..5 {
        inbox.push_back(packet(if i == 4 { 128 } else { 256 }, now, i));
    }
    let mut received = vec![false; 5];
    let p = receive(&mut egress, &mut inbox, &mut now);
    assert_eq!((p.get_flow_id(), p.length()), (0, 256));
    received[p.get_flow_id() as usize] = true;

    egress.set_config(config(None, Some(4096), Some(128), None, None), now);
    let p = receive(&mut egress, &mut inbox, &mut now);
    assert_eq!((p.get_flow_id(), p.length()), (4, 128));
    received[p.get_flow_id() as usize] = true;
    assert_eq!(received, vec![true, false, false, false, true]);
}

#[test]
fn test_token_bucket_traffic_policing() {
    let mut now: Instant = 0;
    let mut egress = cell(config(Some(0), Some(4096), Some(512), None, None), now);
    let mut received = vec![false; 6];
    for round in 0..2u32 {
        let mut inbox: VecDeque<StdPacket> =
            (0..3).map(|i| packet(256, now, 3 * round + i)).collect();
        for _ in 0..2 {
            let start = now;
            let p = receive(&mut egress, &mut inbox, &mut now);
            assert_eq!(p.length(), 256);
            assert!(near(now - start, 0.0));
            received[p.get_flow_id() as usize] = true;
        }
        // The third packet is taken, and lost.
        while let Some(p) = inbox.pop_front() {
            assert!(matches!(egress.on_packet(Some(p)), TokenAction::Wait));
        }
        now += 1000 * MS;
    }
    assert_eq!(received, vec![true, true, false, true, true, false]);
}

#[test]
fn a_cell_obeys_its_state_and_its_source() {
    let mut egress: Egress =
        TokenBucketCellEgress::new(config(None, Some(4096), Some(512), None, None), 0, timing);
    assert!(matches!(egress.on_packet(Some(packet(100, 0, 0))), TokenAction::Return(None)));
    egress.change_state(CellState::PassThrough);
    assert!(matches!(egress.on_packet(Some(packet(9999, 0, 0))), TokenAction::Return(Some(_))));
    assert!(matches!(egress.on_packet(None), TokenAction::Return(None)));
}

#[test]
fn what_belongs_together_is_set_together() {
    let taken = Cell::new(0);
    let control = TokenBucketCellControlInterface {
        send: |_: TokenBucketCellConfig| {
            taken.set(taken.get() + 1);
            true
        },
    };
    assert!(control.set_config(config(None, Some(1), Some(1), None, None)).is_ok());
    let cases = [
        (config(None, Some(1), None, None, None), "rate and burst should be provided together"),
        (
            config(None, None, None, Some(1), None),
            "peakrate and minburst should be provided together",
        ),
        (config(None, Some(0), Some(1), None, None), "rate must be greater than 0"),
        (config(None, Some(1), Some(0), None, None), "burst must be greater than 0"),
        (config(None, None, None, Some(0), Some(1)), "peakrate must be greater than 0"),
        (config(None, None, None, Some(1), Some(0)), "minburst must be greater than 0"),
    ];
    for (c, text) in cases {
        match control.set_config(c) {
            Err(Error::ConfigError(message)) => assert_eq!(message, text),
            _ => panic!("the configuration is refused"),
        }
    }
    assert_eq!(taken.get(), 1);
    let closed = TokenBucketCellControlInterface { send: |_: TokenBucketCellConfig| false };
    match closed.set_config(TokenBucketCellConfig::default()) {
        Err(Error::ConfigError(message)) => assert_eq!(message, "Control channel is closed."),
        _ => panic!("nobody takes the configuration"),
    }
}

type Polled = polled::TokenBucketCellEgress<StdPacket, fn(u64, u128) -> Duration>;

fn polled_cell(c: TokenBucketCellConfig, now: Instant) -> Polled {
    let mut egress: Polled = polled::TokenBucketCellEgress::new(c, now, timing);
    egress.reset(now);
    egress.change_state(CellState::Normal);
    egress
}

fn poll(egress: &mut Polled, inbox: &mut VecDeque<StdPacket>, now: &mut Instant) -> StdPacket {
    loop {
        let out = match inbox.pop_front() {
            Some(p) => match egress.on_packet(Some(p), *now) {
                TokenAction::Return(out) => out,
                TokenAction::Wait => None,
            },
            None => {
                *now = (*now).max(egress.wake_time());
                egress.on_timer(*now)
            }
        };
        if let Some(p) = out {
            return p;
        }
    }
}

/// How long each of a number of packets, sent together, is waited for.
fn polled_delays(egress: &mut Polled, number: usize, size: usize, now: &mut Instant) -> Vec<Instant> {
    let sent = *now;
    let mut inbox: VecDeque<StdPacket> = (0..number).map(|i| packet(size, sent, i as u32)).collect();
    (0..number)
        .map(|_| {
            let start = *now;
            let p = poll(egress, &mut inbox, now);
            assert_eq!(p.length(), size);
            *now - start
        })
        .collect()
}

fn all_near(delays: &[Instant], expected: &[f64]) -> bool {
    delays.len() == expected.len()
        && delays.iter().zip(expected).all(|(d, e)| near(*d, *e))
}

/// The delays of packets of which each is sent when the last one was received.
fn one_by_one(number: usize, size: usize, c: TokenBucketCellConfig) -> Vec<Instant> {
    let mut now: Instant = 0;
    let mut egress = polled_cell(c, now);
    (0..number)
        .map(|_| polled_delays(&mut egress, 1, size, &mut now)[0])
        .collect()
}

#[test]
fn token_bucket_test_token_bucket_cell_basic() {
    let delays = one_by_one(8, 256, config(Some(1024), Some(4096), Some(512), None, None));
    let expected =
        [0.0, 0.0, 417.875, 472.5625, 472.5625, 472.5625, 472.5625, 472.5625];
    assert!(all_near(&delays, &expected));
}

#[test]
fn token_bucket_test_token_bucket_cell_prate_low() {
    let c = config(Some(1024), Some(8192), Some(1024), Some(4096), Some(128));
    let expected = [0.0, 195.3125, 222.65625, 222.65625, 222.65625];
    assert!(all_near(&one_by_one(5, 128, c), &expected));
}

#[test]
fn token_bucket_test_token_bucket_cell_prate_high() {
    let c = config(Some(1024), Some(4096), Some(512), Some(8192), Some(256));
    let delays = one_by_one(5, 128, c);
    assert!(all_near(&delays, &[0.0, 0.0, 83.984375, 111.328125, 111.328125]));
}

#[test]
fn token_bucket_test_token_bucket_cell_config_update_down() {
    let mut now: Instant = 0;
    let mut egress = polled_cell(config(Some(1024), Some(4096), Some(512), None, None), now);
    let delays = polled_delays(&mut egress, 4, 256, &mut now);
    assert!(all_near(&delays, &[0.0, 0.0, 417.875, 472.5625]));
    egress.set_config(config(None, Some(2048), Some(512), None, None), now);
    let delays = polled_delays(&mut egress, 4, 256, &mut now);
    assert!(all_near(&delays, &[0.0, 0.0, 835.9375, 945.3125]));
}

#[test]
fn token_bucket_test_token_bucket_cell_config_update_up() {
    let mut now: Instant = 0;
    let mut egress = polled_cell(config(Some(1024), Some(2048), Some(256), None, None), now);
    let delays = polled_delays(&mut egress, 4, 256, &mut now);
    assert!(all_near(&delays, &[0.0, 890.625, 945.3125, 945.3125]));
    egress.set_config(config(None, Some(4096), Some(256), None, None), now);
    let delays = polled_delays(&mut egress, 4, 256, &mut now);
    assert!(all_near(&delays, &[0.0, 445.3125, 472.65625, 472.65625]));
}

#[test]
fn token_bucket_test_token_bucket_cell_queue() {
    let mut now: Instant = 0;
    let mut egress = polled_cell(config(Some(1024), Some(4096), Some(512), None, None), now);
    let mut inbox: VecDeque<StdPacket> = (0..5).map(|i| packet(256, 0, i)).collect();
    let mut received = vec![false; 5];
    let mut delays = vec![];
    for _ in 0..4 {
        let start = now;
        let p = poll(&mut egress, &mut inbox, &mut now);
        delays.push(now - start);
        received[p.get_flow_id() as usize] = true;
    }
    assert!(all_near(&delays, &[0.0, 0.0, 417.875, 472.65625]));
    assert_eq!(received, vec![true, true, true, true, false]);
}

#[test]
fn token_bucket_test_token_bucket_cell_burst() {
    let mut now: Instant = 0;
    let mut egress = polled_cell(config(Some(1024), Some(4096), Some(512), None, None), now);
    let delays = polled_delays(&mut egress, 5, 128, &mut now);
    assert!(all_near(&delays, &[0.0, 0.0, 0.0, 0.0, 113.28125]));
    now += 1000 * MS;
    let delays = polled_delays(&mut egress, 5, 128, &mut now);
    assert!(all_near(&delays, &[0.0, 0.0, 0.0, 0.0, 113.28125]));
}

#[test]
fn token_bucket_test_token_bucket_cell_max_size() {
    let mut now: Instant = 0;
    let mut egress = polled_cell(config(None, Some(4096), Some(512), None, None), now);
    let mut inbox = VecDeque::new();
    inbox.push_back(packet(1024, 0, 0));
    inbox.push_back(packet(512, 0, 1));
    let p = poll(&mut egress, &mut inbox, &mut now);
    assert_eq!((p.get_flow_id(), p.length()), (1, 512));

    egress.set_config(config(None, Some(4096), Some(1024), None, None), now);
    inbox.push_back(packet(1024, now, 0));
    let p = poll(&mut egress, &mut inbox, &mut now);
    assert_eq!(p.length(), 1024);

    for i in 0..5 {
        inbox.push_back(packet(if i == 4 { 128 } else { 256 }, now, i));
    }
    let p = poll(&mut egress, &mut inbox, &mut now);
    assert_eq!((p.get_flow_id(), p.length()), (0, 256));

    egress.set_config(config(None, Some(4096), Some(128), None, None), now);
    let p = poll(&mut egress, &mut inbox, &mut now);
    assert_eq!((p.get_flow_id(), p.length()), (4, 128));
}

#[test]
fn without_buckets_nothing_has_to_wait() {
    let mut egress = cell(config(None, Some(8000), Some(1000), None, None), 0);
    for i in 0..3 {
        let action = egress.on_packet(Some(packet(1000, 0, i)));
        assert_eq!(matches!(action, TokenAction::Return(Some(_))), i == 0);
    }
    assert!(egress.has_turn(&None));
    egress.set_config(config(None, None, None, None, None), 0);
    // Two packets wait, and there is no bucket that says for how long.
    assert!(!egress.has_turn(&None));
    let mut free = cell(config(None, None, None, None, None), 0);
    assert!(free.has_turn(&Some(packet(9000, 5, 0))));
    match free.on_packet(Some(packet(9000, 5, 0))) {
        TokenAction::Return(Some(p)) => assert_eq!(p.get_timestamp(), 5),
        _ => panic!("the packet leaves at once"),
    }
}

#[test]
fn without_buckets_a_packet_that_is_refused_does_not_wait() {
    let mut egress = cell(config(Some(1000), Some(8000), Some(1000), None, None), 0);
    for i in 0..2 {
        let action = egress.on_packet(Some(packet(1000, 0, i)));
        assert_eq!(matches!(action, TokenAction::Return(Some(_))), i == 0);
    }
    egress.set_config(config(Some(500), None, None, None, None), 0);
    // Once the packet in the queue has left, there is room for 500 bytes, not counting the
    // header of the link layer.
    assert!(egress.has_turn(&None));
    assert!(!egress.has_turn(&Some(packet(514, 0, 2))));
    assert!(egress.has_turn(&Some(packet(515, 0, 2))));
    match egress.on_packet(Some(packet(515, 0, 2))) {
        TokenAction::Return(Some(p)) => assert_eq!(p.get_flow_id(), 1),
        _ => panic!("the packet in the queue leaves"),
    }
    assert!(egress.has_turn(&Some(packet(515, 0, 3))));
}

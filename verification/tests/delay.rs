//! Cells that hold packets back.
use rattan_core::cells::config_timestamp::CurrentConfig;
use rattan_core::cells::delay::{
    DelayAction, DelayCellConfig, DelayCellControlInterface, DelayCellEgress,
    DelayReplayCellEgress,
};
use rattan_core::cells::incoming_config::IncomingConfigs;
use rattan_core::cells::per_packet::delay::{DelayPerPacketCellEgress, PerPacketAction};
use rattan_core::cells::per_packet::DelayedQueue;
use rattan_core::cells::reorder_delay::{
    ReorderDelayCellConfig, ReorderDelayCellControlInterface, ReorderDelayCellEgress,
};
use rattan_core::cells::CellState;
use rattan_core::error::Error;
use rattan_core::packet::{Packet, StdPacket};
use rattan_core::time::{Duration, Instant, LARGE_DURATION, MILLISECOND, SECOND};

const MS: Instant = 1_000_000;
const DELAY_TEST_TIME: [u128; 8] = [0, 2, 5, 10, 20, 50, 100, 500];

fn packet(number: u8, timestamp: Instant) -> StdPacket {
    StdPacket::from_raw_buffer(vec![number; 256], timestamp)
}

/// Lets the timer of a delay cell run out.
fn wait(egress: &mut DelayCellEgress<StdPacket>, action: DelayAction<StdPacket>, now: &mut Instant) -> StdPacket {
    match action {
        DelayAction::Return(Some(p)) => p,
        DelayAction::SendAt(t) => {
            *now = (*now).max(t);
            match egress.on_timer() {
                DelayAction::Return(Some(p)) => p,
                _ => panic!("the packet is sent"),
            }
        }
        _ => panic!("the packet is held"),
    }
}

#[test]
fn test_delay_cell() {
    for delay in DELAY_TEST_TIME {
        let mut now: Instant = 0;
        let mut egress = DelayCellEgress::new(Some(delay * MILLISECOND), now);
        egress.change_state(CellState::Normal);
        for _ in 0..10 {
            let start = now;
            let action = egress.on_packet(Some(packet(0, start)), now);
            let received = wait(&mut egress, action, &mut now);
            assert_eq!(received.length(), 256);
            assert_eq!(received.get_timestamp() - start, delay as i128 * MS);
            assert_eq!(now - start, delay as i128 * MS);
        }
    }
}

#[test]
fn test_delay_cell_config_update() {
    let mut now: Instant = 0;
    let mut egress = DelayCellEgress::new(Some(10 * MILLISECOND), now);
    egress.change_state(CellState::Normal);

    let start = now;
    assert!(matches!(egress.on_packet(Some(packet(0, start)), now), DelayAction::SendAt(_)));
    now += 5 * MS;
    let action = egress.set_config(DelayCellConfig::new(20 * MILLISECOND), now);
    let received = wait(&mut egress, action, &mut now);
    assert_eq!(received.length(), 256);
    assert_eq!(received.get_timestamp() - start, 20 * MS);
    assert_eq!(now - start, 20 * MS);

    let start = now;
    assert!(matches!(egress.on_packet(Some(packet(0, start)), now), DelayAction::SendAt(_)));
    now += 15 * MS;
    // The packet leaves at once.
    let action = egress.set_config(DelayCellConfig::new(10 * MILLISECOND), now);
    let received = wait(&mut egress, action, &mut now);
    assert_eq!(received.get_timestamp() - start, 10 * MS);
    assert_eq!(now - start, 15 * MS);
}

#[test]
fn a_shorter_delay_reorders_nothing() {
    let mut now: Instant = 0;
    let mut egress = DelayCellEgress::new(Some(20 * MILLISECOND), now);
    egress.change_state(CellState::Normal);
    let action = egress.on_packet(Some(packet(1, 0)), now);
    let first = wait(&mut egress, action, &mut now);
    let _ = egress.set_config(DelayCellConfig::new(MILLISECOND), now);
    let action = egress.on_packet(Some(packet(2, 5 * MS)), now);
    let second = wait(&mut egress, action, &mut now);
    assert_eq!(first.get_timestamp(), 20 * MS);
    assert_eq!(second.get_timestamp(), 20 * MS);
}

/// Runs a replay of 10 ms and 50 ms, a second each, until a packet leaves.
fn replayed(
    egress: &mut DelayReplayCellEgress<StdPacket>,
    steps: &mut usize,
    p: StdPacket,
    now: &mut Instant,
) -> Option<StdPacket> {
    let mut action = egress.on_packet(Some(p), *now);
    loop {
        action = match action {
            DelayAction::Return(out) => return out,
            DelayAction::Wait => panic!("a packet is in hand"),
            DelayAction::SendAt(t) => {
                *now = (*now).max(t);
                egress.on_timer()
            }
            DelayAction::ChangeAt(t) => {
                *now = (*now).max(t);
                let step = next_step(steps);
                egress.on_step(step, *now)
            }
            DelayAction::Change => {
                let step = next_step(steps);
                egress.on_step(step, *now)
            }
        };
    }
}

fn next_step(steps: &mut usize) -> Option<(Duration, Duration)> {
    *steps += 1;
    Some((if *steps % 2 == 1 { 10 } else { 50 } * MILLISECOND, SECOND))
}

#[test]
fn test_replay_delay_cell() {
    let mut now: Instant = 0;
    let mut steps = 0;
    let mut egress = DelayReplayCellEgress::new(now, now);
    egress.reset(now, now, next_step(&mut steps));
    egress.change_state(CellState::Normal);
    let mut delays = vec![];
    for pause in [1100, 2100, 3100, 0] {
        for _ in 0..10 {
            let start = now;
            let received = replayed(&mut egress, &mut steps, packet(0, start), &mut now).unwrap();
            assert_eq!(received.length(), 256);
            assert_eq!(received.get_timestamp(), now);
            delays.push(received.get_timestamp() - start);
        }
        now = now.max(pause * MS);
    }
    for (i, expected) in [10, 50, 10, 50].iter().enumerate() {
        for delay in &delays[i * 10..i * 10 + 10] {
            assert_eq!(*delay, expected * MS);
        }
    }
}

#[test]
fn test_replay_delay_cell_change_state() {
    let mut now: Instant = 0;
    let mut steps = 0;
    let mut egress = DelayReplayCellEgress::new(now, now);
    egress.reset(now, now, next_step(&mut steps));
    for _ in 0..10 {
        assert!(replayed(&mut egress, &mut steps, packet(0, now), &mut now).is_none());
    }
    egress.change_state(CellState::PassThrough);
    now = 1100 * MS;
    let mut delays = vec![];
    for _ in 0..10 {
        let received = replayed(&mut egress, &mut steps, packet(0, now), &mut now).unwrap();
        assert_eq!(received.length(), 256);
        delays.push(received.get_timestamp() - now);
    }
    egress.change_state(CellState::Normal);
    for begin in [2100, 3100] {
        now = now.max(begin * MS);
        for _ in 0..10 {
            let start = now;
            let received = replayed(&mut egress, &mut steps, packet(0, start), &mut now).unwrap();
            delays.push(received.get_timestamp() - start);
        }
    }
    assert_eq!(delays.len(), 30);
    for (i, expected) in [0, 10, 50].iter().enumerate() {
        for delay in &delays[i * 10..i * 10 + 10] {
            assert_eq!(*delay, expected * MS);
        }
    }
}

#[test]
fn delay_test_reorder_delay_cell() {
    for delay in DELAY_TEST_TIME {
        let mut now: Instant = 0;
        let mut egress = DelayPerPacketCellEgress::new();
        egress.change_state(CellState::Normal);
        for _ in 0..10 {
            let start = now;
            let action = egress.on_packet(Some(packet(0, start)), Some(delay * MILLISECOND), now);
            assert!(matches!(action, PerPacketAction::Wait));
            now = now.max(egress.wake_time(now).unwrap());
            match egress.on_timer(now) {
                PerPacketAction::Return(Some(received)) => {
                    assert_eq!(received.length(), 256);
                    assert_eq!(received.get_timestamp() - start, delay as i128 * MS);
                    assert_eq!(now - start, delay as i128 * MS);
                }
                _ => panic!("no packet is lost"),
            }
        }
    }
}

#[test]
fn delay_test_reorder_delay_cell_config_update() {
    let mut now: Instant = 0;
    let mut egress = DelayPerPacketCellEgress::new();
    egress.change_state(CellState::Normal);
    // The configuration in force when the packet is taken counts.
    for (pause, delay, taken) in [(5, 20, 20), (15, 10, 15)] {
        let start = now;
        now += pause * MS;
        let _ = egress.on_packet(Some(packet(0, start)), Some(delay * MILLISECOND), now);
        now = now.max(egress.wake_time(now).unwrap());
        match egress.on_timer(now) {
            PerPacketAction::Return(Some(received)) => {
                assert_eq!(received.length(), 256);
                assert_eq!(received.get_timestamp() - start, taken * MS);
            }
            _ => panic!("no packet is lost"),
        }
        assert_eq!(now - start, taken * MS);
    }
}

#[test]
fn mod_test_reorder_delay_cell() {
    for delay in DELAY_TEST_TIME {
        let mut now: Instant = 0;
        let mut egress = ReorderDelayCellEgress::new();
        egress.change_state(CellState::Normal);
        for _ in 0..10 {
            let start = now;
            let action = egress.on_packet(Some(packet(0, start)), delay * MILLISECOND, now);
            assert!(matches!(action, PerPacketAction::Wait));
            now = now.max(egress.wake_time(now).unwrap());
            match egress.on_timer(now) {
                PerPacketAction::Return(Some(received)) => assert_eq!(received.length(), 256),
                _ => panic!("no packet is lost"),
            }
            assert_eq!(now - start, delay as i128 * MS);
        }
    }
}

#[test]
fn mod_test_reorder_delay_cell_config_update() {
    let mut now: Instant = 0;
    let mut egress = ReorderDelayCellEgress::new();
    egress.change_state(CellState::Normal);
    for (pause, delay, taken) in [(5, 20, 20), (15, 10, 15)] {
        let start = now;
        now += pause * MS;
        let _ = egress.on_packet(Some(packet(0, start)), delay * MILLISECOND, now);
        now = now.max(egress.wake_time(now).unwrap());
        match egress.on_timer(now) {
            PerPacketAction::Return(Some(received)) => assert_eq!(received.length(), 256),
            _ => panic!("no packet is lost"),
        }
        assert_eq!(now - start, taken * MS);
    }
}

#[test]
fn packets_with_shorter_delays_overtake() {
    let mut egress = DelayPerPacketCellEgress::new();
    egress.change_state(CellState::Normal);
    for (number, delay) in [(1, 30), (2, 10), (3, 30), (4, 20)] {
        let _ = egress.on_packet(Some(packet(number, 0)), Some(delay), 0);
    }
    // A packet for which the trace has no delay is lost.
    assert!(matches!(egress.on_packet(Some(packet(9, 0)), None, 0), PerPacketAction::Wait));
    let mut order = vec![];
    for _ in 0..4 {
        let now = egress.wake_time(0).unwrap();
        if let PerPacketAction::Return(Some(p)) = egress.on_timer(now) {
            order.push((p.buf[0], p.get_timestamp()));
        }
    }
    assert_eq!(order, vec![(2, 10), (4, 20), (1, 30), (3, 30)]);
    assert_eq!(egress.wake_time(5), Some(5 + LARGE_DURATION as i128));
}

#[test]
fn a_delayed_queue_is_ordered_by_due_time() {
    let mut queue = DelayedQueue::new();
    assert!(queue.dequeue().is_none());
    assert_eq!(queue.next_instant(3), 3 + LARGE_DURATION as i128);
    queue.enqueue(packet(1, 10), 10);
    queue.enqueue(packet(2, 5), 10);
    queue.enqueue(packet(3, 0), 20);
    assert_eq!(queue.len(), 3);
    assert_eq!(queue.next_instant(0), 15);
    assert_eq!(queue.next_packet().map(|p| p.buf[0]), Some(2));
    let order: Vec<(Instant, u8)> =
        std::iter::from_fn(|| queue.dequeue().map(|(t, p)| (t, p.buf[0]))).collect();
    assert_eq!(order, vec![(15, 2), (20, 1), (20, 3)]);
}

#[test]
fn configurations_are_handed_on() {
    let control = DelayCellControlInterface { send: |c: DelayCellConfig| c.delay == 5 };
    assert!(control.set_config(DelayCellConfig::new(5)).is_ok());
    match control.set_config(DelayCellConfig::default()) {
        Err(Error::ConfigError(message)) => assert_eq!(message, "Control channel is closed."),
        _ => panic!("nobody takes the configuration"),
    }
    let control =
        ReorderDelayCellControlInterface { send: |c: ReorderDelayCellConfig<u8>| c.delay == 5 };
    assert!(control.set_config(ReorderDelayCellConfig::new(5)).is_ok());
    assert!(control.set_config(ReorderDelayCellConfig::new(6)).is_err());
}

#[test]
fn a_value_counts_from_the_time_it_is_valid() {
    let mut config = CurrentConfig::new();
    assert_eq!(config.get_current(0), None);
    config.update(1, 10);
    assert_eq!(config.get_current(9), Some(&1));
    assert_eq!(config.get_current(10), Some(&1));
    assert_eq!(config.update_get_last(2, 20), Some(&1));
    assert_eq!(config.get_current(19), Some(&1));
    assert_eq!(config.get_current(20), Some(&2));
    config.reset();
    assert_eq!(config.get_current(20), None);
}

#[test]
fn a_value_that_expires_gives_way_to_the_next() {
    let mut config = IncomingConfigs::new();
    assert_eq!(config.get_current(0), None);
    config.update(1, Some(2), 10, 5);
    // With nothing before it, the first value counts from the beginning.
    assert_eq!(config.get_current(9), Some(1));
    assert_eq!(config.get_current(10), Some(1));
    assert_eq!(config.get_current(14), Some(1));
    assert_eq!(config.get_current(15), Some(2));
    config.update(2, None, 15, 5);
    assert_eq!(config.get_current(14), Some(1));
    assert_eq!(config.get_current(15), Some(2));
    // With nothing after it, the last one counts for good.
    assert_eq!(config.get_current(20), Some(2));
    config.reset();
    assert_eq!(config.get_current(16), None);
}

#[test]
fn a_delay_cell_sends_all_in_turn() {
    let mut now: Instant = 0;
    let mut egress = DelayCellEgress::new(Some(10), 4);
    egress.change_state(CellState::Normal);
    let mut last: Instant = 4;
    // The timestamps go back now and then; what is sent does not.
    for (number, timestamp) in [0, 5, 3, 40, 38, 41].into_iter().enumerate() {
        now = now.max(timestamp);
        let action = egress.on_packet(Some(packet(number as u8, timestamp)), now);
        let p = wait(&mut egress, action, &mut now);
        last = last.max(timestamp + 10);
        assert_eq!((p.buf[0] as usize, p.get_timestamp()), (number, last));
    }
}

#[test]
fn a_late_packet_leaves_when_it_is_taken() {
    let mut egress = DelayPerPacketCellEgress::new();
    egress.change_state(CellState::Normal);
    for (number, timestamp, now) in [(1, 0, 15), (2, 1, 16), (3, 14, 16)] {
        let action = egress.on_packet(Some(packet(number, timestamp)), Some(10), now);
        assert!(matches!(action, PerPacketAction::Wait));
    }
    let mut order = vec![];
    for _ in 0..3 {
        let now = egress.wake_time(16).unwrap();
        if let PerPacketAction::Return(Some(p)) = egress.on_timer(now) {
            order.push((p.buf[0], p.get_timestamp()));
        }
    }
    assert_eq!(order, vec![(1, 15), (2, 16), (3, 24)]);
}

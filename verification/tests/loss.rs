//! Cells that lose packets, devices that duplicate them, and those that do neither.
use rand::rngs::StdRng;
use rand::{Rng, SeedableRng};
use rattan_core::cells::loss::{
    LossCellConfig, LossCellControlInterface, LossCellEgress, LossReplayCellControlInterface,
    LossReplayCellEgress,
};
use rattan_core::cells::shadow::{
    ShadowCellConfig, ShadowCellControlInterface, ShadowCellEgress,
};
use rattan_core::cells::spy::{SpyCellConfig, SpyCellControlInterface, SpyCellEgress};
use rattan_core::cells::{
    admit_packet, on_notify, Admission, AtomicCellState, CellState, RattanNotify, StartAction,
};
use rattan_core::devices::duplicate::{
    DuplicateDeviceConfig, DuplicateDeviceControlInterface, DuplicateDeviceEgress,
    DuplicateReplayDeviceControlInterface, DuplicateReplayDeviceEgress,
};
use rattan_core::devices::shadow::{
    ShadowDeviceConfig, ShadowDeviceControlInterface, ShadowDeviceEgress,
};
use rattan_core::error::Error;
use rattan_core::packet::{Packet, RawPacket, StdPacket};
use rattan_core::time::{Instant, SECOND};
use std::cell::RefCell;

const MS: Instant = 1_000_000;

fn packet(number: u32) -> StdPacket {
    StdPacket::from_raw_buffer(number.to_be_bytes().to_vec(), 0)
}

fn draws(seed: u64) -> impl Fn(f64) -> bool {
    let rng = RefCell::new(StdRng::seed_from_u64(seed));
    move |rate| rng.borrow_mut().gen_range(0.0..1.0) < rate
}

#[test]
fn test_loss_cell() {
    let draw = draws(42);
    let mut egress = LossCellEgress::new(vec![0.1]);
    egress.change_state(CellState::Normal);
    let mut lost = 0;
    for _ in 0..100 {
        match egress.on_packet(Some(StdPacket::from_raw_buffer(vec![0; 256], 0)), &draw) {
            Some(p) => assert_eq!(p.length(), 256),
            None => lost += 1,
        }
    }
    assert!((lost as f64 / 100.0 - 0.1).abs() <= 0.1);
}

#[test]
fn test_loss_cell_config_update() {
    let draw = draws(42);
    let mut egress = LossCellEgress::new(vec![1.0, 0.0]);
    egress.change_state(CellState::Normal);
    assert!(egress.on_packet(Some(packet(0)), &draw).is_none());
    egress.set_pattern(vec![0.0, 1.0]);
    for _ in 0..100 {
        assert!(egress.on_packet(Some(packet(0)), &draw).is_none());
    }
}

#[test]
fn test_loss_cell_config_update_length_change() {
    let draw = draws(42);
    let mut egress = LossCellEgress::new(vec![1.0, 1.0, 0.0]);
    egress.change_state(CellState::Normal);
    for _ in 0..2 {
        assert!(egress.on_packet(Some(packet(0)), &draw).is_none());
    }
    egress.set_pattern(vec![0.0, 1.0]);
    for _ in 0..100 {
        assert!(egress.on_packet(Some(packet(0)), &draw).is_none());
    }
    egress.set_pattern(vec![0.0, 0.0, 1.0]);
    for _ in 0..100 {
        assert!(egress.on_packet(Some(packet(0)), &draw).is_none());
    }
}

/// The steps of a trace that repeats its patterns, a second each.
fn step(steps: &mut usize, patterns: [f64; 2]) -> Option<(Vec<f64>, u128)> {
    *steps += 1;
    Some((vec![patterns[(*steps + 1) % 2]], SECOND))
}

#[test]
fn test_loss_replay_cell() {
    let draw = draws(42);
    let mut steps = 0;
    let mut egress = LossReplayCellEgress::new(1.0, 0);
    egress.reset(0);
    for _ in 0..100 {
        assert!(egress.on_packet(packet(0), &draw).is_none());
    }
    egress.change_state(CellState::PassThrough);
    for _ in 0..100 {
        assert!(egress.on_packet(packet(0), &draw).is_some());
    }
    egress.change_state(CellState::Normal);
    for (now, rate) in [(1100, 0.5), (2100, 0.0)] {
        while egress.change_time() <= now * MS {
            assert!(egress.on_step(step(&mut steps, [0.0, 0.5])));
        }
        let lost = (0..100).filter(|i| egress.on_packet(packet(*i), &draw).is_none()).count();
        assert!((lost as f64 / 100.0 - rate).abs() <= 0.1);
    }
}

#[test]
fn a_pattern_goes_on_with_its_last_rate() {
    // Three in four are lost, never more than three in a row.
    let draw = |rate: u8| rate == 1;
    let mut egress = LossCellEgress::new(vec![1, 1, 1, 0]);
    egress.change_state(CellState::Normal);
    let sent: Vec<bool> =
        (0..8).map(|i| egress.on_packet(Some(packet(i)), &draw).is_some()).collect();
    assert_eq!(sent, vec![false, false, false, true, false, false, false, true]);
    // Without a pattern nothing is lost.
    egress.set_pattern(vec![]);
    assert!(egress.on_packet(Some(packet(8)), &draw).is_some());
    assert!(egress.on_packet(None::<StdPacket>, &draw).is_none());
}

#[test]
fn a_loss_trace_that_ends_stays_where_it_is() {
    let mut egress: LossReplayCellEgress<u8> = LossReplayCellEgress::new(1, 0);
    egress.set_config(Some((vec![0], 5)), 10);
    assert_eq!(egress.change_time(), 15);
    assert!(!egress.on_step(None));
    egress.change_state(CellState::Normal);
    assert!(egress.on_packet(packet(0), &|rate: u8| rate == 1).is_some());
}

#[test]
fn loss_is_configured() {
    let stored = RefCell::new(vec![]);
    let control =
        LossCellControlInterface { store: |pattern: Vec<u8>| stored.borrow_mut().push(pattern) };
    assert!(control.set_config(LossCellConfig::new(vec![1, 2])).is_ok());
    assert_eq!(*stored.borrow(), vec![vec![1, 2]]);
    let control = LossReplayCellControlInterface { send: |c: u8| c == 1 };
    assert!(control.set_config(1).is_ok());
    match control.set_config(2) {
        Err(Error::ConfigError(message)) => assert_eq!(message, "Control channel is closed."),
        _ => panic!("nobody takes the configuration"),
    }
}

/// Which of a number of packets come out twice.
fn duplicated<F: Fn(f64) -> bool>(
    egress: &mut DuplicateDeviceEgress<f64, StdPacket>,
    draw: &F,
    numbers: std::ops::Range<u32>,
) -> Vec<bool> {
    numbers
        .map(|i| {
            let sent = egress.on_packet(Some(packet(i)), draw).unwrap();
            assert_eq!(sent.buf, i.to_be_bytes().to_vec());
            match egress.take_duplicate() {
                Some(copy) => {
                    assert_eq!(copy.buf, sent.buf);
                    assert_eq!(copy.get_timestamp(), sent.get_timestamp());
                    true
                }
                None => false,
            }
        })
        .collect()
}

#[test]
fn test_duplicate_device() {
    let draw = draws(42);
    let mut egress = DuplicateDeviceEgress::new(vec![0.1]);
    egress.change_state(CellState::Normal);
    let twice = duplicated(&mut egress, &draw, 0..500).iter().filter(|d| **d).count();
    assert!((twice as f64 / 500.0 - 0.1).abs() <= 0.1);
}

#[test]
fn test_duplicate_device_config_update() {
    let draw = draws(42);
    let mut egress = DuplicateDeviceEgress::new(vec![1.0, 0.0]);
    egress.change_state(CellState::Normal);
    assert_eq!(duplicated(&mut egress, &draw, 0..3), vec![true, false, true]);
    egress.set_pattern(vec![0.0, 1.0]);
    assert_eq!(duplicated(&mut egress, &draw, 4..7), vec![true, true, true]);
}

#[test]
fn test_duplicate_device_update_length_change() {
    let draw = draws(42);
    let mut egress = DuplicateDeviceEgress::new(vec![1.0, 1.0, 0.0]);
    egress.change_state(CellState::Normal);
    assert_eq!(duplicated(&mut egress, &draw, 0..2), vec![true, true]);
    egress.set_pattern(vec![0.0, 1.0]);
    assert_eq!(duplicated(&mut egress, &draw, 3..6), vec![true, true, true]);
    egress.set_pattern(vec![0.0, 0.0, 1.0]);
    assert_eq!(duplicated(&mut egress, &draw, 7..9), vec![true, true]);
}

#[test]
fn test_duplicate_replay_device() {
    let draw = draws(42);
    let mut steps = 0;
    let mut egress = DuplicateReplayDeviceEgress::new(vec![1.0], 0);
    egress.reset(0);
    for i in 0..100 {
        assert!(egress.on_packet(packet(i), &draw).is_none());
    }
    egress.change_state(CellState::PassThrough);
    for i in 0..100 {
        assert!(egress.on_packet(packet(i), &draw).is_some());
        assert!(egress.take_duplicate().is_none());
    }
    egress.change_state(CellState::Normal);
    for (now, rate) in [(1100, 0.5), (2100, 0.0)] {
        while egress.change_time() <= now * MS {
            assert!(egress.on_step(step(&mut steps, [0.0, 0.5])));
        }
        let mut twice = 0;
        for i in 0..500 {
            assert!(egress.on_packet(packet(i), &draw).is_some());
            if egress.take_duplicate().is_some() {
                twice += 1;
            }
        }
        assert!((twice as f64 / 500.0 - rate).abs() <= 0.1);
    }
}

#[test]
fn duplication_is_configured() {
    let stored = RefCell::new(vec![]);
    let control = DuplicateDeviceControlInterface {
        store: |pattern: Vec<u8>| stored.borrow_mut().push(pattern),
    };
    assert!(control.set_config(DuplicateDeviceConfig::new(vec![1])).is_ok());
    assert_eq!(*stored.borrow(), vec![vec![1]]);
    let control = DuplicateReplayDeviceControlInterface { send: |c: u8| c == 1 };
    assert!(control.set_config(1).is_ok());
    assert!(control.set_config(2).is_err());
    let mut egress: DuplicateReplayDeviceEgress<u8, StdPacket> =
        DuplicateReplayDeviceEgress::new(vec![], 0);
    egress.set_config(Some((vec![0], 7)), 3);
    assert_eq!(egress.change_time(), 10);
}

#[test]
fn test_shadow_cell() {
    let mut egress = ShadowCellEgress::new();
    assert!(!egress.is_open());
    egress.change_state(CellState::Normal);
    assert!(egress.is_open());
    assert!(ShadowCellControlInterface {}.set_config(ShadowCellConfig::new()).is_ok());
}

#[test]
fn a_shadow_cell_waits_for_its_start() {
    let mut egress = ShadowCellConfig::default().into_factory();
    assert_eq!(egress.notified(Some(RattanNotify::FirstPacket)), StartAction::KeepWaiting);
    assert!(!egress.is_open());
    assert_eq!(egress.notified(None), StartAction::Quit);
    assert_eq!(egress.notified(Some(RattanNotify::Start)), StartAction::Start);
    assert!(egress.is_open());
}

#[test]
fn test_shadow_device() {
    let mut egress = ShadowDeviceEgress::new();
    assert!(!egress.is_open());
    egress.change_state(CellState::PassThrough);
    assert!(egress.is_open());
    assert!(ShadowDeviceControlInterface {}.set_config(ShadowDeviceConfig::new()).is_ok());
}

#[test]
fn test_spy_cell_ordering() {
    let mut egress = SpyCellEgress::new(0);
    egress.change_state(CellState::Normal);
    let mut last = 0;
    for id in 0..100_000u32 {
        let frame = vec![(id % 251) as u8; 54 + (id % 100) as usize];
        let p = StdPacket::from_raw_buffer(frame.clone(), id as i128 + 1);
        let (sent, record) = egress.on_packet(id as u128 / 3, p);
        assert_eq!(sent.unwrap().as_slice(), &frame[..]);
        let record = record.unwrap();
        assert_eq!(record.data, frame);
        assert_eq!(record.orig_len as usize, frame.len());
        assert!(record.timestamp >= last);
        last = record.timestamp;
    }
}

#[test]
fn a_spy_can_be_sent_home() {
    let mut egress = SpyCellEgress::new(0);
    let (sent, record) = egress.on_packet(0, packet(1));
    assert!(sent.is_none() && record.is_none());
    egress.change_state(CellState::PassThrough);
    let (sent, record) = egress.on_packet(0, packet(1));
    assert!(sent.is_some() && record.is_none());
    egress.change_state(CellState::Normal);
    assert_eq!(egress.set_config(SpyCellConfig::<u8> { spy: None }), None);
    let (sent, record) = egress.on_packet(0, StdPacket::from_raw_buffer(vec![1], 1));
    assert!(sent.is_some() && record.is_none());
    assert_eq!(egress.set_config(SpyCellConfig::new(7u8)), Some(7));
    let (_, record) = egress.on_packet(5, StdPacket::from_raw_buffer(vec![1], 2));
    assert_eq!(record.unwrap().timestamp, 5);
    let control = SpyCellControlInterface { send: |c: SpyCellConfig<u8>| c.spy.is_some() };
    assert!(control.set_config(SpyCellConfig::new(1u8)).is_ok());
    assert!(control.set_config(SpyCellConfig::<u8> { spy: None }).is_err());
}

#[test]
fn states_are_numbered() {
    for (n, state) in [(0, CellState::Drop), (1, CellState::PassThrough), (2, CellState::Normal)] {
        assert_eq!(state.as_u8(), n);
        assert_eq!(CellState::try_from_primitive(n), Some(state));
        let mut held = AtomicCellState::new(CellState::Drop);
        held.store(state);
        assert_eq!(held.load(), state);
    }
    assert_eq!(CellState::try_from_primitive(3), None);
    assert!(matches!(admit_packet(CellState::Drop, 1), Admission::Drop));
    assert!(matches!(admit_packet(CellState::PassThrough, 1), Admission::PassThrough(1)));
    assert!(matches!(admit_packet(CellState::Normal, 1), Admission::Normal(1)));
    assert_eq!(
        on_notify(RattanNotify::FirstPacket, Some(RattanNotify::FirstPacket)),
        StartAction::Start
    );
    assert_eq!(
        on_notify(RattanNotify::FirstPacket, Some(RattanNotify::Start)),
        StartAction::KeepWaiting
    );
}

#[test]
fn losses_in_a_row_come_to_an_end() {
    let draw = draws(7);
    let mut egress = LossCellEgress::new(vec![0.9, 0.9, 0.9, 0.0]);
    egress.change_state(CellState::Normal);
    let sent: Vec<bool> =
        (0..400).map(|i| egress.on_packet(Some(packet(i)), &draw).is_some()).collect();
    assert!(sent.windows(4).all(|w| w.contains(&true)));
    assert!(sent.windows(3).any(|w| !w.contains(&true)));
}

//! How a channel is described.
use netem_trace::model::BwTraceConfig;
use netem_trace::BwTrace;
use rattan_core::cells::bandwidth::link::LinkAction;
use rattan_core::cells::bandwidth::queue::{
    CoDelQueueConfig, DropHeadQueueConfig, DropTailQueueConfig, InfiniteQueueConfig,
};
use rattan_core::cells::bandwidth::{BwCellConfig, BwType};
use rattan_core::cells::delay::{DelayAction, DelayCellConfig};
use rattan_core::cells::external::PacketLogMode;
use rattan_core::cells::loss::LossCellConfig;
use rattan_core::cells::per_packet::delay::PerPacketAction;
use rattan_core::cells::reorder_delay::ReorderDelayCellConfig;
use rattan_core::cells::token_bucket::{TokenAction, TokenBucketCellConfig};
use rattan_core::cells::{enqueue_stamped, CellState};
use rattan_core::config::cell::{
    seed_or_default, BwCellBuildConfig, BwReplayCellBuildConfig, BwReplayQueueConfig,
    CellBuildConfig, DelayPerPacketCellBuildConfig, DelayReplayCellBuildConfig,
    DuplicateDeviceBuildConfig, DuplicateReplayDeviceBuildConfig, LoadStep,
    LossReplayCellBuildConfig, RecordFile, SpyCellBuildConfig,
};
use rattan_core::config::channel::link_channel;
use rattan_core::config::cli::{DirectionOptions, QueueChoice};
use rattan_core::config::docker::{
    check_devices, link_cells, link_sides, route_request, CellEnds, ContainerCell,
    ContainerOptions,
};
use rattan_core::config::mahimahi::{mahimahi_lines_to_pattern, mahimahi_trace};
use rattan_core::config::trace::{bw_trace_format, trace_format, TraceFormat};
use rattan_core::config::{RattanGeneralConfig, RattanResourceConfig};
use rattan_core::control::http::{
    config_answer, notify_answer, state_answer, HttpConfig, HttpControlEndpoint, RattanOp,
    RattanOpResult,
};
use rattan_core::error::{control_channel, data_channel, Error, RattanOpError};
use rattan_core::packet::{Packet, StdPacket};
use rattan_core::parse::{chars_of, parse_list, parse_number, trim_text, NumberFault};
use rattan_core::text::decimal;
use rattan_core::time::{after, before, duration_since, Duration, MILLISECOND};
use rattan_core::transfer::{next_chunk, SEND_CHUNK};

fn message<T>(r: Result<T, Error>) -> String {
    match r {
        Err(Error::ConfigError(text)) => text,
        Err(Error::ChannelError(text)) => text,
        _ => panic!("an error with a message"),
    }
}

fn strings(texts: &[&str]) -> Vec<String> {
    texts.iter().map(|t| t.to_string()).collect()
}

#[test]
fn timestamps_are_read_line_by_line() {
    let lines = strings(&["1", " 2\t", "2", "+7"]);
    assert_eq!(mahimahi_lines_to_pattern(&lines, "f").unwrap(), vec![1, 2, 2, 7]);
    for (bad, fault) in [
        ("x", "invalid digit found in string"),
        ("", "cannot parse integer from empty string"),
        ("18446744073709551616", "number too large to fit in target type"),
        ("-1", "invalid digit found in string"),
    ] {
        let lines = strings(&["1", bad, "y"]);
        assert_eq!(
            message(mahimahi_lines_to_pattern(&lines, "f.trace")),
            format!("Failed to parse line 1 in f.trace: {fault}")
        );
    }
}

#[test]
fn timestamps_make_a_bandwidth_trace() {
    let config = mahimahi_trace(vec![1, 1, 0, 5, 6], "f").unwrap();
    assert_eq!(config.count, 0);
    let mut trace = Box::new(config).into_model();
    let mut steps = vec![];
    for _ in 0..6 {
        let (bw, duration) = trace.next_bw().unwrap();
        steps.push((bw.as_bps(), duration.as_millis()));
    }
    let once = vec![(24_000_000, 1), (0, 3), (12_000_000, 1), (24_000_000, 1)];
    assert_eq!(&steps[..4], &once[..]);
    assert_eq!(&steps[4..], &once[..2]);
    assert_eq!(
        message(mahimahi_trace(vec![5, 3], "f").map(|_| ())),
        "Failed to load trace file f: timestamps must be monotonically nondecreasing"
    );
    assert_eq!(
        message(mahimahi_trace(vec![0, 0], "f").map(|_| ())),
        "Failed to load trace file f: trace must last for a nonzero amount of time"
    );
}

#[test]
fn traces_are_told_by_their_extensions() {
    let json = Some("json".to_string());
    let toml = Some("toml".to_string());
    let other = Some("trace".to_string());
    assert_eq!(trace_format("a.json", &json).unwrap(), TraceFormat::Json);
    assert_eq!(trace_format("a.toml", &toml).unwrap(), TraceFormat::Toml);
    assert_eq!(message(trace_format("a.trace", &other)), "Unknown trace file format: a.trace");
    assert_eq!(message(trace_format("a", &None)), "Unknown trace file format: a");
    assert_eq!(bw_trace_format(&json), TraceFormat::Json);
    assert_eq!(bw_trace_format(&other), TraceFormat::Mahimahi);
    assert_eq!(bw_trace_format(&None), TraceFormat::Mahimahi);
    let delay = DelayReplayCellBuildConfig { trace: "d".to_string() };
    assert_eq!(delay.get_trace_format(&toml).unwrap(), TraceFormat::Toml);
    assert_eq!(message(delay.get_trace_format(&other)), "Unknown trace file format: d");
    let loss = LossReplayCellBuildConfig { trace: "l".to_string(), seed: None };
    assert_eq!(loss.get_trace_format(&json).unwrap(), TraceFormat::Json);
    let duplicate = DuplicateReplayDeviceBuildConfig { trace: "d".to_string(), seed: None };
    assert_eq!(
        message(duplicate.get_trace_format("shown", &None)),
        "Unknown trace file format: shown"
    );
}

#[test]
fn a_channel_is_a_chain_in_each_direction() {
    let channel = link_channel(vec!['a', 'b'], vec!['c']);
    let cells: Vec<(String, char)> = channel.cells;
    assert_eq!(
        cells,
        vec![
            ("up_1".to_string(), 'a'),
            ("up_2".to_string(), 'b'),
            ("down_1".to_string(), 'c')
        ]
    );
    let links: Vec<(&str, &str)> =
        channel.links.iter().map(|(a, b)| (a.as_str(), b.as_str())).collect();
    assert_eq!(
        links,
        vec![
            ("left", "up_1"),
            ("up_1", "up_2"),
            ("up_2", "right"),
            ("right", "down_1"),
            ("down_1", "left")
        ]
    );
    let empty = link_channel(Vec::<u8>::new(), Vec::new());
    assert_eq!(empty.links.len(), 2);
}

type Cells = Vec<CellBuildConfig<u8, (), ()>>;

#[test]
fn options_become_cells() {
    let options = DirectionOptions {
        bandwidth: Some(1000),
        trace: Some("ignored".to_string()),
        queue: QueueChoice::DropTail(Some(DropTailQueueConfig::new(
            Some(3),
            None,
            BwType::LinkLayer,
        ))),
        delay: Some(5 * MILLISECOND),
        loss: Some(9u8),
    };
    let cells: Cells = options.into_cells();
    assert_eq!(cells.len(), 3);
    match &cells[0] {
        CellBuildConfig::Bw(BwCellBuildConfig::DropTail(c)) => {
            assert_eq!(c.bandwidth, Some(1000));
            assert_eq!(c.queue_config.unwrap().packet_limit, Some(3));
            assert!(c.bw_type.is_none());
        }
        _ => panic!("the rate comes first"),
    }
    assert!(matches!(&cells[1], CellBuildConfig::Delay(c) if c.delay == 5 * MILLISECOND));
    assert!(matches!(&cells[2], CellBuildConfig::Loss(c) if c.pattern == vec![9]));

    let options = DirectionOptions::<u8> {
        bandwidth: None,
        trace: Some("t".to_string()),
        queue: QueueChoice::CoDel(None),
        delay: None,
        loss: None,
    };
    let cells: Cells = options.into_cells();
    assert!(matches!(
        &cells[..],
        [CellBuildConfig::BwReplay(BwReplayCellBuildConfig::CoDel(c))]
            if c.trace == "t" && c.queue_config.is_none()
    ));
    let options = DirectionOptions::<u8> {
        bandwidth: None,
        trace: None,
        queue: QueueChoice::Infinite,
        delay: None,
        loss: None,
    };
    let cells: Cells = options.into_cells();
    assert!(cells.is_empty());
}

fn transfer(bits: u64, bandwidth: u64) -> Duration {
    bits as u128 * 1_000_000_000 / bandwidth as u128
}

fn rescale(d: Duration, rates: (u64, u64)) -> Duration {
    d * rates.0 as u128 / rates.1 as u128
}

fn packet() -> StdPacket {
    StdPacket::from_raw_buffer(vec![0; 14 + 256], 0)
}

#[test]
fn cells_are_built_from_their_configurations() {
    // Each takes 80 ms for a packet.
    let c = BwCellConfig::<InfiniteQueueConfig>::new(Some(25600), None, None);
    let mut infinite = c.into_factory(0, transfer, rescale);
    infinite.change_state(CellState::Normal);
    assert!(matches!(infinite.on_packet(Some(packet()), 0), LinkAction::Return(None)));
    assert_eq!(infinite.wake_time(0), 80 * MILLISECOND as i128);

    let c = BwCellConfig::<DropTailQueueConfig>::new(Some(25600), None, Some(BwType::LinkLayer));
    let mut tail = c.into_factory(0, transfer, rescale);
    tail.change_state(CellState::Normal);
    assert!(matches!(tail.on_packet(Some(packet()), 0), LinkAction::Return(None)));
    assert_eq!(tail.wake_time(0), transfer(294 * 8, 25600) as i128);

    let c = BwCellConfig::<DropHeadQueueConfig>::new(None, None, None);
    let mut head = c.into_factory(0, transfer, rescale);
    head.change_state(CellState::Normal);
    assert!(matches!(head.on_packet(Some(packet()), 0), LinkAction::Return(Some(_))));

    let law = |interval: Duration, count: u32| interval / count as u128;
    let c = BwCellConfig::<CoDelQueueConfig>::new(Some(25600), None, None);
    let mut codel = c.into_factory(0, transfer, rescale, law);
    codel.change_state(CellState::Normal);
    assert!(matches!(codel.on_packet(Some(packet()), 0), LinkAction::Return(None)));

    let c = BwReplayQueueConfig::<InfiniteQueueConfig>::new("t".to_string(), None, None);
    let mut replay = c.into_factory(3, transfer, rescale);
    assert_eq!(replay.change_time(), Some(3));
    assert!(matches!(replay.on_packet(Some(packet()), 0), LinkAction::Return(None)));

    let mut delay = DelayCellConfig::new(7).into_factory(0);
    delay.change_state(CellState::Normal);
    assert!(matches!(delay.on_packet(Some(packet()), 0), DelayAction::SendAt(7)));

    let mut loss = LossCellConfig::new(vec![1u8]).into_factory();
    loss.change_state(CellState::Normal);
    assert!(loss.on_packet(Some(packet()), &|r: u8| r == 1).is_none());

    let c = LossReplayCellBuildConfig { trace: "t".to_string(), seed: Some(7) };
    let toml = Some("toml".to_string());
    let (format, egress, seed) = c.into_factory(&toml, 1u8, 5).unwrap();
    assert_eq!((format, egress.change_time(), seed), (TraceFormat::Toml, 5, 7));
    let c = LossReplayCellBuildConfig { trace: "t".to_string(), seed: Some(7) };
    assert!(c.into_factory(&None, 1u8, 5).is_err());

    let c = DuplicateDeviceBuildConfig { pattern: vec![1u8], seed: None };
    let (mut egress, seed) = c.into_factory();
    assert_eq!(seed, 42);
    egress.change_state(CellState::Normal);
    assert!(egress.on_packet(Some(packet()), &|r: u8| r == 1).is_some());
    assert!(egress.take_duplicate().is_some());

    let c = DuplicateReplayDeviceBuildConfig { trace: "t".to_string(), seed: None };
    let (format, egress, seed) =
        c.into_factory::<u8, StdPacket>("shown", &toml, vec![], 5).unwrap();
    assert_eq!((format, egress.change_time(), seed), (TraceFormat::Toml, 5, 42));
    let c = DuplicateReplayDeviceBuildConfig { trace: "t".to_string(), seed: None };
    match c.into_factory::<u8, StdPacket>("shown", &None, vec![], 5) {
        Err(Error::ConfigError(text)) => assert_eq!(text, "Unknown trace file format: shown"),
        _ => panic!("the file has no extension"),
    }
    let c = DelayReplayCellBuildConfig { trace: "t".to_string() };
    match c.into_factory::<StdPacket>(&Some("csv".to_string()), 1, 0) {
        Err(Error::ConfigError(text)) => assert_eq!(text, "Unknown trace file format: t"),
        _ => panic!("the format is not known"),
    }
    let c = DelayReplayCellBuildConfig { trace: "t".to_string() };
    let (format, mut egress) =
        c.into_factory(&Some("json".to_string()), 1, 0).unwrap();
    assert_eq!(format, TraceFormat::Json);
    egress.change_state(CellState::PassThrough);
    match egress.on_packet(Some(packet()), 0) {
        DelayAction::Return(Some(p)) => assert_eq!(p.get_timestamp(), 0),
        _ => panic!("the packet is passed through"),
    }
    assert_eq!((seed_or_default(None), seed_or_default(Some(1))), (42, 1));

    let timing = |bytes: u64, rate: u128| bytes as u128 * 8_000_000_000 / rate;
    let c = TokenBucketCellConfig::new(None, Some(8000), Some(1000), None, None);
    let mut bucket = c.into_factory(0, timing);
    bucket.change_state(CellState::Normal);
    assert!(matches!(bucket.on_packet(Some(packet())), TokenAction::Return(Some(_))));
    let (mut reorder, delay) = ReorderDelayCellConfig::new(9u128).into_factory();
    assert_eq!(delay, 9);
    reorder.change_state(CellState::Normal);
    assert!(matches!(reorder.on_packet(Some(packet()), delay, 0), PerPacketAction::Wait));
    assert_eq!(reorder.wake_time(0), Some(9));
}

#[test]
fn what_is_given_need_not_be_read() {
    let json = Some("json".to_string());
    let given = DelayPerPacketCellBuildConfig::FromConfig(5);
    assert!(matches!(given.load("f", &None), Ok(LoadStep::Ready(5))));
    let file = DelayPerPacketCellBuildConfig::<u8>::FromFile("f".to_string());
    assert!(matches!(file.load("f", &json), Ok(LoadStep::Read(TraceFormat::Json))));
    let file = DelayPerPacketCellBuildConfig::<u8>::FromFile("f".to_string());
    assert_eq!(message(file.load("f", &None)), "Unknown trace file format: f");
    let path = SpyCellBuildConfig::<u8>::Path("p".to_string());
    assert_eq!(path.record_file(true), Some(RecordFile::Truncate));
    assert_eq!(path.record_file(false), Some(RecordFile::Create));
    assert_eq!(SpyCellBuildConfig::Config(1).record_file(true), None);
}

#[test]
fn containers_are_linked_through_cells() {
    let cells = vec![CellEnds { rx: 10, tx: 11 }, CellEnds { rx: 20, tx: 21 }];
    assert_eq!(link_cells(1, &cells, 2), vec![(1, 11), (10, 21), (20, 2)]);
    assert_eq!(link_cells(1, &vec![], 2), vec![(1, 2)]);
    assert!(check_devices(2).is_ok());
    assert_eq!(message(check_devices(13)), "veth_list length is not 2, get 13");
}

#[test]
fn containers_ask_for_routes() {
    let request = route_request("RATTAN_HOST=10.0.0.1=x").unwrap();
    assert_eq!((request.ipv6, request.host.as_str()), (false, "10.0.0.1"));
    assert_eq!(request.delete_arguments(), strings(&["route", "del", "default"]));
    assert_eq!(
        request.add_arguments(),
        strings(&["route", "add", "default", "via", "10.0.0.1"])
    );
    let request = route_request("RATTAN_HOST6=fd00::1").unwrap();
    assert!(request.ipv6);
    assert_eq!(request.delete_arguments(), strings(&["-6", "route", "del", "default"]));
    assert_eq!(
        request.add_arguments(),
        strings(&["-6", "route", "add", "default", "via", "fd00::1"])
    );
    assert!(route_request("RATTAN_HOST").is_none());
    assert!(route_request("PATH=/bin").is_none());
}

#[test]
fn resources_can_be_set_from_outside() {
    let mut config = RattanResourceConfig::new();
    assert_eq!(config.working_threads(None), 4);
    assert_eq!(config.working_threads(Some("7")), 7);
    assert_eq!(config.working_threads(Some("many")), 4);
    assert_eq!(config.get_cpu(None), None);
    config.cpu = Some(vec![3, 1]);
    assert_eq!(config.working_threads(None), 2);
    assert_eq!(config.get_cpu(None), Some(vec![3, 1]));
    assert_eq!(config.get_cpu(Some("5,x,6,99999999999")), Some(vec![5, 6]));
    let general = RattanGeneralConfig::new();
    assert!(general.packet_log.is_none());
    assert_ne!(general.packet_log_mode, Some(PacketLogMode::RawIP));
}

#[test]
fn answers_match_what_was_asked() {
    assert_eq!(HttpConfig::default(), HttpConfig { enable: false, port: 8086 });
    assert_eq!(HttpConfig::from_options(true, Some(1)), HttpConfig { enable: true, port: 1 });
    assert_eq!(HttpConfig::from_options(true, None).port, 8086);
    assert_eq!(HttpControlEndpoint::new(3).op_endpoint, 3);
    assert!(matches!(RattanOp::<()>::QueryState, RattanOp::QueryState));
    assert!(notify_answer::<u8>(RattanOpResult::SendNotify).is_ok());
    assert!(config_answer::<u8>(RattanOpResult::ConfigDevice).is_ok());
    assert_eq!(state_answer(RattanOpResult::QueryState(5)).unwrap(), 5);
    for mismatch in [
        notify_answer::<u8>(RattanOpResult::ConfigDevice),
        config_answer::<u8>(RattanOpResult::QueryState(1)),
        state_answer::<u8>(RattanOpResult::SendNotify).map(|_| ()),
    ] {
        assert!(matches!(
            mismatch,
            Err(Error::RattanOpError(RattanOpError::MismatchOpResError))
        ));
    }
    assert!(data_channel(true).is_ok());
    assert_eq!(message(data_channel(false)), "Data channel is closed.");
    assert_eq!(message(control_channel(false)), "Control channel is closed.");
}

#[test]
fn numbers_read_back() {
    for n in [0u64, 7, 10, 42, 1_000_000, u64::MAX] {
        assert_eq!(decimal(n), n.to_string());
        assert_eq!(parse_number(&chars_of(&decimal(n)), u64::MAX), Ok(n));
    }
    assert_eq!(parse_number(&chars_of("256"), 255), Err(NumberFault::TooLarge));
    assert_eq!(parse_number(&chars_of(""), 255), Err(NumberFault::Empty));
    assert_eq!(parse_number(&chars_of("1a"), 255), Err(NumberFault::InvalidDigit));
    assert_eq!(parse_list("1,2,,3"), vec![1, 2, 3]);
    assert_eq!(trim_text(" \ta b\n"), vec!['a', ' ', 'b']);
}

#[test]
fn the_clock_counts_both_ways() {
    assert_eq!(duration_since(5, 3), 2);
    assert_eq!(duration_since(3, 5), 0);
    assert_eq!(duration_since(i128::MAX, i128::MIN), u128::MAX);
    assert_eq!(after(i128::MIN, u128::MAX), i128::MAX);
    assert_eq!(after(-5, 7), 2);
    assert_eq!(before(2, 7), -5);
    assert_eq!(next_chunk(5), 5);
    assert_eq!(next_chunk(SEND_CHUNK + 1), 96000);
}

#[test]
fn containers_are_joined_in_both_directions() {
    let options = ContainerOptions { bandwidth: Some(8_000), delay: None, loss: Some(30u32) };
    let (forth, back) = options.into_cells();
    assert_eq!(forth.len(), 2);
    assert_eq!(back.len(), 2);
    assert!(matches!(forth[0], ContainerCell::Bw(8_000)));
    assert!(matches!(back[0], ContainerCell::Bw(8_000)));
    assert!(matches!(forth[1], ContainerCell::Loss(None)));
    assert!(matches!(back[1], ContainerCell::Loss(Some(30))));

    let none = ContainerOptions::<u32> { bandwidth: None, delay: Some(5 * MILLISECOND), loss: None };
    let (forth, back) = none.into_cells();
    assert_eq!(forth.len(), 1);
    assert!(matches!(back[0], ContainerCell::Delay(d) if d == 5 * MILLISECOND));

    let left = CellEnds { rx: 0, tx: 1 };
    let right = CellEnds { rx: 2, tx: 3 };
    let forth = vec![CellEnds { rx: 4, tx: 5 }];
    let back = vec![CellEnds { rx: 6, tx: 7 }];
    assert_eq!(
        link_sides(left, &forth, right, &back),
        vec![(0, 5), (4, 3), (2, 7), (6, 1)]
    );
}

#[test]
fn packets_are_stamped_where_they_enter() {
    let packet = StdPacket::from_raw_buffer(vec![7; 20], 3);
    let taken = std::cell::Cell::new(None);
    let send = |p: StdPacket| {
        taken.set(Some((p.get_timestamp(), p.buf)));
        true
    };
    assert!(enqueue_stamped(packet, 8, &send).is_ok());
    assert_eq!(taken.take(), Some((8, vec![7; 20])));
    let packet = StdPacket::from_raw_buffer(vec![7; 20], 3);
    match enqueue_stamped(packet, 8, &|_: StdPacket| false) {
        Err(Error::ChannelError(text)) => assert_eq!(text, "Data channel is closed."),
        _ => panic!("nobody takes the packet"),
    }
}

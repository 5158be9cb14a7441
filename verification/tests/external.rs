//! Devices outside the emulator, headers and logs.
use etherparse::PacketBuilder;
use rattan_core::cells::external::{
    flow_desc, log_packet, log_timestamp, raw_part, Demux, FlowDesc, FlowMap, LogOp, PacketLogMode, PktAction,
    VirtualEthernetConfig, VirtualEthernetControlInterface, VirtualEthernetId,
};
use rattan_core::headers::{ether_hdr, ip_hdr, skip_bytes, tcp_hdr};
use rattan_core::packet::{Packet, RawPacket, StdPacket};

fn tcp_frame(payload: &[u8]) -> Vec<u8> {
    let builder = PacketBuilder::ethernet2([1; 6], [2; 6])
        .ipv4([10, 0, 0, 1], [10, 0, 0, 2], 64)
        .tcp(80, 443, 0x01020304, 1024)
        .ack(0x0a0b0c0d)
        .syn();
    let mut frame = vec![];
    builder.write(&mut frame, payload).unwrap();
    // An identification, and the flag that forbids fragments.
    frame[18] = 0xab;
    frame[19] = 0xcd;
    frame[20] = 0x40;
    frame[21] = 0;
    frame
}

fn udp_frame() -> Vec<u8> {
    let builder = PacketBuilder::ethernet2([1; 6], [2; 6])
        .ipv4([10, 0, 0, 1], [10, 0, 0, 2], 64)
        .udp(80, 443);
    let mut frame = vec![];
    builder.write(&mut frame, &[9; 10]).unwrap();
    frame
}

#[test]
fn headers_are_read() {
    let frame = tcp_frame(&[5; 7]);
    assert_eq!(ether_hdr(&frame), Some(0x0800));
    let ip = ip_hdr(&frame).unwrap();
    assert_eq!(ip.length, 20);
    assert_eq!(ip.ecn, 0);
    assert_eq!(ip.identification, 0xabcd);
    assert_eq!(ip.protocol, 6);
    assert_eq!(ip.source, [10, 0, 0, 1]);
    assert_eq!(ip.destination, [10, 0, 0, 2]);
    assert_eq!(ip.checksum, u16::from_be_bytes([frame[24], frame[25]]));
    let tcp = tcp_hdr(skip_bytes(&frame, 34)).unwrap();
    assert_eq!(tcp.sequence, 0x01020304);
    assert_eq!(tcp.acknowledgment, 0x0a0b0c0d);
    assert_eq!(tcp.data_offset, 5);
    assert!(ether_hdr(&frame[..13]).is_none());
    assert!(ip_hdr(&frame[..33]).is_none());
    assert!(tcp_hdr(&frame[34..53]).is_none());
    let mut longer = frame.clone();
    longer[14] = 0x4f;
    assert!(ip_hdr(&longer[..54]).is_none());
    longer[14] = 0x44;
    assert!(ip_hdr(&longer).is_none());
    assert!(skip_bytes(&frame, 1000).is_empty());
}

#[test]
fn tcp_segments_are_logged_in_compact_form() {
    let frame = tcp_frame(&[5; 7]);
    let op = log_packet(
        true,
        Some(PacketLogMode::CompactTCP),
        &frame,
        3,
        PktAction::Recv,
        5_000_999,
        1_000_000,
    );
    match op {
        Some(LogOp::Entry(record)) => {
            assert_eq!(record.pkt_length as usize, frame.len());
            assert_eq!(record.action, PktAction::Recv);
            assert_eq!(record.ts, 4000);
            assert_eq!(record.flow_id, 3);
            assert_eq!(record.ip_id, 0xabcd);
            assert_eq!(record.ip_frag, 0x4000);
            assert_eq!(record.seq, 0x01020304);
            assert_eq!(record.ack, 0x0a0b0c0d);
            assert_eq!(record.flags, 0b0001_0010);
            assert_eq!(record.dataofs, 5);
        }
        _ => panic!("the segment is logged"),
    }
    let compact = Some(PacketLogMode::CompactTCP);
    assert!(log_packet(true, compact, &udp_frame(), 3, PktAction::Send, 0, 0).is_none());
    assert!(log_packet(false, compact, &frame, 3, PktAction::Send, 0, 0).is_none());
    assert!(log_packet(true, None, &frame, 3, PktAction::Send, 0, 0).is_none());
}

#[test]
fn headers_are_logged_as_they_are() {
    let frame = tcp_frame(&[5; 7]);
    for (mode, part) in [
        (PacketLogMode::RawIP, &frame[14..54]),
        (PacketLogMode::RawTCP, &frame[34..54]),
    ] {
        match log_packet(true, Some(mode), &frame, 3, PktAction::Send, 0, 0) {
            Some(LogOp::RawEntry(record)) => {
                assert_eq!(record.raw, part);
                assert_eq!(record.mode, mode);
                assert_eq!(record.pkt_length as usize, frame.len());
            }
            _ => panic!("the headers are logged"),
        }
    }
    let raw = Some(PacketLogMode::RawIP);
    let udp = udp_frame();
    match log_packet(true, raw, &udp, 3, PktAction::Send, 0, 0) {
        Some(LogOp::RawEntry(record)) => assert_eq!(record.raw, &udp[14..42]),
        _ => panic!("the headers are logged"),
    }
    assert!(log_packet(true, raw, &[0; 5], 3, PktAction::Send, 0, 0).is_none());
}

#[test]
fn only_headers_that_fit_are_kept() {
    let frame: Vec<u8> = (0..10).collect();
    let lengths = Some((Some(2), Some(3), Some(4)));
    assert_eq!(raw_part(&frame, PacketLogMode::RawIP, lengths), Some((2..9).collect()));
    assert_eq!(raw_part(&frame, PacketLogMode::RawTCP, lengths), Some((5..9).collect()));
    assert_eq!(raw_part(&frame, PacketLogMode::RawTCP, Some((Some(2), Some(3), None))), None);
    let long = Some((Some(2), Some(3), Some(usize::MAX)));
    assert_eq!(raw_part(&frame, PacketLogMode::RawTCP, long), None);
    assert_eq!(raw_part(&frame, PacketLogMode::RawTCP, None), None);
}

#[test]
fn the_log_has_its_own_clock() {
    assert_eq!(log_timestamp(1_999, 0), 1);
    assert_eq!(log_timestamp(0, 1), 0);
    assert_eq!(log_timestamp(i64::MAX, i64::MIN), u32::MAX);
}

#[test]
fn a_device_is_told_by_its_parts() {
    let mut id = VirtualEthernetId::new();
    id.set_ns_id(3);
    id.set_veth_id(200);
    assert_eq!((id.get_ns_id(), id.get_veth_id()), (3, 200));
    assert_eq!(id.to_text(), "ns3-veth200");
    let other = id.set_ns_id_copied(255).set_veth_id_copied(0);
    assert_eq!((other.get_ns_id(), other.get_veth_id()), (255, 0));
    assert_eq!((id.get_ns_id(), id.get_veth_id()), (3, 200));
    assert_eq!(VirtualEthernetId::default().to_text(), "ns0-veth0");
}

#[test]
fn flows_are_numbered_in_a_row() {
    let mut id = VirtualEthernetId::new();
    id.set_ns_id(1);
    id.set_veth_id(2);
    let mut map = FlowMap::new(id);
    let desc = |port: u16| FlowDesc {
        source: 1,
        destination: 2,
        source_port: port,
        destination_port: 80,
    };
    let base = 0x0102_0000;
    assert_eq!(map.get_id(desc(1)), (base, true));
    assert_eq!(map.get_id(desc(2)), (base + 1, true));
    assert_eq!(map.get_id(desc(1)), (base, false));
    assert_eq!(map.get_id(desc(3)), (base + 2, true));
}

#[test]
fn a_tcp_flow_is_read_from_the_frame() {
    let frame = tcp_frame(&[1, 2]);
    let desc = FlowDesc {
        source: 0x0a00_0001,
        destination: 0x0a00_0002,
        source_port: 80,
        destination_port: 443,
    };
    assert_eq!(flow_desc(&frame), Some(desc));
    assert_eq!(flow_desc(&udp_frame()), None);
    assert_eq!(flow_desc(&frame[..40]), None);
    let mut other = frame.clone();
    other[12] = 0x86;
    assert_eq!(flow_desc(&other), None);
}

#[test]
fn received_packets_are_labelled() {
    let mut map = FlowMap::new(VirtualEthernetId::new().set_veth_id_copied(1));
    let desc = FlowDesc { source: 1, destination: 2, source_port: 3, destination_port: 4 };
    let mode = Some(PacketLogMode::CompactTCP);
    let mut p = StdPacket::from_raw_buffer(tcp_frame(&[1]), 0);
    match map.receive(&mut p, Some(desc), true, mode, 5_000, 2_000) {
        (Some(LogOp::Flow(flow)), Some(LogOp::Entry(entry))) => {
            assert_eq!((flow.flow_id, flow.base_ts, flow.desc), (0x0001_0000, 2_000, desc));
            assert_eq!((entry.flow_id, entry.ts), (0x0001_0000, 3));
            assert_eq!(entry.action, PktAction::Recv);
        }
        _ => panic!("the flow and the packet are logged"),
    }
    assert_eq!(p.get_flow_id(), 0x0001_0000);
    let mut again = StdPacket::from_raw_buffer(tcp_frame(&[1]), 0);
    let ops = map.receive(&mut again, Some(desc), true, mode, 5_000, 2_000);
    assert!(matches!(ops, (None, Some(LogOp::Entry(_)))));
    assert_eq!(again.get_flow_id(), 0x0001_0000);
    let mut other = StdPacket::from_raw_buffer(udp_frame(), 0);
    assert!(matches!(map.receive(&mut other, None, true, mode, 5_000, 2_000), (None, None)));
    assert_eq!(other.get_flow_id(), 0);
}

#[test]
fn packets_are_spread_over_queues() {
    let mut demux = Demux::new();
    let queues: Vec<usize> = (0..7).map(|_| demux.next_queue(3)).collect();
    assert_eq!(queues, vec![0, 1, 2, 0, 1, 2, 0]);
}

#[test]
fn there_is_nothing_to_configure() {
    let control = VirtualEthernetControlInterface { config: VirtualEthernetConfig {} };
    assert!(control.set_config(VirtualEthernetConfig {}).is_ok());
}

#[test]
fn a_packet_is_what_was_read() {
    let mut p = StdPacket::from_raw_buffer(vec![1, 2, 3], 5);
    assert_eq!((p.length(), p.l3_length(), p.get_timestamp()), (3, 0, 5));
    p.set_byte(1, 9);
    p.delay_until(8);
    p.set_flow_id(4);
    assert_eq!(p.as_slice(), &[1, 9, 3]);
    assert_eq!((p.get_timestamp(), p.get_flow_id()), (8, 4));
    let copy = p.copied();
    assert_eq!(copy.as_slice(), p.as_slice());
    assert_eq!(StdPacket::from_raw_buffer(vec![0; 20], 0).l3_length(), 6);
}

//! Routing tables and the router that uses them.
use etherparse::PacketBuilder;
use rattan_core::cells::router::routing::{
    IpAddr, IpNet, RoutingEntry, RoutingTable, RoutingTableError, SimpleRoutingTable,
};
use rattan_core::cells::router::RouterCell;
use rattan_core::error::Error;
use rattan_core::packet::StdPacket;

fn v4(a: u8, b: u8, c: u8, d: u8) -> IpAddr {
    IpAddr::V4(u32::from_be_bytes([a, b, c, d]))
}

fn v6(words: [u16; 8]) -> IpAddr {
    IpAddr::V6(words.iter().fold(0, |n, w| n << 16 | *w as u128))
}

fn net(ip: IpAddr, prefix_len: u8) -> IpNet {
    IpNet::new(ip, prefix_len).unwrap()
}

#[test]
fn test_simple_router() {
    let long = v6([0x1234, 0, 0, 0, 0, 0x123, 0x132, 0]);
    let mut router = <SimpleRoutingTable as RoutingTable>::try_from(vec![
        RoutingEntry::new(net(v4(10, 0, 0, 123), 8), Some(0)),
        RoutingEntry::new(net(v4(192, 168, 0, 0), 16), Some(2)),
        RoutingEntry::new(net(v4(192, 168, 2, 0), 23), None),
        RoutingEntry::new(net(v4(192, 168, 2, 2), 32), Some(6)),
        RoutingEntry::new(net(long, 40), Some(3)),
        RoutingEntry::new(net(long, 0), Some(4)),
    ])
    .unwrap();

    router.remove(net(v4(192, 168, 2, 2), 32)).unwrap();
    assert_eq!(
        router.remove(net(v4(192, 168, 2, 2), 32)),
        Err(RoutingTableError::EntryNotFound(net(v4(192, 168, 2, 2), 32)))
    );

    let entry = RoutingEntry::new(net(v4(10, 0, 0, 0), 12), Some(1));
    router.add(entry).unwrap();
    assert_eq!(router.add(entry), Err(RoutingTableError::DuplicateEntry(entry)));

    let answer = vec![
        RoutingEntry::new(net(v4(10, 0, 0, 0), 8), Some(0)),
        RoutingEntry::new(net(v4(10, 0, 0, 0), 12), Some(1)),
        RoutingEntry::new(net(v4(192, 168, 0, 0), 16), Some(2)),
        RoutingEntry::new(net(v4(192, 168, 2, 0), 23), None),
        RoutingEntry::new(net(v6([0x1234, 0, 0, 0, 0, 0, 0, 0]), 40), Some(3)),
        RoutingEntry::new(net(v6([0; 8]), 0), Some(4)),
    ];
    let table = router.get_plain_table();
    assert_eq!(table.len(), answer.len());
    assert!(answer.iter().all(|e| table.contains(e)));

    assert_eq!(router.match_ip(v4(10, 255, 0, 0)), Some(0));
    assert_eq!(router.match_ip(v4(10, 0, 0, 0)), Some(1));
    assert_eq!(router.match_ip(v4(192, 168, 12, 234)), Some(2));
    assert_eq!(router.match_ip(v4(192, 168, 3, 2)), None);
    assert_eq!(router.match_ip(v4(222, 222, 222, 222)), None);
    assert_eq!(router.match_ip(v6([0x1234, 0, 0, 0, 0, 0, 0, 124])), Some(3));
    assert_eq!(router.match_ip(v6([0, 0, 123, 0, 12, 0, 0, 0])), Some(4));

    router.clear();
    assert_eq!(router.match_ip(v4(10, 255, 0, 0)), None);

    assert!(router
        .reset(vec![
            RoutingEntry::new(net(v4(10, 0, 0, 123), 8), Some(0)),
            RoutingEntry::new(net(v4(10, 0, 0, 0), 8), Some(0)),
        ])
        .is_err());
    assert_eq!(router.match_ip(v4(10, 255, 0, 0)), None);
    router.reset(vec![RoutingEntry::new(net(v4(10, 0, 0, 123), 8), Some(0))]).unwrap();
    assert_eq!(router.match_ip(v4(10, 255, 0, 0)), Some(0));
}

#[test]
fn a_prefix_is_no_longer_than_an_address() {
    assert!(IpNet::new(v4(1, 2, 3, 4), 33).is_none());
    assert!(IpNet::new(v6([0; 8]), 129).is_none());
    let n = net(v4(1, 2, 3, 4), 24);
    assert_eq!(n.prefix_len(), 24);
    assert_eq!(n.trunc(), net(v4(1, 2, 3, 0), 24));
    assert!(n.contains(&v4(1, 2, 3, 255)));
    assert!(!n.contains(&v4(1, 2, 4, 4)));
    assert!(!n.contains(&v6([0; 8])));
    assert_eq!(net(v6([0xffff; 8]), 17).trunc(), net(v6([0xffff, 0x8000, 0, 0, 0, 0, 0, 0]), 17));
    assert!(net(v6([0xffff; 8]), 128).contains(&v6([0xffff; 8])));
}

/// A UDP datagram.
fn generate_packet(dest: [u8; 4], payload: &[u8]) -> StdPacket {
    let builder = PacketBuilder::ethernet2(
        [0x38, 0x7e, 0x58, 0xe7, 1, 1],
        [0x38, 0x7e, 0x58, 0xe7, 1, 2],
    )
    .ipv4([1, 2, 3, 4], dest, 127)
    .udp(12345, 54321);
    let mut buffer = Vec::<u8>::with_capacity(builder.size(payload.len()));
    builder.write(&mut buffer, payload).unwrap();
    StdPacket::from_raw_buffer(buffer, 0)
}

/// Where a router sends a packet to `dest`.
fn routed(cell: &RouterCell<SimpleRoutingTable>, dest: [u8; 4]) -> Result<Option<usize>, Error> {
    let packet = generate_packet(dest, &[7; 256]);
    cell.ingress.enqueue(cell.control_interface.router(), &packet)
}

const FIRST: [u8; 4] = [192, 168, 1, 1];
const SECOND: [u8; 4] = [192, 168, 1, 2];

fn host(dest: [u8; 4]) -> IpNet {
    net(v4(dest[0], dest[1], dest[2], dest[3]), 32)
}

#[test]
fn test_router_cell() {
    assert!(RouterCell::<SimpleRoutingTable>::new(
        2,
        vec![RoutingEntry::new(host(FIRST), Some(2))]
    )
    .is_err());
    let cell: RouterCell<SimpleRoutingTable> = RouterCell::new(
        2,
        vec![
            RoutingEntry::new(host(FIRST), Some(0)),
            RoutingEntry::new(host(SECOND), Some(1)),
        ],
    )
    .unwrap();
    for i in 0..100 {
        let target = i * 7 % 3 % 2;
        let sent = routed(&cell, if target == 0 { FIRST } else { SECOND }).unwrap();
        assert_eq!(sent, Some(target));
    }
}

#[test]
fn test_router_control() {
    let mut cell: RouterCell<SimpleRoutingTable> =
        RouterCell::new(2, vec![RoutingEntry::new(host(FIRST), Some(0))]).unwrap();
    assert_eq!(routed(&cell, FIRST).unwrap(), Some(0));
    assert_eq!(routed(&cell, SECOND).unwrap(), None);

    let control = &mut cell.control_interface;
    assert!(matches!(
        control.add(RoutingEntry::new(host(SECOND), Some(2))),
        Err(Error::RoutingTableError(RoutingTableError::InvalidInterfaceId(2)))
    ));
    control.add(RoutingEntry::new(host(SECOND), Some(1))).unwrap();
    assert!(control.add(RoutingEntry::new(host(SECOND), Some(0))).is_err());
    assert_eq!(routed(&cell, SECOND).unwrap(), Some(1));

    let control = &mut cell.control_interface;
    control.remove(host(FIRST)).unwrap();
    assert!(control.remove(host(FIRST)).is_err());
    assert_eq!(routed(&cell, FIRST).unwrap(), None);

    cell.control_interface.clear();
    assert_eq!(routed(&cell, SECOND).unwrap(), None);

    let control = &mut cell.control_interface;
    assert!(control
        .set_config(vec![
            RoutingEntry::new(host(FIRST), Some(0)),
            RoutingEntry::new(host(SECOND), Some(2)),
        ])
        .is_err());
    assert!(control.get_plain_table().is_empty());
    control
        .set_config(vec![
            RoutingEntry::new(host(FIRST), Some(1)),
            RoutingEntry::new(host(SECOND), Some(0)),
        ])
        .unwrap();
    assert_eq!(routed(&cell, FIRST).unwrap(), Some(1));
    assert_eq!(routed(&cell, SECOND).unwrap(), Some(0));
}

#[test]
fn removing_undoes_adding() {
    let mut cell: RouterCell<SimpleRoutingTable> =
        RouterCell::new(3, vec![RoutingEntry::new(host(FIRST), Some(0))]).unwrap();
    let before = cell.control_interface.get_plain_table();
    cell.control_interface.add(RoutingEntry::new(host(SECOND), Some(2))).unwrap();
    cell.control_interface.remove(host(SECOND)).unwrap();
    assert_eq!(cell.control_interface.get_plain_table(), before);
}

#[test]
fn what_cannot_be_read_is_dropped() {
    let cell: RouterCell<SimpleRoutingTable> =
        RouterCell::new(1, vec![RoutingEntry::new(net(v4(0, 0, 0, 0), 0), Some(0))]).unwrap();
    assert_eq!(routed(&cell, FIRST).unwrap(), Some(0));
    let short = StdPacket::from_raw_buffer(vec![0; 20], 0);
    let router = cell.control_interface.router();
    assert_eq!(cell.ingress.enqueue(router, &short).unwrap(), None);
    let mut six = generate_packet(FIRST, &[]);
    six.buf[14] = 0x65;
    assert_eq!(cell.ingress.enqueue(router, &six).unwrap(), None);
}

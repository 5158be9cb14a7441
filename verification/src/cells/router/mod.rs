//! A cell that sends each packet on by its destination.
use crate::error::Error;
use crate::headers::{be32, has_ethernet, has_ipv4, ip_hdr, rest_after, ETHERNET_HEADER_LENGTH};
use crate::packet::RawPacket;
use routing::{
    added_all, all_valid, has_prefix, is_route, is_table, IpAddr, IpNet, PlainRoutingTable,
    RoutingEntry, RoutingTable, RoutingTableError,
};
use vstd::prelude::*;

pub mod routing;

verus! {

/// The address to which an Ethernet frame is sent; `None` if it holds no IPv4 header.
pub open spec fn destination(frame: Seq<u8>) -> Option<u32> {
    let ip = rest_after(frame, ETHERNET_HEADER_LENGTH as int);
    if has_ethernet(frame) && has_ipv4(ip) {
        Some(be32(ip, 16) as u32)
    } else {
        None
    }
}

fn ipv4_address(octets: [u8; 4]) -> (addr: u32)
    ensures
        addr == be32(octets@, 0),
{
    (octets[0] as u32 * 256 + octets[1] as u32) * 65536 + (octets[2] as u32 * 256
        + octets[3] as u32)
}

/// What becomes of a packet with the given route, where there are `egresses` interfaces.
pub open spec fn forwarded(route: Option<usize>, egresses: usize) -> Result<Option<usize>, Error> {
    match route {
        None => Ok(None),
        Some(i) => if i < egresses {
            Ok(Some(i))
        } else {
            Err(Error::RoutingTableError(RoutingTableError::InvalidInterfaceId(i)))
        },
    }
}

/// `r` is what becomes of a packet to `addr`.
pub open spec fn is_forwarded(
    entries: Seq<RoutingEntry>,
    addr: u32,
    egresses: usize,
    r: Result<Option<usize>, Error>,
) -> bool {
    exists|route: Option<usize>|
        {
            &&& #[trigger] is_route(entries, IpAddr::V4(addr), route)
            &&& r == forwarded(route, egresses)
        }
}

/// Where packets enter the cell.
#[derive(Debug)]
pub struct RouterCellIngress {
    /// How many interfaces there are to send packets on.
    pub egresses: usize,
}

impl RouterCellIngress {
    /// The interface on which a packet is sent; `None` if it is dropped. A packet without an
    /// IPv4 header is dropped.
    pub fn enqueue<R: RoutingTable, P: RawPacket>(&self, router: &R, packet: &P) -> (r: Result<
        Option<usize>,
        Error,
    >)
        requires
            is_table(router.entries()),
        ensures
            match destination(packet.bytes()) {
                None => r == Ok::<Option<usize>, Error>(None),
                Some(addr) => is_forwarded(router.entries(), addr, self.egresses, r),
            },
    {
        let octets = match ip_hdr(packet.as_slice()) {
            Some(header) => header.destination,
            None => {
                return Ok(None);
            },
        };
        let addr: u32 = ipv4_address(octets);
        proof {
            let ip = rest_after(packet.bytes(), ETHERNET_HEADER_LENGTH as int);
            assert(octets@ == ip.subrange(16, 20));
            assert(destination(packet.bytes()) == Some(addr));
        }
        let route: Option<usize> = router.match_ip(IpAddr::V4(addr));
        let r: Result<Option<usize>, Error> = match route {
            Some(interface_id) => if interface_id < self.egresses {
                Ok(Some(interface_id))
            } else {
                Err(Error::RoutingTableError(RoutingTableError::InvalidInterfaceId(interface_id)))
            },
            None => Ok(None),
        };
        assert(is_route(router.entries(), IpAddr::V4(addr), route));
        assert(r == forwarded(route, self.egresses));
        r
    }
}

/// The other side of the cell, from which nothing ever leaves.
#[derive(Debug)]
pub struct RouterCellEgress {}

/// How a router is set up.
#[derive(Debug)]
pub struct RouterCellConfig {
    pub egress_connections: Vec<String>,
    pub routing_table: PlainRoutingTable,
}

/// The interface of an entry is one of `count`.
pub open spec fn interface_exists(interface_id: Option<usize>, count: usize) -> bool {
    interface_id is Some ==> interface_id->0 < count
}

/// All interfaces are among `count`.
pub open spec fn interfaces_exist(entries: Seq<RoutingEntry>, count: usize) -> bool {
    forall|i: int|
        0 <= i < entries.len() ==> interface_exists((#[trigger] entries[i]).interface_id, count)
}

/// Entry `i` is the first whose interface is not among `count`.
pub open spec fn first_bad(entries: Seq<RoutingEntry>, count: usize, i: int) -> bool {
    &&& 0 <= i < entries.len()
    &&& !interface_exists(entries[i].interface_id, count)
    &&& interfaces_exist(entries.take(i), count)
}

/// Where the router is configured.
pub struct RouterCellControlInterface<R> {
    interface_count: usize,
    router: R,
}

impl<R: RoutingTable> RouterCellControlInterface<R> {
    pub closed spec fn entries(self) -> Seq<RoutingEntry> {
        self.router.entries()
    }

    pub closed spec fn interface_count(self) -> usize {
        self.interface_count
    }

    /// The table is one, and all its interfaces exist.
    pub open spec fn wf(self) -> bool {
        is_table(self.entries()) && interfaces_exist(self.entries(), self.interface_count())
    }

    /// The table, for looking up routes.
    pub fn router(&self) -> (router: &R)
        ensures
            router.entries() == self.entries(),
    {
        &self.router
    }

    fn check_interface_id(&self, interface_id: Option<usize>) -> (r: Result<(), Error>)
        ensures
            if interface_exists(interface_id, self.interface_count()) {
                r is Ok
            } else {
                r == Err::<(), _>(
                    Error::RoutingTableError(
                        RoutingTableError::InvalidInterfaceId(interface_id->0),
                    ),
                )
            },
    {
        match interface_id {
            Some(i) => if i >= self.interface_count {
                return Err(Error::RoutingTableError(RoutingTableError::InvalidInterfaceId(i)));
            },
            None => {},
        }
        Ok(())
    }

    /// Removes all routing entries.
    pub fn clear(&mut self)
        ensures
            final(self).wf(),
            final(self).entries() == Seq::<RoutingEntry>::empty(),
            final(self).interface_count() == old(self).interface_count(),
    {
        self.router.clear();
    }

    /// Adds one routing entry, if its interface exists.
    pub fn add(&mut self, entry: RoutingEntry) -> (r: Result<(), Error>)
        requires
            old(self).wf(),
            entry.prefix.valid(),
        ensures
            final(self).wf(),
            final(self).interface_count() == old(self).interface_count(),
            if !interface_exists(entry.interface_id, old(self).interface_count()) {
                &&& r == Err::<(), _>(
                    Error::RoutingTableError(
                        RoutingTableError::InvalidInterfaceId(entry.interface_id->0),
                    ),
                )
                &&& final(self).entries() == old(self).entries()
            } else if has_prefix(old(self).entries(), entry.prefix.truncated()) {
                &&& r == Err::<(), _>(
                    Error::RoutingTableError(
                        RoutingTableError::DuplicateEntry(entry.truncated()),
                    ),
                )
                &&& final(self).entries() == old(self).entries()
            } else {
                &&& r is Ok
                &&& final(self).entries() == old(self).entries().push(entry.truncated())
            },
    {
        match self.check_interface_id(entry.interface_id) {
            Ok(()) => {},
            Err(e) => {
                return Err(e);
            },
        }
        match self.router.add(entry) {
            Ok(()) => Ok(()),
            Err(e) => Err(Error::RoutingTableError(e)),
        }
    }

    /// Removes one routing entry by its prefix.
    pub fn remove(&mut self, prefix: IpNet) -> (r: Result<(), Error>)
        requires
            old(self).wf(),
            prefix.valid(),
        ensures
            final(self).wf(),
            final(self).interface_count() == old(self).interface_count(),
            if has_prefix(old(self).entries(), prefix.truncated()) {
                &&& r is Ok
                &&& exists|i: int|
                    {
                        &&& 0 <= i < old(self).entries().len()
                        &&& (#[trigger] old(self).entries()[i]).prefix == prefix.truncated()
                        &&& final(self).entries() == old(self).entries().remove(i)
                    }
            } else {
                &&& r == Err::<(), _>(
                    Error::RoutingTableError(RoutingTableError::EntryNotFound(prefix.truncated())),
                )
                &&& final(self).entries() == old(self).entries()
            },
    {
        match self.router.remove(prefix) {
            Ok(()) => Ok(()),
            Err(e) => Err(Error::RoutingTableError(e)),
        }
    }

    /// The entries of the table.
    pub fn get_plain_table(&self) -> (table: PlainRoutingTable)
        ensures
            table@ == self.entries(),
    {
        self.router.get_plain_table()
    }

    /// Replaces the whole routing table, if all its interfaces exist. If any new routing entry
    /// is illegal, the table remains unchanged.
    pub fn set_config(&mut self, config: PlainRoutingTable) -> (r: Result<(), Error>)
        requires
            old(self).wf(),
            all_valid(config@),
        ensures
            final(self).wf(),
            final(self).interface_count() == old(self).interface_count(),
            r is Err ==> final(self).entries() == old(self).entries(),
            if interfaces_exist(config@, old(self).interface_count()) {
                match added_all(Seq::empty(), config@) {
                    Ok(entries) => r is Ok && final(self).entries() == entries,
                    Err(e) => r == Err::<(), _>(Error::RoutingTableError(e)),
                }
            } else {
                exists|i: int|
                    {
                        &&& #[trigger] first_bad(config@, old(self).interface_count(), i)
                        &&& r == Err::<(), _>(
                            Error::RoutingTableError(
                                RoutingTableError::InvalidInterfaceId(config@[i].interface_id->0),
                            ),
                        )
                    }
            },
    {
        let mut i: usize = 0;
        while i < config.len()
            invariant
                i <= config@.len(),
                self.wf(),
                *self == *old(self),
                interfaces_exist(config@.take(i as int), self.interface_count()),
            decreases config@.len() - i,
        {
            match self.check_interface_id(config[i].interface_id) {
                Ok(()) => {
                    assert(config@.take(i as int + 1) =~= config@.take(i as int).push(
                        config@[i as int],
                    ));
                },
                Err(e) => {
                    assert(first_bad(config@, self.interface_count(), i as int));
                    return Err(e);
                },
            }
            i = i + 1;
        }
        assert(config@.take(i as int) =~= config@);
        proof {
            lemma_added_all_interfaces(Seq::empty(), config@, self.interface_count());
        }
        match self.router.reset(config) {
            Ok(()) => Ok(()),
            Err(e) => Err(Error::RoutingTableError(e)),
        }
    }
}

/// Adding entries adds no other interfaces than theirs.
proof fn lemma_added_all_interfaces(
    entries: Seq<RoutingEntry>,
    table: Seq<RoutingEntry>,
    count: usize,
)
    requires
        interfaces_exist(entries, count),
        interfaces_exist(table, count),
    ensures
        added_all(entries, table) is Ok ==> interfaces_exist(
            added_all(entries, table)->Ok_0,
            count,
        ),
    decreases table.len(),
{
    if table.len() > 0 && !has_prefix(entries, table[0].prefix.truncated()) {
        lemma_added_all_interfaces(
            entries.push(table[0].truncated()),
            table.drop_first(),
            count,
        );
    }
}

/// A router.
pub struct RouterCell<R> {
    pub ingress: RouterCellIngress,
    pub egress: RouterCellEgress,
    pub control_interface: RouterCellControlInterface<R>,
}

impl<R: RoutingTable> RouterCell<R> {
    /// A router with `egresses` interfaces and the given table, if all its interfaces exist.
    pub fn new(egresses: usize, table: PlainRoutingTable) -> (r: Result<RouterCell<R>, Error>)
        requires
            all_valid(table@),
        ensures
            r is Ok ==> {
                &&& r->Ok_0.control_interface.wf()
                &&& r->Ok_0.control_interface.interface_count() == egresses
                &&& r->Ok_0.ingress.egresses == egresses
            },
            if interfaces_exist(table@, egresses) {
                match added_all(Seq::empty(), table@) {
                    Ok(entries) => r is Ok && r->Ok_0.control_interface.entries() == entries,
                    Err(e) => r == Err::<RouterCell<R>, _>(Error::RoutingTableError(e)),
                }
            } else {
                exists|i: int|
                    {
                        &&& #[trigger] first_bad(table@, egresses, i)
                        &&& r == Err::<RouterCell<R>, _>(
                            Error::RoutingTableError(
                                RoutingTableError::InvalidInterfaceId(table@[i].interface_id->0),
                            ),
                        )
                    }
            },
    {
        let empty: PlainRoutingTable = Vec::new();
        let router = match R::try_from(empty) {
            Ok(router) => router,
            Err(e) => {
                return Err(Error::RoutingTableError(e));
            },
        };
        let mut control_interface = RouterCellControlInterface {
            interface_count: egresses,
            router,
        };
        match control_interface.set_config(table) {
            Ok(()) => {},
            Err(e) => {
                return Err(e);
            },
        }
        Ok(
            RouterCell {
                ingress: RouterCellIngress { egresses },
                egress: RouterCellEgress {  },
                control_interface,
            },
        )
    }
}

/// Where the table holds only interfaces that exist, every packet is sent on one of them or
/// dropped.
pub proof fn law_checked_table_routes_to_an_interface(
    entries: Seq<RoutingEntry>,
    count: usize,
    ip: IpAddr,
    route: Option<usize>,
)
    requires
        interfaces_exist(entries, count),
        is_route(entries, ip, route),
    ensures
        route is Some ==> route->0 < count,
{
}

/// An entry that was added can be removed again, which leaves the table as it was.
pub proof fn law_remove_undoes_add(
    before: Seq<RoutingEntry>,
    entry: RoutingEntry,
    with: Seq<RoutingEntry>,
    after: Seq<RoutingEntry>,
    i: int,
)
    requires
        is_table(before),
        is_table(with),
        with == before.push(entry.truncated()),
        0 <= i < with.len(),
        with[i].prefix == entry.prefix.truncated(),
        after == with.remove(i),
    ensures
        after == before,
{
    assert(with[before.len() as int].prefix == entry.prefix.truncated());
    assert(i == before.len());
    assert(after =~= before);
}

/// A packet is sent on the interface of its route, if there is such an interface; without a
/// route it is dropped, and an interface that does not exist is an error.
pub proof fn law_packet_follows_its_route(route: Option<usize>, egresses: usize)
    ensures
        route is None ==> forwarded(route, egresses) == Ok::<Option<usize>, Error>(None),
        route is Some && route->0 < egresses ==> forwarded(route, egresses) == Ok::<
            Option<usize>,
            Error,
        >(route),
        route is Some && route->0 >= egresses ==> forwarded(route, egresses) is Err,
{
}

/// The destination of a frame is the number in its bytes 30 to 33, where it is an IPv4 packet;
/// other frames have none.
pub proof fn law_destination_is_in_the_header(frame: Seq<u8>)
    ensures
        destination(frame) is Some <==> frame.len() >= 34 && frame[14] / 16 == 4 && frame[14] % 16
            >= 5 && frame.len() >= 14 + (frame[14] % 16) * 4,
        destination(frame) is Some ==> destination(frame)->0 == ((frame[30] * 256 + frame[31])
            * 256 + frame[32]) * 256 + frame[33],
{
    if frame.len() >= 14 {
        let ip = rest_after(frame, ETHERNET_HEADER_LENGTH as int);
        assert(ip.len() == frame.len() - 14);
        if ip.len() >= 20 {
            assert(ip[0] == frame[14]);
            assert(ip[16] == frame[30] && ip[17] == frame[31] && ip[18] == frame[32] && ip[19]
                == frame[33]);
        }
    }
}

/// A table passes the check exactly if no entry names an interface past the last one.
pub proof fn law_interfaces_are_checked(entries: Seq<RoutingEntry>, count: usize)
    ensures
        interfaces_exist(entries, count) <==> forall|i: int|
            0 <= i < entries.len() && (#[trigger] entries[i]).interface_id is Some
                ==> entries[i].interface_id->0 < count,
        forall|i: int| #[trigger]
            first_bad(entries, count, i) ==> entries[i].interface_id is Some
                && entries[i].interface_id->0 >= count && !interfaces_exist(entries, count),
{
    assert forall|i: int| #[trigger] first_bad(entries, count, i) implies entries[i].interface_id
        is Some && entries[i].interface_id->0 >= count && !interfaces_exist(entries, count) by {
        assert(!interface_exists(entries[i].interface_id, count));
    }
    if forall|i: int|
        0 <= i < entries.len() && (#[trigger] entries[i]).interface_id is Some
            ==> entries[i].interface_id->0 < count {
        assert forall|i: int| 0 <= i < entries.len() implies interface_exists(
            (#[trigger] entries[i]).interface_id,
            count,
        ) by {}
    }
    if interfaces_exist(entries, count) {
        assert forall|i: int|
            0 <= i < entries.len() && (#[trigger] entries[i]).interface_id
                is Some implies entries[i].interface_id->0 < count by {
            assert(interface_exists(entries[i].interface_id, count));
        }
    }
}

} // verus!

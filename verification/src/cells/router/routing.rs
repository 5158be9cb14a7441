//! Routing tables: the longest prefix that an address matches decides where it goes.
use vstd::arithmetic::power2::pow2;
use vstd::prelude::*;

verus! {

/// An address: IPv4 or IPv6.
#[derive(Debug, Clone, Copy, PartialEq, Eq, Structural)]
pub enum IpAddr {
    V4(u32),
    V6(u128),
}

/// A network: an address and the number of leading bits that count.
#[derive(Debug, Clone, Copy, PartialEq, Eq, Structural)]
#[allow(inconsistent_fields)]
pub enum IpNet {
    V4 { addr: u32, prefix_len: u8 },
    V6 { addr: u128, prefix_len: u8 },
}

/// The first `prefix_len` of the `width` bits of `addr`, with zeros behind them.
pub open spec fn network_of(addr: int, prefix_len: u8, width: int) -> int {
    addr - addr % (pow2((width - prefix_len) as nat) as int)
}

/// `ipnet::Ipv4Net::trunc`: the address of the network, which keeps the leading bits that
/// the prefix length counts and clears the others.
#[verifier::external_body]
fn ipv4_trunc(addr: u32, prefix_len: u8) -> (r: u32)
    requires
        prefix_len <= 32,
    ensures
        r == network_of(addr as int, prefix_len, 32),
{
    ipnet::Ipv4Net::new(addr.into(), prefix_len).unwrap().trunc().addr().into()
}

/// `ipnet::Ipv6Net::trunc`: the address of the network, which keeps the leading bits that
/// the prefix length counts and clears the others.
#[verifier::external_body]
fn ipv6_trunc(addr: u128, prefix_len: u8) -> (r: u128)
    requires
        prefix_len <= 128,
    ensures
        r == network_of(addr as int, prefix_len, 128),
{
    ipnet::Ipv6Net::new(addr.into(), prefix_len).unwrap().trunc().addr().into()
}

/// `ipnet::Ipv4Net::contains` on an address: whether it lies between the first and the last
/// address of the network, which is to say that its leading bits are those of the network.
#[verifier::external_body]
fn ipv4_contains(addr: u32, prefix_len: u8, ip: u32) -> (b: bool)
    requires
        prefix_len <= 32,
    ensures
        b == (network_of(addr as int, prefix_len, 32) == network_of(ip as int, prefix_len, 32)),
{
    let host = ipnet::Ipv4Net::new(ip.into(), 32).unwrap();
    ipnet::Ipv4Net::new(addr.into(), prefix_len).unwrap().contains(&host.addr())
}

/// `ipnet::Ipv6Net::contains` on an address: whether it lies between the first and the last
/// address of the network, which is to say that its leading bits are those of the network.
#[verifier::external_body]
fn ipv6_contains(addr: u128, prefix_len: u8, ip: u128) -> (b: bool)
    requires
        prefix_len <= 128,
    ensures
        b == (network_of(addr as int, prefix_len, 128) == network_of(ip as int, prefix_len, 128)),
{
    let host = ipnet::Ipv6Net::new(ip.into(), 128).unwrap();
    ipnet::Ipv6Net::new(addr.into(), prefix_len).unwrap().contains(&host.addr())
}

impl IpNet {
    /// No more bits count than the address has.
    pub open spec fn valid(self) -> bool {
        match self {
            IpNet::V4 { prefix_len, .. } => prefix_len <= 32,
            IpNet::V6 { prefix_len, .. } => prefix_len <= 128,
        }
    }

    /// The number of leading bits that count.
    pub open spec fn len(self) -> u8 {
        match self {
            IpNet::V4 { prefix_len, .. } => prefix_len,
            IpNet::V6 { prefix_len, .. } => prefix_len,
        }
    }

    /// The network with zeros for the bits that do not count.
    pub open spec fn truncated(self) -> IpNet {
        match self {
            IpNet::V4 { addr, prefix_len } => IpNet::V4 {
                addr: network_of(addr as int, prefix_len, 32) as u32,
                prefix_len,
            },
            IpNet::V6 { addr, prefix_len } => IpNet::V6 {
                addr: network_of(addr as int, prefix_len, 128) as u128,
                prefix_len,
            },
        }
    }

    /// `ip` belongs to the network.
    pub open spec fn matches(self, ip: IpAddr) -> bool {
        match (self, ip) {
            (IpNet::V4 { addr, prefix_len }, IpAddr::V4(ip)) => network_of(
                addr as int,
                prefix_len,
                32,
            ) == network_of(ip as int, prefix_len, 32),
            (IpNet::V6 { addr, prefix_len }, IpAddr::V6(ip)) => network_of(
                addr as int,
                prefix_len,
                128,
            ) == network_of(ip as int, prefix_len, 128),
            _ => false,
        }
    }

    /// A network, if no more bits count than the address has.
    pub fn new(ip: IpAddr, prefix_len: u8) -> (net: Option<IpNet>)
        ensures
            match ip {
                IpAddr::V4(addr) => {
                    &&& net is Some <==> prefix_len <= 32
                    &&& net is Some ==> net->0 == (IpNet::V4 { addr, prefix_len })
                },
                IpAddr::V6(addr) => {
                    &&& net is Some <==> prefix_len <= 128
                    &&& net is Some ==> net->0 == (IpNet::V6 { addr, prefix_len })
                },
            },
            net is Some ==> net->0.valid(),
    {
        match ip {
            IpAddr::V4(addr) => if prefix_len <= 32 {
                Some(IpNet::V4 { addr, prefix_len })
            } else {
                None
            },
            IpAddr::V6(addr) => if prefix_len <= 128 {
                Some(IpNet::V6 { addr, prefix_len })
            } else {
                None
            },
        }
    }

    pub fn prefix_len(&self) -> (n: u8)
        ensures
            n == self.len(),
    {
        match self {
            IpNet::V4 { prefix_len, .. } => *prefix_len,
            IpNet::V6 { prefix_len, .. } => *prefix_len,
        }
    }

    pub fn trunc(&self) -> (net: IpNet)
        requires
            self.valid(),
        ensures
            net == self.truncated(),
            net.valid(),
            net.truncated() == net,
    {
        proof {
            lemma_truncated_twice(*self);
        }
        match self {
            IpNet::V4 { addr, prefix_len } => IpNet::V4 {
                addr: ipv4_trunc(*addr, *prefix_len),
                prefix_len: *prefix_len,
            },
            IpNet::V6 { addr, prefix_len } => IpNet::V6 {
                addr: ipv6_trunc(*addr, *prefix_len),
                prefix_len: *prefix_len,
            },
        }
    }

    pub fn contains(&self, ip: &IpAddr) -> (b: bool)
        requires
            self.valid(),
        ensures
            b == self.matches(*ip),
    {
        match (self, ip) {
            (IpNet::V4 { addr, prefix_len }, IpAddr::V4(ip)) => ipv4_contains(
                *addr,
                *prefix_len,
                *ip,
            ),
            (IpNet::V6 { addr, prefix_len }, IpAddr::V6(ip)) => ipv6_contains(
                *addr,
                *prefix_len,
                *ip,
            ),
            _ => false,
        }
    }
}

/// The network of an address is an address.
proof fn lemma_network_of_bounds(addr: int, prefix_len: u8, width: int)
    requires
        0 <= addr,
        prefix_len <= width,
    ensures
        0 <= network_of(addr, prefix_len, width) <= addr,
        network_of(network_of(addr, prefix_len, width), prefix_len, width) == network_of(
            addr,
            prefix_len,
            width,
        ),
{
    let m = pow2((width - prefix_len) as nat) as int;
    vstd::arithmetic::power2::lemma_pow2_pos((width - prefix_len) as nat);
    assert(0 <= addr % m <= addr && (addr - addr % m) % m == 0) by (nonlinear_arith)
        requires
            0 <= addr,
            m > 0,
    ;
}

/// A network is truncated once and for all.
proof fn lemma_truncated_twice(net: IpNet)
    requires
        net.valid(),
    ensures
        net.truncated().truncated() == net.truncated(),
        net.truncated().valid(),
{
    match net {
        IpNet::V4 { addr, prefix_len } => lemma_network_of_bounds(addr as int, prefix_len, 32),
        IpNet::V6 { addr, prefix_len } => lemma_network_of_bounds(addr as int, prefix_len, 128),
    }
}

/// Where the addresses of a network go: to an interface, or nowhere.
#[derive(Debug, Clone, Copy, PartialEq, Eq, Structural)]
pub struct RoutingEntry {
    pub prefix: IpNet,
    pub interface_id: Option<usize>,
}

impl RoutingEntry {
    pub fn new(prefix: IpNet, interface_id: Option<usize>) -> (e: RoutingEntry)
        ensures
            e == (RoutingEntry { prefix, interface_id }),
    {
        RoutingEntry { prefix, interface_id }
    }

    /// The entry with its prefix truncated.
    pub open spec fn truncated(self) -> RoutingEntry {
        RoutingEntry { prefix: self.prefix.truncated(), interface_id: self.interface_id }
    }
}

pub type PlainRoutingTable = Vec<RoutingEntry>;

/// Why a routing table cannot be what it was asked to be.
#[derive(Debug, Clone, Copy, PartialEq, Eq, Structural)]
pub enum RoutingTableError {
    /// There is an entry for the prefix of this one already.
    DuplicateEntry(RoutingEntry),
    /// There is no entry for this prefix.
    EntryNotFound(IpNet),
    /// There is no such interface.
    InvalidInterfaceId(usize),
}

/// Some entry is for `prefix`.
pub open spec fn has_prefix(entries: Seq<RoutingEntry>, prefix: IpNet) -> bool {
    exists|i: int| 0 <= i < entries.len() && (#[trigger] entries[i]).prefix == prefix
}

/// No two entries are for the same network, and all are truncated.
pub open spec fn is_table(entries: Seq<RoutingEntry>) -> bool {
    &&& forall|i: int|
        0 <= i < entries.len() ==> (#[trigger] entries[i]).prefix.valid()
            && entries[i].prefix.truncated() == entries[i].prefix
    &&& forall|i: int, j: int|
        0 <= i < j < entries.len() ==> (#[trigger] entries[i]).prefix != (
        #[trigger] entries[j]).prefix
}

/// All prefixes are networks.
pub open spec fn all_valid(entries: Seq<RoutingEntry>) -> bool {
    forall|i: int| 0 <= i < entries.len() ==> (#[trigger] entries[i]).prefix.valid()
}

/// Entry `i` has the longest prefix of those that `ip` belongs to.
pub open spec fn is_best(entries: Seq<RoutingEntry>, ip: IpAddr, i: int) -> bool {
    &&& 0 <= i < entries.len()
    &&& entries[i].prefix.matches(ip)
    &&& forall|j: int|
        0 <= j < entries.len() && (#[trigger] entries[j]).prefix.matches(ip)
            ==> entries[j].prefix.len() <= entries[i].prefix.len()
}

/// `route` is where `ip` goes: by the entry with the longest prefix that it belongs to, and
/// nowhere if there is none.
pub open spec fn is_route(entries: Seq<RoutingEntry>, ip: IpAddr, route: Option<usize>) -> bool {
    ||| exists|i: int| #[trigger]
        is_best(entries, ip, i) && route == entries[i].interface_id
    ||| route is None && forall|j: int|
        0 <= j < entries.len() ==> !(#[trigger] entries[j]).prefix.matches(ip)
}

/// The table that results from adding `table` entry by entry to `entries`: as far as that
/// goes without a prefix that is there already, and that prefix.
pub open spec fn added_all(entries: Seq<RoutingEntry>, table: Seq<RoutingEntry>) -> Result<
    Seq<RoutingEntry>,
    RoutingTableError,
>
    decreases table.len(),
{
    if table.len() == 0 {
        Ok(entries)
    } else if has_prefix(entries, table[0].prefix.truncated()) {
        Err(RoutingTableError::DuplicateEntry(table[0].truncated()))
    } else {
        added_all(entries.push(table[0].truncated()), table.drop_first())
    }
}

/// A routing table.
pub trait RoutingTable: Sized {
    /// The entries, in the order in which they were added.
    spec fn entries(&self) -> Seq<RoutingEntry>;

    /// A table of the given entries.
    fn try_from(table: PlainRoutingTable) -> (r: Result<Self, RoutingTableError>)
        requires
            all_valid(table@),
        ensures
            match added_all(Seq::empty(), table@) {
                Ok(entries) => r is Ok && r->Ok_0.entries() == entries && is_table(entries),
                Err(e) => r == Err::<Self, RoutingTableError>(e),
            },
    ;

    /// Removes all routing entries.
    fn clear(&mut self)
        ensures
            final(self).entries() == Seq::<RoutingEntry>::empty(),
    ;

    /// Adds one routing entry.
    fn add(&mut self, entry: RoutingEntry) -> (r: Result<(), RoutingTableError>)
        requires
            is_table(old(self).entries()),
            entry.prefix.valid(),
        ensures
            is_table(final(self).entries()),
            if has_prefix(old(self).entries(), entry.prefix.truncated()) {
                &&& r == Err::<(), _>(RoutingTableError::DuplicateEntry(entry.truncated()))
                &&& final(self).entries() == old(self).entries()
            } else {
                &&& r is Ok
                &&& final(self).entries() == old(self).entries().push(entry.truncated())
            },
    ;

    /// Removes one routing entry by its prefix.
    fn remove(&mut self, prefix: IpNet) -> (r: Result<(), RoutingTableError>)
        requires
            is_table(old(self).entries()),
            prefix.valid(),
        ensures
            is_table(final(self).entries()),
            if has_prefix(old(self).entries(), prefix.truncated()) {
                &&& r is Ok
                &&& exists|i: int|
                    {
                        &&& 0 <= i < old(self).entries().len()
                        &&& (#[trigger] old(self).entries()[i]).prefix == prefix.truncated()
                        &&& final(self).entries() == old(self).entries().remove(i)
                    }
            } else {
                &&& r == Err::<(), _>(RoutingTableError::EntryNotFound(prefix.truncated()))
                &&& final(self).entries() == old(self).entries()
            },
    ;

    /// Replaces the whole routing table. If any new routing entry is illegal, the table
    /// remains unchanged.
    fn reset(&mut self, table: PlainRoutingTable) -> (r: Result<(), RoutingTableError>)
        requires
            all_valid(table@),
        ensures
            match added_all(Seq::empty(), table@) {
                Ok(entries) => r is Ok && final(self).entries() == entries && is_table(entries),
                Err(e) => r == Err::<(), _>(e) && final(self).entries() == old(self).entries(),
            },
    {
        match Self::try_from(table) {
            Ok(router) => {
                *self = router;
                Ok(())
            },
            Err(e) => Err(e),
        }
    }

    /// Where `ip` goes.
    fn match_ip(&self, ip: IpAddr) -> (route: Option<usize>)
        requires
            is_table(self.entries()),
        ensures
            is_route(self.entries(), ip, route),
    ;

    /// The entries of the table.
    fn get_plain_table(&self) -> (table: PlainRoutingTable)
        ensures
            table@ == self.entries(),
    ;
}

/// A table that is searched from one end to the other.
#[derive(Debug)]
pub struct SimpleRoutingTable {
    table: PlainRoutingTable,
}

impl SimpleRoutingTable {
    /// The place of the entry for `prefix`.
    fn position(&self, prefix: IpNet) -> (pos: Option<usize>)
        ensures
            pos is Some <==> has_prefix(self.entries(), prefix),
            pos is Some ==> pos->0 < self.entries().len() && self.entries()[pos->0 as int].prefix
                == prefix,
    {
        let mut i: usize = 0;
        while i < self.table.len()
            invariant
                i <= self.table@.len(),
                self.entries() == self.table@,
                forall|j: int|
                    0 <= j < i ==> (#[trigger] self.table@[j]).prefix != prefix,
            decreases self.table@.len() - i,
        {
            if self.table[i].prefix == prefix {
                return Some(i);
            }
            i = i + 1;
        }
        None
    }
}

impl RoutingTable for SimpleRoutingTable {
    closed spec fn entries(&self) -> Seq<RoutingEntry> {
        self.table@
    }

    fn try_from(table: PlainRoutingTable) -> (r: Result<Self, RoutingTableError>) {
        let mut router = SimpleRoutingTable { table: Vec::new() };
        let mut i: usize = 0;
        assert(table@.skip(0) =~= table@);
        while i < table.len()
            invariant
                i <= table@.len(),
                all_valid(table@),
                is_table(router.entries()),
                added_all(router.entries(), table@.skip(i as int)) == added_all(
                    Seq::empty(),
                    table@,
                ),
            decreases table@.len() - i,
        {
            assert(table@.skip(i as int).drop_first() =~= table@.skip(i as int + 1));
            match router.add(table[i]) {
                Ok(()) => {},
                Err(e) => {
                    return Err(e);
                },
            }
            i = i + 1;
        }
        Ok(router)
    }

    fn clear(&mut self) {
        self.table.clear();
    }

    fn add(&mut self, entry: RoutingEntry) -> (r: Result<(), RoutingTableError>) {
        let entry = RoutingEntry::new(entry.prefix.trunc(), entry.interface_id);
        match self.position(entry.prefix) {
            Some(_) => Err(RoutingTableError::DuplicateEntry(entry)),
            None => {
                self.table.push(entry);
                Ok(())
            },
        }
    }

    fn remove(&mut self, prefix: IpNet) -> (r: Result<(), RoutingTableError>) {
        let prefix = prefix.trunc();
        match self.position(prefix) {
            Some(pos) => {
                let _ = self.table.remove(pos);
                Ok(())
            },
            None => Err(RoutingTableError::EntryNotFound(prefix)),
        }
    }

    fn match_ip(&self, ip: IpAddr) -> (route: Option<usize>) {
        let mut best: Option<usize> = None;
        let mut i: usize = 0;
        while i < self.table.len()
            invariant
                i <= self.table@.len(),
                self.entries() == self.table@,
                is_table(self.table@),
                match best {
                    Some(b) => {
                        &&& b < i
                        &&& self.table@[b as int].prefix.matches(ip)
                        &&& forall|j: int|
                            0 <= j < i && (#[trigger] self.table@[j]).prefix.matches(ip)
                                ==> self.table@[j].prefix.len() <= self.table@[b as int].prefix.len()
                    },
                    None => forall|j: int|
                        0 <= j < i ==> !(#[trigger] self.table@[j]).prefix.matches(ip),
                },
            decreases self.table@.len() - i,
        {
            if self.table[i].prefix.contains(&ip) {
                match best {
                    Some(b) => if self.table[i].prefix.prefix_len()
                        >= self.table[b].prefix.prefix_len() {
                        best = Some(i);
                    },
                    None => {
                        best = Some(i);
                    },
                }
            }
            i = i + 1;
        }
        match best {
            Some(b) => {
                assert(is_best(self.entries(), ip, b as int));
                self.table[b].interface_id
            },
            None => None,
        }
    }

    fn get_plain_table(&self) -> (table: PlainRoutingTable) {
        let mut table: PlainRoutingTable = Vec::new();
        let mut i: usize = 0;
        while i < self.table.len()
            invariant
                i <= self.table@.len(),
                table@ == self.table@.take(i as int),
            decreases self.table@.len() - i,
        {
            assert(self.table@.take(i as int + 1) =~= self.table@.take(i as int).push(
                self.table@[i as int],
            ));
            table.push(self.table[i]);
            i = i + 1;
        }
        assert(self.table@.take(i as int) =~= self.table@);
        table
    }
}

/// There is one route for an address: no two entries for it have prefixes of one length.
pub proof fn law_route_is_unique(
    entries: Seq<RoutingEntry>,
    ip: IpAddr,
    a: Option<usize>,
    b: Option<usize>,
)
    requires
        is_table(entries),
        is_route(entries, ip, a),
        is_route(entries, ip, b),
    ensures
        a == b,
{
    if exists|i: int| #[trigger] is_best(entries, ip, i) && a == entries[i].interface_id {
        let i = choose|i: int| #[trigger]
            is_best(entries, ip, i) && a == entries[i].interface_id;
        let j = choose|j: int| #[trigger]
            is_best(entries, ip, j) && b == entries[j].interface_id;
        assert(entries[i].prefix.matches(ip));
        assert(is_best(entries, ip, j));
        assert(entries[i].prefix.len() == entries[j].prefix.len());
        assert(entries[i].prefix.truncated() == entries[j].prefix.truncated());
        assert(i == j);
    }
}

/// The longest prefix wins: an address goes where the entry with the longest prefix that it
/// belongs to sends it, whatever shorter prefixes say, and nowhere if it belongs to none.
pub proof fn law_longest_prefix_wins(
    entries: Seq<RoutingEntry>,
    ip: IpAddr,
    route: Option<usize>,
    i: int,
)
    requires
        is_table(entries),
        is_route(entries, ip, route),
    ensures
        0 <= i < entries.len() && entries[i].prefix.matches(ip) && (forall|j: int|
            0 <= j < entries.len() && j != i && (#[trigger] entries[j]).prefix.matches(ip)
                ==> entries[j].prefix.len() < entries[i].prefix.len()) ==> route
            == entries[i].interface_id,
        (forall|j: int| 0 <= j < entries.len() ==> !(#[trigger] entries[j]).prefix.matches(ip))
            ==> route is None,
        route is Some ==> exists|j: int|
            0 <= j < entries.len() && (#[trigger] entries[j]).prefix.matches(ip)
                && entries[j].interface_id == route,
{
    if 0 <= i < entries.len() && entries[i].prefix.matches(ip) && (forall|j: int|
        0 <= j < entries.len() && j != i && (#[trigger] entries[j]).prefix.matches(ip)
            ==> entries[j].prefix.len() < entries[i].prefix.len()) {
        let k = choose|k: int| #[trigger]
            is_best(entries, ip, k) && route == entries[k].interface_id;
        assert(is_best(entries, ip, k));
        assert(entries[k].prefix.matches(ip));
    }
    if route is Some {
        let k = choose|k: int| #[trigger]
            is_best(entries, ip, k) && route == entries[k].interface_id;
        assert(is_best(entries, ip, k));
        assert(entries[k].prefix.matches(ip));
    }
}

/// The front of an address, as a number: what is left of it without the bits that do not
/// count.
pub open spec fn front_bits(addr: int, prefix_len: u8, width: int) -> int {
    addr / (pow2((width - prefix_len) as nat) as int)
}

/// Two addresses are of one network exactly if their fronts are the same.
proof fn lemma_network_by_front(a: int, b: int, prefix_len: u8, width: int)
    requires
        0 <= a,
        0 <= b,
        prefix_len <= width,
    ensures
        network_of(a, prefix_len, width) == network_of(b, prefix_len, width) <==> front_bits(
            a,
            prefix_len,
            width,
        ) == front_bits(b, prefix_len, width),
{
    let m = pow2((width - prefix_len) as nat) as int;
    vstd::arithmetic::power2::lemma_pow2_pos((width - prefix_len) as nat);
    assert(a - a % m == (a / m) * m && b - b % m == (b / m) * m) by (nonlinear_arith)
        requires
            m > 0,
    ;
    let x = a / m;
    let y = b / m;
    assert(x * m == y * m <==> x == y) by (nonlinear_arith)
        requires
            m > 0,
    ;
}

/// An address belongs to a network exactly if it is of the same kind and its leading bits, as
/// many as count, are those of the network. A prefix of no bits holds every address, and one
/// of all bits holds that address alone.
pub proof fn law_address_matches_by_its_leading_bits(net: IpNet, ip: IpAddr)
    requires
        net.valid(),
    ensures
        match (net, ip) {
            (IpNet::V4 { addr, prefix_len }, IpAddr::V4(ip)) => net.matches(IpAddr::V4(ip))
                <==> front_bits(addr as int, prefix_len, 32) == front_bits(
                ip as int,
                prefix_len,
                32,
            ),
            (IpNet::V6 { addr, prefix_len }, IpAddr::V6(ip)) => net.matches(IpAddr::V6(ip))
                <==> front_bits(addr as int, prefix_len, 128) == front_bits(
                ip as int,
                prefix_len,
                128,
            ),
            _ => !net.matches(ip),
        },
        net matches IpNet::V4 { addr, prefix_len } ==> (prefix_len == 32 ==> (net.matches(ip)
            <==> ip == IpAddr::V4(addr))),
        net matches IpNet::V4 { prefix_len, .. } ==> (prefix_len == 0 ==> (net.matches(ip)
            <==> ip is V4)),
        net.truncated().matches(ip) == net.matches(ip),
        net.truncated().len() == net.len(),
{
    vstd::arithmetic::power2::lemma2_to64();
    match (net, ip) {
        (IpNet::V4 { addr, prefix_len }, IpAddr::V4(ip)) => {
            lemma_network_by_front(addr as int, ip as int, prefix_len, 32);
            lemma_network_of_bounds(addr as int, prefix_len, 32);
            assert(pow2(0) == 1 && pow2(32) == 0x1_0000_0000);
            if prefix_len == 0 {
                let all = pow2((32 - prefix_len) as nat) as int;
                assert(all == 0x1_0000_0000);
                vstd::arithmetic::div_mod::lemma_basic_div(addr as int, all);
                vstd::arithmetic::div_mod::lemma_basic_div(ip as int, all);
            }
        },
        (IpNet::V6 { addr, prefix_len }, IpAddr::V6(ip)) => {
            lemma_network_by_front(addr as int, ip as int, prefix_len, 128);
            lemma_network_of_bounds(addr as int, prefix_len, 128);
        },
        _ => {},
    }
}

/// A table is made of its entries one by one, each truncated, in their order; it is refused
/// exactly if two of them are for the same network.
pub proof fn law_table_holds_its_entries(entries: Seq<RoutingEntry>, table: Seq<RoutingEntry>)
    requires
        is_table(entries),
        all_valid(table),
    ensures
        added_all(entries, table) is Ok ==> {
            let all = added_all(entries, table)->Ok_0;
            &&& all.len() == entries.len() + table.len()
            &&& entries.is_prefix_of(all)
            &&& forall|i: int|
                0 <= i < table.len() ==> #[trigger] all[entries.len() + i] == (RoutingEntry {
                    prefix: table[i].prefix.truncated(),
                    interface_id: table[i].interface_id,
                })
            &&& is_table(all)
        },
        added_all(entries, table) is Err ==> exists|i: int|
            {
                &&& 0 <= i < table.len()
                &&& added_all(entries, table)->Err_0 == RoutingTableError::DuplicateEntry(
                    (#[trigger] table[i]).truncated(),
                )
                &&& has_prefix(entries, table[i].prefix.truncated()) || exists|j: int|
                    0 <= j < i && (#[trigger] table[j]).prefix.truncated()
                        == table[i].prefix.truncated()
            },
    decreases table.len(),
{
    if table.len() > 0 {
        assert(table[0].prefix.valid());
        if !has_prefix(entries, table[0].prefix.truncated()) {
            let rest = table.drop_first();
            let with = entries.push(table[0].truncated());
            lemma_truncated_twice(table[0].prefix);
            assert(is_table(with)) by {
                assert forall|i: int, j: int| 0 <= i < j < with.len() implies (
                #[trigger] with[i]).prefix != (#[trigger] with[j]).prefix by {
                    if j == entries.len() {
                        assert(entries[i].prefix != table[0].prefix.truncated());
                    }
                }
            }
            assert forall|i: int| 0 <= i < rest.len() implies (
            #[trigger] rest[i]).prefix.valid() by {
                assert(rest[i] == table[i + 1]);
            }
            law_table_holds_its_entries(with, rest);
            if added_all(entries, table) is Ok {
                let all = added_all(entries, table)->Ok_0;
                assert(all[entries.len() as int] == with[entries.len() as int]);
                assert forall|i: int| 0 <= i < table.len() implies #[trigger] all[entries.len()
                    + i] == (RoutingEntry {
                    prefix: table[i].prefix.truncated(),
                    interface_id: table[i].interface_id,
                }) by {
                    if i > 0 {
                        assert(all[with.len() + (i - 1)] == (RoutingEntry {
                            prefix: rest[i - 1].prefix.truncated(),
                            interface_id: rest[i - 1].interface_id,
                        }));
                    }
                }
                assert(entries =~= all.subrange(0, entries.len() as int)) by {
                    assert(with =~= all.subrange(0, with.len() as int));
                    assert forall|i: int| 0 <= i < entries.len() implies entries[i] == all[i] by {
                        assert(with[i] == entries[i]);
                    }
                }
            } else {
                let k = choose|k: int|
                    {
                        &&& 0 <= k < rest.len()
                        &&& added_all(with, rest)->Err_0 == RoutingTableError::DuplicateEntry(
                            (#[trigger] rest[k]).truncated(),
                        )
                        &&& has_prefix(with, rest[k].prefix.truncated()) || exists|j: int|
                            0 <= j < k && (#[trigger] rest[j]).prefix.truncated()
                                == rest[k].prefix.truncated()
                    };
                let p = rest[k].prefix.truncated();
                assert(table[k + 1] == rest[k]);
                if has_prefix(with, p) {
                    let j = choose|j: int| 0 <= j < with.len() && (#[trigger] with[j]).prefix == p;
                    if j < entries.len() {
                        assert(entries[j].prefix == p);
                    } else {
                        assert(table[0].prefix.truncated() == p);
                    }
                } else {
                    let j = choose|j: int|
                        0 <= j < k && (#[trigger] rest[j]).prefix.truncated() == p;
                    assert(table[j + 1].prefix.truncated() == p);
                }
            }
        }
    } else {
        assert(entries =~= entries.subrange(0, entries.len() as int));
    }
}

} // verus!

//! A channel between two containers.
use crate::error::Error;
use crate::parse::fields;
use crate::text::{decimal, digits};
use crate::time::Duration;
use vstd::prelude::*;
use vstd::string::{StrSliceExecFns, StringExecFns};

verus! {

/// The two ends of a cell: where packets are received from it, and where they are sent to it.
#[derive(Debug, Clone, Copy, PartialEq, Eq, Structural)]
pub struct CellEnds {
    pub rx: usize,
    pub tx: usize,
}

/// The links of one direction: what is received from `source` goes into the first of the
/// cells, what is received from each of them into the next, and what is received from the
/// last one to `target`.
pub open spec fn chain(source: usize, cells: Seq<CellEnds>, target: usize) -> Seq<(usize, usize)> {
    Seq::new(
        cells.len() + 1,
        |i: int|
            (
                if i == 0 {
                    source
                } else {
                    cells[i - 1].rx
                },
                if i == cells.len() {
                    target
                } else {
                    cells[i].tx
                },
            ),
    )
}

/// The links of one direction.
pub fn link_cells(source: usize, cells: &Vec<CellEnds>, target: usize) -> (links: Vec<
    (usize, usize),
>)
    ensures
        links@ == chain(source, cells@, target),
{
    let mut links: Vec<(usize, usize)> = Vec::new();
    let mut from: usize = source;
    let mut i: usize = 0;
    while i < cells.len()
        invariant
            i <= cells@.len(),
            links@ == chain(source, cells@, target).take(i as int),
            from == if i == 0 {
                source
            } else {
                cells@[i - 1].rx
            },
        decreases cells@.len() - i,
    {
        links.push((from, cells[i].tx));
        assert(links@ =~= chain(source, cells@, target).take(i + 1));
        from = cells[i].rx;
        i = i + 1;
    }
    links.push((from, target));
    assert(links@ =~= chain(source, cells@, target));
    links
}

/// The links between two sides, in both directions.
pub fn link_sides(
    left: CellEnds,
    left_cells: &Vec<CellEnds>,
    right: CellEnds,
    right_cells: &Vec<CellEnds>,
) -> (links: Vec<(usize, usize)>)
    ensures
        links@ == chain(left.rx, left_cells@, right.tx) + chain(right.rx, right_cells@, left.tx),
{
    let mut links = link_cells(left.rx, left_cells, right.tx);
    let mut back = link_cells(right.rx, right_cells, left.tx);
    links.append(&mut back);
    links
}

/// What is asked of the channel between two containers.
#[derive(Debug)]
pub struct ContainerOptions<R> {
    /// In bits per second.
    pub bandwidth: Option<u64>,
    pub delay: Option<Duration>,
    pub loss: Option<R>,
}

/// A cell of the channel between two containers.
#[derive(Debug)]
pub enum ContainerCell<R> {
    /// A link of so many bits per second, before it a queue without limits.
    Bw(u64),
    Delay(Duration),
    /// Loses packets at a rate. As long as none is set, it loses none.
    Loss(Option<R>),
}

impl<R> ContainerOptions<R> {
    /// The cells that both directions have: a link, then a delay.
    pub open spec fn common(self) -> Seq<ContainerCell<R>> {
        (match self.bandwidth {
            Some(b) => seq![ContainerCell::Bw(b)],
            None => Seq::empty(),
        }) + (match self.delay {
            Some(d) => seq![ContainerCell::Delay(d)],
            None => Seq::empty(),
        })
    }

    /// The cells from the left side to the right one. The rate of loss is not set here.
    pub open spec fn left_to_right(self) -> Seq<ContainerCell<R>> {
        self.common() + (match self.loss {
            Some(r) => seq![ContainerCell::Loss(None)],
            None => Seq::empty(),
        })
    }

    /// The cells from the right side to the left one.
    pub open spec fn right_to_left(self) -> Seq<ContainerCell<R>> {
        self.common() + (match self.loss {
            Some(r) => seq![ContainerCell::Loss(Some(r))],
            None => Seq::empty(),
        })
    }

    /// The cells from left to right, and those from right to left.
    pub fn into_cells(self) -> (cells: (Vec<ContainerCell<R>>, Vec<ContainerCell<R>>))
        ensures
            cells.0@ == self.left_to_right(),
            cells.1@ == self.right_to_left(),
    {
        let mut forth: Vec<ContainerCell<R>> = Vec::new();
        let mut back: Vec<ContainerCell<R>> = Vec::new();
        if let Some(b) = self.bandwidth {
            forth.push(ContainerCell::Bw(b));
            back.push(ContainerCell::Bw(b));
        }
        if let Some(d) = self.delay {
            forth.push(ContainerCell::Delay(d));
            back.push(ContainerCell::Delay(d));
        }
        assert(forth@ =~= self.common());
        assert(back@ =~= self.common());
        if let Some(r) = self.loss {
            forth.push(ContainerCell::Loss(None));
            back.push(ContainerCell::Loss(Some(r)));
        }
        assert(forth@ =~= self.left_to_right());
        assert(back@ =~= self.right_to_left());
        (forth, back)
    }
}

/// A container has to be attached by two devices, one for each side.
pub fn check_devices(count: usize) -> (r: Result<(), Error>)
    ensures
        r is Ok <==> count == 2,
        r is Err ==> r->Err_0 is ConfigError && r->Err_0.text()
            == "veth_list length is not 2, get "@ + digits(count as nat),
{
    if count == 2 {
        Ok(())
    } else {
        Err(
            Error::ConfigError(
                "veth_list length is not 2, get ".to_owned().concat(
                    decimal(count as u64).as_str(),
                ),
            ),
        )
    }
}

/// A default route that a container asks for by its environment.
#[derive(Debug)]
pub struct RouteRequest {
    pub ipv6: bool,
    pub host: String,
}

/// `text` begins with `prefix`.
pub open spec fn begins_with(text: Seq<char>, prefix: Seq<char>) -> bool {
    prefix.len() <= text.len() && text.take(prefix.len() as int) == prefix
}

/// Whether `text` begins with `prefix`.
fn starts_with(text: &str, prefix: &str) -> (r: bool)
    ensures
        r == begins_with(text@, prefix@),
{
    let n: usize = prefix.unicode_len();
    if n > text.unicode_len() {
        return false;
    }
    let mut i: usize = 0;
    while i < n
        invariant
            n == prefix@.len(),
            n <= text@.len(),
            i <= n,
            forall|k: int| 0 <= k < i ==> text@[k] == prefix@[k],
        decreases n - i,
    {
        if text.get_char(i) != prefix.get_char(i) {
            assert(text@.take(n as int)[i as int] != prefix@[i as int]);
            return false;
        }
        i = i + 1;
    }
    assert(text@.take(n as int) =~= prefix@);
    true
}

/// What follows the first equals sign, up to the next one.
pub open spec fn value_of(variable: Seq<char>) -> Seq<char> {
    fields(variable, '=')[1]
}

/// Up to its second separator a text has as many parts as it has separators, and one more;
/// what follows does not change the second part once a third has begun.
proof fn lemma_second_field(s: Seq<char>, n: int)
    requires
        0 <= n <= s.len(),
        fields(s.take(n), '=').len() > 2,
    ensures
        fields(s, '=').len() > 2,
        fields(s, '=')[1] == fields(s.take(n), '=')[1],
    decreases s.len() - n,
{
    if n == s.len() {
        assert(s.take(n) =~= s);
    } else {
        assert(s.take(n + 1).drop_last() =~= s.take(n));
        lemma_second_field(s, n + 1);
    }
}

/// What follows the first `skip` characters of `variable`, the last of which is the first
/// equals sign, up to the next equals sign.
fn value_after(variable: &str, skip: usize) -> (value: String)
    requires
        0 < skip <= variable@.len(),
        variable@[skip - 1] == '=',
        forall|k: int| 0 <= k < skip - 1 ==> variable@[k] != '=',
    ensures
        value@ == value_of(variable@),
        fields(variable@, '=').len() >= 2,
{
    let n: usize = variable.unicode_len();
    let mut end: usize = skip;
    proof {
        lemma_first_field(variable@, skip - 1);
        assert(variable@.take(skip as int).drop_last() =~= variable@.take(skip - 1));
        assert(variable@.subrange(skip as int, skip as int) =~= Seq::<char>::empty());
    }
    while end < n && variable.get_char(end) != '='
        invariant
            n == variable@.len(),
            skip <= end <= n,
            fields(variable@.take(end as int), '=').len() == 2,
            fields(variable@.take(end as int), '=')[1] == variable@.subrange(
                skip as int,
                end as int,
            ),
        decreases n - end,
    {
        proof {
            assert(variable@.take(end + 1).drop_last() =~= variable@.take(end as int));
            assert(variable@.subrange(skip as int, end + 1) =~= variable@.subrange(
                skip as int,
                end as int,
            ).push(variable@[end as int]));
        }
        end = end + 1;
    }
    proof {
        if end < n {
            assert(variable@.take(end + 1).drop_last() =~= variable@.take(end as int));
            lemma_second_field(variable@, end + 1);
        } else {
            assert(variable@.take(n as int) =~= variable@);
        }
    }
    variable.substring_char(skip, end).to_owned()
}

/// Before the first separator there is one part.
proof fn lemma_first_field(s: Seq<char>, n: int)
    requires
        0 <= n <= s.len(),
        forall|k: int| 0 <= k < n ==> s[k] != '=',
    ensures
        fields(s.take(n), '=').len() == 1,
        fields(s.take(n), '=')[0] == s.take(n),
    decreases n,
{
    if n > 0 {
        lemma_first_field(s, n - 1);
        assert(s.take(n).drop_last() =~= s.take(n - 1));
        assert(s.take(n - 1).push(s[n - 1]) =~= s.take(n));
        assert(fields(s.take(n), '=') =~= seq![s.take(n)]);
    } else {
        assert(s.take(0) =~= Seq::<char>::empty());
    }
}

/// The default route that an environment variable of a container asks for, if it asks for
/// one: `RATTAN_HOST=` and a host, or `RATTAN_HOST6=` and a host for IPv6.
pub fn route_request(variable: &str) -> (request: Option<RouteRequest>)
    ensures
        request is Some <==> begins_with(variable@, "RATTAN_HOST="@) || begins_with(
            variable@,
            "RATTAN_HOST6="@,
        ),
        request is Some ==> request->0.ipv6 == begins_with(variable@, "RATTAN_HOST6="@)
            && request->0.host@ == value_of(variable@),
{
    proof {
        reveal_strlit("RATTAN_HOST=");
        reveal_strlit("RATTAN_HOST6=");
        lemma_host_prefixes(variable@);
    }
    if starts_with(variable, "RATTAN_HOST=") {
        return Some(RouteRequest { ipv6: false, host: value_after(variable, 12) });
    }
    if starts_with(variable, "RATTAN_HOST6=") {
        return Some(RouteRequest { ipv6: true, host: value_after(variable, 13) });
    }
    None
}

/// The two variables are told apart by what follows their common front, and each holds its
/// first equals sign at its end.
proof fn lemma_host_prefixes(s: Seq<char>)
    ensures
        begins_with(s, "RATTAN_HOST="@) ==> !begins_with(s, "RATTAN_HOST6="@) && s.len() >= 12
            && s[11] == '=' && forall|k: int| 0 <= k < 11 ==> s[k] != '=',
        begins_with(s, "RATTAN_HOST6="@) ==> s.len() >= 13 && s[12] == '=' && forall|k: int|
            0 <= k < 12 ==> s[k] != '=',
{
    reveal_strlit("RATTAN_HOST=");
    reveal_strlit("RATTAN_HOST6=");
    if begins_with(s, "RATTAN_HOST="@) {
        assert forall|k: int| 0 <= k < 12 implies s[k] == "RATTAN_HOST="@[k] by {
            assert(s.take(12)[k] == s[k]);
        }
        if begins_with(s, "RATTAN_HOST6="@) {
            assert(s.take(13)[11] == s[11]);
        }
    }
    if begins_with(s, "RATTAN_HOST6="@) {
        assert forall|k: int| 0 <= k < 13 implies s[k] == "RATTAN_HOST6="@[k] by {
            assert(s.take(13)[k] == s[k]);
        }
    }
}

impl RouteRequest {
    /// The arguments of `ip` that remove the default route of the container.
    pub open spec fn delete_words(self) -> Seq<Seq<char>> {
        if self.ipv6 {
            seq!["-6"@, "route"@, "del"@, "default"@]
        } else {
            seq!["route"@, "del"@, "default"@]
        }
    }

    /// The arguments of `ip` that set the default route of the container.
    pub open spec fn add_words(self) -> Seq<Seq<char>> {
        if self.ipv6 {
            seq!["-6"@, "route"@, "add"@, "default"@, "via"@, self.host@]
        } else {
            seq!["route"@, "add"@, "default"@, "via"@, self.host@]
        }
    }

    pub fn delete_arguments(&self) -> (words: Vec<String>)
        ensures
            words@.map_values(|w: String| w@) == self.delete_words(),
    {
        let mut words: Vec<String> = Vec::new();
        if self.ipv6 {
            words.push("-6".to_owned());
        }
        words.push("route".to_owned());
        words.push("del".to_owned());
        words.push("default".to_owned());
        assert(words@.map_values(|w: String| w@) =~= self.delete_words());
        words
    }

    pub fn add_arguments(&self) -> (words: Vec<String>)
        ensures
            words@.map_values(|w: String| w@) == self.add_words(),
    {
        let mut words: Vec<String> = Vec::new();
        if self.ipv6 {
            words.push("-6".to_owned());
        }
        words.push("route".to_owned());
        words.push("add".to_owned());
        words.push("default".to_owned());
        words.push("via".to_owned());
        words.push(self.host.clone());
        assert(words@.map_values(|w: String| w@) =~= self.add_words());
        words
    }
}

/// Each link of a direction goes into the cell that the next one comes out of.
pub proof fn law_containers_are_chained(
    source: usize,
    cells: Seq<CellEnds>,
    target: usize,
    i: int,
)
    requires
        0 <= i < cells.len(),
    ensures
        chain(source, cells, target)[i].1 == cells[i].tx,
        chain(source, cells, target)[i + 1].0 == cells[i].rx,
        chain(source, cells, target)[0].0 == source,
        chain(source, cells, target)[cells.len() as int].1 == target,
{
}

/// The two directions between containers have the same cells, one by one, except that only
/// the one from right to left has its rate of loss set.
pub proof fn law_directions_differ_in_loss_only<R>(options: ContainerOptions<R>, i: int)
    requires
        0 <= i < options.right_to_left().len(),
    ensures
        options.left_to_right().len() == options.right_to_left().len(),
        options.right_to_left()[i] is Loss ==> options.left_to_right()[i] == ContainerCell::<
            R,
        >::Loss(None) && options.right_to_left()[i] == ContainerCell::Loss(options.loss),
        !(options.right_to_left()[i] is Loss) ==> options.left_to_right()[i]
            == options.right_to_left()[i],
{
}

/// The cells between containers are those that are asked for, with the values asked for: a
/// link first, then a delay, then the loss.
pub proof fn law_container_cells_are_as_asked<R>(options: ContainerOptions<R>)
    ensures
        ({
            let cells = options.right_to_left();
            let delay: int = if options.bandwidth is Some {
                1
            } else {
                0
            };
            let loss = delay + if options.delay is Some {
                1int
            } else {
                0
            };
            &&& options.bandwidth is Some ==> cells[0] == ContainerCell::<R>::Bw(
                options.bandwidth->0,
            )
            &&& options.delay is Some ==> cells[delay] == ContainerCell::<R>::Delay(
                options.delay->0,
            )
            &&& options.loss is Some ==> cells[loss] == ContainerCell::Loss(Some(options.loss->0))
            &&& cells.len() == loss + if options.loss is Some {
                1int
            } else {
                0
            }
        }),
{
}

/// The value of a variable is what stands behind its name and the equals sign: writing a host
/// there gives that host back.
pub proof fn law_host_is_read_back(name: Seq<char>, host: Seq<char>)
    requires
        !name.contains('='),
        !host.contains('='),
    ensures
        value_of(name + seq!['='] + host) == host,
{
    lemma_value_written(name, host);
}

/// A variable has its name and its value as its two parts.
proof fn lemma_value_written(name: Seq<char>, host: Seq<char>)
    requires
        !name.contains('='),
        !host.contains('='),
    ensures
        fields(name + seq!['='] + host, '=') == seq![name, host],
    decreases host.len(),
{
    let s = name + seq!['='] + host;
    if host.len() == 0 {
        assert forall|k: int| 0 <= k < name.len() implies s[k] != '=' by {
            assert(name.contains(name[k]));
        }
        lemma_first_field(s, name.len() as int);
        assert(s.take(name.len() as int) =~= name);
        assert(s.drop_last() =~= name);
        assert(fields(name, '=') =~= seq![name]);
        assert(fields(s, '=') =~= seq![name, Seq::<char>::empty()]);
        assert(host =~= Seq::<char>::empty());
    } else {
        let front = host.drop_last();
        assert forall|c: char| front.contains(c) implies host.contains(c) by {
            let k = choose|k: int| 0 <= k < front.len() && front[k] == c;
            assert(host[k] == c);
        }
        lemma_value_written(name, front);
        assert(s.drop_last() =~= name + seq!['='] + front);
        assert(host.contains(host[host.len() - 1]));
        assert(s.last() == host.last());
        assert(front.push(host.last()) =~= host);
        assert(fields(s, '=') =~= seq![name, host]);
    }
}

/// The old default route is removed and the new one goes through the host that was asked for,
/// of the kind that was asked for; for IPv6 this is said first.
pub proof fn law_route_goes_through_the_host(request: RouteRequest)
    ensures
        request.add_words().last() == request.host@,
        request.ipv6 ==> request.add_words().first() == "-6"@ && request.delete_words().first()
            == "-6"@ && request.add_words().len() == 6 && request.delete_words().len() == 4,
        !request.ipv6 ==> request.add_words() == seq![
            "route"@,
            "add"@,
            "default"@,
            "via"@,
            request.host@,
        ] && request.delete_words() == seq!["route"@, "del"@, "default"@],
        request.ipv6 ==> request.add_words().drop_first() == seq![
            "route"@,
            "add"@,
            "default"@,
            "via"@,
            request.host@,
        ] && request.delete_words().drop_first() == seq!["route"@, "del"@, "default"@],
{
}

/// A text begins with another exactly if something can be put behind that one to make it up.
pub proof fn law_beginning_can_be_continued(text: Seq<char>, prefix: Seq<char>, rest: Seq<char>)
    ensures
        begins_with(prefix + rest, prefix),
        begins_with(text, prefix) ==> prefix + text.skip(prefix.len() as int) == text,
{
    assert((prefix + rest).take(prefix.len() as int) =~= prefix);
    if begins_with(text, prefix) {
        assert(text.take(prefix.len() as int) + text.skip(prefix.len() as int) =~= text);
    }
}

} // verus!

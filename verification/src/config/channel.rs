//! A channel between two sides: a chain of cells in each direction.
use crate::parse::law_number_reads_back;
use crate::text::{decimal, digits};
use vstd::prelude::*;
use vstd::string::StringExecFns;

verus! {

/// The cells of a channel by their names, and which cell the packets go to from each.
#[derive(Debug)]
pub struct ChannelConfig<C> {
    pub cells: Vec<(String, C)>,
    pub links: Vec<(String, String)>,
}

/// The name of the `i`-th cell of a direction, counted from 1.
pub open spec fn cell_name(prefix: Seq<char>, i: nat) -> Seq<char> {
    prefix + digits(i)
}

/// The links of a direction with `n` cells: from one side to the first cell, from each cell
/// to the next, and from the last cell to the other side; from side to side, if there is no
/// cell.
pub open spec fn links_of(
    from: Seq<char>,
    prefix: Seq<char>,
    n: nat,
    to: Seq<char>,
) -> Seq<(Seq<char>, Seq<char>)> {
    Seq::new(
        n + 1,
        |i: int|
            (
                if i == 0 {
                    from
                } else {
                    cell_name(prefix, i as nat)
                },
                if i == n {
                    to
                } else {
                    cell_name(prefix, (i + 1) as nat)
                },
            ),
    )
}

/// A list of links as characters.
pub open spec fn links_view(links: Seq<(String, String)>) -> Seq<(Seq<char>, Seq<char>)> {
    links.map_values(|l: (String, String)| (l.0@, l.1@))
}

/// Names the cells of a direction and adds them to a channel.
fn add_cells<C>(cells: &mut Vec<(String, C)>, prefix: &str, added: Vec<C>)
    ensures
        final(cells)@.len() == old(cells)@.len() + added@.len(),
        forall|i: int|
            0 <= i < old(cells)@.len() ==> #[trigger] final(cells)@[i] == old(cells)@[i],
        forall|i: int|
            0 <= i < added@.len() ==> {
                &&& (#[trigger] final(cells)@[old(cells)@.len() + i]).0@ == cell_name(
                    prefix@,
                    (i + 1) as nat,
                )
                &&& final(cells)@[old(cells)@.len() + i].1 == added@[i]
            },
{
    let ghost start = cells@;
    let ghost all = added@;
    let n: usize = added.len();
    let mut rest: Vec<C> = added;
    assert(rest@ =~= all.skip(0));
    let mut i: u64 = 0;
    while rest.len() > 0
        invariant
            start == old(cells)@,
            all.len() == n,
            i <= n,
            rest@ == all.skip(i as int),
            cells@.len() == start.len() + i,
            forall|k: int| 0 <= k < start.len() ==> #[trigger] cells@[k] == start[k],
            forall|k: int|
                0 <= k < i ==> {
                    &&& (#[trigger] cells@[start.len() + k]).0@ == cell_name(
                        prefix@,
                        (k + 1) as nat,
                    )
                    &&& cells@[start.len() + k].1 == all[k]
                },
        decreases rest@.len(),
    {
        let cell = rest.remove(0);
        assert(rest@ =~= all.skip(i + 1));
        let name = prefix.to_owned().concat(decimal(i + 1).as_str());
        cells.push((name, cell));
        i = i + 1;
    }
}

/// Adds the links of a direction with `n` cells to a channel.
fn add_links(links: &mut Vec<(String, String)>, from: &str, prefix: &str, n: usize, to: &str)
    requires
        n < u64::MAX,
    ensures
        links_view(final(links)@) == links_view(old(links)@) + links_of(from@, prefix@, n as nat, to@),
{
    let ghost start = links_view(links@);
    let ghost all = links_of(from@, prefix@, n as nat, to@);
    let mut i: u64 = 0;
    proof {
        assert(start + all.take(0) =~= start);
    }
    while i <= n as u64
        invariant
            n < u64::MAX,
            i <= n + 1,
            start == links_view(old(links)@),
            all == links_of(from@, prefix@, n as nat, to@),
            links_view(links@) == start + all.take(i as int),
        decreases n + 1 - i,
    {
        let source = if i == 0 {
            from.to_owned()
        } else {
            prefix.to_owned().concat(decimal(i).as_str())
        };
        let target = if i == n as u64 {
            to.to_owned()
        } else {
            prefix.to_owned().concat(decimal(i + 1).as_str())
        };
        let ghost before = links@;
        links.push((source, target));
        proof {
            assert(links_view(links@) =~= links_view(before).push((source@, target@)));
            assert(all.take(i + 1) =~= all.take(i as int).push(all[i as int]));
            assert(start + all.take(i + 1) =~= (start + all.take(i as int)).push(all[i as int]));
        }
        i = i + 1;
    }
    assert(all.take(n + 1) =~= all);
}

/// Links `up` into the direction from left to right and `down` into the other one.
pub fn link_channel<C>(up: Vec<C>, down: Vec<C>) -> (channel: ChannelConfig<C>)
    requires
        up@.len() < u64::MAX,
        down@.len() < u64::MAX,
    ensures
        channel.cells@.len() == up@.len() + down@.len(),
        forall|i: int|
            0 <= i < up@.len() ==> {
                &&& (#[trigger] channel.cells@[i]).0@ == cell_name("up_"@, (i + 1) as nat)
                &&& channel.cells@[i].1 == up@[i]
            },
        forall|i: int|
            0 <= i < down@.len() ==> {
                &&& (#[trigger] channel.cells@[up@.len() + i]).0@ == cell_name(
                    "down_"@,
                    (i + 1) as nat,
                )
                &&& channel.cells@[up@.len() + i].1 == down@[i]
            },
        links_view(channel.links@) == links_of("left"@, "up_"@, up@.len(), "right"@) + links_of(
            "right"@,
            "down_"@,
            down@.len(),
            "left"@,
        ),
{
    let ups: usize = up.len();
    let downs: usize = down.len();
    let mut cells: Vec<(String, C)> = Vec::new();
    add_cells(&mut cells, "up_", up);
    let ghost first = cells@;
    assert forall|i: int| 0 <= i < up@.len() implies (#[trigger] first[i]).0@ == cell_name(
        "up_"@,
        (i + 1) as nat,
    ) && first[i].1 == up@[i] by {
        assert(first[0 + i].0@ == cell_name("up_"@, (i + 1) as nat));
    }
    add_cells(&mut cells, "down_", down);
    let mut links: Vec<(String, String)> = Vec::new();
    assert(links_view(links@) =~= Seq::empty());
    add_links(&mut links, "left", "up_", ups, "right");
    add_links(&mut links, "right", "down_", downs, "left");
    assert(links_view(links@) =~= links_of("left"@, "up_"@, up@.len(), "right"@) + links_of(
        "right"@,
        "down_"@,
        down@.len(),
        "left"@,
    ));
    ChannelConfig { cells, links }
}

/// Different cells of a direction have different names.
pub proof fn law_cell_names_are_unique(prefix: Seq<char>, i: nat, j: nat)
    requires
        cell_name(prefix, i) == cell_name(prefix, j),
    ensures
        i == j,
{
    let max = if i > j {
        i
    } else {
        j
    };
    let a = cell_name(prefix, i);
    let b = cell_name(prefix, j);
    assert(a.skip(prefix.len() as int) =~= digits(i));
    assert(b.skip(prefix.len() as int) =~= digits(j));
    law_number_reads_back(i, max);
    law_number_reads_back(j, max);
}

/// Following the links of a direction leads from its one side through all its cells, in their
/// order, to its other side: each link begins where the one before it ends.
pub proof fn law_links_form_a_chain(
    from: Seq<char>,
    prefix: Seq<char>,
    n: nat,
    to: Seq<char>,
    i: int,
)
    requires
        0 <= i < n,
    ensures
        links_of(from, prefix, n, to)[i].1 == links_of(from, prefix, n, to)[i + 1].0,
        links_of(from, prefix, n, to)[0].0 == from,
        links_of(from, prefix, n, to)[n as int].1 == to,
        links_of(from, prefix, n, to)[i].1 == cell_name(prefix, (i + 1) as nat),
{
}

/// No two links begin at the same place, in one direction or in both: sides and cells are all
/// told apart by their names.
pub proof fn law_links_begin_at_different_places(ups: nat, downs: nat, i: int, j: int)
    requires
        0 <= i < j < ups + downs + 2,
    ensures
        ({
            let all = links_of("left"@, "up_"@, ups, "right"@) + links_of(
                "right"@,
                "down_"@,
                downs,
                "left"@,
            );
            all[i].0 != all[j].0
        }),
{
    reveal_strlit("left");
    reveal_strlit("right");
    reveal_strlit("up_");
    reveal_strlit("down_");
    let up = links_of("left"@, "up_"@, ups, "right"@);
    let down = links_of("right"@, "down_"@, downs, "left"@);
    let all = up + down;
    assert forall|k: int| 0 <= k < ups + downs + 2 implies (#[trigger] all[k]).0[0] == (if k == 0 {
        'l'
    } else if k <= ups {
        'u'
    } else if k == ups + 1 {
        'r'
    } else {
        'd'
    }) by {
        if 0 < k <= ups {
            assert(all[k].0 == cell_name("up_"@, k as nat));
        } else if k > ups + 1 {
            assert(all[k] == down[k - ups - 1]);
            assert(all[k].0 == cell_name("down_"@, (k - ups - 1) as nat));
        }
    }
    if all[i].0 == all[j].0 {
        assert(all[i].0[0] == all[j].0[0]);
        if j <= ups {
            law_cell_names_are_unique("up_"@, i as nat, j as nat);
        } else {
            assert(all[i] == down[i - ups - 1] && all[j] == down[j - ups - 1]);
            law_cell_names_are_unique("down_"@, (i - ups - 1) as nat, (j - ups - 1) as nat);
        }
    }
}

} // verus!

//! Power-of-two-choices selection: snapshot the `Ready` sub-channels in a
//! canonical order, sample two distinct rows, and pick the less loaded one.

use vstd::prelude::*;
use vstd::relations::{sorted_by, total_ordering};
use vstd::seq_lib::lemma_sorted_unique;

use crate::endpoint::{Endpoint, IpAddress};
use crate::registry::{ChannelState, Entry, Registry};

verus! {

/// One row of a selection snapshot: a `Ready` sub-channel's endpoint and
/// its load metric.
#[derive(Clone, Copy, PartialEq, Eq, Structural, Debug)]
pub struct ReadyEntry {
    pub ep: Endpoint,
    pub load: u64,
}

/// A numeric rank that orders all addresses, v4 before v6.
pub open spec fn ip_rank(a: IpAddress) -> int {
    match a {
        IpAddress::V4(v) => v as int,
        IpAddress::V6(v) => 0x100000000 + v as int,
    }
}

/// Order snapshot rows by address, then port, then load.
pub open spec fn row_le(a: ReadyEntry, b: ReadyEntry) -> bool {
    if ip_rank(a.ep.address) != ip_rank(b.ep.address) {
        ip_rank(a.ep.address) < ip_rank(b.ep.address)
    } else if a.ep.port != b.ep.port {
        a.ep.port < b.ep.port
    } else {
        a.load <= b.load
    }
}

/// `row_le` as a relation value.
pub open spec fn row_leq() -> spec_fn(ReadyEntry, ReadyEntry) -> bool {
    |a: ReadyEntry, b: ReadyEntry| row_le(a, b)
}

/// `row_le` orders the rows totally: distinct addresses have distinct
/// ranks, so ties go down to the load field and no further.
pub proof fn lemma_row_le_total()
    ensures
        total_ordering(row_leq()),
{
    let leq = row_leq();
    assert forall|x: ReadyEntry| #[trigger] leq(x, x) by {}
    assert forall|x: ReadyEntry, y: ReadyEntry|
        #[trigger] leq(x, y) && #[trigger] leq(y, x) implies x == y by {
        assert(ip_rank(x.ep.address) == ip_rank(y.ep.address));
        assert(x.ep.address == y.ep.address);
        assert(x.ep.port == y.ep.port);
        assert(x.load == y.load);
    }
    assert forall|x: ReadyEntry, y: ReadyEntry, z: ReadyEntry|
        #[trigger] leq(x, y) && #[trigger] leq(y, z) implies leq(x, z) by {}
    assert forall|x: ReadyEntry, y: ReadyEntry| #[trigger] leq(x, y) || #[trigger] leq(
        y,
        x,
    ) by {}
}

/// The rows of the `Ready` sub-channels, in registry order.
pub open spec fn ready_of(s: Seq<Entry>) -> Seq<ReadyEntry>
    decreases s.len(),
{
    if s.len() == 0 {
        Seq::empty()
    } else {
        let rest = ready_of(s.drop_last());
        if s.last().chan.state == ChannelState::Ready {
            rest.push(ReadyEntry { ep: s.last().key, load: s.last().chan.load })
        } else {
            rest
        }
    }
}

/// Whether any sub-channel is `Ready`: the channel's overall readiness.
pub open spec fn is_ready(s: Seq<Entry>) -> bool {
    exists|i: int| 0 <= i < s.len() && (#[trigger] s[i]).chan.state == ChannelState::Ready
}

/// Every row of `ready_of` names a `Ready` entry of the registry.
pub proof fn lemma_ready_of_member(s: Seq<Entry>, x: ReadyEntry)
    requires
        ready_of(s).contains(x),
    ensures
        exists|i: int|
            0 <= i < s.len() && (#[trigger] s[i]).key == x.ep && s[i].chan.state
                == ChannelState::Ready && s[i].chan.load == x.load,
    decreases s.len(),
{
    broadcast use vstd::seq_lib::group_seq_properties;

    if s.len() > 0 {
        let rest = ready_of(s.drop_last());
        if s.last().chan.state == ChannelState::Ready {
            let row = ReadyEntry { ep: s.last().key, load: s.last().chan.load };
            if x == row {
                assert(s[s.len() - 1].key == x.ep);
            } else {
                assert(rest.contains(x));
                lemma_ready_of_member(s.drop_last(), x);
                let i = choose|i: int|
                    0 <= i < s.drop_last().len() && (#[trigger] s.drop_last()[i]).key == x.ep
                        && s.drop_last()[i].chan.state == ChannelState::Ready
                        && s.drop_last()[i].chan.load == x.load;
                assert(s[i].key == x.ep);
            }
        } else {
            lemma_ready_of_member(s.drop_last(), x);
            let i = choose|i: int|
                0 <= i < s.drop_last().len() && (#[trigger] s.drop_last()[i]).key == x.ep
                    && s.drop_last()[i].chan.state == ChannelState::Ready
                    && s.drop_last()[i].chan.load == x.load;
            assert(s[i].key == x.ep);
        }
    }
}

/// There are no ready rows exactly when no sub-channel is `Ready`.
pub proof fn lemma_ready_of_empty(s: Seq<Entry>)
    ensures
        ready_of(s).len() == 0 <==> !is_ready(s),
    decreases s.len(),
{
    if s.len() > 0 {
        lemma_ready_of_empty(s.drop_last());
        if s.last().chan.state == ChannelState::Ready {
            assert(s[s.len() - 1].chan.state == ChannelState::Ready);
        } else {
            if is_ready(s) {
                let i = choose|i: int|
                    0 <= i < s.len() && (#[trigger] s[i]).chan.state == ChannelState::Ready;
                assert(s.drop_last()[i].chan.state == ChannelState::Ready);
            }
        }
    }
}

fn cmp_port_load(a: &ReadyEntry, b: &ReadyEntry) -> (r: bool)
    ensures
        r == (if a.ep.port != b.ep.port {
            a.ep.port < b.ep.port
        } else {
            a.load <= b.load
        }),
{
    if a.ep.port != b.ep.port {
        a.ep.port < b.ep.port
    } else {
        a.load <= b.load
    }
}

/// Decide `row_le` on two rows.
fn row_le_exec(a: &ReadyEntry, b: &ReadyEntry) -> (r: bool)
    ensures
        r == row_le(*a, *b),
{
    match (a.ep.address, b.ep.address) {
        (IpAddress::V4(x), IpAddress::V4(y)) => {
            if x != y {
                x < y
            } else {
                cmp_port_load(a, b)
            }
        },
        (IpAddress::V4(_), IpAddress::V6(_)) => true,
        (IpAddress::V6(_), IpAddress::V4(_)) => false,
        (IpAddress::V6(x), IpAddress::V6(y)) => {
            if x != y {
                x < y
            } else {
                cmp_port_load(a, b)
            }
        },
    }
}

/// Insert a row into a sorted snapshot, keeping it sorted.
fn sorted_insert(v: &mut Vec<ReadyEntry>, x: ReadyEntry)
    requires
        sorted_by(old(v)@, row_leq()),
    ensures
        sorted_by(final(v)@, row_leq()),
        final(v)@.to_multiset() == old(v)@.to_multiset().insert(x),
        final(v)@.len() == old(v)@.len() + 1,
{
    let mut i: usize = 0;
    while i < v.len()
        invariant_except_break
            i <= v@.len(),
            v@ == old(v)@,
            forall|k: int| 0 <= k < i ==> row_le(#[trigger] v@[k], x),
        ensures
            i <= v@.len(),
            v@ == old(v)@,
            forall|k: int| 0 <= k < i ==> row_le(#[trigger] v@[k], x),
            i < v@.len() ==> !row_le(v@[i as int], x),
        decreases v@.len() - i,
    {
        if !row_le_exec(&v[i], &x) {
            break ;
        }
        i += 1;
    }
    let ghost before = v@;
    let ghost pos = i as int;
    v.insert(i, x);
    proof {
        broadcast use vstd::seq_lib::group_seq_properties;

        assert(v@ == before.insert(pos, x));
        vstd::seq_lib::to_multiset_insert(before, pos, x);
        lemma_row_le_total();
        let leq = row_leq();
        assert forall|p: int, q: int| 0 <= p < q < v@.len() implies #[trigger] leq(
            v@[p],
            v@[q],
        ) by {
            assert(v@[pos] == x);
            if p < pos {
                assert(v@[p] == before[p]);
            } else if p > pos {
                assert(v@[p] == before[p - 1]);
            }
            if q < pos {
                assert(v@[q] == before[q]);
            } else if q > pos {
                assert(v@[q] == before[q - 1]);
            }
            if q == pos {
                assert(row_le(before[p], x));
            } else if p == pos {
                // x goes before the row that refused `row_le(row, x)`
                if pos < before.len() {
                    assert(!row_le(before[pos], x));
                    assert(leq(x, before[pos]));
                    if q > pos + 1 {
                        assert(leq(before[pos], before[q - 1]));
                    }
                }
            }
        }
        assert(sorted_by(v@, row_leq()));
    }
}

/// The `Ready` rows of the registry, sorted into the canonical order; the
/// result does not depend on the registry's insertion order beyond which
/// rows it holds.
pub fn ready_snapshot(reg: &Registry) -> (snap: Vec<ReadyEntry>)
    ensures
        sorted_by(snap@, row_leq()),
        snap@.to_multiset() == ready_of(reg@).to_multiset(),
        snap@ == ready_of(reg@).sort_by(row_leq()),
{
    let mut snap: Vec<ReadyEntry> = Vec::new();
    let mut i: usize = 0;
    while i < reg.len()
        invariant
            i <= reg@.len(),
            sorted_by(snap@, row_leq()),
            snap@.to_multiset() == ready_of(reg@.take(i as int)).to_multiset(),
        decreases reg@.len() - i,
    {
        let en = reg.get(i);
        let ghost prev = snap@;
        if en.chan.state == ChannelState::Ready {
            sorted_insert(&mut snap, ReadyEntry { ep: en.key, load: en.chan.load });
        }
        proof {
            broadcast use vstd::seq_lib::group_seq_properties;

            assert(reg@.take(i + 1).drop_last() =~= reg@.take(i as int));
            assert(reg@.take(i + 1).last() == reg@[i as int]);
            assert(snap@.to_multiset() == ready_of(reg@.take(i + 1)).to_multiset());
        }
        i += 1;
    }
    proof {
        assert(reg@.take(reg@.len() as int) =~= reg@);
        lemma_row_le_total();
        ready_of(reg@).lemma_sort_by_ensures(row_leq());
        lemma_sorted_unique(snap@, ready_of(reg@).sort_by(row_leq()), row_leq());
    }
    snap
}

/// The power-of-two-choices rule on a snapshot: no row from an empty one,
/// the sole row of a singleton, and otherwise the less loaded of two
/// distinct rows drawn by the random words, ties going to the first.
pub open spec fn select_spec(snap: Seq<ReadyEntry>, r1: u64, r2: u64) -> Option<ReadyEntry> {
    if snap.len() == 0 {
        Option::None
    } else if snap.len() == 1 {
        Option::Some(snap[0])
    } else {
        let i = r1 as int % snap.len() as int;
        let j0 = r2 as int % (snap.len() - 1) as int;
        let j = if j0 < i {
            j0
        } else {
            j0 + 1
        };
        if snap[j].load < snap[i].load {
            Option::Some(snap[j])
        } else {
            Option::Some(snap[i])
        }
    }
}

/// Run the power-of-two-choices rule.
pub fn select_from(snap: &Vec<ReadyEntry>, r1: u64, r2: u64) -> (r: Option<ReadyEntry>)
    ensures
        r == select_spec(snap@, r1, r2),
        r matches Some(x) ==> snap@.contains(x),
        r is None <==> snap@.len() == 0,
        snap@.len() == 1 ==> r == Some(snap@[0]),
{
    let n = snap.len();
    if n == 0 {
        None
    } else if n == 1 {
        let x = snap[0];
        proof {
            assert(snap@.contains(snap@[0]));
        }
        Some(x)
    } else {
        let i = (r1 % (n as u64)) as usize;
        let j0 = (r2 % ((n - 1) as u64)) as usize;
        let j = if j0 < i {
            j0
        } else {
            j0 + 1
        };
        let a = snap[i];
        let b = snap[j];
        proof {
            assert(i as int == r1 as int % snap@.len() as int);
            assert(j0 as int == r2 as int % (snap@.len() - 1) as int);
            assert(snap@.contains(snap@[i as int]));
            assert(snap@.contains(snap@[j as int]));
        }
        if b.load < a.load {
            Some(b)
        } else {
            Some(a)
        }
    }
}

/// Selection is independent of the insertion order of endpoints: two
/// registries whose ready rows hold the same entries make the same choice
/// for the same random draws.
pub proof fn lemma_selection_order_independent(a: Seq<Entry>, b: Seq<Entry>, r1: u64, r2: u64)
    requires
        ready_of(a).to_multiset() == ready_of(b).to_multiset(),
    ensures
        select_spec(ready_of(a).sort_by(row_leq()), r1, r2) == select_spec(
            ready_of(b).sort_by(row_leq()),
            r1,
            r2,
        ),
{
    lemma_row_le_total();
    ready_of(a).lemma_sort_by_ensures(row_leq());
    ready_of(b).lemma_sort_by_ensures(row_leq());
    lemma_sorted_unique(
        ready_of(a).sort_by(row_leq()),
        ready_of(b).sort_by(row_leq()),
        row_leq(),
    );
}

} // verus!

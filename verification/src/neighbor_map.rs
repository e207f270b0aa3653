//! The neighbor registry: a mapping from address to neighbor, kept as a
//! sorted vector of entries and modeled as a mathematical map.

use vstd::prelude::*;

use crate::neighbor::{addr_before, addr_lt, lemma_addr_lt_trans, lemma_addr_trichotomy, IpAddr,
    Neighbor};

verus! {

/// Strictly increasing by key: sorted, with no duplicate keys.
pub open spec fn entries_sorted(s: Seq<(IpAddr, Neighbor)>) -> bool {
    forall|i: int, j: int|
        #![trigger s[i], s[j]]
        0 <= i < j < s.len() ==> addr_lt(s[i].0, s[j].0)
}

/// The mapping a list of entries denotes; a later entry with the same
/// key would win, and sortedness rules that out.
pub open spec fn as_map(s: Seq<(IpAddr, Neighbor)>) -> Map<IpAddr, Neighbor>
    decreases s.len(),
{
    if s.len() == 0 {
        Map::empty()
    } else {
        as_map(s.drop_last()).insert(s.last().0, s.last().1)
    }
}

/// What the mapping of a sorted entry list holds: exactly the listed
/// keys, each bound to its listed neighbor.
proof fn lemma_as_map(s: Seq<(IpAddr, Neighbor)>)
    requires
        entries_sorted(s),
    ensures
        as_map(s).dom().finite(),
        as_map(s).dom().len() == s.len(),
        forall|k: IpAddr|
            as_map(s).dom().contains(k) <==> (exists|i: int| 0 <= i < s.len() && (#[trigger] s[i]).0
                == k),
        forall|i: int| 0 <= i < s.len() ==> as_map(s)[(#[trigger] s[i]).0] == s[i].1,
    decreases s.len(),
{
    if s.len() > 0 {
        let d = s.drop_last();
        assert(entries_sorted(d));
        lemma_as_map(d);
        let lk = s.last().0;
        assert forall|i: int| 0 <= i < d.len() implies (#[trigger] d[i]).0 != lk by {
            assert(d[i] == s[i]);
            assert(addr_lt(s[i].0, lk));
            lemma_addr_trichotomy(s[i].0, lk);
        }
        assert(!as_map(d).dom().contains(lk));
        let m = as_map(s);
        assert(m == as_map(d).insert(lk, s.last().1));
        assert(m.dom() =~= as_map(d).dom().insert(lk));
        assert forall|k: IpAddr| m.dom().contains(k) implies (exists|i: int|
            0 <= i < s.len() && (#[trigger] s[i]).0 == k) by {
            if k == lk {
                assert(s[s.len() - 1].0 == k);
            } else {
                assert(as_map(d).dom().contains(k));
                let i = choose|i: int| 0 <= i < d.len() && (#[trigger] d[i]).0 == k;
                assert(s[i] == d[i]);
                assert(s[i].0 == k);
            }
        }
        assert forall|k: IpAddr| (exists|i: int| 0 <= i < s.len() && (#[trigger] s[i]).0 == k)
            implies m.dom().contains(k) by {
            let i = choose|i: int| 0 <= i < s.len() && (#[trigger] s[i]).0 == k;
            if i < s.len() - 1 {
                assert(d[i] == s[i]);
                assert(as_map(d).dom().contains(k));
            }
        }
        assert forall|i: int| 0 <= i < s.len() implies m[(#[trigger] s[i]).0] == s[i].1 by {
            if i < s.len() - 1 {
                assert(d[i] == s[i]);
                assert(as_map(d)[d[i].0] == d[i].1);
                assert(d[i].0 != lk);
            }
        }
    }
}

/// The neighbor registry, keyed by address.
#[derive(Debug)]
pub struct NeighborMap(Vec<(IpAddr, Neighbor)>);

impl View for NeighborMap {
    type V = Map<IpAddr, Neighbor>;

    closed spec fn view(&self) -> Map<IpAddr, Neighbor> {
        as_map(self.0@)
    }
}

impl NeighborMap {
    /// The registry's invariant: its entries stay sorted by key.
    pub closed spec fn wf(&self) -> bool {
        entries_sorted(self.0@)
    }

    /// An empty registry.
    pub fn new() -> (r: Self)
        ensures
            r@ == Map::<IpAddr, Neighbor>::empty(),
            r.wf(),
    {
        let r = NeighborMap(Vec::new());
        proof {
            assert(r@ =~= Map::<IpAddr, Neighbor>::empty());
        }
        r
    }

    /// How many neighbors the registry holds.
    pub fn len(&self) -> (n: usize)
        requires
            self.wf(),
        ensures
            n == self@.dom().len(),
    {
        proof {
            lemma_as_map(self.0@);
        }
        self.0.len()
    }

    /// The neighbor registered under an address.
    #[verifier::loop_isolation(false)]
    pub fn get(&self, k: &IpAddr) -> (r: Option<&Neighbor>)
        requires
            self.wf(),
        ensures
            (match r {
                Some(n) => self@.dom().contains(*k) && *n == self@[*k],
                None => !self@.dom().contains(*k),
            }),
    {
        proof {
            lemma_as_map(self.0@);
        }
        let mut i: usize = 0;
        while i < self.0.len()
            invariant
                i <= self.0@.len(),
                forall|j: int| 0 <= j < i ==> (#[trigger] self.0@[j]).0 != *k,
            decreases self.0@.len() - i,
        {
            if self.0[i].0 == *k {
                return Some(&self.0[i].1);
            }
            i = i + 1;
        }
        None
    }

    /// Register a neighbor under an address: a fresh address is added
    /// in key order, an address already present has its neighbor
    /// replaced and the old one returned.
    #[verifier::loop_isolation(false)]
    pub fn insert(&mut self, k: IpAddr, v: Neighbor) -> (r: Option<Neighbor>)
        requires
            old(self).wf(),
        ensures
            final(self).wf(),
            final(self)@ == old(self)@.insert(k, v),
            (match r {
                Some(prev) => old(self)@.dom().contains(k) && prev == old(self)@[k],
                None => !old(self)@.dom().contains(k),
            }),
    {
        proof {
            lemma_as_map(self.0@);
        }
        let ghost pre = self.0@;
        let len: usize = self.0.len();
        let mut pos: usize = 0;
        while pos < len && addr_before(&self.0[pos].0, &k)
            invariant
                pos <= len,
                forall|j: int| 0 <= j < pos ==> addr_lt((#[trigger] self.0@[j]).0, k),
            decreases len - pos,
        {
            pos = pos + 1;
        }
        if pos < len && self.0[pos].0 == k {
            let prev: Neighbor = self.0[pos].1;
            let removed: (IpAddr, Neighbor) = self.0.remove(pos);
            self.0.insert(pos, (k, v));
            proof {
                assert(self.0@ =~= pre.update(pos as int, (k, v)));
                lemma_sorted_update(pre, pos as int, k, v);
                lemma_as_map_update(pre, pos as int, k, v);
                assert(removed.1 == pre[pos as int].1);
            }
            Some(prev)
        } else {
            proof {
                if pos < len {
                    lemma_addr_trichotomy(pre[pos as int].0, k);
                    assert(addr_lt(k, pre[pos as int].0));
                }
                assert forall|i: int| 0 <= i < pre.len() implies (#[trigger] pre[i]).0 != k by {
                    if i < pos {
                        lemma_addr_trichotomy(pre[i].0, k);
                    } else if i == pos {
                    } else {
                        assert(addr_lt(pre[pos as int].0, pre[i].0));
                        lemma_addr_lt_trans(k, pre[pos as int].0, pre[i].0);
                        lemma_addr_trichotomy(pre[i].0, k);
                    }
                }
            }
            self.0.insert(pos, (k, v));
            proof {
                pre.insert_ensures(pos as int, (k, v));
                lemma_sorted_insert(pre, pos as int, k, v);
                lemma_as_map_insert(pre, pos as int, k, v);
            }
            None
        }
    }
}

/// Replacing one entry's neighbor keeps the entries sorted.
proof fn lemma_sorted_update(s: Seq<(IpAddr, Neighbor)>, i: int, k: IpAddr, v: Neighbor)
    requires
        entries_sorted(s),
        0 <= i < s.len(),
        s[i].0 == k,
    ensures
        entries_sorted(s.update(i, (k, v))),
{
    let t = s.update(i, (k, v));
    assert forall|a: int, b: int|
        #![trigger t[a], t[b]]
        0 <= a < b < t.len() implies addr_lt(t[a].0, t[b].0) by {
        assert(t[a].0 == s[a].0);
        assert(t[b].0 == s[b].0);
    }
}

/// Replacing one entry's neighbor replaces exactly that key's binding.
proof fn lemma_as_map_update(s: Seq<(IpAddr, Neighbor)>, i: int, k: IpAddr, v: Neighbor)
    requires
        entries_sorted(s),
        0 <= i < s.len(),
        s[i].0 == k,
    ensures
        as_map(s.update(i, (k, v))) == as_map(s).insert(k, v),
    decreases s.len(),
{
    let t = s.update(i, (k, v));
    if i == s.len() - 1 {
        assert(t.drop_last() =~= s.drop_last());
        assert(t.last() == (k, v));
        assert(as_map(t) == as_map(s.drop_last()).insert(k, v));
        assert(as_map(s.drop_last()).insert(k, s.last().1).insert(k, v) =~= as_map(
            s.drop_last(),
        ).insert(k, v));
    } else {
        let d = s.drop_last();
        assert(entries_sorted(d));
        assert(d[i] == s[i]);
        lemma_as_map_update(d, i, k, v);
        assert(t.drop_last() =~= d.update(i, (k, v)));
        assert(t.last() == s.last());
        let lk = s.last().0;
        let lv = s.last().1;
        assert(addr_lt(k, lk));
        lemma_addr_trichotomy(k, lk);
        assert(as_map(t) == as_map(d).insert(k, v).insert(lk, lv));
        assert(as_map(d).insert(k, v).insert(lk, lv) =~= as_map(d).insert(lk, lv).insert(k, v));
    }
}

/// Inserting a fresh entry at its key's position keeps the entries
/// sorted.
proof fn lemma_sorted_insert(s: Seq<(IpAddr, Neighbor)>, pos: int, k: IpAddr, v: Neighbor)
    requires
        entries_sorted(s),
        0 <= pos <= s.len(),
        forall|j: int| 0 <= j < pos ==> addr_lt((#[trigger] s[j]).0, k),
        pos < s.len() ==> addr_lt(k, s[pos].0),
    ensures
        entries_sorted(s.insert(pos, (k, v))),
{
    s.insert_ensures(pos, (k, v));
    let t = s.insert(pos, (k, v));
    assert forall|a: int, b: int|
        #![trigger t[a], t[b]]
        0 <= a < b < t.len() implies addr_lt(t[a].0, t[b].0) by {
        if a < pos && b < pos {
            assert(t[a] == s[a]);
            assert(t[b] == s[b]);
        } else if a < pos && b == pos {
            assert(t[a] == s[a]);
        } else if a < pos && b > pos {
            assert(t[a] == s[a]);
            assert(t[b] == s[b - 1]);
            if b - 1 == pos {
                lemma_addr_lt_trans(s[a].0, k, s[pos].0);
            }
        } else if a == pos {
            assert(t[b] == s[b - 1]);
            if b - 1 == pos {
            } else {
                lemma_addr_lt_trans(k, s[pos].0, s[b - 1].0);
            }
        } else {
            assert(t[a] == s[a - 1]);
            assert(t[b] == s[b - 1]);
        }
    }
}

/// Inserting a fresh entry at its key's position adds exactly that
/// key's binding.
proof fn lemma_as_map_insert(s: Seq<(IpAddr, Neighbor)>, pos: int, k: IpAddr, v: Neighbor)
    requires
        entries_sorted(s),
        0 <= pos <= s.len(),
        forall|j: int| 0 <= j < s.len() ==> (#[trigger] s[j]).0 != k,
    ensures
        as_map(s.insert(pos, (k, v))) == as_map(s).insert(k, v),
    decreases s.len(),
{
    s.insert_ensures(pos, (k, v));
    let t = s.insert(pos, (k, v));
    if pos == s.len() {
        assert(t.drop_last() =~= s);
        assert(t.last() == (k, v));
    } else {
        let d = s.drop_last();
        assert(entries_sorted(d));
        assert forall|j: int| 0 <= j < d.len() implies (#[trigger] d[j]).0 != k by {
            assert(d[j] == s[j]);
        }
        lemma_as_map_insert(d, pos, k, v);
        assert(t.drop_last() =~= d.insert(pos, (k, v)));
        assert(t.last() == s.last());
        let lk = s.last().0;
        let lv = s.last().1;
        assert(s[s.len() - 1].0 != k);
        assert(as_map(t) == as_map(d).insert(k, v).insert(lk, lv));
        assert(as_map(d).insert(k, v).insert(lk, lv) =~= as_map(d).insert(lk, lv).insert(k, v));
    }
}

} // verus!

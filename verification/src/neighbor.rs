//! Configured neighbors, their addresses as plain values, and a vector
//! that keeps them sorted and free of duplicates.

use vstd::prelude::*;

verus! {

/// A neighbor's IP address as a plain value: a 32-bit or a 128-bit
/// number.
#[derive(Debug, PartialEq, Eq, Structural, Clone, Copy)]
pub enum IpAddr {
    V4(u32),
    V6(u128),
}

/// The order of addresses: every 32-bit address before every 128-bit
/// one, numerically within each kind, as std orders socket addresses.
pub open spec fn addr_lt(a: IpAddr, b: IpAddr) -> bool {
    match (a, b) {
        (IpAddr::V4(x), IpAddr::V4(y)) => x < y,
        (IpAddr::V4(_), IpAddr::V6(_)) => true,
        (IpAddr::V6(_), IpAddr::V4(_)) => false,
        (IpAddr::V6(x), IpAddr::V6(y)) => x < y,
    }
}

/// Two addresses are ordered one way, the other way, or equal.
pub proof fn lemma_addr_trichotomy(a: IpAddr, b: IpAddr)
    ensures
        addr_lt(a, b) || addr_lt(b, a) || a == b,
{
}

/// Decide the address order.
pub fn addr_before(a: &IpAddr, b: &IpAddr) -> (r: bool)
    ensures
        r == addr_lt(*a, *b),
{
    match (a, b) {
        (IpAddr::V4(x), IpAddr::V4(y)) => *x < *y,
        (IpAddr::V4(_), IpAddr::V6(_)) => true,
        (IpAddr::V6(_), IpAddr::V4(_)) => false,
        (IpAddr::V6(x), IpAddr::V6(y)) => *x < *y,
    }
}

/// One configured neighbor.
#[derive(Debug, PartialEq, Eq, Structural, Clone, Copy)]
pub struct Neighbor {
    pub ipaddr: IpAddr,
}

/// Strictly increasing by address: sorted, with no duplicate
/// addresses.
pub open spec fn sorted(s: Seq<Neighbor>) -> bool {
    forall|i: int, j: int|
        #![trigger s[i], s[j]]
        0 <= i < j < s.len() ==> addr_lt(s[i].ipaddr, s[j].ipaddr)
}

/// The configured neighbors, kept sorted by address.
#[derive(Debug)]
pub struct NeighborVec(Vec<Neighbor>);

impl View for NeighborVec {
    type V = Seq<Neighbor>;

    closed spec fn view(&self) -> Seq<Neighbor> {
        self.0@
    }
}

impl NeighborVec {
    /// An empty neighbor list.
    pub fn new() -> (r: Self)
        ensures
            r@ == Seq::<Neighbor>::empty(),
            sorted(r@),
    {
        let r = NeighborVec(Vec::new());
        proof {
            assert(r@ =~= Seq::<Neighbor>::empty());
        }
        r
    }

    /// How many neighbors the list holds.
    pub fn len(&self) -> (n: usize)
        ensures
            n == self@.len(),
    {
        self.0.len()
    }

    /// The neighbor at one position.
    pub fn get(&self, i: usize) -> (n: &Neighbor)
        requires
            i < self@.len(),
        ensures
            *n == self@[i as int],
    {
        &self.0[i]
    }

    /// Insert a neighbor at its sorted position; a neighbor with an
    /// address already present is refused and the list is unchanged.
    #[verifier::loop_isolation(false)]
    pub fn insert_sort(&mut self, n: Neighbor) -> (r: Option<()>)
        requires
            sorted(old(self)@),
        ensures
            sorted(final(self)@),
            r is Some <==> !(exists|i: int|
                0 <= i < old(self)@.len() && old(self)@[i].ipaddr == n.ipaddr),
            r is None ==> final(self)@ == old(self)@,
            r is Some ==> exists|k: int|
                0 <= k <= old(self)@.len() && final(self)@ == old(self)@.insert(k, n),
    {
        let ghost pre = self.0@;
        let len: usize = self.0.len();
        let mut k: usize = 0;
        while k < len && addr_before(&self.0[k].ipaddr, &n.ipaddr)
            invariant
                k <= len,
                forall|j: int| 0 <= j < k ==> addr_lt(#[trigger] self.0@[j].ipaddr, n.ipaddr),
            decreases len - k,
        {
            k = k + 1;
        }
        if k < len && self.0[k].ipaddr == n.ipaddr {
            proof {
                assert(pre[k as int].ipaddr == n.ipaddr);
            }
            return None;
        }
        proof {
            if k < len {
                lemma_addr_trichotomy(pre[k as int].ipaddr, n.ipaddr);
                assert(addr_lt(n.ipaddr, pre[k as int].ipaddr));
            }
            assert forall|i: int| 0 <= i < pre.len() implies pre[i].ipaddr != n.ipaddr by {
                if i < k {
                    assert(addr_lt(pre[i].ipaddr, n.ipaddr));
                    lemma_addr_trichotomy(pre[i].ipaddr, n.ipaddr);
                } else if i > k {
                    assert(addr_lt(pre[k as int].ipaddr, pre[i].ipaddr));
                    lemma_addr_trichotomy(pre[i].ipaddr, n.ipaddr);
                }
            }
        }
        self.0.insert(k, n);
        proof {
            pre.insert_ensures(k as int, n);
            assert(self.0@ == pre.insert(k as int, n));
            assert forall|i: int, j: int|
                #![trigger self.0@[i], self.0@[j]]
                0 <= i < j < self.0@.len() implies addr_lt(
                self.0@[i].ipaddr,
                self.0@[j].ipaddr,
            ) by {
                let ki = k as int;
                if i < ki && j < ki {
                    assert(self.0@[i] == pre[i]);
                    assert(self.0@[j] == pre[j]);
                } else if i < ki && j == ki {
                    assert(self.0@[i] == pre[i]);
                    assert(addr_lt(pre[i].ipaddr, n.ipaddr));
                } else if i < ki && j > ki {
                    assert(self.0@[i] == pre[i]);
                    assert(self.0@[j] == pre[j - 1]);
                    if j - 1 == ki {
                        assert(j - 1 == ki && ki < pre.len());
                        assert(addr_lt(pre[i].ipaddr, n.ipaddr));
                        assert(addr_lt(n.ipaddr, pre[ki].ipaddr));
                        lemma_addr_lt_trans(pre[i].ipaddr, n.ipaddr, pre[ki].ipaddr);
                    } else {
                        assert(addr_lt(pre[i].ipaddr, pre[j - 1].ipaddr));
                    }
                } else if i == ki {
                    assert(self.0@[i] == n);
                    assert(self.0@[j] == pre[j - 1]);
                    assert(j - 1 >= ki);
                    if j - 1 == ki {
                        assert(addr_lt(n.ipaddr, pre[ki].ipaddr));
                    } else {
                        assert(addr_lt(n.ipaddr, pre[ki].ipaddr));
                        assert(addr_lt(pre[ki].ipaddr, pre[j - 1].ipaddr));
                        lemma_addr_lt_trans(n.ipaddr, pre[ki].ipaddr, pre[j - 1].ipaddr);
                    }
                } else {
                    assert(self.0@[i] == pre[i - 1]);
                    assert(self.0@[j] == pre[j - 1]);
                    assert(addr_lt(pre[i - 1].ipaddr, pre[j - 1].ipaddr));
                }
            }
        }
        Some(())
    }
}

/// The address order is transitive.
pub proof fn lemma_addr_lt_trans(a: IpAddr, b: IpAddr, c: IpAddr)
    requires
        addr_lt(a, b),
        addr_lt(b, c),
    ensures
        addr_lt(a, c),
{
}

} // verus!

//! The shared identity type and helpers for duplicate-free address lists.

use vstd::prelude::*;

use crate::seqs::count_where;
use crate::seqs::discard;
use crate::seqs::lemma_count_where_zero;

verus! {

/// An opaque on-chain identity. The host runtime mints and authenticates
/// addresses; this library only stores and compares them, so a numeric
/// identifier is all the state machines need.
#[derive(Clone, Copy, Debug, PartialEq, Eq, Structural)]
pub struct Address {
    pub id: u64,
}

impl Address {
    pub fn new(id: u64) -> (a: Address)
        ensures
            a.id == id,
    {
        Address { id }
    }

    /// The distinguished sentinel identity. It is never a legal target for
    /// member-mutation proposals.
    pub fn zero() -> (a: Address)
        ensures
            a.is_zero(),
            a.id == 0,
    {
        Address { id: 0 }
    }

    pub open spec fn is_zero(self) -> bool {
        self.id == 0
    }
}

/// Holds of the given address.
pub open spec fn addr_is(a: Address) -> spec_fn(Address) -> bool {
    |x: Address| x == a
}

/// No address occurs twice.
pub open spec fn unique_addrs(s: Seq<Address>) -> bool {
    forall|a: Address| count_where(s, addr_is(a)) <= 1
}

/// Index of the first occurrence of `a` in `v`, if any.
pub(crate) fn find_addr(v: &Vec<Address>, a: Address) -> (r: Option<usize>)
    ensures
        match r {
            Some(i) => i < v@.len() && v@[i as int] == a && v@.contains(a),
            None => {
                &&& forall|j: int| 0 <= j < v@.len() ==> v@[j] != a
                &&& !v@.contains(a)
                &&& count_where(v@, addr_is(a)) == 0
            },
        },
{
    let n = v.len();
    let mut i: usize = 0;
    while i < n
        invariant
            n == v@.len(),
            i <= n,
            forall|j: int| 0 <= j < i ==> v@[j] != a,
        decreases n - i,
    {
        if v[i] == a {
            return Some(i);
        }
        i = i + 1;
    }
    proof {
        lemma_count_where_zero(v@, addr_is(a));
    }
    None
}

/// A copy of `v` without every occurrence of `a`, order preserved.
pub(crate) fn without_addr(v: &Vec<Address>, a: Address) -> (r: Vec<Address>)
    ensures
        r@ == discard(v@, addr_is(a)),
{
    let n = v.len();
    let mut r: Vec<Address> = Vec::new();
    let mut i: usize = 0;
    while i < n
        invariant
            n == v@.len(),
            i <= n,
            r@ == discard(v@.take(i as int), addr_is(a)),
        decreases n - i,
    {
        proof {
            assert(v@.take(i + 1).drop_last() =~= v@.take(i as int));
            assert(v@.take(i + 1).last() == v@[i as int]);
        }
        if v[i] != a {
            r.push(v[i]);
        }
        i = i + 1;
    }
    proof {
        assert(v@.take(n as int) =~= v@);
    }
    r
}

} // verus!

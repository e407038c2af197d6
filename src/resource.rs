//! Resource identifiers and holdings of a resource.
use crate::fixed::Dec;
use vstd::prelude::*;

verus! {

/// The number of bytes in a resource identifier.
pub const ID_LEN: usize = 30;

/// The identifier of a resource, as the bytes of its address.
#[derive(Clone, Copy, Debug, PartialEq, Eq)]
pub struct ResourceId {
    pub bytes: [u8; 30],
}

impl View for ResourceId {
    type V = Seq<u8>;

    open spec fn view(&self) -> Seq<u8> {
        self.bytes@
    }
}

/// A quantity of one resource, held outside the pool.
#[derive(Clone, Copy, Debug, PartialEq, Eq)]
pub struct Holding {
    pub resource: ResourceId,
    pub amount: Dec,
}

impl Holding {
    /// A holding is never negative.
    pub open spec fn wf(&self) -> bool {
        self.amount@ >= 0
    }

    pub fn new(resource: ResourceId, amount: Dec) -> (r: Holding)
        ensures
            r.resource == resource,
            r.amount == amount,
    {
        Holding { resource, amount }
    }

    pub fn is_empty(&self) -> (r: bool)
        ensures
            r == (self.amount@ == 0),
    {
        self.amount.attos == 0
    }
}

/// `a` comes strictly before `b` in lexicographic byte order.
pub open spec fn id_lt(a: Seq<u8>, b: Seq<u8>) -> bool {
    exists|i: int|
        0 <= i < a.len() && i < b.len() && a[i] < b[i] && forall|j: int| 0 <= j < i ==> a[j] == b[j]
}

/// The first position at which two identifiers differ, if any.
fn first_difference(a: &ResourceId, b: &ResourceId) -> (r: Option<usize>)
    ensures
        r is None ==> a@ == b@,
        r matches Some(i) ==> i < ID_LEN && a@[i as int] != b@[i as int] && forall|j: int|
            0 <= j < i ==> a@[j] == b@[j],
{
    let mut i: usize = 0;
    while i < ID_LEN
        invariant
            i <= ID_LEN,
            a@.len() == ID_LEN,
            b@.len() == ID_LEN,
            forall|j: int| 0 <= j < i ==> a@[j] == b@[j],
        decreases ID_LEN - i,
    {
        if a.bytes[i] != b.bytes[i] {
            return Some(i);
        }
        i = i + 1;
    }
    assert(a@ =~= b@);
    None
}

/// Whether two identifiers are the same.
pub fn same_id(a: &ResourceId, b: &ResourceId) -> (r: bool)
    ensures
        r == (a@ == b@),
{
    match first_difference(a, b) {
        None => true,
        Some(i) => {
            assert(a@[i as int] != b@[i as int]);
            false
        },
    }
}

/// Whether `a` comes strictly before `b` in the canonical order.
pub fn id_less(a: &ResourceId, b: &ResourceId) -> (r: bool)
    ensures
        r == id_lt(a@, b@),
        !r && a@ != b@ ==> id_lt(b@, a@),
{
    match first_difference(a, b) {
        None => {
            assert(!id_lt(a@, b@));
            false
        },
        Some(i) => {
            let less = a.bytes[i] < b.bytes[i];
            if less {
                assert(id_lt(a@, b@));
            } else {
                assert(id_lt(b@, a@));
                assert forall|k: int|
                    0 <= k < a@.len() && k < b@.len() && forall|j: int| 0 <= j < k ==> a@[j] == b@[j]
                    implies !(a@[k] < b@[k]) by {
                    if k < i {
                    } else if k > i {
                        assert(a@[i as int] == b@[i as int]);
                    }
                }
            }
            less
        },
    }
}

} // verus!

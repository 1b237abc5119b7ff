//! Quaternion component bookkeeping: the xyzw index convention, the
//! four-component recency order, and reordering of parsed components.
//!
//! The floating-point quaternion algebra itself lives with the caller;
//! this module owns the exact index and token manipulation around it.

use vstd::prelude::*;
use crate::format::QuaternionOrder;
use crate::normalize::first_index_from;

verus! {

/// Index of the x component in xyzw convention.
pub const X: usize = 0;

/// Index of the y component in xyzw convention.
pub const Y: usize = 1;

/// Index of the z component in xyzw convention.
pub const Z: usize = 2;

/// Index of the w component in xyzw convention.
pub const W: usize = 3;

/// Move `index` to the newest (last) position of a four-component recency
/// order.
///
/// When `index` occurs in `order`, its first occurrence is removed and
/// `index` is appended; otherwise the order is left unchanged.
pub fn touch_order(order: &mut [usize; 4], index: usize)
    ensures
        ({
            let s = old(order)@;
            let p = first_index_from(s, index, 0);
            if p < 4 {
                final(order)@ == s.remove(p).push(index)
            } else {
                final(order)@ == s
            }
        }),
{
    let ghost s = order@;
    let mut p: usize = 0;
    while p < 4 && order[p] != index
        invariant
            p <= 4,
            order@ == s,
            s.len() == 4,
            first_index_from(s, index, 0) == first_index_from(s, index, p as int),
        decreases 4 - p,
    {
        p = p + 1;
    }
    if p == 4 {
        return ;
    }
    let ghost pp = p as int;
    let mut i = p;
    while i + 1 < 4
        invariant
            pp == first_index_from(s, index, 0),
            0 <= pp < 4,
            order@.len() == 4,
            s.len() == 4,
            pp <= i as int <= 4,
            s[pp] == index,
            forall|k: int| 0 <= k < pp ==> order@[k] == s[k],
            forall|k: int| pp <= k < i as int ==> order@[k] == s[k + 1],
            forall|k: int| i as int <= k < 4 ==> order@[k] == s[k],
        decreases 4 - i,
    {
        order[i] = order[i + 1];
        i = i + 1;
    }
    order[3] = index;
    proof {
        assert(final(order)@ =~= s.remove(pp).push(index));
    }
}

/// Reorder four parsed component tokens into `(w, x, y, z)` according to
/// the given component convention.
pub fn quaternion_components(toks: Vec<String>, order: QuaternionOrder) -> (r: (
    String,
    String,
    String,
    String,
))
    requires
        toks@.len() == 4,
    ensures
        order is XYZW ==> (r.0, r.1, r.2, r.3) == (toks@[3], toks@[0], toks@[1], toks@[2]),
        order is WXYZ ==> (r.0, r.1, r.2, r.3) == (toks@[0], toks@[1], toks@[2], toks@[3]),
{
    let mut toks = toks;
    let a = toks.remove(0);
    let b = toks.remove(0);
    let c = toks.remove(0);
    let d = toks.remove(0);
    match order {
        QuaternionOrder::XYZW => (d, a, b, c),
        QuaternionOrder::WXYZ => (a, b, c, d),
    }
}

} // verus!

//! Bookkeeping for least-recently-used constrained normalization.
//!
//! When an interactive control edits one component of a unit vector, the
//! caller re-normalizes the remaining components, disturbing the least
//! recently touched ones first.  This module keeps the recency order
//! (oldest first) and selects the adjustment candidates; the floating-point
//! re-normalization itself lives with the caller.

use vstd::prelude::*;

verus! {

/// First position of `x` in `s` at or after `k`, or `s.len()`.
pub open spec fn first_index_from(s: Seq<usize>, x: usize, k: int) -> int
    decreases s.len() - k,
{
    if k < 0 || k >= s.len() {
        s.len() as int
    } else if s[k] == x {
        k
    } else {
        first_index_from(s, x, k + 1)
    }
}

/// Move `index` to the newest (last) position of the recency order.
///
/// When `index` occurs in `order`, its first occurrence is removed and
/// `index` is appended; otherwise the order is left unchanged.
pub fn touch_order(order: &mut Vec<usize>, index: usize)
    ensures
        ({
            let s = old(order)@;
            let p = first_index_from(s, index, 0);
            if p < s.len() {
                final(order)@ == s.remove(p).push(index)
            } else {
                final(order)@ == s
            }
        }),
{
    let ghost s = order@;
    let n = order.len();
    let mut p: usize = 0;
    while p < n && order[p] != index
        invariant
            p <= n == order@.len(),
            order@ == s,
            first_index_from(s, index, 0) == first_index_from(s, index, p as int),
        decreases n - p,
    {
        p = p + 1;
    }
    if p == n {
        return ;
    }
    let ghost pp = p as int;
    let mut i = p;
    while i < n - 1
        invariant
            pp == first_index_from(s, index, 0),
            0 <= pp < n == order@.len(),
            s.len() == n,
            pp <= i as int <= n,
            s[pp] == index,
            forall|k: int| 0 <= k < pp ==> order@[k] == s[k],
            forall|k: int| pp <= k < i as int ==> order@[k] == s[k + 1],
            forall|k: int| i as int <= k < n ==> order@[k] == s[k],
        decreases n - i,
    {
        let next = order[i + 1];
        order.set(i, next);
        i = i + 1;
    }
    order.set(n - 1, index);
    proof {
        assert(final(order)@ =~= s.remove(pp).push(index));
    }
}

/// The component indices other than `active`, oldest first.
///
/// `order` is the recency order of all component indices; the result keeps
/// its order and drops `active`, giving the sequence in which the caller's
/// re-normalization may disturb components.
pub fn non_active_order(order: &Vec<usize>, active: usize) -> (r: Vec<usize>)
    ensures
        r@ == order@.filter(|i: usize| i != active),
{
    let ghost s = order@;
    let ghost pred = |i: usize| i != active;
    let mut r: Vec<usize> = Vec::new();
    let mut k: usize = 0;
    proof {
        reveal(Seq::filter);
        assert(s.take(0).filter(pred) =~= r@);
    }
    while k < order.len()
        invariant
            k <= order@.len(),
            order@ == s,
            pred == (|i: usize| i != active),
            r@ == s.take(k as int).filter(pred),
        decreases order@.len() - k,
    {
        proof {
            reveal(Seq::filter);
            assert(s.take(k as int + 1).drop_last() =~= s.take(k as int));
            assert(s.take(k as int + 1).last() == s[k as int]);
        }
        if order[k] != active {
            r.push(order[k]);
        }
        k = k + 1;
    }
    proof {
        assert(s.take(s.len() as int) =~= s);
    }
    r
}

} // verus!

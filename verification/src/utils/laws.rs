//! Laws of index arithmetic, clamping and nearest entries.

use vstd::prelude::*;

use crate::utils::{clamp, nearest_i32, nearest_u32, next_wrapped};

verus! {

/// The next place in a circle is one further, and after the last comes the first.
pub proof fn circle_closes(i: usize, size: usize, r: usize)
    requires
        i < size,
        call_ensures(next_wrapped, (i, size), r),
    ensures
        i + 1 < size ==> r == i + 1,
        i + 1 == size ==> r == 0,
{
    if i + 1 < size {
        vstd::arithmetic::div_mod::lemma_small_mod((i + 1) as nat, size as nat);
    } else {
        vstd::arithmetic::div_mod::lemma_mod_self_0(size as int);
    }
}

/// A clamped number is within the bounds, and no number within them is nearer.
pub proof fn clamped_is_nearest(x: i64, lo: i64, hi: i64, r: i64, v: int)
    requires
        lo <= hi,
        call_ensures(clamp, (x, lo, hi), r),
        lo <= v <= hi,
    ensures
        lo <= r <= hi,
        lo <= x <= hi ==> r == x,
        x < lo ==> r == lo,
        x > hi ==> r == hi,
        x <= v ==> r - x <= v - x,
        x >= v ==> x - r <= x - v,
{
}

/// How far two numbers are apart.
pub open spec fn apart(a: int, b: int) -> int {
    if a <= b {
        b - a
    } else {
        a - b
    }
}

/// No entry of a table is nearer than the one found, and none before it is as near.
pub proof fn nothing_is_nearer(
    a: &[i32],
    want: i32,
    i: usize,
    b: &[u32],
    hz: u32,
    k: usize,
    j: int,
)
    requires
        a@.len() > 0,
        b@.len() > 0,
        call_ensures(nearest_i32, (a, want), i),
        call_ensures(nearest_u32, (b, hz), k),
    ensures
        i < a@.len(),
        k < b@.len(),
        0 <= j < a@.len() ==> apart(a@[i as int] as int, want as int) <= apart(
            a@[j] as int,
            want as int,
        ),
        0 <= j < i ==> apart(a@[i as int] as int, want as int) < apart(a@[j] as int, want as int),
        0 <= j < b@.len() ==> apart(b@[k as int] as int, hz as int) <= apart(
            b@[j] as int,
            hz as int,
        ),
        0 <= j < k ==> apart(b@[k as int] as int, hz as int) < apart(b@[j] as int, hz as int),
{
    let s = crate::utils::ints_of_i32(a@);
    let t = crate::utils::ints_of_u32(b@);
    assert(0 <= j < s.len() ==> s[j] == a@[j]);
    assert(0 <= j < t.len() ==> t[j] == b@[j]);
    assert(s[i as int] == a@[i as int]);
    assert(t[k as int] == b@[k as int]);
}

} // verus!

//! Index arithmetic on power-of-two sizes, clamping, and nearest entries.

pub mod laws;

use vstd::arithmetic::power2::pow2;
use vstd::prelude::*;

verus! {

/// `n` is `2^k` for some `k`.
pub open spec fn is_power_of_two(n: int) -> bool {
    exists|k: nat| #[trigger] pow2(k) == n
}

/// Masking with `n - 1` is the remainder modulo `n` when `n` is a power of two.
pub proof fn lemma_mask_is_mod(x: u64, n: u64)
    requires
        is_power_of_two(n as int),
    ensures
        n > 0,
        x & ((n - 1) as u64) == x % n,
{
    let k = choose|k: nat| #[trigger] pow2(k) == n as int;
    vstd::arithmetic::power2::lemma_pow2_pos(k);
    if k >= 64 {
        vstd::arithmetic::power2::lemma_pow2_strictly_increases(63, k);
        vstd::arithmetic::power2::lemma2_to64_rest();
        if k > 64 {
            vstd::arithmetic::power2::lemma_pow2_strictly_increases(64, k);
        }
        assert(false);
    }
    vstd::bits::lemma_u64_low_bits_mask_is_mod(x, k);
    assert(vstd::bits::low_bits_mask(k) == (n - 1) as nat);
}

/// The index after `i` in a circle of `size` places, wrapping from the last
/// one to 0. `size` must be a power of two.
pub fn next_wrapped(i: usize, size: usize) -> (r: usize)
    requires
        is_power_of_two(size as int),
        i < usize::MAX,
    ensures
        r == (i + 1) % size as int,
        r < size,
{
    proof {
        lemma_mask_is_mod((i + 1) as u64, size as u64);
    }
    let mask: usize = size - 1;
    (i + 1) & mask
}

/// `x` held within `lo` and `hi`.
pub open spec fn clamped(x: int, lo: int, hi: int) -> int {
    if x < lo {
        lo
    } else if x > hi {
        hi
    } else {
        x
    }
}

/// `x` held within `lo` and `hi`.
pub fn clamp(x: i64, lo: i64, hi: i64) -> (r: i64)
    requires
        lo <= hi,
    ensures
        r == clamped(x as int, lo as int, hi as int),
{
    if x < lo {
        lo
    } else if x > hi {
        hi
    } else {
        x
    }
}

/// The distance between two numbers.
pub open spec fn distance(a: int, b: int) -> int {
    if a < b {
        b - a
    } else {
        a - b
    }
}

/// Entry `i` of `table` is the first of those nearest to `want`.
pub open spec fn nearest_at(table: Seq<int>, want: int, i: int) -> bool {
    &&& 0 <= i < table.len()
    &&& forall|j: int|
        0 <= j < table.len() ==> distance(table[i], want) <= distance(#[trigger] table[j], want)
    &&& forall|j: int|
        0 <= j < i ==> distance(table[i], want) < distance(#[trigger] table[j], want)
}

/// The place of the first entry nearest to `want`.
pub open spec fn nearest(table: Seq<int>, want: int) -> int {
    choose|i: int| nearest_at(table, want, i)
}

/// There is only one such place.
pub proof fn lemma_nearest(table: Seq<int>, want: int, i: int)
    requires
        nearest_at(table, want, i),
    ensures
        nearest(table, want) == i,
{
    let k = nearest(table, want);
    assert(nearest_at(table, want, k));
    if k < i {
        assert(distance(table[i], want) < distance(table[k], want));
    } else if i < k {
        assert(distance(table[k], want) < distance(table[i], want));
    }
}

/// A table that is not empty has a nearest entry.
pub proof fn lemma_nearest_exists(table: Seq<int>, want: int)
    requires
        table.len() > 0,
    ensures
        nearest_at(table, want, nearest(table, want)),
    decreases table.len(),
{
    if table.len() == 1 {
        assert(nearest_at(table, want, 0));
    } else {
        let most = table.drop_last();
        lemma_nearest_exists(most, want);
        let i = nearest(most, want);
        let last = table.len() - 1;
        if distance(table[last], want) < distance(table[i], want) {
            assert forall|j: int| 0 <= j < table.len() implies distance(table[last], want)
                <= distance(#[trigger] table[j], want) by {
                if j < last {
                    assert(most[j] == table[j]);
                }
            }
            assert forall|j: int| 0 <= j < last implies distance(table[last], want) < distance(
                #[trigger] table[j],
                want,
            ) by {
                assert(most[j] == table[j]);
            }
            assert(nearest_at(table, want, last));
        } else {
            assert forall|j: int| 0 <= j < table.len() implies distance(table[i], want)
                <= distance(#[trigger] table[j], want) by {
                if j < last {
                    assert(most[j] == table[j]);
                }
            }
            assert forall|j: int| 0 <= j < i implies distance(table[i], want) < distance(
                #[trigger] table[j],
                want,
            ) by {
                assert(most[j] == table[j]);
            }
            assert(nearest_at(table, want, i));
        }
    }
}

/// The entries of a table as plain integers.
pub open spec fn ints_of_i32(table: Seq<i32>) -> Seq<int> {
    table.map_values(|x: i32| x as int)
}

/// The entries of a table as plain integers.
pub open spec fn ints_of_u32(table: Seq<u32>) -> Seq<int> {
    table.map_values(|x: u32| x as int)
}

/// The place of the first entry nearest to `want`.
pub fn nearest_i32(table: &[i32], want: i32) -> (i: usize)
    requires
        table@.len() > 0,
    ensures
        i < table@.len(),
        nearest_at(ints_of_i32(table@), want as int, i as int),
        i == nearest(ints_of_i32(table@), want as int),
{
    let ghost all = ints_of_i32(table@);
    let mut best: usize = 0;
    let mut gap: i64 = gap_between(table[0] as i64, want as i64);
    let mut i: usize = 1;
    while i < table.len()
        invariant
            best < i <= table.len(),
            all == ints_of_i32(table@),
            gap == distance(all[best as int], want as int),
            forall|j: int| 0 <= j < i ==> gap <= distance(#[trigger] all[j], want as int),
            forall|j: int| 0 <= j < best ==> gap < distance(#[trigger] all[j], want as int),
        decreases table.len() - i,
    {
        let g: i64 = gap_between(table[i] as i64, want as i64);
        if g < gap {
            best = i;
            gap = g;
        }
        i += 1;
    }
    proof {
        lemma_nearest(all, want as int, best as int);
    }
    best
}

/// The place of the first entry nearest to `want`.
pub fn nearest_u32(table: &[u32], want: u32) -> (i: usize)
    requires
        table@.len() > 0,
    ensures
        i < table@.len(),
        nearest_at(ints_of_u32(table@), want as int, i as int),
        i == nearest(ints_of_u32(table@), want as int),
{
    let ghost all = ints_of_u32(table@);
    let mut best: usize = 0;
    let mut gap: i64 = gap_between(table[0] as i64, want as i64);
    let mut i: usize = 1;
    while i < table.len()
        invariant
            best < i <= table.len(),
            all == ints_of_u32(table@),
            gap == distance(all[best as int], want as int),
            forall|j: int| 0 <= j < i ==> gap <= distance(#[trigger] all[j], want as int),
            forall|j: int| 0 <= j < best ==> gap < distance(#[trigger] all[j], want as int),
        decreases table.len() - i,
    {
        let g: i64 = gap_between(table[i] as i64, want as i64);
        if g < gap {
            best = i;
            gap = g;
        }
        i += 1;
    }
    proof {
        lemma_nearest(all, want as int, best as int);
    }
    best
}

/// The distance between two numbers of at most 32 bits.
fn gap_between(a: i64, b: i64) -> (d: i64)
    requires
        -0x1_0000_0000 <= a <= 0x1_0000_0000,
        -0x1_0000_0000 <= b <= 0x1_0000_0000,
    ensures
        d == distance(a as int, b as int),
{
    if a < b {
        b - a
    } else {
        a - b
    }
}

} // verus!

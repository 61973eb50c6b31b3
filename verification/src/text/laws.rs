//! Numbers can be read back from their texts.

use vstd::prelude::*;

use crate::text::{
    always_signed, counted, decimal, decimal_is_short, decimal_reads_back, digit_value,
    measured_tenths, parsed, push_always_signed, push_decimal, push_signed, push_tenths,
    push_two_digits, signed_decimal, ten_to, tenths, two_digits,
};

verus! {

/// One of the ten digits.
pub open spec fn is_digit(c: char) -> bool {
    '0' <= c <= '9'
}

/// The size of a number.
pub open spec fn size(n: int) -> int {
    if n < 0 {
        -n
    } else {
        n
    }
}

/// A number is written in digits, and begins with a zero only where it is zero.
pub proof fn decimal_is_tidy(n: nat)
    ensures
        decimal(n).len() >= 1,
        forall|i: int| 0 <= i < decimal(n).len() ==> is_digit(#[trigger] decimal(n)[i]),
        n > 0 ==> decimal(n)[0] != '0',
        n == 0 ==> decimal(n) == seq!['0'],
    decreases n,
{
    if n >= 10 {
        decimal_is_tidy(n / 10);
        assert(decimal(n)[0] == decimal(n / 10)[0]);
    } else {
        assert(n == 0 ==> decimal(n) =~= seq!['0']);
    }
}

/// The last digit of a number is that of its remainder by ten, as the character so far
/// behind `0`, and before it stands the number of whole tens.
pub proof fn last_digit_counts_the_ones(n: nat)
    ensures
        decimal(n).last() as u32 == '0' as u32 + n % 10,
        n < 10 ==> decimal(n).len() == 1,
        n >= 10 ==> decimal(n).drop_last() == decimal(n / 10),
{
    if n >= 10 {
        assert(decimal(n).drop_last() =~= decimal(n / 10));
    }
}

/// A negative number is a minus and its size; any other is its size alone.
pub proof fn signed_reads_back(n: int)
    ensures
        ({
            let s = signed_decimal(n);
            &&& n < 0 ==> s[0] == '-' && parsed(s.skip(1)) == -n && is_digit(s[1])
            &&& n >= 0 ==> is_digit(s[0]) && parsed(s) == n
        }),
{
    let m = size(n) as nat;
    decimal_is_tidy(m);
    decimal_reads_back(m);
    reveal_strlit("-");
    if n < 0 {
        assert(signed_decimal(n).skip(1) =~= decimal(m));
    }
}

/// A number that always has its sign is the sign and its size.
pub proof fn always_signed_reads_back(n: int)
    ensures
        ({
            let s = always_signed(n);
            &&& s[0] == if n < 0 {
                '-'
            } else {
                '+'
            }
            &&& is_digit(s[1])
            &&& parsed(s.skip(1)) == size(n)
        }),
{
    let m = size(n) as nat;
    decimal_is_tidy(m);
    decimal_reads_back(m);
    signed_reads_back(n);
    reveal_strlit("+");
    reveal_strlit("-");
    assert(always_signed(n).skip(1) =~= decimal(m));
}

/// A padded number has at least two digits, no more than it takes, and reads back.
pub proof fn two_digits_read_back(n: nat)
    ensures
        ({
            let s = two_digits(n);
            &&& parsed(s) == n
            &&& s.len() >= 2
            &&& n < 100 ==> s.len() == 2
            &&& n >= 100 ==> s[0] != '0'
            &&& forall|i: int| 0 <= i < s.len() ==> is_digit(#[trigger] s[i])
        }),
{
    decimal_is_tidy(n);
    decimal_reads_back(n);
    reveal_strlit("0");
    let s = two_digits(n);
    if n < 10 {
        assert(decimal(n).len() == 1);
        assert(s.drop_last() =~= seq!['0']);
        assert(parsed(seq!['0']) == 0) by {
            assert(seq!['0'].drop_last() =~= Seq::<char>::empty());
            reveal_with_fuel(parsed, 2);
        }
        assert(decimal(n).drop_last() =~= Seq::<char>::empty());
        assert(parsed(decimal(n)) == digit_value(s.last()));
    } else {
        assert(decimal(n).len() >= 2) by {
            decimal_is_tidy(n / 10);
        }
        if n < 100 {
            assert(ten_to(2) == 100) by {
                reveal_with_fuel(ten_to, 3);
            }
            decimal_is_short(n, 2);
        }
    }
}

/// A number of tenths is its sign where it is negative, its whole part, a point and
/// one digit: together, the number of tenths.
pub proof fn tenths_read_back(n: int)
    ensures
        ({
            let s = tenths(n);
            let from: int = if n < 0 {
                1
            } else {
                0
            };
            &&& s.len() >= from + 3
            &&& n < 0 <==> s[0] == '-'
            &&& s[s.len() - 2] == '.'
            &&& is_digit(s.last())
            &&& is_digit(s[from])
            &&& 10 * parsed(s.subrange(from, s.len() - 2)) + digit_value(s.last()) == size(n)
        }),
{
    let m = size(n);
    let whole = (m / 10) as nat;
    let rest = (m % 10) as nat;
    decimal_is_tidy(whole);
    decimal_is_tidy(rest);
    decimal_reads_back(whole);
    decimal_reads_back(rest);
    reveal_strlit("-");
    reveal_strlit(".");
    let s = tenths(n);
    let from: int = if n < 0 {
        1
    } else {
        0
    };
    assert(decimal(rest).len() == 1);
    assert(decimal(rest).drop_last() =~= Seq::<char>::empty());
    assert(parsed(decimal(rest)) == digit_value(decimal(rest).last()));
    assert(s.last() == decimal(rest).last());
    assert(s.subrange(from, s.len() - 2) =~= decimal(whole));
}

/// The calls that write numbers append them, and leave what was there.
pub proof fn numbers_are_appended(
    a: &mut String,
    n: u64,
    b: &mut String,
    i: i64,
    c: &mut String,
    d: &mut String,
    t: i32,
    e: &mut String,
    unit: &str,
    f: String,
    g: String,
)
    requires
        call_ensures(push_decimal, (a, n), ()),
        call_ensures(push_signed, (b, i), ()),
        call_ensures(push_two_digits, (c, n), ()),
        call_ensures(push_tenths, (d, t), ()),
        call_ensures(push_always_signed, (e, t), ()),
        call_ensures(counted, (n, unit), f),
        call_ensures(measured_tenths, (t, unit), g),
    ensures
        final(a)@ == old(a)@ + decimal(n as nat),
        final(b)@ == old(b)@ + signed_decimal(i as int),
        final(c)@ == old(c)@ + two_digits(n as nat),
        final(d)@ == old(d)@ + tenths(t as int),
        final(e)@ == old(e)@ + always_signed(t as int),
        f@ == decimal(n as nat) + unit@,
        g@ == tenths(t as int) + unit@,
{
}

} // verus!

//! Numbers in words: decimal text built digit by digit.

pub mod laws;

use vstd::prelude::*;
use vstd::string::StringExecFns;

verus! {

/// The digit for a number below ten.
pub open spec fn digit_char(d: int) -> char {
    if d == 0 {
        '0'
    } else if d == 1 {
        '1'
    } else if d == 2 {
        '2'
    } else if d == 3 {
        '3'
    } else if d == 4 {
        '4'
    } else if d == 5 {
        '5'
    } else if d == 6 {
        '6'
    } else if d == 7 {
        '7'
    } else if d == 8 {
        '8'
    } else {
        '9'
    }
}

/// A number in decimal, without leading zeros.
pub open spec fn decimal(n: nat) -> Seq<char>
    decreases n,
{
    if n < 10 {
        seq![digit_char(n as int)]
    } else {
        decimal(n / 10).push(digit_char((n % 10) as int))
    }
}

/// A number in decimal with a minus sign where it is negative.
pub open spec fn signed_decimal(n: int) -> Seq<char> {
    if n < 0 {
        "-"@ + decimal((-n) as nat)
    } else {
        decimal(n as nat)
    }
}

/// A number in decimal, padded with a zero to at least two digits.
pub open spec fn two_digits(n: nat) -> Seq<char> {
    if n < 10 {
        "0"@ + decimal(n)
    } else {
        decimal(n)
    }
}

fn digit_str(d: u64) -> (s: &'static str)
    requires
        d < 10,
    ensures
        s@ == seq![digit_char(d as int)],
{
    proof {
        reveal_strlit("0");
        reveal_strlit("1");
        reveal_strlit("2");
        reveal_strlit("3");
        reveal_strlit("4");
        reveal_strlit("5");
        reveal_strlit("6");
        reveal_strlit("7");
        reveal_strlit("8");
        reveal_strlit("9");
    }
    let s = if d == 0 {
        "0"
    } else if d == 1 {
        "1"
    } else if d == 2 {
        "2"
    } else if d == 3 {
        "3"
    } else if d == 4 {
        "4"
    } else if d == 5 {
        "5"
    } else if d == 6 {
        "6"
    } else if d == 7 {
        "7"
    } else if d == 8 {
        "8"
    } else {
        "9"
    };
    assert(s@ =~= seq![digit_char(d as int)]);
    s
}

/// Append a number in decimal.
pub fn push_decimal(out: &mut String, n: u64)
    ensures
        final(out)@ == old(out)@ + decimal(n as nat),
    decreases n,
{
    if n >= 10 {
        push_decimal(out, n / 10);
    }
    out.append(digit_str(n % 10));
    assert(out@ =~= old(out)@ + decimal(n as nat));
}

/// Append a number in decimal with its sign where it is negative.
pub fn push_signed(out: &mut String, n: i64)
    ensures
        final(out)@ == old(out)@ + signed_decimal(n as int),
{
    if n < 0 {
        out.append("-");
        let magnitude: u64 = if n == i64::MIN {
            0x8000_0000_0000_0000
        } else {
            (-n) as u64
        };
        push_decimal(out, magnitude);
        assert(out@ =~= old(out)@ + signed_decimal(n as int));
    } else {
        push_decimal(out, n as u64);
    }
}

/// Append a number in decimal, padded with a zero to at least two digits.
pub fn push_two_digits(out: &mut String, n: u64)
    ensures
        final(out)@ == old(out)@ + two_digits(n as nat),
{
    if n < 10 {
        out.append("0");
    }
    push_decimal(out, n);
    assert(out@ =~= old(out)@ + two_digits(n as nat));
}

/// A number of tenths in decimal: with a point, one digit behind it, and a minus
/// sign where it is negative.
pub open spec fn tenths(n: int) -> Seq<char> {
    if n < 0 {
        "-"@ + decimal(((-n) / 10) as nat) + "."@ + decimal(((-n) % 10) as nat)
    } else {
        decimal((n / 10) as nat) + "."@ + decimal((n % 10) as nat)
    }
}

/// A number in decimal that always has its sign.
pub open spec fn always_signed(n: int) -> Seq<char> {
    if n < 0 {
        signed_decimal(n)
    } else {
        "+"@ + decimal(n as nat)
    }
}

/// Append a number of tenths.
pub fn push_tenths(out: &mut String, n: i32)
    ensures
        final(out)@ == old(out)@ + tenths(n as int),
{
    let ghost before = out@;
    let magnitude: u64 = if n < 0 {
        out.append("-");
        (-(n as i64)) as u64
    } else {
        n as u64
    };
    push_decimal(out, magnitude / 10);
    out.append(".");
    push_decimal(out, magnitude % 10);
    assert(out@ =~= before + tenths(n as int));
}

/// Append a number that always has its sign.
pub fn push_always_signed(out: &mut String, n: i32)
    ensures
        final(out)@ == old(out)@ + always_signed(n as int),
{
    let ghost before = out@;
    if n < 0 {
        push_signed(out, n as i64);
    } else {
        out.append("+");
        push_decimal(out, n as u64);
        assert(out@ =~= before + always_signed(n as int));
    }
}

/// A number in decimal, and what it counts.
pub fn counted(n: u64, unit: &str) -> (s: String)
    ensures
        s@ == decimal(n as nat) + unit@,
{
    let mut s = String::from_str("");
    proof {
        reveal_strlit("");
    }
    push_decimal(&mut s, n);
    s.append(unit);
    assert(s@ =~= decimal(n as nat) + unit@);
    s
}

/// A number of tenths, and what it measures.
pub fn measured_tenths(n: i32, unit: &str) -> (s: String)
    ensures
        s@ == tenths(n as int) + unit@,
{
    let mut s = String::from_str("");
    proof {
        reveal_strlit("");
    }
    push_tenths(&mut s, n);
    s.append(unit);
    assert(s@ =~= tenths(n as int) + unit@);
    s
}

/// A character that is one column wide whatever stands beside it: one of ASCII,
/// the micro sign or the em dash.
pub open spec fn plain_char(c: char) -> bool {
    ' ' <= c <= '~' || c == '\u{b5}' || c == '\u{2014}'
}

/// Nothing but such characters.
pub open spec fn plain(text: Seq<char>) -> bool {
    forall|i: int| 0 <= i < text.len() ==> plain_char(#[trigger] text[i])
}

/// Digits are plain, and so is what is made of them.
pub proof fn lemma_numbers_are_plain(n: int)
    ensures
        n >= 0 ==> plain(decimal(n as nat)),
        plain(signed_decimal(n)),
        plain(always_signed(n)),
        plain(tenths(n)),
{
    let m = if n < 0 {
        -n
    } else {
        n
    };
    lemma_decimal_is_plain(m as nat);
    lemma_decimal_is_plain((m / 10) as nat);
    lemma_decimal_is_plain((m % 10) as nat);
    reveal_strlit("-");
    reveal_strlit("+");
    reveal_strlit(".");
}

proof fn lemma_decimal_is_plain(n: nat)
    ensures
        plain(decimal(n)),
    decreases n,
{
    if n >= 10 {
        lemma_decimal_is_plain(n / 10);
    }
}

/// A power of ten.
pub open spec fn ten_to(k: nat) -> nat
    decreases k,
{
    if k == 0 {
        1
    } else {
        10 * ten_to((k - 1) as nat)
    }
}

/// A number below a power of ten has no more digits than that.
pub proof fn decimal_is_short(n: nat, k: nat)
    requires
        k >= 1,
        n < ten_to(k),
    ensures
        1 <= decimal(n).len() <= k,
    decreases k,
{
    if n >= 10 {
        assert(ten_to(1) == 10) by {
            reveal_with_fuel(ten_to, 2);
        }
        assert(k >= 2);
        decimal_is_short(n / 10, (k - 1) as nat);
    }
}

/// A number of 64 bits has at most twenty digits, and what is made of one is not
/// much longer.
pub proof fn lemma_brief(n: int)
    requires
        -0x8000_0000_0000_0000 <= n <= 0xffff_ffff_ffff_ffff,
    ensures
        n >= 0 ==> decimal(n as nat).len() <= 20,
        n >= 0 ==> two_digits(n as nat).len() <= 21,
        signed_decimal(n).len() <= 21,
        always_signed(n).len() <= 21,
        tenths(n).len() <= 42,
{
    let m = if n < 0 {
        -n
    } else {
        n
    };
    assert(ten_to(20) == 100_000_000_000_000_000_000) by {
        reveal_with_fuel(ten_to, 21);
    }
    decimal_is_short(m as nat, 20);
    decimal_is_short((m / 10) as nat, 20);
    decimal_is_short((m % 10) as nat, 20);
    reveal_strlit("-");
    reveal_strlit("+");
    reveal_strlit(".");
    reveal_strlit("0");
}

/// What a decimal text stands for.
pub open spec fn parsed(s: Seq<char>) -> nat
    decreases s.len(),
{
    if s.len() == 0 {
        0
    } else {
        10 * parsed(s.drop_last()) + digit_value(s.last())
    }
}

/// What a digit stands for.
pub open spec fn digit_value(c: char) -> nat {
    if c == '1' {
        1
    } else if c == '2' {
        2
    } else if c == '3' {
        3
    } else if c == '4' {
        4
    } else if c == '5' {
        5
    } else if c == '6' {
        6
    } else if c == '7' {
        7
    } else if c == '8' {
        8
    } else if c == '9' {
        9
    } else {
        0
    }
}

/// Reading a number's decimal text gives the number back, so no two numbers
/// read alike.
pub proof fn decimal_reads_back(n: nat)
    ensures
        parsed(decimal(n)) == n,
    decreases n,
{
    if n < 10 {
        let s = decimal(n);
        assert(s.drop_last() =~= Seq::<char>::empty());
        assert(parsed(s.drop_last()) == 0);
        assert(s.last() == digit_char(n as int));
    } else {
        decimal_reads_back(n / 10);
        assert(decimal(n).drop_last() =~= decimal(n / 10));
    }
}

} // verus!

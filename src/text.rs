//! Decimal rendering of counts and of one-decimal percentages.

use vstd::prelude::*;
use vstd::string::*;

verus! {

/// The character of a decimal digit `d < 10`.
pub open spec fn digit_char(d: nat) -> char {
    if d == 0 {
        '0'
    } else if d == 1 {
        '1'
    } else if d == 2 {
        '2'
    } else if d == 3 {
        '3'
    } else if d == 4 {
        '4'
    } else if d == 5 {
        '5'
    } else if d == 6 {
        '6'
    } else if d == 7 {
        '7'
    } else if d == 8 {
        '8'
    } else {
        '9'
    }
}

/// The decimal representation of `n`, most significant digit first, without
/// leading zeros.
pub open spec fn decimal(n: nat) -> Seq<char>
    decreases n,
{
    if n < 10 {
        seq![digit_char(n)]
    } else {
        decimal(n / 10).push(digit_char(n % 10))
    }
}

/// Tenths of a percent of `count` in `total`, rounded to the nearest integer,
/// halves away from zero: `round(count / total * 1000)`.
pub open spec fn permille(count: nat, total: nat) -> nat
    recommends
        total > 0,
{
    ((2000 * count + total) / (2 * total)) as nat
}

/// The percentage of `count` in `total` with one fractional digit and a `%`
/// sign; a zero total reads as `0.0%`.
pub open spec fn percent_text(count: nat, total: nat) -> Seq<char> {
    let p = if total == 0 {
        0
    } else {
        permille(count, total)
    };
    decimal(p / 10) + seq!['.', digit_char(p % 10), '%']
}

fn digit_text(d: u128) -> (r: &'static str)
    requires
        d < 10,
    ensures
        r@ == seq![digit_char(d as nat)],
{
    if d == 0 {
        proof { reveal_strlit("0"); }
        "0"
    } else if d == 1 {
        proof { reveal_strlit("1"); }
        "1"
    } else if d == 2 {
        proof { reveal_strlit("2"); }
        "2"
    } else if d == 3 {
        proof { reveal_strlit("3"); }
        "3"
    } else if d == 4 {
        proof { reveal_strlit("4"); }
        "4"
    } else if d == 5 {
        proof { reveal_strlit("5"); }
        "5"
    } else if d == 6 {
        proof { reveal_strlit("6"); }
        "6"
    } else if d == 7 {
        proof { reveal_strlit("7"); }
        "7"
    } else if d == 8 {
        proof { reveal_strlit("8"); }
        "8"
    } else {
        proof { reveal_strlit("9"); }
        "9"
    }
}

/// The decimal text of `n`.
pub fn decimal_text(n: u128) -> (r: String)
    ensures
        r@ == decimal(n as nat),
    decreases n,
{
    if n < 10 {
        String::from_str(digit_text(n))
    } else {
        let mut s = decimal_text(n / 10);
        s.append(digit_text(n % 10));
        s
    }
}

/// The percentage of `count` in `total`, rounded to one decimal place and
/// followed by `%`; `0.0%` where `total` is zero.
pub fn format_percent(count: usize, total: usize) -> (r: String)
    ensures
        r@ == percent_text(count as nat, total as nat),
{
    let p: u128 = if total == 0 {
        0
    } else {
        let c = count as u128;
        let t = total as u128;
        assert(2000 * c + t <= 2001 * 0xffff_ffff_ffff_ffffu128) by (nonlinear_arith)
            requires c <= 0xffff_ffff_ffff_ffffu128, t <= 0xffff_ffff_ffff_ffffu128;
        (2000 * c + t) / (2 * t)
    };
    let mut s = decimal_text(p / 10);
    proof { reveal_strlit("."); reveal_strlit("%"); }
    s.append(".");
    s.append(digit_text(p % 10));
    s.append("%");
    assert(s@ =~= percent_text(count as nat, total as nat));
    s
}

/// A zero total reads as `0.0%`, whatever the count: no division takes place.
pub proof fn lemma_percent_zero_total(count: nat)
    ensures
        percent_text(count, 0) == seq!['0', '.', '0', '%'],
{
    assert(percent_text(count, 0) =~= seq!['0', '.', '0', '%']);
}

/// The percentage is `count / total` in tenths of a percent rounded to the
/// nearest integer, halves up, and never above `100.0%` while `count` is at
/// most `total`.
pub proof fn lemma_percent_rounds(count: nat, total: nat)
    requires
        total > 0,
    ensures
        2 * total * permille(count, total) <= 2000 * count + total,
        2000 * count + total < 2 * total * (permille(count, total) + 1),
        count <= total ==> permille(count, total) <= 1000,
        percent_text(count, total) == decimal(permille(count, total) / 10) + seq![
            '.',
            digit_char(permille(count, total) % 10),
            '%',
        ],
{
    let p = permille(count, total);
    let a = 2000 * count + total;
    let b = 2 * total;
    assert(b * (a / b) <= a && a < b * (a / b + 1)) by (nonlinear_arith)
        requires b > 0;
    if count <= total {
        assert(a <= 2001 * total) by (nonlinear_arith)
            requires a == 2000 * count + total, count <= total;
        assert(a / b <= 1000) by (nonlinear_arith)
            requires a <= 2001 * total, b == 2 * total, total > 0, b * (a / b) <= a;
    }
}

} // verus!

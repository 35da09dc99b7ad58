use vstd::arithmetic::div_mod::{lemma_div_basics, lemma_fundamental_div_mod};
use vstd::prelude::*;

verus! {

/// `1024` raised to the power `k`: the number of bytes in one unit of index `k`.
pub open spec fn pow1024(k: nat) -> nat
    decreases k,
{
    if k == 0 {
        1
    } else {
        1024 * pow1024((k - 1) as nat)
    }
}

/// The index of the largest unit among B, KB, MB, GB, TB whose size does not
/// exceed `s` (index 0 for sizes under one KB).
pub open spec fn unit_index(s: nat) -> nat {
    if s < pow1024(1) {
        0
    } else if s < pow1024(2) {
        1
    } else if s < pow1024(3) {
        2
    } else if s < pow1024(4) {
        3
    } else {
        4
    }
}

/// The name of the unit with index `k`.
pub open spec fn unit_name(k: nat) -> Seq<char> {
    if k == 0 {
        seq!['B']
    } else if k == 1 {
        seq!['K', 'B']
    } else if k == 2 {
        seq!['M', 'B']
    } else if k == 3 {
        seq!['G', 'B']
    } else {
        seq!['T', 'B']
    }
}

/// `n / d` rounded to the nearest integer, ties to the even neighbour.
pub open spec fn round_half_even(n: nat, d: nat) -> nat
    recommends
        d > 0,
{
    let q = n / d;
    let r = n % d;
    if 2 * r < d {
        q
    } else if 2 * r > d {
        q + 1
    } else if q % 2 == 0 {
        q
    } else {
        q + 1
    }
}

/// The size `s`, in hundredths of its unit, rounded as described above.
pub open spec fn scaled_hundredths(s: nat) -> nat {
    round_half_even(100 * s, pow1024(unit_index(s)))
}

/// The character of the decimal digit `d`.
pub open spec fn digit_char(d: nat) -> char {
    if d == 0 {
        '0'
    } else if d == 1 {
        '1'
    } else if d == 2 {
        '2'
    } else if d == 3 {
        '3'
    } else if d == 4 {
        '4'
    } else if d == 5 {
        '5'
    } else if d == 6 {
        '6'
    } else if d == 7 {
        '7'
    } else if d == 8 {
        '8'
    } else {
        '9'
    }
}

/// The decimal digits of `n`, most significant first, without leading zeros.
pub open spec fn decimal(n: nat) -> Seq<char>
    decreases n,
{
    if n < 10 {
        seq![digit_char(n)]
    } else {
        decimal(n / 10).push(digit_char(n % 10))
    }
}

/// How a byte count is shown: a whole number of bytes below one KB, otherwise
/// the scaled value with exactly two decimals, then a space and the unit.
pub open spec fn render(s: nat) -> Seq<char> {
    let k = unit_index(s);
    if k == 0 {
        decimal(s) + seq![' '] + unit_name(0)
    } else {
        let h = scaled_hundredths(s);
        decimal(h / 100) + seq!['.', digit_char((h % 100) / 10), digit_char(h % 10)] + seq![' ']
            + unit_name(k)
    }
}

proof fn lemma_pow1024_values()
    ensures
        pow1024(0) == 1,
        pow1024(1) == 1024,
        pow1024(2) == 1048576,
        pow1024(3) == 1073741824,
        pow1024(4) == 1099511627776,
{
    reveal_with_fuel(pow1024, 5);
}

fn digit_str(d: u64) -> (r: &'static str)
    requires
        d < 10,
    ensures
        r@ == seq![digit_char(d as nat)],
{
    if d == 0 {
        proof { reveal_strlit("0"); }
        "0"
    } else if d == 1 {
        proof { reveal_strlit("1"); }
        "1"
    } else if d == 2 {
        proof { reveal_strlit("2"); }
        "2"
    } else if d == 3 {
        proof { reveal_strlit("3"); }
        "3"
    } else if d == 4 {
        proof { reveal_strlit("4"); }
        "4"
    } else if d == 5 {
        proof { reveal_strlit("5"); }
        "5"
    } else if d == 6 {
        proof { reveal_strlit("6"); }
        "6"
    } else if d == 7 {
        proof { reveal_strlit("7"); }
        "7"
    } else if d == 8 {
        proof { reveal_strlit("8"); }
        "8"
    } else {
        proof { reveal_strlit("9"); }
        "9"
    }
}

/// The decimal representation of `n`.
pub fn decimal_string(n: u64) -> (r: String)
    ensures
        r@ == decimal(n as nat),
    decreases n,
{
    if n < 10 {
        String::from_str(digit_str(n))
    } else {
        let mut s = decimal_string(n / 10);
        s.append(digit_str(n % 10));
        s
    }
}

fn unit_str(k: u64) -> (r: &'static str)
    requires
        k <= 4,
    ensures
        r@ == seq![' '] + unit_name(k as nat),
{
    if k == 0 {
        proof { reveal_strlit(" B"); }
        assert(" B"@ =~= seq![' '] + unit_name(0));
        " B"
    } else if k == 1 {
        proof { reveal_strlit(" KB"); }
        assert(" KB"@ =~= seq![' '] + unit_name(1));
        " KB"
    } else if k == 2 {
        proof { reveal_strlit(" MB"); }
        assert(" MB"@ =~= seq![' '] + unit_name(2));
        " MB"
    } else if k == 3 {
        proof { reveal_strlit(" GB"); }
        assert(" GB"@ =~= seq![' '] + unit_name(3));
        " GB"
    } else {
        proof { reveal_strlit(" TB"); }
        assert(" TB"@ =~= seq![' '] + unit_name(4));
        " TB"
    }
}

/// `100 * size / d` rounded half to even, computed without overflow.
fn rounded_hundredths(size: u64, d: u64) -> (h: u64)
    requires
        d >= 1024,
    ensures
        h as nat == round_half_even(100 * size as nat, d as nat),
{
    let n: u128 = size as u128 * 100;
    let dd: u128 = d as u128;
    let q: u128 = n / dd;
    let rem: u128 = n % dd;
    assert(q <= n / 1024) by (nonlinear_arith)
        requires
            dd >= 1024,
            q == n / dd,
    ;
    if 2 * rem < dd {
        q as u64
    } else if 2 * rem > dd {
        (q + 1) as u64
    } else if q % 2 == 0 {
        q as u64
    } else {
        (q + 1) as u64
    }
}

proof fn lemma_unit_index(s: nat, k: nat, d: nat)
    requires
        k <= 4,
        d == pow1024(k),
        k > 0 ==> s >= d,
        k < 4 ==> s < 1024 * d,
    ensures
        k == unit_index(s),
{
    lemma_pow1024_values();
    if k == 0 {
    } else if k == 1 {
    } else if k == 2 {
    } else if k == 3 {
    } else {
    }
}

/// Renders a byte count in the largest binary unit that keeps the value
/// under 1024 (TB at most): whole bytes below one KB, two decimals above.
pub fn format_size(size: u64) -> (r: String)
    ensures
        r@ == render(size as nat),
{
    proof {
        lemma_pow1024_values();
    }
    let mut k: u64 = 0;
    let mut d: u64 = 1;
    while size / d >= 1024 && k < 4
        invariant
            k <= 4,
            0 < d <= 1099511627776,
            d as nat == pow1024(k as nat),
            k > 0 ==> size as nat >= pow1024(k as nat),
        decreases 4 - k,
    {
        proof {
            lemma_pow1024_values();
        }
        assert(size >= 1024 * d) by (nonlinear_arith)
            requires
                size / d >= 1024,
                d > 0,
        ;
        assert(pow1024((k + 1) as nat) == 1024 * pow1024(k as nat));
        assert(d <= 1073741824) by {
            if k == 0 {
            } else if k == 1 {
            } else if k == 2 {
            } else {
                assert(k == 3);
            }
        }
        d = d * 1024;
        k = k + 1;
    }
    assert(k < 4 ==> size < 1024 * d) by (nonlinear_arith)
        requires
            k < 4 ==> size / d < 1024,
            d > 0,
    ;
    proof {
        lemma_unit_index(size as nat, k as nat, d as nat);
    }
    if k == 0 {
        let mut s = decimal_string(size);
        s.append(unit_str(0));
        return s;
    }
    let h = rounded_hundredths(size, d);
    let mut s = decimal_string(h / 100);
    proof {
        reveal_strlit(".");
    }
    s.append(".");
    s.append(digit_str((h % 100) / 10));
    s.append(digit_str(h % 10));
    s.append(unit_str(k));
    assert((h % 100) % 10 == h % 10);
    assert(s@ =~= render(size as nat));
    s
}

/// The value of a decimal digit character (zero for any other character).
pub open spec fn digit_value(c: char) -> nat {
    if c == '1' {
        1
    } else if c == '2' {
        2
    } else if c == '3' {
        3
    } else if c == '4' {
        4
    } else if c == '5' {
        5
    } else if c == '6' {
        6
    } else if c == '7' {
        7
    } else if c == '8' {
        8
    } else if c == '9' {
        9
    } else {
        0
    }
}

/// The number that a string of decimal digits denotes.
pub open spec fn digits_value(t: Seq<char>) -> nat
    decreases t.len(),
{
    if t.len() == 0 {
        0
    } else {
        digits_value(t.drop_last()) * 10 + digit_value(t.last())
    }
}

/// The index of the multi-letter unit whose first letter is `c`.
pub open spec fn unit_of_letter(c: char) -> Option<nat> {
    if c == 'K' {
        Some(1)
    } else if c == 'M' {
        Some(2)
    } else if c == 'G' {
        Some(3)
    } else if c == 'T' {
        Some(4)
    } else {
        None
    }
}

/// Reads a rendered size back, by the same 1024-based rule: the number shown,
/// in hundredths of its unit, and the index of the unit.
pub open spec fn parse_rendered(t: Seq<char>) -> Option<(nat, nat)> {
    let n = t.len();
    if n >= 2 && t[n - 2] == ' ' && t[n - 1] == 'B' {
        Some((100 * digits_value(t.take(n - 2)), 0))
    } else if n >= 6 && t[n - 6] == '.' && t[n - 3] == ' ' && t[n - 1] == 'B' {
        match unit_of_letter(t[n - 2]) {
            Some(k) => Some(
                (
                    100 * digits_value(t.take(n - 6)) + digits_value(t.subrange(n - 5, n - 3)),
                    k,
                ),
            ),
            None => None,
        }
    } else {
        None
    }
}

proof fn lemma_digit_round_trip(d: nat)
    requires
        d < 10,
    ensures
        digit_value(digit_char(d)) == d,
        digit_char(d) != ' ',
        digit_char(d) != '.',
{
}

proof fn lemma_decimal_round_trip(n: nat)
    ensures
        digits_value(decimal(n)) == n,
        decimal(n).len() >= 1,
    decreases n,
{
    if n < 10 {
        lemma_digit_round_trip(n);
        let t = decimal(n);
        assert(t.drop_last() =~= Seq::<char>::empty());
        assert(digits_value(t.drop_last()) == 0);
        assert(digits_value(t) == digits_value(t.drop_last()) * 10 + digit_value(t.last()));
    } else {
        lemma_decimal_round_trip(n / 10);
        lemma_digit_round_trip(n % 10);
        assert(decimal(n).drop_last() =~= decimal(n / 10));
        assert(decimal(n).last() == digit_char(n % 10));
        assert(n == (n / 10) * 10 + n % 10);
        let t = decimal(n);
        assert(digits_value(t) == digits_value(t.drop_last()) * 10 + digit_value(t.last()));
    }
}

proof fn lemma_rounding_error(n: nat, d: nat)
    requires
        d > 0,
    ensures
        2 * (round_half_even(n, d) * d - n) <= d,
        2 * (n - round_half_even(n, d) * d) <= d,
{
    lemma_fundamental_div_mod(n as int, d as int);
    let q = n / d;
    let r = n % d;
    assert(n == d * q + r);
    assert(q * d == d * q) by (nonlinear_arith);
    assert((q + 1) * d == q * d + d) by (nonlinear_arith);
    let h = round_half_even(n, d);
    if 2 * r < d {
        assert(h == q);
    } else if 2 * r > d {
        assert(h == q + 1);
    } else if q % 2 == 0 {
        assert(h == q);
    } else {
        assert(h == q + 1);
    }
}

/// Reading a rendered size back gives the unit it was rendered in and a value
/// within half a hundredth of a unit (so well within 0.01) of the size
/// expressed in that unit.
pub proof fn lemma_render_round_trip(s: u64)
    ensures
        parse_rendered(render(s as nat)) == Some(
            (scaled_hundredths(s as nat), unit_index(s as nat)),
        ),
        2 * (scaled_hundredths(s as nat) * pow1024(unit_index(s as nat)) - 100 * s)
            <= pow1024(unit_index(s as nat)),
        2 * (100 * s - scaled_hundredths(s as nat) * pow1024(unit_index(s as nat)))
            <= pow1024(unit_index(s as nat)),
{
    let k = unit_index(s as nat);
    let h = scaled_hundredths(s as nat);
    let t = render(s as nat);
    lemma_pow1024_values();
    lemma_rounding_error(100 * s as nat, pow1024(k));
    if k == 0 {
        lemma_decimal_round_trip(s as nat);
        let ds = decimal(s as nat);
        assert(t.take(t.len() - 2) =~= ds);
        let m = 100 * s as nat;
        lemma_div_basics(m as int);
        lemma_fundamental_div_mod(m as int, 1);
        assert(m / 1 == m && m % 1 == 0);
        assert(h == round_half_even(m, 1));
    } else {
        lemma_decimal_round_trip(h / 100);
        lemma_digit_round_trip((h % 100) / 10);
        lemma_digit_round_trip(h % 10);
        let ds = decimal(h / 100);
        let n = t.len();
        assert(t.take(n - 6) =~= ds);
        let two = t.subrange(n - 5, n - 3);
        assert(two =~= seq![digit_char((h % 100) / 10), digit_char(h % 10)]);
        assert(two.drop_last() =~= seq![digit_char((h % 100) / 10)]);
        assert(two.drop_last().drop_last() =~= Seq::<char>::empty());
        let c0 = digit_char((h % 100) / 10);
        assert(digits_value(two.drop_last()) == digits_value(two.drop_last().drop_last()) * 10
            + digit_value(c0));
        assert(h % 100 == ((h % 100) / 10) * 10 + h % 10);
        assert(digits_value(two) == h % 100);
        assert(t[n - 2] == unit_name(k)[0]);
    }
}

} // verus!

//! Decimal digits: scanning, bounded parsing and formatting, over characters
//! and over bytes, with the mathematical value each digit sequence denotes.
use vstd::prelude::*;

verus! {

/// An ASCII decimal digit character, `'0'..='9'`.
pub open spec fn is_digit_char(c: char) -> bool {
    48 <= (c as u32) && (c as u32) <= 57
}

/// An ASCII decimal digit byte, `b'0'..=b'9'`.
pub open spec fn is_digit_byte(b: u8) -> bool {
    48 <= b && b <= 57
}

/// The value of a digit character.
pub open spec fn digit_value(c: char) -> nat {
    ((c as u32) - 48) as nat
}

/// The character of a digit value below ten.
pub open spec fn digit_char(d: nat) -> char {
    if d == 0 {
        '0'
    } else if d == 1 {
        '1'
    } else if d == 2 {
        '2'
    } else if d == 3 {
        '3'
    } else if d == 4 {
        '4'
    } else if d == 5 {
        '5'
    } else if d == 6 {
        '6'
    } else if d == 7 {
        '7'
    } else if d == 8 {
        '8'
    } else {
        '9'
    }
}

/// The character of a digit value below ten.
pub fn digit_to_char(d: u8) -> (c: char)
    requires
        d < 10,
    ensures
        c == digit_char(d as nat),
        is_digit_char(c),
        digit_value(c) == d,
{
    if d == 0 {
        '0'
    } else if d == 1 {
        '1'
    } else if d == 2 {
        '2'
    } else if d == 3 {
        '3'
    } else if d == 4 {
        '4'
    } else if d == 5 {
        '5'
    } else if d == 6 {
        '6'
    } else if d == 7 {
        '7'
    } else if d == 8 {
        '8'
    } else {
        '9'
    }
}

/// Index of the first non-digit character of `s` at or after `i` (or `s.len()`).
pub open spec fn digits_end(s: Seq<char>, i: int) -> int
    decreases s.len() - i,
{
    if i < 0 || i >= s.len() || !is_digit_char(s[i]) {
        i
    } else {
        digits_end(s, i + 1)
    }
}

/// Index of the first non-digit byte of `b` at or after `i` (or `b.len()`).
pub open spec fn digits_end_bytes(b: Seq<u8>, i: int) -> int
    decreases b.len() - i,
{
    if i < 0 || i >= b.len() || !is_digit_byte(b[i]) {
        i
    } else {
        digits_end_bytes(b, i + 1)
    }
}

/// The number that a sequence of decimal digit characters denotes, most
/// significant digit first (leading zeros allowed).
pub open spec fn decimal_value(ds: Seq<char>) -> nat
    decreases ds.len(),
{
    if ds.len() == 0 {
        0
    } else {
        decimal_value(ds.drop_last()) * 10 + digit_value(ds.last())
    }
}

/// The decimal representation of `n`, without leading zeros (`"0"` for zero).
pub open spec fn decimal_chars(n: nat) -> Seq<char>
    decreases n,
{
    if n < 10 {
        seq![digit_char(n)]
    } else {
        decimal_chars(n / 10).push(digit_char(n % 10))
    }
}

/// The number that a sequence of base-ten digit bytes denotes, least
/// significant digit first; a byte is taken at its full value, whatever it is.
pub open spec fn le_value(d: Seq<u8>) -> nat
    decreases d.len(),
{
    if d.len() == 0 {
        0
    } else {
        le_value(d.drop_first()) * 10 + d[0] as nat
    }
}

/// The base-ten digits of `n`, least significant first, without trailing zeros.
pub open spec fn le_digits(n: nat) -> Seq<u8>
    decreases n,
{
    if n == 0 {
        seq![]
    } else {
        seq![(n % 10) as u8] + le_digits(n / 10)
    }
}

pub proof fn lemma_digits_end(s: Seq<char>, i: int)
    requires
        0 <= i <= s.len(),
    ensures
        i <= digits_end(s, i) <= s.len(),
        forall|k: int| i <= k < digits_end(s, i) ==> is_digit_char(#[trigger] s[k]),
        digits_end(s, i) < s.len() ==> !is_digit_char(s[digits_end(s, i)]),
    decreases s.len() - i,
{
    if i < s.len() && is_digit_char(s[i]) {
        lemma_digits_end(s, i + 1);
    }
}

pub proof fn lemma_digits_end_bytes(b: Seq<u8>, i: int)
    requires
        0 <= i <= b.len(),
    ensures
        i <= digits_end_bytes(b, i) <= b.len(),
        forall|k: int| i <= k < digits_end_bytes(b, i) ==> is_digit_byte(#[trigger] b[k]),
        digits_end_bytes(b, i) < b.len() ==> !is_digit_byte(b[digits_end_bytes(b, i)]),
    decreases b.len() - i,
{
    if i < b.len() && is_digit_byte(b[i]) {
        lemma_digits_end_bytes(b, i + 1);
    }
}

/// When `s[i..j]` are digits and `s[j]` is not (or `j` is the end), the
/// digits starting at `i` end at `j`.
pub proof fn lemma_digits_end_exact(s: Seq<char>, i: int, j: int)
    requires
        0 <= i <= j <= s.len(),
        forall|k: int| i <= k < j ==> is_digit_char(#[trigger] s[k]),
        j < s.len() ==> !is_digit_char(s[j]),
    ensures
        digits_end(s, i) == j,
    decreases j - i,
{
    if i < j {
        lemma_digits_end_exact(s, i + 1, j);
    }
}

/// Byte version of [`lemma_digits_end_exact`].
pub proof fn lemma_digits_end_bytes_exact(b: Seq<u8>, i: int, j: int)
    requires
        0 <= i <= j <= b.len(),
        forall|k: int| i <= k < j ==> is_digit_byte(#[trigger] b[k]),
        j < b.len() ==> !is_digit_byte(b[j]),
    ensures
        digits_end_bytes(b, i) == j,
    decreases j - i,
{
    if i < j {
        lemma_digits_end_bytes_exact(b, i + 1, j);
    }
}

/// The digit character of `d < 10` is a digit of value `d`.
pub proof fn lemma_digit_char(d: nat)
    requires
        d < 10,
    ensures
        is_digit_char(digit_char(d)),
        digit_value(digit_char(d)) == d,
        decimal_value(seq![digit_char(d)]) == d,
{
    assert(seq![digit_char(d)].drop_last() =~= Seq::<char>::empty());
    assert(decimal_value(Seq::<char>::empty()) == 0);
    assert(seq![digit_char(d)].last() == digit_char(d));
}

/// One character denotes its digit value.
pub proof fn lemma_decimal_value_single(c: char)
    ensures
        decimal_value(seq![c]) == digit_value(c),
{
    let d = seq![c];
    assert(d.drop_last() =~= Seq::<char>::empty());
    assert(decimal_value(Seq::<char>::empty()) == 0);
    assert(d.last() == c);
}

/// `digits_end` only looks at the digits it passes and the character after them.
pub proof fn lemma_digits_end_frame(s: Seq<char>, t: Seq<char>, i: int, j: int)
    requires
        0 <= i <= j <= s.len(),
        j <= t.len(),
        forall|k: int| i <= k < j ==> #[trigger] s[k] == t[k] && is_digit_char(s[k]),
        j < s.len() ==> !is_digit_char(s[j]),
        j < t.len() ==> !is_digit_char(t[j]),
    ensures
        digits_end(s, i) == j,
        digits_end(t, i) == j,
    decreases j - i,
{
    if i < j {
        assert(s[i] == t[i]);
        lemma_digits_end_frame(s, t, i + 1, j);
    }
}

/// A digit sequence denotes at least as much as any of its prefixes.
pub proof fn lemma_decimal_value_prefix(ds: Seq<char>, k: int)
    requires
        0 <= k <= ds.len(),
    ensures
        decimal_value(ds.subrange(0, k)) <= decimal_value(ds),
    decreases ds.len(),
{
    if k < ds.len() {
        assert(ds.drop_last().subrange(0, k) =~= ds.subrange(0, k));
        lemma_decimal_value_prefix(ds.drop_last(), k);
    } else {
        assert(ds.subrange(0, k) =~= ds);
    }
}

pub proof fn lemma_decimal_chars_digits(n: nat)
    ensures
        decimal_chars(n).len() >= 1,
        forall|k: int| 0 <= k < decimal_chars(n).len() ==> is_digit_char(#[trigger] decimal_chars(n)[k]),
        decimal_value(decimal_chars(n)) == n,
    decreases n,
{
    if n < 10 {
        assert(decimal_chars(n).drop_last() =~= Seq::<char>::empty());
        assert(digit_value(digit_char(n)) == n);
        assert(decimal_value(Seq::<char>::empty()) == 0);
        assert(decimal_chars(n).last() == digit_char(n));
    } else {
        assert(digit_value(digit_char(n % 10)) == n % 10);
        lemma_decimal_chars_digits(n / 10);
        assert(decimal_chars(n).drop_last() =~= decimal_chars(n / 10));
        assert(decimal_chars(n).last() == digit_char(n % 10));
        assert(n == (n / 10) * 10 + n % 10) by (nonlinear_arith);
        assert(decimal_value(decimal_chars(n)) == decimal_value(decimal_chars(n / 10)) * 10 + digit_value(digit_char(n % 10)));
    }
}

pub proof fn lemma_le_digits(n: nat)
    ensures
        le_value(le_digits(n)) == n,
        forall|k: int| 0 <= k < le_digits(n).len() ==> #[trigger] le_digits(n)[k] < 10,
    decreases n,
{
    if n > 0 {
        lemma_le_digits(n / 10);
        assert(le_digits(n).drop_first() =~= le_digits(n / 10));
    }
}

/// Ten to the power `k`.
pub open spec fn pow10(k: nat) -> nat
    decreases k,
{
    if k == 0 {
        1
    } else {
        10 * pow10((k - 1) as nat)
    }
}

pub proof fn lemma_pow10_mono(a: nat, b: nat)
    requires
        a <= b,
    ensures
        1 <= pow10(a) <= pow10(b),
    decreases b,
{
    if b > 0 {
        lemma_pow10_mono(if a < b { a } else { (b - 1) as nat }, (b - 1) as nat);
    }
}

pub proof fn lemma_pow10_ten()
    ensures
        pow10(10) == 10000000000,
{
    reveal_with_fuel(pow10, 11);
}

/// Numbers below ten to the `k` have at most `k` base-ten digits.
pub proof fn lemma_le_digits_len(n: nat, k: nat)
    requires
        n < pow10(k),
    ensures
        le_digits(n).len() <= k,
    decreases n,
{
    if n > 0 {
        if k == 0 {
        } else {
            let q = pow10((k - 1) as nat);
            assert(n / 10 < q) by (nonlinear_arith)
                requires
                    n < 10 * q,
            ;
            lemma_le_digits_len(n / 10, (k - 1) as nat);
        }
    }
}

/// The first index at or after `i` (and before `end`) where every character
/// is a digit ends.
pub fn scan_digits(s: &[char], i: usize) -> (e: usize)
    requires
        i <= s@.len(),
    ensures
        e as int == digits_end(s@, i as int),
        i <= e <= s@.len(),
{
    proof {
        lemma_digits_end(s@, i as int);
    }
    let mut e = i;
    while e < s.len() && 48 <= s[e] as u32 && s[e] as u32 <= 57
        invariant
            i <= e <= s@.len(),
            digits_end(s@, e as int) == digits_end(s@, i as int),
        decreases s@.len() - e,
    {
        e = e + 1;
    }
    e
}

/// Byte version of [`scan_digits`].
pub fn scan_digits_bytes(b: &[u8], i: usize) -> (e: usize)
    requires
        i <= b@.len(),
    ensures
        e as int == digits_end_bytes(b@, i as int),
        i <= e <= b@.len(),
{
    proof {
        lemma_digits_end_bytes(b@, i as int);
    }
    let mut e = i;
    while e < b.len() && 48 <= b[e] && b[e] <= 57
        invariant
            i <= e <= b@.len(),
            digits_end_bytes(b@, e as int) == digits_end_bytes(b@, i as int),
        decreases b@.len() - e,
    {
        e = e + 1;
    }
    e
}

/// The value of the digits `s[i..e]`, when it is at most `bound`.
pub fn parse_decimal_bounded(s: &[char], i: usize, e: usize, bound: u64) -> (r: Option<u64>)
    requires
        i <= e <= s@.len(),
        forall|k: int| i <= k < e ==> is_digit_char(#[trigger] s@[k]),
    ensures
        r matches Some(v) ==> v == decimal_value(s@.subrange(i as int, e as int)) && v <= bound,
        r is None ==> decimal_value(s@.subrange(i as int, e as int)) > bound,
{
    let mut acc: u128 = 0;
    let mut k = i;
    assert(s@.subrange(i as int, i as int) =~= Seq::<char>::empty());
    while k < e
        invariant
            i <= k <= e <= s@.len(),
            forall|m: int| i <= m < e ==> is_digit_char(#[trigger] s@[m]),
            acc == decimal_value(s@.subrange(i as int, k as int)),
            acc <= bound,
        decreases e - k,
    {
        let c = s[k];
        assert(is_digit_char(s@[k as int]));
        let d = (c as u32 - 48) as u128;
        let next = acc * 10 + d;
        assert(s@.subrange(i as int, k + 1).drop_last() =~= s@.subrange(i as int, k as int));
        assert(next == decimal_value(s@.subrange(i as int, k + 1)));
        if next > bound as u128 {
            proof {
                let ds = s@.subrange(i as int, e as int);
                assert(ds.subrange(0, k + 1 - i) =~= s@.subrange(i as int, k + 1));
                lemma_decimal_value_prefix(ds, k + 1 - i);
            }
            return None;
        }
        acc = next;
        k = k + 1;
    }
    Some(acc as u64)
}

/// The value of the base-ten digit bytes `d`, least significant first.
pub fn le_value_exec(d: &[u8]) -> (v: u64)
    requires
        d@.len() <= 10,
    ensures
        v == le_value(d@),
{
    let n = d.len();
    let mut acc: u64 = 0;
    let mut k = n;
    assert(d@.subrange(n as int, n as int) =~= Seq::<u8>::empty());
    proof {
        lemma_pow10_ten();
    }
    while k > 0
        invariant
            k <= n == d@.len() <= 10,
            acc == le_value(d@.subrange(k as int, n as int)),
            9 * acc + 255 <= 255 * pow10((n - k) as nat),
            pow10(10) == 10000000000,
        decreases k,
    {
        proof {
            lemma_pow10_mono((n - k) as nat, 9);
            assert(pow10(((n - k) + 1) as nat) == 10 * pow10((n - k) as nat));
        }
        let b = d[k - 1];
        assert(d@.subrange(k - 1, n as int).drop_first() =~= d@.subrange(k as int, n as int));
        acc = acc * 10 + b as u64;
        k = k - 1;
    }
    assert(d@.subrange(0, n as int) =~= d@);
    acc
}

} // verus!

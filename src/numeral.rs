//! Decimal numerals: spelling numbers with digits and reading digits back.

use vstd::arithmetic::div_mod::lemma_fundamental_div_mod;
use vstd::prelude::*;

verus! {

/// The character of a decimal digit.
pub open spec fn digit_char(d: nat) -> char
    recommends
        d < 10,
{
    seq!['0', '1', '2', '3', '4', '5', '6', '7', '8', '9'][d as int]
}

/// The value of a decimal digit character.
pub open spec fn char_value(c: char) -> nat {
    ((c as u32) - ('0' as u32)) as nat
}

pub open spec fn is_digit(c: char) -> bool {
    '0' <= c && c <= '9'
}

/// The shortest decimal spelling of `n`.
pub open spec fn decimal(n: nat) -> Seq<char>
    decreases n,
{
    if n < 10 {
        seq![digit_char(n)]
    } else {
        decimal(n / 10).push(digit_char(n % 10))
    }
}

pub open spec fn zeros(k: nat) -> Seq<char> {
    Seq::new(k, |i: int| '0')
}

/// `n` in decimal, zero-padded on the left to at least `width` characters.
pub open spec fn padded(n: nat, width: nat) -> Seq<char> {
    let d = decimal(n);
    if d.len() < width {
        zeros((width - d.len()) as nat) + d
    } else {
        d
    }
}

/// The one-character text of digit `d`.
fn digit_str(d: u64) -> (r: &'static str)
    requires
        d < 10,
    ensures
        r@ == seq![digit_char(d as nat)],
{
    let digits: &'static str = "0123456789";
    proof {
        reveal_strlit("0123456789");
    }
    let r = digits.substring_char(d as usize, (d + 1) as usize);
    assert(r@ =~= seq![digit_char(d as nat)]);
    r
}

/// Appends the shortest decimal spelling of `n`.
pub(crate) fn push_decimal(out: &mut String, n: u64)
    ensures
        final(out)@ == old(out)@ + decimal(n as nat),
    decreases n,
{
    if n >= 10 {
        push_decimal(out, n / 10);
    }
    out.append(digit_str(n % 10));
    assert(final(out)@ =~= old(out)@ + decimal(n as nat));
}

/// The number of characters in the shortest decimal spelling of `n`.
pub(crate) fn decimal_len(n: u64) -> (r: usize)
    ensures
        r as nat == decimal(n as nat).len(),
    decreases n,
{
    proof {
        lemma_decimal_len_bound(n as nat);
    }
    if n < 10 {
        1
    } else {
        decimal_len(n / 10) + 1
    }
}

proof fn lemma_decimal_len_bound(n: nat)
    requires
        n <= u64::MAX,
    ensures
        1 <= decimal(n).len() <= 20,
{
    reveal_with_fuel(pow10, 21);
    assert(u64::MAX < pow10(20));
    lemma_decimal_len_le(n, 20);
}

pub open spec fn pow10(k: nat) -> nat
    decreases k,
{
    if k == 0 {
        1
    } else {
        10 * pow10((k - 1) as nat)
    }
}

/// A number below `10^k` has at most `k` digits (for `k >= 1`).
pub(crate) proof fn lemma_decimal_len_le(n: nat, k: nat)
    requires
        k >= 1,
        n < pow10(k),
    ensures
        1 <= decimal(n).len() <= k,
    decreases n,
{
    if n >= 10 {
        if k == 1 {
            assert(pow10(1) == 10) by {
                reveal_with_fuel(pow10, 2);
            }
        } else {
            assert(n / 10 < pow10((k - 1) as nat));
            lemma_decimal_len_le(n / 10, (k - 1) as nat);
        }
    }
}

/// Appends `n` in decimal, zero-padded on the left to at least `width` characters.
pub(crate) fn push_padded(out: &mut String, n: u64, width: usize)
    ensures
        final(out)@ == old(out)@ + padded(n as nat, width as nat),
{
    let len = decimal_len(n);
    if len < width {
        let mut i: usize = 0;
        while i < width - len
            invariant
                len < width,
                i <= width - len,
                out@ == old(out)@ + zeros(i as nat),
            decreases width - len - i,
        {
            out.append("0");
            proof {
                reveal_strlit("0");
            }
            assert(out@ =~= old(out)@ + zeros((i + 1) as nat));
            i = i + 1;
        }
        push_decimal(out, n);
        assert(out@ =~= old(out)@ + padded(n as nat, width as nat));
    } else {
        push_decimal(out, n);
    }
}

/// The value of a string of decimal digits, most significant first.
pub open spec fn digits_value(s: Seq<char>) -> nat
    decreases s.len(),
{
    if s.len() == 0 {
        0
    } else {
        digits_value(s.drop_last()) * 10 + char_value(s.last())
    }
}

pub open spec fn all_digits(s: Seq<char>) -> bool {
    forall|i: int| 0 <= i < s.len() ==> is_digit(#[trigger] s[i])
}

pub(crate) proof fn lemma_digit_round_trip(d: nat)
    requires
        d < 10,
    ensures
        char_value(digit_char(d)) == d,
        is_digit(digit_char(d)),
{
    assert(char_value('0') == 0 && char_value('1') == 1 && char_value('2') == 2 && char_value('3')
        == 3 && char_value('4') == 4 && char_value('5') == 5 && char_value('6') == 6
        && char_value('7') == 7 && char_value('8') == 8 && char_value('9') == 9);
}

pub(crate) proof fn lemma_decimal_value(n: nat)
    ensures
        digits_value(decimal(n)) == n,
        all_digits(decimal(n)),
    decreases n,
{
    if n < 10 {
        lemma_digit_round_trip(n);
        assert(decimal(n).drop_last() =~= Seq::<char>::empty());
        assert(digits_value(Seq::<char>::empty()) == 0);
        assert(decimal(n).last() == digit_char(n));
    } else {
        lemma_decimal_value(n / 10);
        lemma_digit_round_trip(n % 10);
        assert(decimal(n).drop_last() =~= decimal(n / 10));
        lemma_fundamental_div_mod(n as int, 10);
    }
}

pub(crate) proof fn lemma_zeros_value(k: nat)
    ensures
        digits_value(zeros(k)) == 0,
        all_digits(zeros(k)),
    decreases k,
{
    if k > 0 {
        assert(zeros(k).drop_last() =~= zeros((k - 1) as nat));
        lemma_zeros_value((k - 1) as nat);
        assert(char_value('0') == 0);
    }
}

pub(crate) proof fn lemma_leading_zeros(k: nat, s: Seq<char>)
    ensures
        digits_value(zeros(k) + s) == digits_value(s),
    decreases s.len(),
{
    if s.len() == 0 {
        assert(zeros(k) + s =~= zeros(k));
        lemma_zeros_value(k);
    } else {
        assert((zeros(k) + s).drop_last() =~= zeros(k) + s.drop_last());
        lemma_leading_zeros(k, s.drop_last());
    }
}

pub(crate) proof fn lemma_padded(n: nat, width: nat)
    requires
        width >= 1,
        n < pow10(width),
    ensures
        padded(n, width).len() == width,
        digits_value(padded(n, width)) == n,
        all_digits(padded(n, width)),
{
    lemma_decimal_len_le(n, width);
    lemma_decimal_value(n);
    let d = decimal(n);
    if d.len() < width {
        let k = (width - d.len()) as nat;
        lemma_leading_zeros(k, d);
        lemma_zeros_value(k);
        assert(all_digits(zeros(k) + d)) by {
            assert forall|i: int| 0 <= i < (zeros(k) + d).len() implies is_digit(
                #[trigger] (zeros(k) + d)[i],
            ) by {
                if i >= k {
                    assert((zeros(k) + d)[i] == d[i - k]);
                }
            }
        }
    }
}


/// A digit string's value is at least that of each of its prefixes.
pub(crate) proof fn lemma_prefix_value_le(s: Seq<char>, k: int)
    requires
        0 <= k <= s.len(),
    ensures
        digits_value(s.take(k)) <= digits_value(s),
    decreases s.len(),
{
    if k < s.len() {
        lemma_prefix_value_le(s.drop_last(), k);
        assert(s.drop_last().take(k) =~= s.take(k));
    } else {
        assert(s.take(k) =~= s);
    }
}

/// Whether the characters `from..to` of `text` are all decimal digits.
pub fn digits_in(text: &str, from: usize, to: usize) -> (r: bool)
    requires
        from <= to <= text@.len(),
    ensures
        r == all_digits(text@.subrange(from as int, to as int)),
{
    let mut i: usize = from;
    while i < to
        invariant
            from <= i <= to <= text@.len(),
            all_digits(text@.subrange(from as int, i as int)),
        decreases to - i,
    {
        let c = text.get_char(i);
        if !('0' <= c && c <= '9') {
            assert(!is_digit(text@.subrange(from as int, to as int)[i - from]));
            return false;
        }
        assert(forall|j: int|
            0 <= j < i + 1 - from ==> #[trigger] text@.subrange(from as int, i + 1)[j]
                == text@[from + j]);
        i = i + 1;
    }
    true
}

/// Reads the characters `from..to` of `text` as an unsigned decimal number:
/// `None` when they are empty, hold anything but digits, or name a number
/// beyond `u64`.
pub fn parse_digits(text: &str, from: usize, to: usize) -> (r: Option<u64>)
    requires
        from <= to <= text@.len(),
    ensures
        ({
            let s = text@.subrange(from as int, to as int);
            match r {
                Some(v) => s.len() > 0 && all_digits(s) && v as nat == digits_value(s),
                None => !(s.len() > 0 && all_digits(s) && digits_value(s) <= u64::MAX),
            }
        }),
{
    if from == to {
        return None;
    }
    let ghost s = text@.subrange(from as int, to as int);
    let mut acc: u64 = 0;
    let mut i: usize = from;
    while i < to
        invariant
            from <= i <= to <= text@.len(),
            s == text@.subrange(from as int, to as int),
            all_digits(text@.subrange(from as int, i as int)),
            acc as nat == digits_value(text@.subrange(from as int, i as int)),
        decreases to - i,
    {
        let c = text.get_char(i);
        let ghost prefix = text@.subrange(from as int, i + 1);
        assert(prefix.drop_last() =~= text@.subrange(from as int, i as int));
        assert(prefix.last() == c);
        assert(s.take(i + 1 - from) =~= prefix);
        if !('0' <= c && c <= '9') {
            assert(!is_digit(s[i - from]));
            return None;
        }
        let d = (c as u32 - '0' as u32) as u64;
        if acc > (u64::MAX - d) / 10 {
            assert(acc * 10 + d > u64::MAX) by (nonlinear_arith)
                requires
                    acc > (u64::MAX - d) / 10,
                    d <= 9,
            ;
            proof {
                if all_digits(s) {
                    lemma_prefix_value_le(s, i + 1 - from);
                }
            }
            return None;
        }
        assert(acc * 10 + d <= u64::MAX) by (nonlinear_arith)
            requires
                acc <= (u64::MAX - d) / 10,
                d <= 9,
        ;
        acc = acc * 10 + d;
        assert(forall|j: int|
            0 <= j < i + 1 - from ==> #[trigger] prefix[j] == text@[from + j]);
        i = i + 1;
    }
    assert(text@.subrange(from as int, i as int) =~= s);
    Some(acc)
}


/// The position of the first `c` among the characters `from..to` of `text`,
/// or `to` when there is none.
pub fn find_char(text: &str, c: char, from: usize, to: usize) -> (r: usize)
    requires
        from <= to <= text@.len(),
    ensures
        from <= r <= to,
        r == to || text@[r as int] == c,
        forall|j: int| from <= j < r ==> text@[j] != c,
{
    let mut p: usize = from;
    while p < to
        invariant
            from <= p <= to <= text@.len(),
            forall|j: int| from <= j < p ==> text@[j] != c,
        ensures
            p == to || text@[p as int] == c,
            from <= p <= to,
            forall|j: int| from <= j < p ==> text@[j] != c,
        decreases to - p,
    {
        if text.get_char(p) == c {
            break;
        }
        p = p + 1;
    }
    p
}


pub(crate) proof fn lemma_pow10_positive(k: nat)
    ensures
        pow10(k) >= 1,
    decreases k,
{
    if k > 0 {
        lemma_pow10_positive((k - 1) as nat);
    }
}

/// `10^k`, or `None` when it does not fit in `u64`.
pub fn pow10_u64(k: usize) -> (r: Option<u64>)
    ensures
        match r {
            Some(v) => v as nat == pow10(k as nat),
            None => pow10(k as nat) > u64::MAX,
        },
{
    let mut v: u64 = 1;
    let mut i: usize = 0;
    while i < k
        invariant
            i <= k,
            v as nat == pow10(i as nat),
        decreases k - i,
    {
        if v > u64::MAX / 10 {
            proof {
                lemma_pow10_grows(i as nat, k as nat);
            }
            return None;
        }
        v = v * 10;
        i = i + 1;
    }
    Some(v)
}

proof fn lemma_pow10_grows(i: nat, k: nat)
    requires
        i < k,
    ensures
        pow10(k) >= 10 * pow10(i),
    decreases k - i,
{
    if i + 1 < k {
        lemma_pow10_grows(i, (k - 1) as nat);
        lemma_pow10_positive((k - 1) as nat);
    }
}

/// Digits written after others shift them left.
pub proof fn lemma_digits_concat(a: Seq<char>, b: Seq<char>)
    ensures
        digits_value(a + b) == digits_value(a) * pow10(b.len()) + digits_value(b),
    decreases b.len(),
{
    if b.len() == 0 {
        assert(a + b =~= a);
        assert(pow10(0) == 1);
        assert(digits_value(b) == 0);
    } else {
        assert((a + b).drop_last() =~= a + b.drop_last());
        assert((a + b).last() == b.last());
        lemma_digits_concat(a, b.drop_last());
        let x = digits_value(a);
        let p = pow10((b.len() - 1) as nat);
        let y = digits_value(b.drop_last());
        assert((x * p + y) * 10 == x * (10 * p) + y * 10) by (nonlinear_arith);
    }
}

/// An exact decimal number `mantissa / 10^scale`; a negative scale
/// multiplies. A number whose digits as written (without the point) exceed
/// `u64::MAX`, or whose scale leaves `i64`, is not held: the parsers below
/// reject it.
#[derive(Debug, Clone, Copy, PartialEq, Eq, Structural)]
pub struct Decimal {
    pub mantissa: u64,
    pub scale: i64,
}

impl Decimal {
    /// The digits and the scale.
    pub open spec fn parts(&self) -> (nat, int) {
        (self.mantissa as nat, self.scale as int)
    }
}

/// `s` has its only `.` at `p`, with runs of digits on either side that are
/// not both empty.
pub open spec fn point_at(s: Seq<char>, p: int) -> bool {
    &&& 0 <= p < s.len()
    &&& s.len() > 1
    &&& s[p] == '.'
    &&& all_digits(s.take(p))
    &&& all_digits(s.skip(p + 1))
}

/// The number that `s` writes as `D`, `D.F`, `D.` or `.F` (runs of decimal
/// digits), as
/// the digits without the point and the count of digits after it.
pub open spec fn decimal_of(s: Seq<char>) -> Option<(nat, nat)> {
    if s.len() > 0 && all_digits(s) {
        Some((digits_value(s), 0))
    } else if exists|p: int| point_at(s, p) {
        let p = choose|p: int| point_at(s, p);
        Some((digits_value(s.take(p) + s.skip(p + 1)), (s.len() - p - 1) as nat))
    } else {
        None
    }
}

/// `s` writes a decimal number whose digits fit in `u64`.
pub open spec fn fits_decimal(s: Seq<char>) -> bool {
    match decimal_of(s) {
        Some((m, places)) => m <= u64::MAX && places <= i64::MAX,
        None => false,
    }
}

/// A text writing a decimal number holds digits and at most one point.
pub proof fn lemma_decimal_chars(s: Seq<char>, i: int)
    requires
        decimal_of(s) is Some,
        0 <= i < s.len(),
    ensures
        is_digit(s[i]) || s[i] == '.',
{
    if !all_digits(s) {
        let p = choose|p: int| point_at(s, p);
        if i < p {
            assert(s.take(p)[i] == s[i]);
        } else if i > p {
            assert(s.skip(p + 1)[i - p - 1] == s[i]);
        }
    }
}

/// A decimal number has its point at one place at most, so `decimal_of`
/// reads the digits around any point that a caller exhibits.
pub proof fn lemma_point_unique(s: Seq<char>, p: int)
    requires
        point_at(s, p),
    ensures
        decimal_of(s) == Some(
            (digits_value(s.take(p) + s.skip(p + 1)), (s.len() - p - 1) as nat),
        ),
{
    assert(!is_digit(s[p]));
    let q = choose|q: int| point_at(s, q);
    if q < p {
        assert(s.take(p)[q] == '.');
    } else if q > p {
        assert(s.take(q)[p] == '.');
    }
}

/// Reads the characters `from..to` of `text` as a decimal number `D`, `D.F`,
/// `D.` or `.F`, as its digits and its count of decimal places: `None` when
/// they write none, or when its digits do not fit in `u64`.
fn parse_point_number(text: &str, from: usize, to: usize) -> (r: Option<(u64, usize)>)
    requires
        from <= to <= text@.len(),
    ensures
        ({
            let s = text@.subrange(from as int, to as int);
            match r {
                Some((m, places)) => decimal_of(s) == Some((m as nat, places as nat)),
                None => !(decimal_of(s) matches Some((m, _)) && m <= u64::MAX),
            }
        }),
{
    let ghost s = text@.subrange(from as int, to as int);
    let p = find_char(text, '.', from, to);
    if p == to {
        proof {
            assert forall|q: int| !point_at(s, q) by {
                if 0 <= q < s.len() {
                    assert(s[q] == text@[from + q]);
                }
            }
        }
        return match parse_digits(text, from, to) {
            Some(m) => Some((m, 0)),
            None => None,
        };
    }
    let ghost k = p - from;
    proof {
        assert(s[k] == '.');
        assert(!is_digit(s[k]));
        assert forall|q: int| point_at(s, q) implies q == k by {
            if q > k {
                assert(s.take(q)[k] == '.');
            } else if q < k {
                assert(s[q] == text@[from + q]);
            }
        }
        assert(s.take(k) =~= text@.subrange(from as int, p as int));
        assert(s.skip(k + 1) =~= text@.subrange(p + 1, to as int));
    }
    if to - from == 1 || !digits_in(text, p + 1, to) {
        return None;
    }
    let ghost a = s.take(k);
    let ghost b = s.skip(k + 1);
    proof {
        lemma_digits_concat(a, b);
        lemma_pow10_positive(b.len());
    }
    let whole = if p == from {
        assert(a.len() == 0);
        0
    } else {
        match parse_digits(text, from, p) {
            Some(v) => v,
            None => {
                proof {
                    if all_digits(a) {
                        lemma_point_unique(s, k);
                        assert(digits_value(a) * pow10(b.len()) >= digits_value(a))
                            by (nonlinear_arith)
                            requires
                                pow10(b.len()) >= 1,
                        ;
                    }
                }
                return None;
            },
        }
    };
    proof {
        lemma_point_unique(s, k);
    }
    let frac = if p + 1 == to {
        assert(b.len() == 0);
        0
    } else {
        match parse_digits(text, p + 1, to) {
            Some(v) => v,
            None => {
                return None;
            },
        }
    };
    let scale = to - p - 1;
    if whole == 0 {
        assert(a =~= text@.subrange(from as int, p as int));
        assert(digits_value(a) == 0);
        assert(digits_value(a) * pow10(b.len()) == 0) by (nonlinear_arith)
            requires
                digits_value(a) == 0,
        ;
        return Some((frac, scale));
    }
    let pow = match pow10_u64(scale) {
        Some(v) => v,
        None => {
            assert(digits_value(a) * pow10(b.len()) >= pow10(b.len())) by (nonlinear_arith)
                requires
                    digits_value(a) >= 1,
            ;
            return None;
        },
    };
    if whole > (u64::MAX - frac) / pow {
        assert(whole * pow + frac > u64::MAX) by (nonlinear_arith)
            requires
                whole as int > (u64::MAX as int - frac as int) / (pow as int),
                pow >= 1,
                frac <= u64::MAX,
        ;
        return None;
    }
    assert(whole * pow + frac <= u64::MAX) by (nonlinear_arith)
        requires
            whole as int <= (u64::MAX as int - frac as int) / (pow as int),
            pow >= 1,
            frac <= u64::MAX,
    ;
    Some((whole * pow + frac, scale))
}


/// Reads the characters `from..to` of `text` as a decimal number `D`, `D.F`,
/// `D.` or `.F`: `None` when they write none, when its digits do not fit in
/// `u64`, or when its decimal places do not fit in `i64`.
pub fn parse_decimal(text: &str, from: usize, to: usize) -> (r: Option<Decimal>)
    requires
        from <= to <= text@.len(),
    ensures
        ({
            let s = text@.subrange(from as int, to as int);
            match r {
                Some(d) => d.scale >= 0 && decimal_of(s) == Some(
                    (d.mantissa as nat, d.scale as nat),
                ),
                None => !fits_decimal(s),
            }
        }),
{
    match parse_point_number(text, from, to) {
        Some((m, places)) => {
            if places as u64 > i64::MAX as u64 {
                None
            } else {
                Some(Decimal { mantissa: m, scale: places as i64 })
            }
        },
        None => None,
    }
}

pub open spec fn is_exp_mark(c: char) -> bool {
    c == 'e' || c == 'E'
}

/// The exponent that `s` writes: an optional sign, then digits whose value
/// fits in `u64`.
pub open spec fn exponent_of(s: Seq<char>) -> Option<int> {
    if s.len() > 1 && (s[0] == '+' || s[0] == '-') && all_digits(s.skip(1)) && digits_value(
        s.skip(1),
    ) <= u64::MAX {
        if s[0] == '-' {
            Some(-digits_value(s.skip(1)))
        } else {
            Some(digits_value(s.skip(1)) as int)
        }
    } else if s.len() > 0 && all_digits(s) && digits_value(s) <= u64::MAX {
        Some(digits_value(s) as int)
    } else {
        None
    }
}

/// `s` is a decimal number, an `e` or `E` at `q`, then an exponent.
pub open spec fn exp_at(s: Seq<char>, q: int) -> bool {
    &&& 0 <= q < s.len()
    &&& is_exp_mark(s[q])
    &&& decimal_of(s.take(q)) is Some
    &&& exponent_of(s.skip(q + 1)) is Some
}

/// The decimal `d` (digits and places) times `10^x`, as digits and scale;
/// zero is `(0, 0)`.
pub open spec fn shifted(d: (nat, nat), x: int) -> (nat, int) {
    if d.0 == 0 {
        (0, 0)
    } else {
        (d.0, d.1 - x)
    }
}

/// The number that `s` writes without a sign, with or without an exponent,
/// as digits and scale: the value is `digits / 10^scale`.
pub open spec fn magnitude_of(s: Seq<char>) -> Option<(nat, int)> {
    if exists|q: int| exp_at(s, q) {
        let q = choose|q: int| exp_at(s, q);
        Some(shifted(decimal_of(s.take(q))->0, exponent_of(s.skip(q + 1))->0))
    } else {
        match decimal_of(s) {
            Some((m, places)) => Some((m, places as int)),
            None => None,
        }
    }
}

/// The number that `s` writes, optionally after a `+`.
pub open spec fn number_of(s: Seq<char>) -> Option<(nat, int)> {
    if s.len() > 0 && s[0] == '+' {
        magnitude_of(s.skip(1))
    } else {
        magnitude_of(s)
    }
}

/// Digits and scale that a `Decimal` can hold.
pub open spec fn fits(d: (nat, int)) -> bool {
    d.0 <= u64::MAX && i64::MIN <= d.1 <= i64::MAX
}

/// `s` writes a number whose digits fit in `u64` and whose scale fits in
/// `i64`.
pub open spec fn fits_number(s: Seq<char>) -> bool {
    match number_of(s) {
        Some(d) => fits(d),
        None => false,
    }
}

/// A text writing a number holds digits, a point, an exponent mark and signs.
pub(crate) proof fn lemma_magnitude_chars(s: Seq<char>, i: int)
    requires
        magnitude_of(s) is Some,
        0 <= i < s.len(),
    ensures
        is_digit(s[i]) || s[i] == '.' || is_exp_mark(s[i]) || s[i] == '+' || s[i] == '-',
{
    if exists|q: int| exp_at(s, q) {
        let q = choose|q: int| exp_at(s, q);
        if i < q {
            assert(s.take(q)[i] == s[i]);
            lemma_decimal_chars(s.take(q), i);
        } else if i > q {
            let e = s.skip(q + 1);
            assert(e[i - q - 1] == s[i]);
            if i - q - 1 > 0 && e.len() > 1 && (e[0] == '+' || e[0] == '-') && all_digits(
                e.skip(1),
            ) {
                assert(e.skip(1)[i - q - 2] == s[i]);
            }
        }
    } else {
        lemma_decimal_chars(s, i);
    }
}

/// The non-zero decimal `m / 10^places` times `10^x` (`10^-x` when
/// `negative`).
fn apply_exponent(m: u64, places: usize, negative: bool, x: u64) -> (r: Option<Decimal>)
    requires
        m > 0,
    ensures
        ({
            let want = shifted(
                (m as nat, places as nat),
                if negative {
                    -(x as int)
                } else {
                    x as int
                },
            );
            match r {
                Some(v) => want == v.parts(),
                None => !fits(want),
            }
        }),
{
    let scale: i128 = if negative {
        places as i128 + x as i128
    } else {
        places as i128 - x as i128
    };
    if scale < i64::MIN as i128 || scale > i64::MAX as i128 {
        None
    } else {
        Some(Decimal { mantissa: m, scale: scale as i64 })
    }
}

/// Where `s` splits at an exponent mark only at `k`, `magnitude_of` reads it there.
proof fn lemma_number_at(s: Seq<char>, k: int)
    requires
        exp_at(s, k),
        forall|j: int| exp_at(s, j) ==> j == k,
    ensures
        magnitude_of(s) == Some(shifted(decimal_of(s.take(k))->0, exponent_of(s.skip(k + 1))->0)),
{
}

/// A text writing a number holds digits, a point, an exponent mark and signs.
pub proof fn lemma_number_chars(s: Seq<char>, i: int)
    requires
        number_of(s) is Some,
        0 <= i < s.len(),
    ensures
        is_digit(s[i]) || s[i] == '.' || is_exp_mark(s[i]) || s[i] == '+' || s[i] == '-',
{
    if s.len() > 0 && s[0] == '+' {
        if i > 0 {
            assert(s.skip(1)[i - 1] == s[i]);
            lemma_magnitude_chars(s.skip(1), i - 1);
        }
    } else {
        lemma_magnitude_chars(s, i);
    }
}

/// Reads the characters `from..to` of `text` as a number without a sign.
pub fn parse_magnitude(text: &str, from: usize, to: usize) -> (r: Option<Decimal>)
    requires
        from <= to <= text@.len(),
    ensures
        ({
            let s = text@.subrange(from as int, to as int);
            match r {
                Some(d) => magnitude_of(s) == Some(d.parts()),
                None => !(magnitude_of(s) matches Some(d) && fits(d)),
            }
        }),
{
    let ghost s = text@.subrange(from as int, to as int);
    let lower = find_char(text, 'e', from, to);
    let upper = find_char(text, 'E', from, to);
    let q = if lower < upper {
        lower
    } else {
        upper
    };
    assert(forall|j: int| from <= j < q ==> !is_exp_mark(#[trigger] text@[j]));
    assert(forall|j: int| 0 <= j < q - from ==> s[j] == text@[from + j]);
    if q == to {
        assert(!exists|k: int| exp_at(s, k));
        return parse_decimal(text, from, to);
    }
    let ghost k = q - from;
    proof {
        assert(is_exp_mark(s[k]));
        assert forall|j: int| exp_at(s, j) implies j == k by {
            if j > k {
                assert(s.take(j)[k] == s[k]);
                lemma_decimal_chars(s.take(j), k);
            }
        }
        assert(s.take(k) =~= text@.subrange(from as int, q as int));
        assert(s.skip(k + 1) =~= text@.subrange(q + 1, to as int));
        assert(decimal_of(s) is None) by {
            if decimal_of(s) is Some {
                lemma_decimal_chars(s, k);
            }
        }
    }
    let ghost e = s.skip(k + 1);
    if q + 1 == to {
        return None;
    }
    let c = text.get_char(q + 1);
    let signed = c == '+' || c == '-';
    let start = if signed {
        q + 2
    } else {
        q + 1
    };
    proof {
        assert(e[0] == c);
        assert(e.skip(1) =~= text@.subrange(q + 2, to as int));
    }
    if start == to || !digits_in(text, start, to) {
        return None;
    }
    let x = match parse_digits(text, start, to) {
        Some(x) => x,
        None => {
            assert(!exp_at(s, k));
            return None;
        },
    };
    let (m, places) = match parse_point_number(text, from, q) {
        Some(d) => d,
        None => {
            proof {
                if decimal_of(s.take(k)) is Some {
                    assert(exp_at(s, k));
                    lemma_number_at(s, k);
                }
            }
            return None;
        },
    };
    assert(exp_at(s, k));
    proof {
        lemma_number_at(s, k);
    }
    if m == 0 {
        return Some(Decimal { mantissa: 0, scale: 0 });
    }
    apply_exponent(m, places, c == '-', x)
}

/// Reads the characters `from..to` of `text` as a number: an optional `+`,
/// a decimal number (`D`, `D.F`, `D.` or `.F`), then optionally `e` or `E`
/// and a signed exponent. `None` when they write none, or when its digits do
/// not fit in `u64` or its scale in `i64`.
pub fn parse_number(text: &str, from: usize, to: usize) -> (r: Option<Decimal>)
    requires
        from <= to <= text@.len(),
    ensures
        ({
            let s = text@.subrange(from as int, to as int);
            match r {
                Some(d) => number_of(s) == Some(d.parts()),
                None => !fits_number(s),
            }
        }),
{
    let ghost s = text@.subrange(from as int, to as int);
    if from < to && text.get_char(from) == '+' {
        assert(s.skip(1) =~= text@.subrange(from + 1, to as int));
        parse_magnitude(text, from + 1, to)
    } else {
        parse_magnitude(text, from, to)
    }
}

} // verus!

//! Frame rates, as the rational `N/D` text that the probing tool reports.

use crate::error::VideoError;
use crate::numeral::{
    find_char, fits, lemma_magnitude_chars, lemma_number_chars, magnitude_of, number_of,
    parse_magnitude, parse_number, Decimal,
};
use vstd::prelude::*;

verus! {

/// An exact decimal with a sign: `-magnitude` when `negative`.
#[derive(Debug, Clone, Copy, PartialEq, Eq, Structural)]
pub struct SignedDecimal {
    pub negative: bool,
    pub magnitude: Decimal,
}

/// The sign, digits and scale of `v`.
pub open spec fn signed_view(v: SignedDecimal) -> (bool, (nat, int)) {
    (v.negative, v.magnitude.parts())
}

/// The number that `s` writes with an optional sign (`-` or `+`), as its
/// sign and the digits and scale of its magnitude.
pub open spec fn signed_of(s: Seq<char>) -> Option<(bool, (nat, int))> {
    if s.len() > 0 && s[0] == '-' {
        match magnitude_of(s.skip(1)) {
            Some(d) => Some((true, d)),
            None => None,
        }
    } else {
        match number_of(s) {
            Some(d) => Some((false, d)),
            None => None,
        }
    }
}

/// `s` writes a signed number whose magnitude fits.
pub open spec fn fits_signed(s: Seq<char>) -> bool {
    match signed_of(s) {
        Some((_, d)) => fits(d),
        None => false,
    }
}

/// A text writing a signed number holds no `/`.
proof fn lemma_signed_no_slash(s: Seq<char>, i: int)
    requires
        signed_of(s) is Some,
        0 <= i < s.len(),
    ensures
        s[i] != '/',
{
    if s.len() > 0 && s[0] == '-' {
        if i > 0 {
            assert(s.skip(1)[i - 1] == s[i]);
            lemma_magnitude_chars(s.skip(1), i - 1);
        }
    } else {
        lemma_number_chars(s, i);
    }
}

/// Reads the characters `from..to` of `text` as a number with an optional
/// sign: `None` when they write none, or when its magnitude does not fit.
pub fn parse_signed(text: &str, from: usize, to: usize) -> (r: Option<SignedDecimal>)
    requires
        from <= to <= text@.len(),
    ensures
        ({
            let s = text@.subrange(from as int, to as int);
            match r {
                Some(v) => signed_of(s) == Some(signed_view(v)),
                None => !fits_signed(s),
            }
        }),
{
    let ghost s = text@.subrange(from as int, to as int);
    if from < to && text.get_char(from) == '-' {
        assert(s.skip(1) =~= text@.subrange(from + 1, to as int));
        match parse_magnitude(text, from + 1, to) {
            Some(d) => Some(SignedDecimal { negative: true, magnitude: d }),
            None => None,
        }
    } else {
        match parse_number(text, from, to) {
            Some(d) => Some(SignedDecimal { negative: false, magnitude: d }),
            None => None,
        }
    }
}

/// A frame rate of `num / den` frames per second, both exact signed decimals.
#[derive(Debug, Clone, Copy, PartialEq, Eq, Structural)]
pub struct FrameRate {
    pub num: SignedDecimal,
    pub den: SignedDecimal,
}

impl FrameRate {
    pub open spec fn wf(&self) -> bool {
        self.den.magnitude.mantissa != 0
    }

    pub open spec fn parts(&self) -> ((bool, (nat, int)), (bool, (nat, int))) {
        (signed_view(self.num), signed_view(self.den))
    }
}

/// `t` has a `/` at `p` with a signed number on each side.
pub open spec fn rate_split_at(t: Seq<char>, p: int) -> bool {
    &&& 0 <= p < t.len()
    &&& t[p] == '/'
    &&& signed_of(t.take(p)) is Some
    &&& signed_of(t.skip(p + 1)) is Some
}

/// The numerator and denominator written in `t`, each as sign, digits and
/// scale, if `t` has the shape `N/D`.
pub open spec fn rate_parts(t: Seq<char>) -> Option<((bool, (nat, int)), (bool, (nat, int)))> {
    if exists|p: int| rate_split_at(t, p) {
        let p = choose|p: int| rate_split_at(t, p);
        Some((signed_of(t.take(p))->0, signed_of(t.skip(p + 1))->0))
    } else {
        None
    }
}

/// `t` is a frame rate that this library accepts: `N/D` with signed numbers
/// whose digits fit in `u64` and scale in `i64`, and `D` non-zero.
pub open spec fn valid_rate(t: Seq<char>) -> bool {
    match rate_parts(t) {
        Some(((_, num), (_, den))) => fits(num) && fits(den) && den.0 != 0,
        None => false,
    }
}

/// A text has at most one `/` with a number on each side: any other
/// `/` would stand inside one of them.
proof fn lemma_split_at_first_slash(t: Seq<char>, p: int, q: int)
    requires
        0 <= p < t.len(),
        t[p] == '/',
        forall|j: int| 0 <= j < p ==> t[j] != '/',
        rate_split_at(t, q),
    ensures
        q == p,
{
    if q > p {
        assert(t.take(q)[p] == '/');
        lemma_signed_no_slash(t.take(q), p);
    }
}

/// `N/D` splits at one place at most, so `rate_parts` reads the numbers on
/// each side of any split that a caller exhibits.
pub proof fn lemma_rate_split_unique(t: Seq<char>, p: int)
    requires
        rate_split_at(t, p),
    ensures
        rate_parts(t) == Some((signed_of(t.take(p))->0, signed_of(t.skip(p + 1))->0)),
{
    let q = choose|q: int| rate_split_at(t, q);
    if q < p {
        assert(t.take(p)[q] == '/');
        lemma_signed_no_slash(t.take(p), q);
    } else if q > p {
        assert(t.take(q)[p] == '/');
        lemma_signed_no_slash(t.take(q), p);
    }
}

/// Parses the `N/D` frame-rate text of the probing tool, where `N` and `D`
/// are signed numbers (`25`, `-1.5`, `2.5e1`) and `D` is not zero.
pub fn parse_fps(text: &str) -> (r: Result<FrameRate, VideoError>)
    ensures
        match r {
            Ok(f) => {
                &&& valid_rate(text@)
                &&& rate_parts(text@) == Some(f.parts())
                &&& f.wf()
            },
            Err(e) => {
                &&& !valid_rate(text@)
                &&& e is InvalidFrameRate
                &&& e->InvalidFrameRate_0@ == text@
            },
        },
{
    let n = text.unicode_len();
    let p = find_char(text, '/', 0, n);
    let ghost t = text@;
    if p == n {
        assert(!exists|q: int| rate_split_at(t, q));
        return Err(VideoError::InvalidFrameRate(String::from_str(text)));
    }
    let num = parse_signed(text, 0, p);
    let den = parse_signed(text, p + 1, n);
    proof {
        assert(t.take(p as int) =~= t.subrange(0, p as int));
        assert(t.skip(p + 1) =~= t.subrange(p + 1, n as int));
        assert forall|q: int| rate_split_at(t, q) implies q == p by {
            lemma_split_at_first_slash(t, p as int, q);
        }
    }
    match (num, den) {
        (Some(a), Some(b)) => {
            if b.magnitude.mantissa != 0 {
                assert(rate_split_at(t, p as int));
                Ok(FrameRate { num: a, den: b })
            } else {
                Err(VideoError::InvalidFrameRate(String::from_str(text)))
            }
        },
        _ => { Err(VideoError::InvalidFrameRate(String::from_str(text))) },
    }
}

} // verus!

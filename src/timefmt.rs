//! Timestamps in the `HH:MM:SS.mmm` grammar understood by the cropping tool.
//!
//! All times in this library are whole milliseconds.

use crate::numeral::{
    decimal, digits_value, lemma_decimal_value, lemma_leading_zeros, lemma_padded, padded, pow10,
    push_padded,
};
use vstd::arithmetic::div_mod::{lemma_div_denominator, lemma_fundamental_div_mod};
use vstd::prelude::*;

verus! {

/// The timestamp text for `ms` milliseconds: hours (at least two digits),
/// minutes, seconds and milliseconds.
pub open spec fn time_text(ms: nat) -> Seq<char> {
    padded(ms / 3_600_000, 2) + seq![':'] + padded((ms / 60_000) % 60, 2) + seq![':']
        + padded((ms / 1000) % 60, 2) + seq!['.'] + padded(ms % 1000, 3)
}

/// Formats `ms` milliseconds as `HH:MM:SS.mmm`: every field zero-padded, the
/// hours field growing beyond two digits when needed.
pub fn format_time(ms: u64) -> (r: String)
    ensures
        r@ == time_text(ms as nat),
{
    let mut out = String::new();
    push_padded(&mut out, ms / 3_600_000, 2);
    out.append(":");
    push_padded(&mut out, (ms / 60_000) % 60, 2);
    out.append(":");
    push_padded(&mut out, (ms / 1000) % 60, 2);
    out.append(".");
    push_padded(&mut out, ms % 1000, 3);
    proof {
        reveal_strlit(":");
        reveal_strlit(".");
    }
    assert(out@ =~= time_text(ms as nat));
    out
}

/// Reads a timestamp back: the hours are everything before the last nine
/// characters `:MM:SS.mmm`.
pub open spec fn time_reading(t: Seq<char>) -> nat {
    let l = t.len() as int;
    digits_value(t.subrange(0, l - 10)) * 3_600_000 + digits_value(t.subrange(l - 9, l - 7))
        * 60_000 + digits_value(t.subrange(l - 6, l - 4)) * 1000 + digits_value(
        t.subrange(l - 3, l),
    )
}

proof fn lemma_time_fields(ms: nat)
    ensures
        ms == (ms / 3_600_000) * 3_600_000 + ((ms / 60_000) % 60) * 60_000 + ((ms / 1000) % 60)
            * 1000 + ms % 1000,
{
    lemma_fundamental_div_mod(ms as int, 1000);
    lemma_fundamental_div_mod(ms as int / 1000, 60);
    lemma_fundamental_div_mod(ms as int / 60_000, 60);
    lemma_div_denominator(ms as int, 1000, 60);
    lemma_div_denominator(ms as int, 60_000, 60);
}

/// Reading the hours, minutes, seconds and milliseconds back out of
/// `format_time(ms)` gives `ms` again; every character but the separators
/// `:`, `:` and `.` in the last ten places is a digit.
pub proof fn lemma_format_time_round_trip(ms: nat)
    ensures
        time_reading(time_text(ms)) == ms,
        time_text(ms).len() >= 12,
        time_text(ms)[time_text(ms).len() - 10] == ':',
        time_text(ms)[time_text(ms).len() - 7] == ':',
        time_text(ms)[time_text(ms).len() - 4] == '.',
{
    let h = padded(ms / 3_600_000, 2);
    let m = padded((ms / 60_000) % 60, 2);
    let s = padded((ms / 1000) % 60, 2);
    let f = padded(ms % 1000, 3);
    reveal_with_fuel(pow10, 4);
    lemma_padded((ms / 60_000) % 60, 2);
    lemma_padded((ms / 1000) % 60, 2);
    lemma_padded(ms % 1000, 3);
    lemma_decimal_value(ms / 3_600_000);
    if decimal(ms / 3_600_000).len() < 2 {
        lemma_leading_zeros((2 - decimal(ms / 3_600_000).len()) as nat, decimal(ms / 3_600_000));
    }
    let t = time_text(ms);
    let l = t.len() as int;
    assert(h.len() >= 2);
    assert(t =~= h + seq![':'] + m + seq![':'] + s + seq!['.'] + f);
    assert(t.subrange(0, l - 10) =~= h);
    assert(t.subrange(l - 9, l - 7) =~= m);
    assert(t.subrange(l - 6, l - 4) =~= s);
    assert(t.subrange(l - 3, l) =~= f);
    lemma_time_fields(ms);
}

} // verus!

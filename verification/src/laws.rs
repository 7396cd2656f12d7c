//! The protocol's general guarantees, stated and proved once over the spec
//! functions that the executable functions' contracts use.

use crate::ascii;
use crate::decimal::{
    first_dot, frac_digits, int_digits, is_digit, is_negative, lemma_first_dot,
    lemma_parse_format_milli, lemma_spec_digits, lemma_spec_pad3, round_nanos_to_milli,
    spec_abs_nanos, spec_digits, spec_format_value, spec_pad3,
    spec_parse_decimal, unsigned_part, valid_decimal,
};
use crate::protocol::{spec_measurement, spec_off_token, spec_on_token, spec_output_state};
use crate::text::{
    is_space, is_strippable, lemma_clean_plain, lemma_strip_absorbs, spec_clean, spec_contains,
};
use vstd::arithmetic::div_mod::{lemma_fundamental_div_mod, lemma_fundamental_div_mod_converse};
use vstd::prelude::*;

verus! {

/// Every byte of a formatted value is a digit, the dot, or a leading minus;
/// the text opens with a minus or a digit and closes with a digit.
pub proof fn lemma_format_value_chars(n: int)
    ensures
        forall|i: int|
            0 <= i < spec_format_value(n).len() ==> is_digit(#[trigger] spec_format_value(n)[i])
                || spec_format_value(n)[i] == ascii::DOT || spec_format_value(n)[i]
                == ascii::MINUS,
        spec_format_value(n).len() >= 1,
        is_digit(spec_format_value(n).last()),
{
    let neg = n < 0;
    let m = round_nanos_to_milli(spec_abs_nanos(n));
    let d = spec_digits(m / 1000);
    let p = spec_pad3(m % 1000);
    lemma_spec_digits(m / 1000);
    lemma_spec_pad3(m % 1000);
    let sgn = if neg {
        seq![ascii::MINUS]
    } else {
        Seq::<u8>::empty()
    };
    let s = spec_format_value(n);
    assert(s == sgn + d + seq![ascii::DOT] + p);
    assert(s.len() == sgn.len() + d.len() + 1 + p.len());
    assert forall|i: int|
        0 <= i < s.len() implies is_digit(#[trigger] s[i]) || s[i] == ascii::DOT || s[i]
        == ascii::MINUS by {
        if i < sgn.len() {
            assert(s[i] == ascii::MINUS);
        } else if i < sgn.len() + d.len() {
            assert(s[i] == d[i - sgn.len()]);
            assert(is_digit(d[i - sgn.len()]));
        } else if i == sgn.len() + d.len() {
            assert(s[i] == ascii::DOT);
        } else {
            assert(s[i] == p[i - (sgn.len() + d.len() + 1)]);
            assert(is_digit(p[i - (sgn.len() + d.len() + 1)]));
        }
    }
    assert(s.last() == p[p.len() - 1]);
}

/// A reply that echoes a set value — its three-decimal text, followed by
/// nothing but unit letters and line ends — cleans back to that text and
/// parses to exactly the value that was written.  Together with the
/// contract of the read-back check, an exact echo therefore passes
/// verification, and a reading more than one nano off is reported as a
/// mismatch carrying both values.
pub proof fn lemma_echoed_setpoint_parses_exactly(n: int, w: Seq<u8>, unit: u8)
    requires
        n % 1_000_000 == 0,
        unit == ascii::V || unit == ascii::W || unit == ascii::A,
        forall|i: int| 0 <= i < w.len() ==> is_strippable(#[trigger] w[i], unit),
    ensures
        spec_clean(spec_format_value(n) + w, unit) == spec_format_value(n),
        spec_measurement(spec_format_value(n) + w, unit) == Some(n),
{
    let f = spec_format_value(n);
    lemma_format_value_chars(n);
    // Cleaning strips the appended suffix and leaves the number alone.
    assert forall|i: int|
        0 <= i < f.len() implies !is_strippable(#[trigger] f[i], unit) && !is_space(f[i]) by {
        assert(is_digit(f[i]) || f[i] == ascii::DOT || f[i] == ascii::MINUS);
    }
    lemma_strip_absorbs(f, w, unit);
    lemma_clean_plain(f, unit);
    assert(spec_clean(f + w, unit) == spec_clean(f, unit));
    // The formatted text parses back to the very count of nanos, because a
    // milli-exact value rounds to itself.
    let a = spec_abs_nanos(n);
    lemma_fundamental_div_mod(n, 1_000_000);
    let k = n / 1_000_000;
    if n < 0 {
        lemma_fundamental_div_mod_converse(a as int, 1_000_000, -k, 0);
    }
    assert(a % 1_000_000 == 0);
    assert(a / 1_000_000 * 1_000_000 == a);
    let m = round_nanos_to_milli(a);
    assert(m == a / 1_000_000);
    lemma_parse_format_milli(n < 0, m);
    assert(m * 1_000_000 == a);
}

/// Cleaning is idempotent on every reply whose cleaned residue is a
/// decimal number: what one pass leaves, another pass leaves untouched.
pub proof fn lemma_clean_idempotent_when_numeric(s: Seq<u8>, unit: u8)
    requires
        unit == ascii::V || unit == ascii::W || unit == ascii::A,
        spec_parse_decimal(spec_clean(s, unit)) is Some,
    ensures
        spec_clean(spec_clean(s, unit), unit) == spec_clean(s, unit),
{
    let t = spec_clean(s, unit);
    let u = unsigned_part(t);
    assert(valid_decimal(u));
    lemma_first_dot(u);
    let fd = first_dot(u);
    assert forall|i: int|
        0 <= i < t.len() implies is_digit(#[trigger] t[i]) || t[i] == ascii::DOT || t[i]
        == ascii::MINUS || t[i] == ascii::PLUS by {
        let sgn: int = if t[0] == ascii::MINUS || t[0] == ascii::PLUS {
            1
        } else {
            0
        };
        assert(u == t.skip(sgn));
        if i >= sgn {
            let k = i - sgn;
            assert(u[k] == t[i]);
            if k < fd {
                assert(int_digits(u)[k] == u[k]);
                assert(is_digit(u[k]));
            } else if k == fd && fd < u.len() {
                assert(u[k] == ascii::DOT);
            } else if k > fd {
                assert(fd < u.len());
                assert(frac_digits(u)[k - fd - 1] == u[k]);
                assert(is_digit(u[k]));
            }
        }
    }
    assert forall|i: int|
        0 <= i < t.len() implies !is_strippable(#[trigger] t[i], unit) && !is_space(t[i]) by {
        assert(is_digit(t[i]) || t[i] == ascii::DOT || t[i] == ascii::MINUS || t[i] == ascii::PLUS);
    }
    lemma_clean_plain(t, unit);
}

/// How an input-switch reply is classified: a reply holding `OFF` reads as
/// off, one holding `ON` and not `OFF` reads as on, and one holding
/// neither has no reading at all.
pub proof fn lemma_output_state_classification(s: Seq<u8>)
    ensures
        spec_contains(s, spec_off_token()) ==> spec_output_state(s) == Some(false),
        !spec_contains(s, spec_off_token()) && spec_contains(s, spec_on_token())
            ==> spec_output_state(s) == Some(true),
        !spec_contains(s, spec_off_token()) && !spec_contains(s, spec_on_token())
            ==> spec_output_state(s) is None,
{
}

} // verus!

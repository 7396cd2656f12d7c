//! Exact decimal text handling for the wire protocol.
//!
//! Settings travel as fixed three-decimal numbers (`1.000`, `-0.500`) and
//! replies come back as plain decimal text of any precision.  Both sides are
//! modelled here on integers: a number is a signed count of billionths
//! (nanos), so the protocol's absolute tolerance of 1e-9 is one unit.

use crate::ascii;
use vstd::arithmetic::div_mod::lemma_fundamental_div_mod;
use vstd::prelude::*;

verus! {

/// Decimal digit, as an ASCII byte.
pub open spec fn is_digit(b: u8) -> bool {
    ascii::D0 <= b && b <= ascii::D9
}

/// Numeric value of an ASCII digit.
pub open spec fn digit_val(b: u8) -> int {
    b - ascii::D0
}

/// Every byte of `s` is an ASCII digit.
pub open spec fn all_digits(s: Seq<u8>) -> bool {
    forall|i: int| 0 <= i < s.len() ==> is_digit(s[i])
}

/// The base-ten value of a digit string, most significant digit first.
pub open spec fn digits_val(s: Seq<u8>) -> int
    decreases s.len(),
{
    if s.len() == 0 {
        0
    } else {
        digits_val(s.drop_last()) * 10 + digit_val(s.last())
    }
}

/// Ten to the `k`.
pub open spec fn spec_pow10(k: nat) -> int
    decreases k,
{
    if k == 0 {
        1
    } else {
        10 * spec_pow10((k - 1) as nat)
    }
}

pub proof fn lemma_pow10_values()
    ensures
        spec_pow10(0) == 1,
        spec_pow10(1) == 10,
        spec_pow10(2) == 100,
        spec_pow10(6) == 1_000_000,
        spec_pow10(9) == 1_000_000_000,
{
    assert(spec_pow10(0) == 1);
    assert(spec_pow10(1) == 10);
    assert(spec_pow10(2) == 100);
    assert(spec_pow10(3) == 1000);
    assert(spec_pow10(4) == 10_000);
    assert(spec_pow10(5) == 100_000);
    assert(spec_pow10(6) == 1_000_000);
    assert(spec_pow10(7) == 10_000_000);
    assert(spec_pow10(8) == 100_000_000);
    assert(spec_pow10(9) == 1_000_000_000);
}

pub proof fn lemma_pow10_pos(k: nat)
    ensures
        spec_pow10(k) >= 1,
    decreases k,
{
    if k > 0 {
        lemma_pow10_pos((k - 1) as nat);
    }
}

pub proof fn lemma_pow10_add(a: nat, b: nat)
    ensures
        spec_pow10(a + b) == spec_pow10(a) * spec_pow10(b),
    decreases a,
{
    if a == 0 {
    } else {
        lemma_pow10_add((a - 1) as nat, b);
        assert(spec_pow10(a + b) == 10 * spec_pow10(((a - 1) + b) as nat));
        assert(10 * (spec_pow10((a - 1) as nat) * spec_pow10(b)) == (10 * spec_pow10(
            (a - 1) as nat,
        )) * spec_pow10(b)) by (nonlinear_arith);
    }
}

pub proof fn lemma_digits_val_nonneg(s: Seq<u8>)
    requires
        all_digits(s),
    ensures
        digits_val(s) >= 0,
    decreases s.len(),
{
    if s.len() > 0 {
        assert(all_digits(s.drop_last()));
        lemma_digits_val_nonneg(s.drop_last());
    }
}

pub proof fn lemma_digits_val_bound(s: Seq<u8>)
    requires
        all_digits(s),
    ensures
        0 <= digits_val(s) < spec_pow10(s.len()),
    decreases s.len(),
{
    if s.len() == 0 {
    } else {
        assert(all_digits(s.drop_last()));
        lemma_digits_val_bound(s.drop_last());
        assert(digits_val(s.drop_last()) <= spec_pow10((s.len() - 1) as nat) - 1);
        assert((spec_pow10((s.len() - 1) as nat) - 1) * 10 <= spec_pow10(s.len()) - 10) by {
            lemma_pow10_add(1, (s.len() - 1) as nat);
        }
        assert(digits_val(s.drop_last()) * 10 <= (spec_pow10((s.len() - 1) as nat) - 1) * 10)
            by (nonlinear_arith)
            requires
                digits_val(s.drop_last()) <= spec_pow10((s.len() - 1) as nat) - 1,
                digits_val(s.drop_last()) >= 0,
        ;
    }
}

/// The value of a digit string only grows when more digits follow.
pub proof fn lemma_digits_val_prefix(s: Seq<u8>, k: int)
    requires
        all_digits(s),
        0 <= k <= s.len(),
    ensures
        digits_val(s.take(k)) <= digits_val(s),
    decreases s.len() - k,
{
    if k == s.len() {
        assert(s.take(k) =~= s);
    } else {
        lemma_digits_val_prefix(s, k + 1);
        assert(s.take(k + 1).drop_last() =~= s.take(k));
        assert(s.take(k + 1).last() == s[k]);
        assert(all_digits(s.take(k)));
        lemma_digits_val_nonneg(s.take(k));
        assert(digits_val(s.take(k)) * 10 >= digits_val(s.take(k))) by (nonlinear_arith)
            requires
                digits_val(s.take(k)) >= 0,
        ;
    }
}

/// A run of `k` ASCII zeros.
pub open spec fn zeros(k: nat) -> Seq<u8> {
    Seq::new(k, |i: int| ascii::D0)
}

pub proof fn lemma_digits_val_append_zeros(s: Seq<u8>, k: nat)
    ensures
        digits_val(s + zeros(k)) == digits_val(s) * spec_pow10(k),
    decreases k,
{
    if k == 0 {
        assert(s + zeros(0) =~= s);
    } else {
        lemma_digits_val_append_zeros(s, (k - 1) as nat);
        let t = s + zeros(k);
        assert(t.drop_last() =~= s + zeros((k - 1) as nat));
        assert(t.last() == ascii::D0);
        assert(digits_val(t) == digits_val(s) * spec_pow10((k - 1) as nat) * 10);
        assert(digits_val(s) * spec_pow10((k - 1) as nat) * 10 == digits_val(s) * (spec_pow10(
            (k - 1) as nat,
        ) * 10)) by (nonlinear_arith);
    }
}

pub proof fn lemma_frac9_digits(f: Seq<u8>)
    requires
        all_digits(f),
    ensures
        all_digits(frac9(f)),
        0 <= digits_val(frac9(f)) < 1_000_000_000,
{
    if f.len() >= 9 {
        assert(frac9(f) =~= f.take(9));
        assert(all_digits(frac9(f)));
    } else {
        let t = f + zeros((9 - f.len()) as nat);
        assert forall|i: int| 0 <= i < t.len() implies is_digit(t[i]) by {
            if i >= f.len() {
                assert(t[i] == ascii::D0);
            }
        }
        assert(frac9(f) == t);
    }
    lemma_digits_val_bound(frac9(f));
    lemma_pow10_values();
    assert(frac9(f).len() == 9);
}

/// Leading zeros do not change the value of a digit string.
pub proof fn lemma_digits_val_leading_zero(s: Seq<u8>)
    ensures
        digits_val(seq![ascii::D0] + s) == digits_val(s),
    decreases s.len(),
{
    if s.len() == 0 {
        let t = seq![ascii::D0] + s;
        assert(t =~= seq![ascii::D0]);
        assert(t.drop_last() =~= Seq::<u8>::empty());
        assert(digits_val(Seq::<u8>::empty()) == 0);
        assert(t.last() == ascii::D0);
        assert(digits_val(t) == 0);
    } else {
        lemma_digits_val_leading_zero(s.drop_last());
        let t = seq![ascii::D0] + s;
        assert(t.drop_last() =~= seq![ascii::D0] + s.drop_last());
        assert(t.last() == s.last());
    }
}

// ---------------------------------------------------------------------------
// Parsing: plain decimal text to a signed count of nanos.
// ---------------------------------------------------------------------------
/// Index of the first `.` in `s`, or `s.len()` if there is none.
pub open spec fn first_dot(s: Seq<u8>) -> int
    decreases s.len(),
{
    if s.len() == 0 {
        0
    } else if s[0] == ascii::DOT {
        0
    } else {
        1 + first_dot(s.skip(1))
    }
}

pub proof fn lemma_first_dot(s: Seq<u8>)
    ensures
        0 <= first_dot(s) <= s.len(),
        first_dot(s) < s.len() ==> s[first_dot(s)] == ascii::DOT,
        forall|j: int| 0 <= j < first_dot(s) ==> s[j] != ascii::DOT,
    decreases s.len(),
{
    if s.len() == 0 {
    } else if s[0] == ascii::DOT {
    } else {
        lemma_first_dot(s.skip(1));
        assert forall|j: int| 0 <= j < first_dot(s) implies s[j] != ascii::DOT by {
            if j > 0 {
                assert(s.skip(1)[j - 1] == s[j]);
            }
        }
        if first_dot(s) < s.len() {
            assert(s.skip(1)[first_dot(s.skip(1))] == s[first_dot(s)]);
        }
    }
}

/// If the bytes before `m` hold no dot and `s[m]` is one, `m` is the first.
pub proof fn lemma_first_dot_unique(s: Seq<u8>, m: int)
    requires
        0 <= m < s.len(),
        s[m] == ascii::DOT,
        forall|j: int| 0 <= j < m ==> s[j] != ascii::DOT,
    ensures
        first_dot(s) == m,
{
    lemma_first_dot(s);
}

/// `s` opens with an explicit sign byte.
pub open spec fn has_sign(s: Seq<u8>) -> bool {
    s.len() > 0 && (s[0] == ascii::MINUS || s[0] == ascii::PLUS)
}

/// `s` denotes a negative number.
pub open spec fn is_negative(s: Seq<u8>) -> bool {
    s.len() > 0 && s[0] == ascii::MINUS
}

/// `s` without its sign byte, if any.
pub open spec fn unsigned_part(s: Seq<u8>) -> Seq<u8> {
    if has_sign(s) {
        s.skip(1)
    } else {
        s
    }
}

/// The digits before the dot of an unsigned decimal string.
pub open spec fn int_digits(u: Seq<u8>) -> Seq<u8> {
    u.take(first_dot(u))
}

/// The digits after the dot of an unsigned decimal string.
pub open spec fn frac_digits(u: Seq<u8>) -> Seq<u8> {
    if first_dot(u) == u.len() {
        Seq::<u8>::empty()
    } else {
        u.skip(first_dot(u) + 1)
    }
}

/// The fractional digits brought to exactly nine places (nano resolution):
/// padded with zeros, or cut after the ninth place.
pub open spec fn frac9(f: Seq<u8>) -> Seq<u8> {
    if f.len() >= 9 {
        f.take(9)
    } else {
        f + zeros((9 - f.len()) as nat)
    }
}

/// An unsigned decimal string: digits, optionally one dot somewhere among
/// them, and at least one digit in all.
pub open spec fn valid_decimal(u: Seq<u8>) -> bool {
    &&& all_digits(int_digits(u))
    &&& all_digits(frac_digits(u))
    &&& int_digits(u).len() + frac_digits(u).len() >= 1
}

/// The value of an unsigned decimal string, in nanos.
pub open spec fn decimal_nanos(u: Seq<u8>) -> int {
    digits_val(int_digits(u)) * 1_000_000_000 + digits_val(frac9(frac_digits(u)))
}

/// What decimal text denotes: `Some` count of nanos, or `None` where the
/// text is not a plain signed decimal number.  Fractional digits beyond the
/// ninth place are below the tolerance and are dropped.
pub open spec fn spec_parse_decimal(s: Seq<u8>) -> Option<int> {
    if valid_decimal(unsigned_part(s)) {
        if is_negative(s) {
            Some(-decimal_nanos(unsigned_part(s)))
        } else {
            Some(decimal_nanos(unsigned_part(s)))
        }
    } else {
        None
    }
}

/// Ten to the `k`, executable.
pub fn pow10_u64(k: usize) -> (r: u64)
    requires
        k <= 9,
    ensures
        r == spec_pow10(k as nat),
{
    let mut r: u64 = 1;
    let mut i: usize = 0;
    while i < k
        invariant
            i <= k <= 9,
            r == spec_pow10(i as nat),
            r <= 1_000_000_000,
        decreases k - i,
    {
        proof {
            lemma_pow10_pos(i as nat);
            lemma_pow10_add(i as nat, (9 - i) as nat);
            lemma_pow10_pos((9 - i - 1) as nat);
            lemma_pow10_values();
            assert(spec_pow10((i + 1) as nat) * spec_pow10((9 - i - 1) as nat) == spec_pow10(9))
                by {
                lemma_pow10_add((i + 1) as nat, (9 - i - 1) as nat);
            }
            assert(spec_pow10((i + 1) as nat) <= spec_pow10(9)) by (nonlinear_arith)
                requires
                    spec_pow10((i + 1) as nat) * spec_pow10((9 - i - 1) as nat) == spec_pow10(9),
                    spec_pow10((9 - i - 1) as nat) >= 1,
                    spec_pow10((i + 1) as nat) >= 1,
            ;
        }
        r = r * 10;
        i = i + 1;
    }
    r
}

/// Parse plain signed decimal text into a count of nanos.  Returns `None`
/// where the text is not a decimal number or its value does not fit.
#[verifier::loop_isolation(false)]
#[verifier::rlimit(100)]
pub fn parse_decimal(s: &Vec<u8>) -> (r: Option<i64>)
    ensures
        (match r {
            Some(n) => spec_parse_decimal(s@) == Some(n as int),
            None => (match spec_parse_decimal(s@) {
                Some(v) => v > i64::MAX || v < -(i64::MAX as int),
                None => true,
            }),
        }),
{
    let len: usize = s.len();
    let mut off: usize = 0;
    let mut neg = false;
    if len > 0 && (s[0] == ascii::MINUS || s[0] == ascii::PLUS) {
        neg = s[0] == ascii::MINUS;
        off = 1;
    }
    let ghost u = unsigned_part(s@);
    proof {
        assert(u =~= s@.skip(off as int));
        assert(neg == is_negative(s@));
    }
    // Integer part.
    let mut j: usize = off;
    let mut acc: u64 = 0;
    while j < len && s[j] >= ascii::D0 && s[j] <= ascii::D9
        invariant
            off <= j <= len == s@.len(),
            off <= 1,
            u == s@.skip(off as int),
            forall|k: int| off <= k < j ==> is_digit(s@[k]),
            acc == digits_val(s@.subrange(off as int, j as int)),
            acc < 100_000_000_000_000,
        decreases len - j,
    {
        let d: u64 = (s[j] - ascii::D0) as u64;
        proof {
            let p = s@.subrange(off as int, j as int);
            let q = s@.subrange(off as int, j + 1 as int);
            assert(q.drop_last() =~= p);
            assert(q.last() == s@[j as int]);
        }
        acc = acc * 10 + d;
        j = j + 1;
        if acc >= 10_000_000_000_000 {
            // Whatever follows, the value cannot fit: the digits already
            // seen put it beyond the representable range.
            proof {
                if valid_decimal(u) {
                    let pre = s@.subrange(off as int, j as int);
                    lemma_first_dot(u);
                    assert forall|k: int| 0 <= k < j - off implies u[k] != ascii::DOT by {
                        assert(u[k] == s@[k + off]);
                    }
                    assert(first_dot(u) >= j - off) by {
                        if first_dot(u) < j - off {
                            assert(u[first_dot(u)] == ascii::DOT);
                        }
                    }
                    assert(pre =~= int_digits(u).take(j - off));
                    lemma_digits_val_prefix(int_digits(u), j - off);
                    lemma_frac9_digits(frac_digits(u));
                    assert(digits_val(pre) == acc);
                    assert(digits_val(int_digits(u)) >= 10_000_000_000_000);
                    assert(digits_val(int_digits(u)) * 1_000_000_000 >= 10_000_000_000_000
                        * 1_000_000_000) by (nonlinear_arith)
                        requires
                            digits_val(int_digits(u)) >= 10_000_000_000_000,
                    ;
                    assert(decimal_nanos(u) > i64::MAX);
                    assert(spec_parse_decimal(s@) == Some(
                        if is_negative(s@) {
                            -decimal_nanos(u)
                        } else {
                            decimal_nanos(u)
                        },
                    ));
                }
            }
            return None;
        }
    }
    let ghost idigits = s@.subrange(off as int, j as int);
    proof {
        assert forall|k: int| 0 <= k < j - off implies u[k] == s@[k + off] && is_digit(u[k]) by {}
        assert(idigits =~= u.take(j - off));
    }
    if j == len {
        // No fractional part.
        proof {
            lemma_first_dot(u);
            if first_dot(u) < u.len() {
                assert(u[first_dot(u)] == ascii::DOT);
                assert(is_digit(u[first_dot(u)]));
            }
            assert(first_dot(u) == u.len());
            assert(int_digits(u) =~= idigits);
            assert(frac_digits(u) =~= Seq::<u8>::empty());
        }
        if j == off {
            // No digits at all.
            return None;
        }
        proof {
            assert(frac9(frac_digits(u)) =~= Seq::<u8>::empty() + zeros(9));
            lemma_digits_val_append_zeros(Seq::<u8>::empty(), 9);
        }
        let v: u128 = (acc as u128) * 1_000_000_000u128;
        if v > i64::MAX as u128 {
            return None;
        }
        let n: i64 = v as i64;
        if neg {
            return Some(-n);
        } else {
            return Some(n);
        }
    }
    if s[j] != ascii::DOT {
        // A byte that is neither digit nor dot: not a number.
        proof {
            lemma_first_dot(u);
            assert(u[j - off] == s@[j as int]);
            if valid_decimal(u) {
                assert(first_dot(u) > j - off) by {
                    if first_dot(u) <= j - off {
                        if first_dot(u) < j - off {
                            assert(is_digit(u[first_dot(u)]));
                        }
                        assert(u[first_dot(u)] == ascii::DOT);
                    }
                }
                assert(int_digits(u)[j - off] == u[j - off]);
                assert(is_digit(u[j - off]));
            }
        }
        return None;
    }
    // Fractional part after the dot at `j`.
    proof {
        lemma_first_dot_unique(u, j - off);
        assert(int_digits(u) =~= idigits);
    }
    let ghost f = frac_digits(u);
    proof {
        assert(f =~= s@.subrange(j + 1 as int, len as int));
    }
    let mut k: usize = j + 1;
    let mut facc: u64 = 0;
    let mut fcnt: usize = 0;
    while k < len
        invariant
            off <= 1,
            off < j + 1 <= k <= len == s@.len(),
            u == s@.skip(off as int),
            f == frac_digits(u),
            f =~= s@.subrange(j + 1 as int, len as int),
            forall|m: int| j + 1 <= m < k ==> is_digit(s@[m]),
            fcnt == if k - (j + 1) <= 9 {
                k - (j + 1)
            } else {
                9int
            },
            facc == digits_val(f.take(fcnt as int)),
            all_digits(f.take(fcnt as int)),
            facc < 1_000_000_000,
        decreases len - k,
    {
        let b = s[k];
        if !(b >= ascii::D0 && b <= ascii::D9) {
            // A stray byte among the fractional digits: not a number.
            proof {
                if valid_decimal(u) {
                    assert(f[k - (j + 1)] == s@[k as int]);
                    assert(is_digit(f[k - (j + 1)]));
                }
            }
            return None;
        }
        if fcnt < 9 {
            proof {
                let p = f.take(fcnt as int);
                let q = f.take(fcnt + 1 as int);
                assert(q.drop_last() =~= p);
                assert(q.last() == f[fcnt as int]);
                assert(f[fcnt as int] == s@[k as int]);
                lemma_digits_val_bound(q);
                lemma_pow10_values();
                if fcnt + 1 < 9 {
                    lemma_pow10_add((fcnt + 1) as nat, (9 - fcnt - 1) as nat);
                    lemma_pow10_pos((9 - fcnt - 1) as nat);
                    assert(spec_pow10((fcnt + 1) as nat) <= spec_pow10(9)) by (nonlinear_arith)
                        requires
                            spec_pow10((fcnt + 1) as nat) * spec_pow10((9 - fcnt - 1) as nat)
                                == spec_pow10(9),
                            spec_pow10((9 - fcnt - 1) as nat) >= 1,
                            spec_pow10((fcnt + 1) as nat) >= 1,
                    ;
                }
            }
            facc = facc * 10 + (b - ascii::D0) as u64;
            fcnt = fcnt + 1;
        }
        k = k + 1;
    }
    // All fractional bytes are digits.
    proof {
        assert forall|m: int| 0 <= m < f.len() implies is_digit(f[m]) by {
            assert(f[m] == s@[m + (j + 1)]);
        }
    }
    if j == off && len == j + 1 {
        // Just a dot (with at most a sign): no digits at all.
        proof {
            assert(int_digits(u).len() == 0);
            assert(f.len() == 0);
        }
        return None;
    }
    let scale: u64 = pow10_u64(9 - fcnt);
    proof {
        lemma_digits_val_bound(f.take(fcnt as int));
        lemma_pow10_add(fcnt as nat, (9 - fcnt) as nat);
        lemma_pow10_values();
        lemma_pow10_pos(fcnt as nat);
        lemma_pow10_pos((9 - fcnt) as nat);
        assert(facc * scale <= (spec_pow10(fcnt as nat) - 1) * spec_pow10((9 - fcnt) as nat))
            by (nonlinear_arith)
            requires
                facc <= spec_pow10(fcnt as nat) - 1,
                facc >= 0,
                scale == spec_pow10((9 - fcnt) as nat),
                scale >= 1,
        ;
        assert((spec_pow10(fcnt as nat) - 1) * spec_pow10((9 - fcnt) as nat) == spec_pow10(9)
            - spec_pow10((9 - fcnt) as nat)) by (nonlinear_arith)
            requires
                spec_pow10(fcnt as nat) * spec_pow10((9 - fcnt) as nat) == spec_pow10(9),
        ;
        if f.len() >= 9 {
            assert(frac9(f) =~= f.take(9));
            assert(fcnt == 9);
            assert(scale == 1);
        } else {
            assert(fcnt == f.len());
            assert(f.take(fcnt as int) =~= f);
            assert(frac9(f) =~= f + zeros((9 - f.len()) as nat));
            lemma_digits_val_append_zeros(f, (9 - f.len()) as nat);
        }
    }
    let fval: u64 = facc * scale;
    let v: u128 = (acc as u128) * 1_000_000_000u128 + (fval as u128);
    proof {
        assert(v == decimal_nanos(u));
    }
    if v > i64::MAX as u128 {
        return None;
    }
    let n: i64 = v as i64;
    if neg {
        Some(-n)
    } else {
        Some(n)
    }
}

// ---------------------------------------------------------------------------
// Formatting: a count of nanos to fixed three-decimal text.
// ---------------------------------------------------------------------------
/// The decimal digit string of `n`, without sign or padding.
pub open spec fn spec_digits(n: nat) -> Seq<u8>
    decreases n,
{
    if n < 10 {
        seq![(ascii::D0 + n) as u8]
    } else {
        spec_digits(n / 10) + seq![(ascii::D0 + n % 10) as u8]
    }
}

pub proof fn lemma_spec_digits(n: nat)
    ensures
        spec_digits(n).len() >= 1,
        all_digits(spec_digits(n)),
        digits_val(spec_digits(n)) == n,
        n < 10 ==> spec_digits(n).len() == 1,
        n < 100 ==> spec_digits(n).len() <= 2,
        n < 1000 ==> spec_digits(n).len() <= 3,
    decreases n,
{
    if n < 10 {
        let t = spec_digits(n);
        assert(t =~= seq![(ascii::D0 + n) as u8]);
        assert(t.drop_last() =~= Seq::<u8>::empty());
        assert(digits_val(Seq::<u8>::empty()) == 0);
        assert(t.last() == (ascii::D0 + n) as u8);
        assert(digit_val((ascii::D0 + n) as u8) == n);
    } else {
        lemma_spec_digits(n / 10);
        let t = spec_digits(n);
        assert(t.drop_last() =~= spec_digits(n / 10));
        assert(t.last() == (ascii::D0 + n % 10) as u8);
        assert(digit_val((ascii::D0 + n % 10) as u8) == n % 10);
        lemma_fundamental_div_mod(n as int, 10);
    }
}

/// The digit string of `n < 1000`, padded with zeros to three places.
pub open spec fn spec_pad3(n: nat) -> Seq<u8> {
    if n < 10 {
        seq![ascii::D0, ascii::D0] + spec_digits(n)
    } else if n < 100 {
        seq![ascii::D0] + spec_digits(n)
    } else {
        spec_digits(n)
    }
}

pub proof fn lemma_spec_pad3(n: nat)
    requires
        n < 1000,
    ensures
        spec_pad3(n).len() == 3,
        all_digits(spec_pad3(n)),
        digits_val(spec_pad3(n)) == n,
{
    lemma_spec_digits(n);
    if n < 10 {
        lemma_digits_val_leading_zero(spec_digits(n));
        lemma_digits_val_leading_zero(seq![ascii::D0] + spec_digits(n));
        assert(seq![ascii::D0, ascii::D0] + spec_digits(n) =~= seq![ascii::D0] + (seq![ascii::D0] + spec_digits(n)));
    } else if n < 100 {
        lemma_digits_val_leading_zero(spec_digits(n));
        assert(spec_digits(n).len() == 2) by {
            if spec_digits(n).len() == 1 {
                lemma_digits_val_bound(spec_digits(n));
                lemma_pow10_values();
            }
        }
    } else {
        assert(spec_digits(n).len() == 3) by {
            if spec_digits(n).len() <= 2 {
                lemma_digits_val_bound(spec_digits(n));
                lemma_pow10_add(spec_digits(n).len(), (2 - spec_digits(n).len()) as nat);
                lemma_pow10_pos((2 - spec_digits(n).len()) as nat);
                lemma_pow10_values();
                assert(spec_pow10(spec_digits(n).len()) <= 100) by (nonlinear_arith)
                    requires
                        spec_pow10(spec_digits(n).len()) * spec_pow10(
                            (2 - spec_digits(n).len()) as nat,
                        ) == spec_pow10(2),
                        spec_pow10((2 - spec_digits(n).len()) as nat) >= 1,
                        spec_pow10(spec_digits(n).len()) >= 1,
                        spec_pow10(2) == 100,
                ;
            }
        }
    }
}

/// Milli count nearest to a magnitude in nanos; ties go to the even count,
/// as fixed-precision decimal printing does.
pub open spec fn round_nanos_to_milli(a: nat) -> nat {
    let q: nat = a / 1_000_000;
    let r: nat = a % 1_000_000;
    if r > 500_000 {
        q + 1
    } else if r < 500_000 {
        q
    } else if q % 2 == 0 {
        q
    } else {
        q + 1
    }
}

/// Fixed three-decimal text for a sign and a magnitude in millis.
pub open spec fn spec_format_milli(neg: bool, m: nat) -> Seq<u8> {
    (if neg {
        seq![ascii::MINUS]
    } else {
        Seq::<u8>::empty()
    }) + spec_digits(m / 1000) + seq![ascii::DOT] + spec_pad3(m % 1000)
}

/// Magnitude of a signed count of nanos.
pub open spec fn spec_abs_nanos(n: int) -> nat {
    if n < 0 {
        (-n) as nat
    } else {
        n as nat
    }
}

/// The three-decimal text a value is written as on the wire.
pub open spec fn spec_format_value(n: int) -> Seq<u8> {
    spec_format_milli(n < 0, round_nanos_to_milli(spec_abs_nanos(n)))
}

/// Digit string of `n`, executable.
fn digits_u64(n: u64) -> (r: Vec<u8>)
    ensures
        r@ == spec_digits(n as nat),
    decreases n,
{
    if n < 10 {
        let mut v: Vec<u8> = Vec::new();
        v.push(ascii::D0 + n as u8);
        proof {
            assert(v@ =~= spec_digits(n as nat));
        }
        v
    } else {
        let mut v = digits_u64(n / 10);
        v.push(ascii::D0 + (n % 10) as u8);
        proof {
            assert(v@ =~= spec_digits(n as nat));
        }
        v
    }
}

/// Write a count of nanos as fixed three-decimal text, rounding to the
/// nearest milli with ties to even.
pub fn format_nanos(nanos: i64) -> (r: Vec<u8>)
    ensures
        r@ == spec_format_value(nanos as int),
{
    let neg = nanos < 0;
    let a: u64 = if nanos == i64::MIN {
        9_223_372_036_854_775_808u64
    } else if nanos < 0 {
        (-nanos) as u64
    } else {
        nanos as u64
    };
    proof {
        assert(a == spec_abs_nanos(nanos as int));
    }
    let q: u64 = a / 1_000_000;
    let rem: u64 = a % 1_000_000;
    let m: u64 = if rem > 500_000 {
        q + 1
    } else if rem < 500_000 {
        q
    } else if q % 2 == 0 {
        q
    } else {
        q + 1
    };
    proof {
        assert(m == round_nanos_to_milli(a as nat));
    }
    let mut out: Vec<u8> = Vec::new();
    if neg {
        out.push(ascii::MINUS);
    }
    let mut ds = digits_u64(m / 1000);
    out.append(&mut ds);
    out.push(ascii::DOT);
    let f: u64 = m % 1000;
    if f < 10 {
        out.push(ascii::D0);
        out.push(ascii::D0);
    } else if f < 100 {
        out.push(ascii::D0);
    }
    let mut fs = digits_u64(f);
    out.append(&mut fs);
    proof {
        assert(out@ =~= spec_format_value(nanos as int));
    }
    out
}

/// Formatted text read back as a number: millis come through exactly,
/// scaled to nanos.
pub proof fn lemma_parse_format_milli(neg: bool, m: nat)
    ensures
        spec_parse_decimal(spec_format_milli(neg, m)) == Some(
            if neg {
                -(m * 1_000_000)
            } else {
                m * 1_000_000int
            },
        ),
{
    let d = spec_digits(m / 1000);
    let p = spec_pad3(m % 1000);
    lemma_spec_digits(m / 1000);
    lemma_spec_pad3(m % 1000);
    let body = d + seq![ascii::DOT] + p;
    let s = spec_format_milli(neg, m);
    assert(s == (if neg {
        seq![ascii::MINUS]
    } else {
        Seq::<u8>::empty()
    }) + d + seq![ascii::DOT] + p);
    // The unsigned part of the formatted text is digits, dot, digits.
    assert(unsigned_part(s) =~= body) by {
        if neg {
            assert(s[0] == ascii::MINUS);
        } else {
            assert(s =~= body);
            assert(s[0] == d[0]);
            assert(is_digit(d[0]));
        }
    }
    assert(is_negative(s) == neg) by {
        if neg {
            assert(s[0] == ascii::MINUS);
        } else {
            assert(s[0] == d[0]);
            assert(is_digit(d[0]));
        }
    }
    // The dot stands right after the integer digits.
    assert forall|k: int| 0 <= k < d.len() implies body[k] != ascii::DOT by {
        assert(body[k] == d[k]);
        assert(is_digit(d[k]));
    }
    assert(body[d.len() as int] == ascii::DOT);
    lemma_first_dot_unique(body, d.len() as int);
    assert(int_digits(body) =~= d);
    assert(frac_digits(body) =~= p);
    assert(valid_decimal(body));
    // Value: integer digits in nanos plus fractional digits scaled to nanos.
    assert(frac9(p) =~= p + zeros(6));
    lemma_digits_val_append_zeros(p, 6);
    lemma_pow10_values();
    assert(decimal_nanos(body) == (m / 1000) * 1_000_000_000 + (m % 1000) * 1_000_000);
    lemma_fundamental_div_mod(m as int, 1000);
    assert((m / 1000) * 1_000_000_000 + (m % 1000) * 1_000_000 == ((m / 1000) * 1000 + (m % 1000))
        * 1_000_000) by (nonlinear_arith);
}

} // verus!

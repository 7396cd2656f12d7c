//! Reply text handling: trailing unit and line-end stripping, whitespace
//! trimming, and token search, all over raw ASCII bytes.

use crate::ascii;
use vstd::prelude::*;

verus! {

/// A byte that measurement parsing strips from the end of a reply: the
/// quantity's unit letter, or a line end.
pub open spec fn is_strippable(b: u8, unit: u8) -> bool {
    b == unit || b == ascii::LF || b == ascii::CR
}

/// ASCII whitespace.
pub open spec fn is_space(b: u8) -> bool {
    b == ascii::SPACE || b == ascii::TAB || b == ascii::LF || b == ascii::CR || b == ascii::VT
        || b == ascii::FF
}

/// `s` with every trailing unit letter and line end removed.
pub open spec fn spec_strip_trailing(s: Seq<u8>, unit: u8) -> Seq<u8>
    decreases s.len(),
{
    if s.len() > 0 && is_strippable(s.last(), unit) {
        spec_strip_trailing(s.drop_last(), unit)
    } else {
        s
    }
}

/// `s` with trailing whitespace removed.
pub open spec fn spec_trim_end(s: Seq<u8>) -> Seq<u8>
    decreases s.len(),
{
    if s.len() > 0 && is_space(s.last()) {
        spec_trim_end(s.drop_last())
    } else {
        s
    }
}

/// `s` with leading whitespace removed.
pub open spec fn spec_trim_start(s: Seq<u8>) -> Seq<u8>
    decreases s.len(),
{
    if s.len() > 0 && is_space(s[0]) {
        spec_trim_start(s.skip(1))
    } else {
        s
    }
}

/// A measurement reply made ready for number parsing: trailing unit letters
/// and line ends stripped, then whitespace trimmed on both sides.
pub open spec fn spec_clean(s: Seq<u8>, unit: u8) -> Seq<u8> {
    spec_trim_start(spec_trim_end(spec_strip_trailing(s, unit)))
}

/// `s` with every trailing line feed removed, and nothing else.
pub open spec fn spec_strip_newlines(s: Seq<u8>) -> Seq<u8>
    decreases s.len(),
{
    if s.len() > 0 && s.last() == ascii::LF {
        spec_strip_newlines(s.drop_last())
    } else {
        s
    }
}

/// The token `p` stands in `s` at position `i`.
pub open spec fn contains_at(s: Seq<u8>, p: Seq<u8>, i: int) -> bool {
    0 <= i && i + p.len() <= s.len() && s.subrange(i, i + p.len()) == p
}

/// The token `p` stands somewhere in `s`.
pub open spec fn spec_contains(s: Seq<u8>, p: Seq<u8>) -> bool {
    exists|i: int| contains_at(s, p, i)
}

/// Clean a measurement reply: strip trailing unit letters and line ends,
/// then trim whitespace from both sides.
#[verifier::loop_isolation(false)]
pub fn clean_reply(s: &Vec<u8>, unit: u8) -> (r: Vec<u8>)
    ensures
        r@ == spec_clean(s@, unit),
{
    let mut end: usize = s.len();
    proof {
        assert(s@.take(s@.len() as int) =~= s@);
    }
    while end > 0 && (s[end - 1] == unit || s[end - 1] == ascii::LF || s[end - 1] == ascii::CR)
        invariant
            end <= s@.len(),
            spec_strip_trailing(s@, unit) == spec_strip_trailing(s@.take(end as int), unit),
        decreases end,
    {
        proof {
            let t = s@.take(end as int);
            assert(t.last() == s@[end - 1]);
            assert(t.drop_last() =~= s@.take(end - 1));
        }
        end = end - 1;
    }
    proof {
        assert(s@.take(s@.len() as int) =~= s@);
        let t = s@.take(end as int);
        if end > 0 {
            assert(t.last() == s@[end - 1]);
        }
        assert(spec_strip_trailing(s@, unit) == t);
    }
    let ghost stripped = s@.take(end as int);
    while end > 0 && (s[end - 1] == ascii::SPACE || s[end - 1] == ascii::TAB || s[end - 1]
        == ascii::LF || s[end - 1] == ascii::CR || s[end - 1] == ascii::VT || s[end - 1]
        == ascii::FF)
        invariant
            end <= s@.len(),
            s@.take(end as int).len() <= stripped.len(),
            spec_trim_end(stripped) == spec_trim_end(s@.take(end as int)),
        decreases end,
    {
        proof {
            let t = s@.take(end as int);
            assert(t.last() == s@[end - 1]);
            assert(t.drop_last() =~= s@.take(end - 1));
        }
        end = end - 1;
    }
    proof {
        let t = s@.take(end as int);
        if end > 0 {
            assert(t.last() == s@[end - 1]);
        }
        assert(spec_trim_end(stripped) == t);
    }
    let ghost trimmed_end = s@.take(end as int);
    let mut start: usize = 0;
    while start < end && (s[start] == ascii::SPACE || s[start] == ascii::TAB || s[start]
        == ascii::LF || s[start] == ascii::CR || s[start] == ascii::VT || s[start] == ascii::FF)
        invariant
            start <= end,
            spec_trim_start(trimmed_end) == spec_trim_start(s@.subrange(start as int, end as int)),
        decreases end - start,
    {
        proof {
            let t = s@.subrange(start as int, end as int);
            assert(t[0] == s@[start as int]);
            assert(t.skip(1) =~= s@.subrange(start + 1, end as int));
        }
        start = start + 1;
    }
    proof {
        assert(trimmed_end =~= s@.subrange(0, end as int));
        let t = s@.subrange(start as int, end as int);
        if start < end {
            assert(t[0] == s@[start as int]);
        }
        assert(spec_trim_start(trimmed_end) == t);
    }
    let mut r: Vec<u8> = Vec::new();
    let mut i: usize = start;
    while i < end
        invariant
            start <= i <= end <= s@.len(),
            r@ == s@.subrange(start as int, i as int),
        decreases end - i,
    {
        r.push(s[i]);
        proof {
            assert(s@.subrange(start as int, i + 1) =~= s@.subrange(start as int, i as int).push(
                s@[i as int],
            ));
        }
        i = i + 1;
    }
    proof {
        assert(r@ == spec_clean(s@, unit));
    }
    r
}

/// Strip every trailing line feed from a reply, keeping the rest as it is.
#[verifier::loop_isolation(false)]
pub fn strip_newlines(s: &Vec<u8>) -> (r: Vec<u8>)
    ensures
        r@ == spec_strip_newlines(s@),
{
    let mut end: usize = s.len();
    proof {
        assert(s@.take(s@.len() as int) =~= s@);
    }
    while end > 0 && s[end - 1] == ascii::LF
        invariant
            end <= s@.len(),
            spec_strip_newlines(s@) == spec_strip_newlines(s@.take(end as int)),
        decreases end,
    {
        proof {
            let t = s@.take(end as int);
            assert(t.last() == s@[end - 1]);
            assert(t.drop_last() =~= s@.take(end - 1));
        }
        end = end - 1;
    }
    proof {
        assert(s@.take(s@.len() as int) =~= s@);
        let t = s@.take(end as int);
        if end > 0 {
            assert(t.last() == s@[end - 1]);
        }
        assert(spec_strip_newlines(s@) == t);
    }
    let mut r: Vec<u8> = Vec::new();
    let mut i: usize = 0;
    while i < end
        invariant
            i <= end <= s@.len(),
            r@ == s@.subrange(0, i as int),
        decreases end - i,
    {
        r.push(s[i]);
        proof {
            assert(s@.subrange(0, i + 1) =~= s@.subrange(0, i as int).push(s@[i as int]));
        }
        i = i + 1;
    }
    proof {
        assert(r@ =~= s@.take(end as int));
    }
    r
}

/// Whether the token `p` stands somewhere in `s`.
#[verifier::loop_isolation(false)]
pub fn contains_token(s: &Vec<u8>, p: &Vec<u8>) -> (r: bool)
    ensures
        r == spec_contains(s@, p@),
{
    if p.len() > s.len() {
        return false;
    }
    let mut i: usize = 0;
    while i <= s.len() - p.len()
        invariant
            i <= s.len() - p.len() + 1,
            forall|t: int| 0 <= t < i ==> !contains_at(s@, p@, t),
        decreases s.len() - i,
    {
        let mut j: usize = 0;
        while j < p.len() && s[i + j] == p[j]
            invariant
                j <= p.len(),
                i <= s.len() - p.len(),
                forall|t: int| 0 <= t < j ==> s@[i + t] == p@[t],
            decreases p.len() - j,
        {
            j = j + 1;
        }
        if j == p.len() {
            proof {
                assert(s@.subrange(i as int, i + p.len()) =~= p@);
                assert(contains_at(s@, p@, i as int));
            }
            return true;
        }
        proof {
            assert(!contains_at(s@, p@, i as int)) by {
                if contains_at(s@, p@, i as int) {
                    assert(s@.subrange(i as int, i + p.len())[j as int] == p@[j as int]);
                }
            }
        }
        i = i + 1;
    }
    proof {
        assert forall|t: int| contains_at(s@, p@, t) implies false by {
            assert(t < i);
        }
    }
    false
}

// ---------------------------------------------------------------------------
// How cleaning behaves: absorption of protocol suffixes, and idempotence
// wherever a reply survives cleaning as a plain decimal.
// ---------------------------------------------------------------------------
/// Appending nothing but unit letters and line ends to a reply changes
/// nothing about what stripping leaves.
pub proof fn lemma_strip_absorbs(x: Seq<u8>, w: Seq<u8>, unit: u8)
    requires
        forall|i: int| 0 <= i < w.len() ==> is_strippable(w[i], unit),
    ensures
        spec_strip_trailing(x + w, unit) == spec_strip_trailing(x, unit),
    decreases w.len(),
{
    if w.len() == 0 {
        assert(x + w =~= x);
    } else {
        let t = x + w;
        assert(t.last() == w.last());
        assert(is_strippable(w.last(), unit));
        assert(t.drop_last() =~= x + w.drop_last());
        assert(forall|i: int| 0 <= i < w.drop_last().len() ==> is_strippable(
            #[trigger] w.drop_last()[i],
            unit,
        ));
        lemma_strip_absorbs(x, w.drop_last(), unit);
    }
}

/// Stripping and trimming leave a byte string that holds none of the
/// stripped bytes untouched.
pub proof fn lemma_clean_plain(t: Seq<u8>, unit: u8)
    requires
        forall|i: int| 0 <= i < t.len() ==> !is_strippable(#[trigger] t[i], unit) && !is_space(
            t[i],
        ),
    ensures
        spec_clean(t, unit) == t,
{
    if t.len() > 0 {
        assert(!is_strippable(t.last(), unit));
        assert(!is_space(t.last()));
        assert(!is_space(t[0]));
    }
    assert(spec_strip_trailing(t, unit) == t);
    assert(spec_trim_end(t) == t);
    assert(spec_trim_start(t) == t);
}

} // verus!

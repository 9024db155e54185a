//! Byte-level text helpers: splitting on a delimiter and trimming
//! whitespace, each proved against a mathematical description.
//!
//! The import file format is delimiter based, so the parser is built on a
//! single splitting primitive: `split_on` cuts a byte string at the
//! leftmost-first, non-overlapping occurrences of a delimiter, exactly as
//! `split_spec` describes.

use vstd::prelude::*;

verus! {

/// The delimiter `d` occurs in `s` at position `i`.
pub open spec fn occurs_at(s: Seq<u8>, d: Seq<u8>, i: int) -> bool {
    0 <= i && i + d.len() <= s.len() && s.subrange(i, i + d.len() as int) == d
}

/// `i` is the leftmost position at which `d` occurs in `s`.
pub open spec fn is_first_occurrence(s: Seq<u8>, d: Seq<u8>, i: int) -> bool {
    occurs_at(s, d, i) && forall|j: int| 0 <= j < i ==> !occurs_at(s, d, j)
}

/// Splitting `s` on the delimiter `d`: the pieces between the
/// leftmost-first, non-overlapping occurrences of `d`. A string without an
/// occurrence is a single piece, so the result is never empty.
pub open spec fn split_spec(s: Seq<u8>, d: Seq<u8>) -> Seq<Seq<u8>>
    decreases s.len()
        when d.len() >= 1
{
    if exists|i: int| is_first_occurrence(s, d, i) {
        let i = choose|i: int| is_first_occurrence(s, d, i);
        seq![s.subrange(0, i)] + split_spec(s.subrange(i + d.len() as int, s.len() as int), d)
    } else {
        seq![s]
    }
}

/// A string has at most one leftmost occurrence of `d`.
pub proof fn lemma_first_occurrence_unique(s: Seq<u8>, d: Seq<u8>, a: int, b: int)
    requires
        is_first_occurrence(s, d, a),
        is_first_occurrence(s, d, b),
    ensures
        a == b,
{
    if a < b {
        assert(!occurs_at(s, d, a));
    }
    if b < a {
        assert(!occurs_at(s, d, b));
    }
}

/// Unfolds `split_spec` at a known leftmost occurrence.
pub proof fn lemma_split_spec_step(s: Seq<u8>, d: Seq<u8>, i: int)
    requires
        d.len() >= 1,
        is_first_occurrence(s, d, i),
    ensures
        split_spec(s, d) == seq![s.subrange(0, i)] + split_spec(
            s.subrange(i + d.len() as int, s.len() as int),
            d,
        ),
{
    let k = choose|k: int| is_first_occurrence(s, d, k);
    lemma_first_occurrence_unique(s, d, i, k);
}

/// Unfolds `split_spec` on a string without any occurrence of `d`.
pub proof fn lemma_split_spec_none(s: Seq<u8>, d: Seq<u8>)
    requires
        d.len() >= 1,
        forall|j: int| !occurs_at(s, d, j),
    ensures
        split_spec(s, d) == seq![s],
{
    assert(!exists|i: int| is_first_occurrence(s, d, i));
}

/// A split always yields at least one piece.
pub proof fn lemma_split_spec_nonempty(s: Seq<u8>, d: Seq<u8>)
    requires
        d.len() >= 1,
    ensures
        split_spec(s, d).len() >= 1,
{
    if exists|i: int| is_first_occurrence(s, d, i) {
    } else {
    }
}

/// The views of a sequence of byte vectors.
pub open spec fn views_of(parts: Seq<Vec<u8>>) -> Seq<Seq<u8>> {
    parts.map_values(|p: Vec<u8>| p@)
}

pub proof fn lemma_views_of_push(parts: Seq<Vec<u8>>, p: Vec<u8>)
    ensures
        views_of(parts.push(p)) == views_of(parts).push(p@),
{
    assert(views_of(parts.push(p)) =~= views_of(parts).push(p@));
}

/// Copies the bytes of `v` at positions `a..b` into a fresh vector.
pub fn copy_range(v: &Vec<u8>, a: usize, b: usize) -> (r: Vec<u8>)
    requires
        a <= b,
        b <= v@.len(),
    ensures
        r@ == v@.subrange(a as int, b as int),
{
    let mut r: Vec<u8> = Vec::new();
    let mut i: usize = a;
    while i < b
        invariant
            a <= i <= b,
            b <= v@.len(),
            r@ == v@.subrange(a as int, i as int),
        decreases b - i,
    {
        r.push(v[i]);
        proof {
            assert(v@.subrange(a as int, (i + 1) as int) =~= v@.subrange(a as int, i as int).push(
                v@[i as int],
            ));
        }
        i = i + 1;
    }
    r
}

/// Does `d` occur in `s` at position `i`?
fn matches_at(s: &Vec<u8>, d: &Vec<u8>, i: usize) -> (r: bool)
    requires
        i + d@.len() <= s@.len(),
    ensures
        r == occurs_at(s@, d@, i as int),
{
    let total = s.len();
    let mut j: usize = 0;
    while j < d.len()
        invariant
            j <= d@.len(),
            i + d@.len() <= s@.len(),
            total == s@.len(),
            forall|k: int| 0 <= k < j ==> s@[i + k] == d@[k],
        decreases d@.len() - j,
    {
        proof {
            assert(i + j < s@.len());
        }
        if s[i + j] != d[j] {
            proof {
                if occurs_at(s@, d@, i as int) {
                    assert(s@.subrange(i as int, i + d@.len() as int)[j as int] == s@[i + j]);
                }
            }
            return false;
        }
        j = j + 1;
    }
    proof {
        assert(s@.subrange(i as int, i + d@.len() as int) =~= d@);
    }
    true
}

/// Finds the leftmost occurrence of `d` in `s`, if there is one.
pub fn find_first(s: &Vec<u8>, d: &Vec<u8>) -> (r: Option<usize>)
    requires
        d@.len() >= 1,
    ensures
        match r {
            Some(i) => is_first_occurrence(s@, d@, i as int),
            None => forall|j: int| !occurs_at(s@, d@, j),
        },
{
    if d.len() > s.len() {
        return None;
    }
    let last = s.len() - d.len();
    let mut i: usize = 0;
    while i <= last
        invariant
            d@.len() >= 1,
            d@.len() <= s@.len(),
            s@.len() <= usize::MAX,
            last == s@.len() - d@.len(),
            i <= last + 1,
            forall|j: int| 0 <= j < i ==> !occurs_at(s@, d@, j),
        decreases last + 1 - i,
    {
        if matches_at(s, d, i) {
            return Some(i);
        }
        i = i + 1;
    }
    proof {
        assert forall|j: int| !occurs_at(s@, d@, j) by {
            if 0 <= j <= last {
                assert(!occurs_at(s@, d@, j));
            }
        }
    }
    None
}

/// Splits `s` on the delimiter `d`, exactly as `split_spec` describes.
pub fn split_on(s: &Vec<u8>, d: &Vec<u8>) -> (r: Vec<Vec<u8>>)
    requires
        d@.len() >= 1,
    ensures
        views_of(r@) == split_spec(s@, d@),
{
    let mut parts: Vec<Vec<u8>> = Vec::new();
    let mut rest: Vec<u8> = copy_range(s, 0, s.len());
    proof {
        assert(s@.subrange(0, s@.len() as int) =~= s@);
        assert(views_of(parts@) + split_spec(rest@, d@) =~= split_spec(s@, d@));
    }
    loop
        invariant
            d@.len() >= 1,
            split_spec(s@, d@) == views_of(parts@) + split_spec(rest@, d@),
        decreases rest@.len(),
    {
        let ghost old_parts = parts@;
        let ghost old_rest = rest@;
        match find_first(&rest, d) {
            Some(i) => {
                let rlen = rest.len();
                proof {
                    assert(i + d@.len() <= rest@.len());
                }
                let part = copy_range(&rest, 0, i);
                let new_rest = copy_range(&rest, i + d.len(), rlen);
                proof {
                    lemma_split_spec_step(old_rest, d@, i as int);
                }
                parts.push(part);
                rest = new_rest;
                proof {
                    lemma_views_of_push(old_parts, part);
                    assert(views_of(old_parts).push(part@) + split_spec(rest@, d@)
                        =~= views_of(old_parts) + (seq![part@] + split_spec(rest@, d@)));
                }
            },
            None => {
                proof {
                    lemma_split_spec_none(old_rest, d@);
                    lemma_views_of_push(old_parts, rest);
                    assert(views_of(old_parts).push(old_rest) =~= views_of(old_parts) + seq![
                        old_rest,
                    ]);
                }
                parts.push(rest);
                return parts;
            },
        }
    }
}

/// An ASCII whitespace byte: space, tab, line feed or carriage return.
pub open spec fn is_space(b: u8) -> bool {
    b == 32 || b == 9 || b == 10 || b == 13
}

pub open spec fn trim_front_spec(s: Seq<u8>) -> Seq<u8>
    decreases s.len(),
{
    if s.len() > 0 && is_space(s[0]) {
        trim_front_spec(s.drop_first())
    } else {
        s
    }
}

pub open spec fn trim_back_spec(s: Seq<u8>) -> Seq<u8>
    decreases s.len(),
{
    if s.len() > 0 && is_space(s.last()) {
        trim_back_spec(s.drop_last())
    } else {
        s
    }
}

/// `s` without its leading and trailing ASCII whitespace.
pub open spec fn trim_spec(s: Seq<u8>) -> Seq<u8> {
    trim_back_spec(trim_front_spec(s))
}

/// Strips leading and trailing ASCII whitespace, as `trim_spec` describes.
#[verifier::loop_isolation(false)]
pub fn trim(s: &Vec<u8>) -> (r: Vec<u8>)
    ensures
        r@ == trim_spec(s@),
{
    let mut lo: usize = 0;
    proof {
        assert(s@.subrange(0, s@.len() as int) =~= s@);
    }
    while lo < s.len() && (s[lo] == 32 || s[lo] == 9 || s[lo] == 10 || s[lo] == 13)
        invariant
            lo <= s@.len(),
            trim_front_spec(s@) == trim_front_spec(s@.subrange(lo as int, s@.len() as int)),
        decreases s@.len() - lo,
    {
        proof {
            let cur = s@.subrange(lo as int, s@.len() as int);
            assert(cur.drop_first() =~= s@.subrange((lo + 1) as int, s@.len() as int));
        }
        lo = lo + 1;
    }
    proof {
        let cur = s@.subrange(lo as int, s@.len() as int);
        assert(trim_front_spec(cur) == cur);
    }
    let mut hi: usize = s.len();
    while hi > lo && (s[hi - 1] == 32 || s[hi - 1] == 9 || s[hi - 1] == 10 || s[hi - 1] == 13)
        invariant
            lo <= hi <= s@.len(),
            trim_back_spec(s@.subrange(lo as int, s@.len() as int)) == trim_back_spec(
                s@.subrange(lo as int, hi as int),
            ),
        decreases hi,
    {
        proof {
            let cur = s@.subrange(lo as int, hi as int);
            assert(cur.drop_last() =~= s@.subrange(lo as int, (hi - 1) as int));
        }
        hi = hi - 1;
    }
    proof {
        let cur = s@.subrange(lo as int, hi as int);
        assert(trim_back_spec(cur) == cur);
    }
    copy_range(s, lo, hi)
}

} // verus!

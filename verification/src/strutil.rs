//! Verified text primitives: character-wise string equality, matching a
//! literal at a position, and splitting on a separator character, each tied
//! to a spec-level model.

use vstd::prelude::*;
use vstd::string::StrSliceExecFns;

verus! {

pub fn str_eq(a: &str, b: &str) -> (r: bool)
    ensures
        r == (a@ == b@),
{
    let n = a.unicode_len();
    if n != b.unicode_len() {
        return false;
    }
    let mut i: usize = 0;
    while i < n
        invariant
            n == a@.len(),
            n == b@.len(),
            0 <= i <= n,
            forall|j: int| 0 <= j < i ==> a@[j] == b@[j],
        decreases n - i,
    {
        if a.get_char(i) != b.get_char(i) {
            proof {
                if a@ == b@ {
                    assert(a@[i as int] == b@[i as int]);
                }
            }
            return false;
        }
        i = i + 1;
    }
    proof {
        assert(a@ =~= b@);
    }
    true
}

/// `lit` occurs in `s` starting at position `i`.
pub open spec fn matches_at(s: Seq<char>, i: int, lit: Seq<char>) -> bool {
    i + lit.len() <= s.len() && s.subrange(i, i + lit.len()) == lit
}

/// Advances past `lit` if it occurs at position `i` of `s`, and says so
/// either way.
pub fn expect_lit(s: &str, i: usize, lit: &str) -> (r: Option<usize>)
    requires
        i <= s@.len(),
    ensures
        r is Some ==> r.unwrap() == i + lit@.len() && matches_at(s@, i as int, lit@),
        r is None ==> !matches_at(s@, i as int, lit@),
{
    let n = s.unicode_len();
    let l = lit.unicode_len();
    if n - i < l {
        return None;
    }
    let mut k: usize = 0;
    while k < l
        invariant
            n == s@.len(),
            l == lit@.len(),
            i + l <= n,
            0 <= k <= l,
            forall|j: int| 0 <= j < k ==> s@[i + j] == lit@[j],
        decreases l - k,
    {
        if s.get_char(i + k) != lit.get_char(k) {
            proof {
                if matches_at(s@, i as int, lit@) {
                    assert(s@.subrange(i as int, i + lit@.len())[k as int] == lit@[k as int]);
                }
            }
            return None;
        }
        k = k + 1;
    }
    proof {
        assert(s@.subrange(i as int, i + lit@.len()) =~= lit@);
    }
    Some(i + l)
}

/// Index of the first occurrence of `sep` in `s`, or `s.len()` if none.
pub open spec fn first_sep(s: Seq<char>, sep: char) -> int
    decreases s.len(),
{
    if s.len() == 0 {
        0
    } else if s[0] == sep {
        0
    } else {
        1 + first_sep(s.skip(1), sep)
    }
}

pub proof fn lemma_first_sep(s: Seq<char>, sep: char)
    ensures
        0 <= first_sep(s, sep) <= s.len(),
        forall|j: int| 0 <= j < first_sep(s, sep) ==> s[j] != sep,
        first_sep(s, sep) < s.len() ==> s[first_sep(s, sep)] == sep,
    decreases s.len(),
{
    if s.len() == 0 {
    } else if s[0] == sep {
    } else {
        lemma_first_sep(s.skip(1), sep);
        let k = first_sep(s, sep);
        assert forall|j: int| 0 <= j < k implies s[j] != sep by {
            if j > 0 {
                assert(s.skip(1)[j - 1] == s[j]);
            }
        }
        if k < s.len() {
            assert(s.skip(1)[k - 1] == s[k]);
        }
    }
}

pub proof fn lemma_first_sep_is(s: Seq<char>, sep: char, k: int)
    requires
        0 <= k <= s.len(),
        forall|j: int| 0 <= j < k ==> s[j] != sep,
        k < s.len() ==> s[k] == sep,
    ensures
        first_sep(s, sep) == k,
    decreases s.len(),
{
    if s.len() == 0 {
    } else if s[0] == sep {
    } else {
        assert(k >= 1);
        assert forall|j: int| 0 <= j < k - 1 implies s.skip(1)[j] != sep by {
            assert(s.skip(1)[j] == s[j + 1]);
        }
        if k - 1 < s.skip(1).len() {
            assert(s.skip(1)[k - 1] == s[k]);
        }
        lemma_first_sep_is(s.skip(1), sep, k - 1);
    }
}

/// Splitting on `sep`: the fields between separators, in order; an input
/// without separators is one field, and every separator adds one more.
pub open spec fn spec_split(s: Seq<char>, sep: char) -> Seq<Seq<char>>
    decreases s.len(),
    via spec_split_dec
{
    let k = first_sep(s, sep);
    if k == s.len() {
        seq![s]
    } else {
        seq![s.take(k)] + spec_split(s.skip(k + 1), sep)
    }
}

#[via_fn]
proof fn spec_split_dec(s: Seq<char>, sep: char) {
    lemma_first_sep(s, sep);
}

pub open spec fn str_views(q: Seq<&str>) -> Seq<Seq<char>> {
    q.map_values(|t: &str| t@)
}

pub proof fn lemma_split_never_empty(s: Seq<char>, sep: char)
    ensures
        spec_split(s, sep).len() >= 1,
{
    lemma_first_sep(s, sep);
}

pub fn split_str<'a>(s: &'a str, sep: char) -> (r: Vec<&'a str>)
    ensures
        str_views(r@) == spec_split(s@, sep),
{
    let n = s.unicode_len();
    let mut parts: Vec<&'a str> = Vec::new();
    let mut start: usize = 0;
    let mut i: usize = 0;
    proof {
        assert(s@.skip(0) =~= s@);
        assert(str_views(parts@) =~= Seq::<Seq<char>>::empty());
        assert(str_views(parts@) + spec_split(s@, sep) =~= spec_split(s@, sep));
    }
    while i < n
        invariant
            n == s@.len(),
            0 <= start <= i <= n,
            forall|j: int| start <= j < i ==> s@[j] != sep,
            spec_split(s@, sep) == str_views(parts@) + spec_split(s@.skip(start as int), sep),
        decreases n - i,
    {
        if s.get_char(i) == sep {
            let ghost old_parts = parts@;
            let piece = s.substring_char(start, i);
            parts.push(piece);
            proof {
                let rem = s@.skip(start as int);
                assert forall|j: int| 0 <= j < i - start implies rem[j] != sep by {
                    assert(rem[j] == s@[start + j]);
                }
                assert(rem[i - start] == s@[i as int]);
                lemma_first_sep_is(rem, sep, i - start);
                assert(rem.take(i - start) =~= s@.subrange(start as int, i as int));
                assert(rem.skip(i - start + 1) =~= s@.skip(i + 1));
                assert(spec_split(rem, sep) == seq![piece@] + spec_split(s@.skip(i + 1), sep));
                assert(str_views(parts@) =~= str_views(old_parts) + seq![piece@]);
                assert((str_views(old_parts) + seq![piece@]) + spec_split(s@.skip(i + 1), sep)
                    =~= str_views(old_parts) + (seq![piece@] + spec_split(s@.skip(i + 1), sep)));
            }
            start = i + 1;
        }
        i = i + 1;
    }
    let ghost old_parts = parts@;
    let piece = s.substring_char(start, n);
    parts.push(piece);
    proof {
        let rem = s@.skip(start as int);
        assert forall|j: int| 0 <= j < rem.len() implies rem[j] != sep by {
            assert(rem[j] == s@[start + j]);
        }
        lemma_first_sep_is(rem, sep, rem.len() as int);
        assert(rem =~= s@.subrange(start as int, n as int));
        assert(spec_split(rem, sep) == seq![rem]);
        assert(str_views(parts@) =~= str_views(old_parts) + seq![piece@]);
        assert(str_views(parts@) =~= spec_split(s@, sep));
    }
    parts
}

} // verus!

//! Small verified helpers for working with strings as character sequences.

use vstd::prelude::*;
use vstd::string::StrSliceExecFns;

verus! {

/// A sequence ends with the given suffix.
pub open spec fn seq_ends_with(s: Seq<char>, suffix: Seq<char>) -> bool {
    suffix.len() <= s.len() && s.subrange(s.len() - suffix.len(), s.len() as int) == suffix
}

/// A sequence starts with the given prefix.
pub open spec fn seq_starts_with(s: Seq<char>, prefix: Seq<char>) -> bool {
    prefix.len() <= s.len() && s.subrange(0, prefix.len() as int) == prefix
}

/// Character-wise equality of two string slices.
pub fn str_eq(a: &str, b: &str) -> (r: bool)
    ensures
        r == (a@ == b@),
{
    let a_len = a.unicode_len();
    let b_len = b.unicode_len();
    if a_len != b_len {
        return false;
    }
    let mut i: usize = 0;
    while i < a_len
        invariant
            i <= a_len,
            a_len == a@.len(),
            b_len == b@.len(),
            a_len == b_len,
            forall|j: int| 0 <= j < i ==> a@[j] == b@[j],
        decreases a_len - i,
    {
        if a.get_char(i) != b.get_char(i) {
            return false;
        }
        i = i + 1;
    }
    proof {
        assert(a@ =~= b@);
    }
    true
}

/// Whether `s` ends with the suffix `suffix`, character-wise.
pub fn str_ends_with(s: &str, suffix: &str) -> (r: bool)
    ensures
        r == seq_ends_with(s@, suffix@),
{
    let s_len = s.unicode_len();
    let suf_len = suffix.unicode_len();
    if suf_len > s_len {
        return false;
    }
    let start = s_len - suf_len;
    let mut i: usize = 0;
    while i < suf_len
        invariant
            i <= suf_len,
            s_len == s@.len(),
            suf_len == suffix@.len(),
            start == s_len - suf_len,
            forall|j: int| 0 <= j < i ==> s@[start + j] == suffix@[j],
        decreases suf_len - i,
    {
        if s.get_char(start + i) != suffix.get_char(i) {
            proof {
                let j = i as int;
                assert(s@.subrange(s@.len() - suffix@.len(), s@.len() as int)[j]
                    == s@[start + j]);
            }
            return false;
        }
        i = i + 1;
    }
    proof {
        assert(s@.subrange(s@.len() - suffix@.len(), s@.len() as int) =~= suffix@);
    }
    true
}

/// Whether `s` starts with the prefix `prefix`, character-wise.
pub fn str_starts_with(s: &str, prefix: &str) -> (r: bool)
    ensures
        r == seq_starts_with(s@, prefix@),
{
    let s_len = s.unicode_len();
    let pre_len = prefix.unicode_len();
    if pre_len > s_len {
        return false;
    }
    let mut i: usize = 0;
    while i < pre_len
        invariant
            i <= pre_len,
            s_len == s@.len(),
            pre_len == prefix@.len(),
            pre_len <= s_len,
            forall|j: int| 0 <= j < i ==> s@[j] == prefix@[j],
        decreases pre_len - i,
    {
        if s.get_char(i) != prefix.get_char(i) {
            proof {
                assert(s@.subrange(0, prefix@.len() as int)[i as int] == s@[i as int]);
            }
            return false;
        }
        i = i + 1;
    }
    proof {
        assert(s@.subrange(0, prefix@.len() as int) =~= prefix@);
    }
    true
}

/// The characters of `s`, in order, as a vector.
pub fn str_chars(s: &str) -> (v: Vec<char>)
    ensures
        v@ == s@,
{
    let len = s.unicode_len();
    let mut v: Vec<char> = Vec::new();
    let mut i: usize = 0;
    while i < len
        invariant
            i <= len,
            len == s@.len(),
            v@ == s@.subrange(0, i as int),
        decreases len - i,
    {
        v.push(s.get_char(i));
        proof {
            assert(v@ =~= s@.subrange(0, i + 1 as int));
        }
        i = i + 1;
    }
    proof {
        assert(v@ =~= s@);
    }
    v
}

/// Builds a string out of a character vector.
///
/// Relies on `String`'s `FromIterator` implementation: collecting characters
/// yields the string holding exactly those characters in order.
#[verifier::external_body]
pub(crate) fn chars_to_string(v: &Vec<char>) -> (s: String)
    ensures
        s@ == v@,
{
    v.iter().collect()
}

/// Concatenation of two string slices.
pub fn str_concat(a: &str, b: &str) -> (r: String)
    ensures
        r@ == a@ + b@,
{
    let mut r = a.to_owned();
    r.append(b);
    r
}

} // verus!

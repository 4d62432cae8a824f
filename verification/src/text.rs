//! Text canonicalisation and word-boundary matching.
//!
//! `normalize` lowercases a string and strips every character that is neither
//! alphanumeric nor a space; both title-tier and token-tier matching compare
//! normalized text only. `word_match` asks whether a query occurs in a text as
//! a whole space-delimited word.

use vstd::prelude::*;
use vstd::std_specs::iter::IteratorSpec;

verus! {

/// Relies on `str::to_lowercase`: the lowercase equivalent of a string,
/// a function of its characters alone.
pub uninterp spec fn lower_of(s: Seq<char>) -> Seq<char>;

/// Relies on `char::is_alphanumeric`: the Unicode letter-or-digit class of a
/// character, a function of the character alone.
pub uninterp spec fn is_alnum_char(c: char) -> bool;

/// A character that normalization keeps: alphanumeric or a space.
pub open spec fn keep_char(c: char) -> bool {
    is_alnum_char(c) || c == ' '
}

/// The subsequence of `s` made of the characters that `keep_char` accepts,
/// in order.
pub open spec fn strip_spec(s: Seq<char>) -> Seq<char>
    decreases s.len(),
{
    if s.len() == 0 {
        Seq::empty()
    } else if keep_char(s.last()) {
        strip_spec(s.drop_last()).push(s.last())
    } else {
        strip_spec(s.drop_last())
    }
}

/// The canonical comparable form of a string: lowercased, then stripped of
/// everything that is neither alphanumeric nor a space.
pub open spec fn norm_spec(s: Seq<char>) -> Seq<char> {
    strip_spec(lower_of(s))
}

/// Every character of a stripped sequence passes the keep test.
proof fn lemma_strip_chars_kept(s: Seq<char>)
    ensures
        forall|k: int| 0 <= k < strip_spec(s).len() ==> keep_char(#[trigger] strip_spec(s)[k]),
    decreases s.len(),
{
    if s.len() > 0 {
        lemma_strip_chars_kept(s.drop_last());
        if keep_char(s.last()) {
            assert forall|k: int| 0 <= k < strip_spec(s).len() implies keep_char(
                #[trigger] strip_spec(s)[k],
            ) by {
                if k < strip_spec(s).len() - 1 {
                    assert(strip_spec(s)[k] == strip_spec(s.drop_last())[k]);
                } else {
                    assert(strip_spec(s)[k] == s.last());
                }
            }
        }
    }
}

/// Stripping a sequence whose characters all pass the keep test returns it
/// unchanged.
proof fn lemma_strip_all_kept(s: Seq<char>)
    requires
        forall|k: int| 0 <= k < s.len() ==> keep_char(#[trigger] s[k]),
    ensures
        strip_spec(s) == s,
    decreases s.len(),
{
    if s.len() > 0 {
        lemma_strip_all_kept(s.drop_last());
        assert(strip_spec(s) =~= s);
    }
}

/// Stripping is idempotent: a second pass removes nothing.
pub proof fn lemma_strip_idempotent(s: Seq<char>)
    ensures
        strip_spec(strip_spec(s)) == strip_spec(s),
{
    lemma_strip_chars_kept(s);
    lemma_strip_all_kept(strip_spec(s));
}

/// Normalization is idempotent: normalizing a normalized string returns it
/// unchanged, provided case folding leaves that normalized string where it
/// is. Case folding lives in outside code whose result this library only
/// names, so that proviso is the one fact about it the proof must be handed;
/// it holds of every input the folding primitive maps into its own image.
pub proof fn lemma_normalize_idempotent(s: Seq<char>)
    requires
        lower_of(norm_spec(s)) == norm_spec(s),
    ensures
        norm_spec(norm_spec(s)) == norm_spec(s),
{
    lemma_strip_idempotent(lower_of(s));
}

/// `p` occurs in `t` starting at position `i`.
pub open spec fn matches_at(t: Seq<char>, p: Seq<char>, i: int) -> bool {
    0 <= i && i + p.len() <= t.len() && t.subrange(i, i + p.len()) == p
}

/// `p` occurs somewhere in `t` as a contiguous run.
pub open spec fn contains_seq(t: Seq<char>, p: Seq<char>) -> bool {
    exists|i: int| matches_at(t, p, i)
}

/// `p` is an initial run of `s`.
pub open spec fn is_prefix_of(p: Seq<char>, s: Seq<char>) -> bool {
    p.len() <= s.len() && s.subrange(0, p.len() as int) == p
}

/// `p` is a final run of `s`.
pub open spec fn is_suffix_of(p: Seq<char>, s: Seq<char>) -> bool {
    p.len() <= s.len() && s.subrange(s.len() - p.len(), s.len() as int) == p
}

/// `q` occurs in `t` as a whole space-delimited word: surrounded by spaces,
/// or at the start followed by a space, or at the end preceded by a space.
pub open spec fn word_match_spec(t: Seq<char>, q: Seq<char>) -> bool {
    ||| contains_seq(t, seq![' '] + q + seq![' '])
    ||| is_prefix_of(q + seq![' '], t)
    ||| is_suffix_of(seq![' '] + q, t)
}

/// Calls `str::to_lowercase` and names its result.
#[verifier::external_body]
pub(crate) fn lowercase(s: &str) -> (r: String)
    ensures
        r@ == lower_of(s@),
{
    s.to_lowercase()
}

/// Calls `char::is_alphanumeric` and names its result.
#[verifier::external_body]
fn is_alnum(c: char) -> (r: bool)
    ensures
        r == is_alnum_char(c),
{
    c.is_alphanumeric()
}

/// Relies on `String::push`: appends the given character to the end of the
/// string.
#[verifier::external_body]
fn push_char(s: &mut String, c: char)
    ensures
        final(s)@ == old(s)@.push(c),
{
    s.push(c)
}

/// The characters of `s`, in order, as a vector.
pub(crate) fn chars_vec(s: &str) -> (r: Vec<char>)
    ensures
        r@ == s@,
{
    broadcast use vstd::string::group_string_axioms;

    let mut v: Vec<char> = Vec::new();
    for c in it: s.chars()
        invariant
            it.seq() == s@,
            v@ == it.seq().take(it.index() as int),
    {
        v.push(c);
        proof {
            assert(it.seq().take(it.index() + 1) =~= it.seq().take(it.index() as int).push(
                it.seq()[it.index() as int],
            ));
        }
    }
    proof {
        assert(s@.take(s@.len() as int) =~= s@);
    }
    v
}

/// Lowercases `s` and removes every character that is neither alphanumeric
/// nor a space.
pub fn normalize(s: &str) -> (r: String)
    ensures
        r@ == norm_spec(s@),
{
    let lowered = lowercase(s);
    let lv = chars_vec(lowered.as_str());
    let n = lv.len();
    let mut out = String::new();
    let mut i: usize = 0;
    while i < n
        invariant
            i <= n,
            n == lv@.len(),
            lv@ == lower_of(s@),
            out@ == strip_spec(lv@.take(i as int)),
        decreases n - i,
    {
        let c = lv[i];
        if is_alnum(c) || c == ' ' {
            push_char(&mut out, c);
        }
        proof {
            assert(lv@.take(i + 1 as int).drop_last() =~= lv@.take(i as int));
            assert(lv@.take(i + 1 as int).last() == lv@[i as int]);
        }
        i = i + 1;
    }
    proof {
        assert(lv@.take(n as int) =~= lv@);
    }
    out
}

/// Appends every character of `src` to `dst`, in order.
pub(crate) fn append_chars(dst: &mut Vec<char>, src: &[char])
    ensures
        final(dst)@ == old(dst)@ + src@,
{
    let n = src.len();
    let mut i: usize = 0;
    while i < n
        invariant
            i <= n,
            n == src@.len(),
            dst@ == old(dst)@ + src@.take(i as int),
        decreases n - i,
    {
        dst.push(src[i]);
        proof {
            assert(old(dst)@ + src@.take(i + 1 as int) =~= (old(dst)@ + src@.take(i as int)).push(
                src@[i as int],
            ));
        }
        i = i + 1;
    }
    proof {
        assert(src@.take(n as int) =~= src@);
    }
}

/// Character-for-character equality of two slices.
pub(crate) fn slice_eq(x: &[char], y: &[char]) -> (r: bool)
    ensures
        r == (x@ == y@),
{
    let n = x.len();
    if n != y.len() {
        proof {
            assert(x@.len() != y@.len());
        }
        return false;
    }
    let mut i: usize = 0;
    while i < n
        invariant
            i <= n,
            n == x@.len(),
            n == y@.len(),
            forall|k: int| 0 <= k < i ==> x@[k] == y@[k],
        decreases n - i,
    {
        if x[i] != y[i] {
            return false;
        }
        i = i + 1;
    }
    proof {
        assert(x@ =~= y@);
    }
    true
}

/// Whether `p` occurs in `t` starting at position `i`.
fn matches_at_chars(t: &[char], p: &[char], i: usize) -> (r: bool)
    requires
        i + p@.len() <= t@.len(),
    ensures
        r == matches_at(t@, p@, i as int),
{
    let n = p.len();
    let tn = t.len();
    let mut j: usize = 0;
    while j < n
        invariant
            j <= n,
            n == p@.len(),
            tn == t@.len(),
            i + n <= tn,
            forall|k: int| 0 <= k < j ==> t@[i + k] == p@[k],
        decreases n - j,
    {
        if t[i + j] != p[j] {
            proof {
                assert(t@.subrange(i as int, i + p@.len())[j as int] != p@[j as int]);
            }
            return false;
        }
        j = j + 1;
    }
    proof {
        assert(t@.subrange(i as int, i + p@.len()) =~= p@);
    }
    true
}

/// Whether `p` is an initial run of `t`.
pub(crate) fn starts_with_chars(t: &[char], p: &[char]) -> (r: bool)
    ensures
        r == is_prefix_of(p@, t@),
{
    if p.len() > t.len() {
        return false;
    }
    matches_at_chars(t, p, 0)
}

/// Whether `p` is a final run of `t`.
pub(crate) fn ends_with_chars(t: &[char], p: &[char]) -> (r: bool)
    ensures
        r == is_suffix_of(p@, t@),
{
    if p.len() > t.len() {
        return false;
    }
    matches_at_chars(t, p, t.len() - p.len())
}

/// Whether `p` occurs anywhere in `t` as a contiguous run.
pub(crate) fn contains_chars(t: &[char], p: &[char]) -> (r: bool)
    ensures
        r == contains_seq(t@, p@),
{
    let tn = t.len();
    let pn = p.len();
    if pn > tn {
        proof {
            assert forall|i: int| !matches_at(t@, p@, i) by {}
        }
        return false;
    }
    if pn == 0 {
        proof {
            assert(t@.subrange(0, 0) =~= p@);
            assert(matches_at(t@, p@, 0));
        }
        return true;
    }
    let mut i: usize = 0;
    while i <= tn - pn
        invariant
            i <= tn - pn + 1,
            1 <= pn <= tn,
            tn == t@.len(),
            pn == p@.len(),
            forall|m: int| 0 <= m < i ==> !matches_at(t@, p@, m),
        decreases tn - pn + 1 - i,
    {
        if matches_at_chars(t, p, i) {
            return true;
        }
        i = i + 1;
    }
    proof {
        assert forall|m: int| !matches_at(t@, p@, m) by {
            if 0 <= m < i {
            }
        }
    }
    false
}

/// `word_match` over character slices.
pub(crate) fn word_match_chars(t: &[char], q: &[char]) -> (r: bool)
    ensures
        r == word_match_spec(t@, q@),
{
    let mut mid: Vec<char> = Vec::new();
    mid.push(' ');
    append_chars(&mut mid, q);
    mid.push(' ');
    proof {
        assert(mid@ =~= seq![' '] + q@ + seq![' ']);
    }

    let mut pre: Vec<char> = Vec::new();
    append_chars(&mut pre, q);
    pre.push(' ');
    proof {
        assert(pre@ =~= q@ + seq![' ']);
    }

    let mut suf: Vec<char> = Vec::new();
    suf.push(' ');
    append_chars(&mut suf, q);
    proof {
        assert(suf@ =~= seq![' '] + q@);
    }

    contains_chars(t, mid.as_slice()) || starts_with_chars(t, pre.as_slice()) || ends_with_chars(
        t,
        suf.as_slice(),
    )
}

/// Whether `query` occurs in `text` as a whole space-delimited word: either
/// surrounded by spaces, or at the start followed by a space, or at the end
/// preceded by a space.
pub fn word_match(text: &str, query: &str) -> (r: bool)
    ensures
        r == word_match_spec(text@, query@),
{
    let t = chars_vec(text);
    let q = chars_vec(query);
    word_match_chars(t.as_slice(), q.as_slice())
}

} // verus!

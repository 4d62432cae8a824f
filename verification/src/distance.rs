//! Bounded Levenshtein edit distance.
//!
//! `edit_distance` computes the unit-cost Levenshtein distance with a
//! single-row dynamic program, and gives up early: once every entry of the
//! current row exceeds the caller's bound `max`, no extension of the rows can
//! come back under it, so the function returns `max + 1` at once. Callers must
//! treat any result above `max` as "too far", never as an exact distance.

use vstd::prelude::*;

use crate::text::chars_vec;

verus! {

/// The smaller of two integers.
pub open spec fn min_int(a: int, b: int) -> int {
    if a <= b {
        a
    } else {
        b
    }
}

/// The unit-cost Levenshtein distance between two character sequences: the
/// least number of single-character insertions, deletions and substitutions
/// that turns one into the other.
pub open spec fn lev(a: Seq<char>, b: Seq<char>) -> nat
    decreases a.len(), b.len(),
{
    if a.len() == 0 {
        b.len()
    } else if b.len() == 0 {
        a.len()
    } else {
        let sub = lev(a.drop_last(), b.drop_last()) + (if a.last() == b.last() {
            0int
        } else {
            1int
        });
        let del = lev(a.drop_last(), b) + 1;
        let ins = lev(a, b.drop_last()) + 1;
        min_int(min_int(sub as int, del as int), ins as int) as nat
    }
}

/// The distance never exceeds the longer length: substituting along the
/// shorter string and inserting the rest always suffices.
pub proof fn lemma_lev_le_max_len(a: Seq<char>, b: Seq<char>)
    ensures
        lev(a, b) <= a.len() || lev(a, b) <= b.len(),
    decreases a.len(), b.len(),
{
    if a.len() == 0 || b.len() == 0 {
    } else {
        lemma_lev_le_max_len(a.drop_last(), b.drop_last());
    }
}

/// The least distance from `p` to any prefix `b.take(k)` with `0 <= k <= j`.
pub open spec fn row_min(p: Seq<char>, b: Seq<char>, j: int) -> int
    decreases j,
{
    if j <= 0 {
        lev(p, b.take(0)) as int
    } else {
        min_int(row_min(p, b, j - 1), lev(p, b.take(j)) as int)
    }
}

/// `row_min` is a lower bound on the distance to each prefix it ranges over.
pub proof fn lemma_row_min_le(p: Seq<char>, b: Seq<char>, j: int, k: int)
    requires
        0 <= k <= j,
    ensures
        row_min(p, b, j) <= lev(p, b.take(k)),
    decreases j,
{
    if j > 0 && k < j {
        lemma_row_min_le(p, b, j - 1, k);
    }
}

/// `row_min` does not look past `j`, so dropping the last character of `b`
/// leaves it unchanged while `j` stays in range.
pub proof fn lemma_row_min_drop_last(p: Seq<char>, b: Seq<char>, j: int)
    requires
        b.len() > 0,
        j <= b.len() - 1,
    ensures
        row_min(p, b.drop_last(), j) == row_min(p, b, j),
    decreases j,
{
    assert(b.drop_last().take(if j <= 0 {
        0
    } else {
        j
    }) =~= b.take(if j <= 0 {
        0
    } else {
        j
    }));
    if j > 0 {
        lemma_row_min_drop_last(p, b, j - 1);
    }
}

/// Early-exit soundness: the distance between the full sequences is at least
/// the least entry of any dynamic-programming row. Aligning `a` with `b`
/// must cut `b` somewhere opposite the prefix `a.take(i)`, and the row holds
/// the cost of the best such cut.
pub proof fn lemma_lev_ge_row_min(a: Seq<char>, b: Seq<char>, i: int)
    requires
        0 <= i <= a.len(),
    ensures
        lev(a, b) >= row_min(a.take(i), b, b.len() as int),
    decreases a.len() + b.len(),
{
    let p = a.take(i);
    if i == a.len() {
        assert(a.take(i) =~= a);
        assert(b.take(b.len() as int) =~= b);
        lemma_row_min_le(p, b, b.len() as int, b.len() as int);
    } else if b.len() == 0 {
        assert(b.take(0) =~= b);
        assert(lev(p, b) == p.len());
        assert(lev(a, b) == a.len());
    } else {
        let a1 = a.drop_last();
        let b1 = b.drop_last();
        assert(a1.take(i) =~= p);
        // The substitution and deletion branches go through rows of `b`
        // itself; the insertion branch goes through rows of `b.drop_last()`,
        // which `row_min` cannot tell apart below index `|b| - 1`.
        lemma_lev_ge_row_min(a1, b1, i);
        lemma_lev_ge_row_min(a1, b, i);
        lemma_lev_ge_row_min(a, b1, i);
        lemma_row_min_drop_last(p, b, b.len() - 1);
        assert(row_min(p, b, b.len() as int) <= row_min(p, b, b.len() - 1));
    }
}

/// Bounded Levenshtein distance over character slices: the exact distance, or
/// `max + 1` as soon as a full row of the dynamic program exceeds `max`.
pub(crate) fn edit_distance_chars(a: &[char], b: &[char], max: usize) -> (r: usize)
    requires
        a@.len() < usize::MAX,
        b@.len() < usize::MAX,
        max < usize::MAX,
    ensures
        r == lev(a@, b@) || (r == max + 1 && lev(a@, b@) > max),
{
    let alen: usize = a.len();
    let blen: usize = b.len();

    let mut costs: Vec<usize> = Vec::new();
    let mut j: usize = 0;
    while j <= blen
        invariant
            j <= blen + 1,
            blen < usize::MAX,
            costs@.len() == j,
            forall|k: int| 0 <= k < j ==> costs@[k] == k,
        decreases blen + 1 - j,
    {
        costs.push(j);
        j = j + 1;
    }
    proof {
        assert forall|k: int| 0 <= k <= blen implies costs@[k] == lev(
            a@.take(0),
            b@.take(k),
        ) by {
            assert(a@.take(0) =~= Seq::<char>::empty());
            assert(b@.take(k).len() == k);
        }
    }

    let mut i: usize = 0;
    while i < alen
        invariant
            i <= alen,
            alen == a@.len(),
            blen == b@.len(),
            alen < usize::MAX,
            blen < usize::MAX,
            max < usize::MAX,
            costs@.len() == blen + 1,
            forall|k: int| 0 <= k <= blen ==> costs@[k] == lev(a@.take(i as int), b@.take(k)),
        decreases alen - i,
    {
        let ca: char = a[i];
        let mut last: usize = i;
        proof {
            assert(a@.take(i as int).len() == i);
            assert(b@.take(0) =~= Seq::<char>::empty());
            assert(lev(a@.take(i as int), b@.take(0)) == i);
            assert(a@.take(i + 1 as int).len() == i + 1);
            assert(lev(a@.take(i + 1 as int), b@.take(0)) == i + 1);
        }
        costs[0] = i + 1;

        let mut j: usize = 0;
        while j < blen
            invariant
                j <= blen,
                i < alen,
                alen == a@.len(),
                blen == b@.len(),
                alen < usize::MAX,
                blen < usize::MAX,
                ca == a@[i as int],
                costs@.len() == blen + 1,
                last == lev(a@.take(i as int), b@.take(j as int)),
                forall|k: int| 0 <= k <= j ==> costs@[k] == lev(a@.take(i + 1 as int), b@.take(k)),
                forall|k: int| j < k <= blen ==> costs@[k] == lev(a@.take(i as int), b@.take(k)),
            decreases blen - j,
        {
            let cb: char = b[j];
            proof {
                lemma_lev_le_max_len(a@.take(i as int), b@.take(j as int));
                lemma_lev_le_max_len(a@.take(i + 1 as int), b@.take(j as int));
                lemma_lev_le_max_len(a@.take(i as int), b@.take(j + 1 as int));
            }
            let sub: usize = if ca == cb {
                last
            } else {
                last + 1
            };
            let ins: usize = costs[j] + 1;
            let del: usize = costs[j + 1] + 1;
            let mut new_cost: usize = sub;
            if ins < new_cost {
                new_cost = ins;
            }
            if del < new_cost {
                new_cost = del;
            }
            proof {
                let ti1 = a@.take(i + 1 as int);
                let tj1 = b@.take(j + 1 as int);
                assert(ti1.drop_last() =~= a@.take(i as int));
                assert(tj1.drop_last() =~= b@.take(j as int));
                assert(ti1.last() == a@[i as int]);
                assert(tj1.last() == b@[j as int]);
                assert(new_cost == lev(ti1, tj1));
            }
            last = costs[j + 1];
            costs[j + 1] = new_cost;
            j = j + 1;
        }

        // The row for `a.take(i + 1)` is complete; if its least entry already
        // exceeds `max`, the distance between the full strings does too.
        let mut row_low: usize = costs[0];
        let mut k: usize = 1;
        while k <= blen
            invariant
                1 <= k <= blen + 1,
                i < alen,
                alen == a@.len(),
                blen == b@.len(),
                blen < usize::MAX,
                costs@.len() == blen + 1,
                forall|m: int| 0 <= m <= blen ==> costs@[m] == lev(a@.take(i + 1 as int), b@.take(m)),
                row_low == row_min(a@.take(i + 1 as int), b@, k - 1),
            decreases blen + 1 - k,
        {
            let c: usize = costs[k];
            if c < row_low {
                row_low = c;
            }
            k = k + 1;
        }
        if row_low > max {
            proof {
                lemma_lev_ge_row_min(a@, b@, i + 1 as int);
            }
            return max + 1;
        }
        i = i + 1;
    }
    proof {
        assert(a@.take(alen as int) =~= a@);
        assert(b@.take(blen as int) =~= b@);
    }
    costs[blen]
}

/// Bounded Levenshtein distance between two strings, compared character by
/// character: the exact distance, or `max + 1` once the distance provably
/// exceeds `max`.
pub fn edit_distance(a: &str, b: &str, max: usize) -> (r: usize)
    requires
        a@.len() < usize::MAX,
        b@.len() < usize::MAX,
        max < usize::MAX,
    ensures
        r == lev(a@, b@) || (r == max + 1 && lev(a@, b@) > max),
        lev(a@, b@) <= max ==> r == lev(a@, b@),
        r > max ==> lev(a@, b@) > max,
{
    let av = chars_vec(a);
    let bv = chars_vec(b);
    edit_distance_chars(av.as_slice(), bv.as_slice(), max)
}

} // verus!

//! The scoring cascade: identifier tier, title tiers, token-field tiers, the
//! shared fuzzy budget and the visibility penalty.
//!
//! Every contribution the rules produce is an exact multiple of 1/60 of a
//! score point, and the final hidden-note division by 3 makes the result an
//! exact multiple of 1/180. The kernel therefore computes in integer units:
//! one unit is 1/60 of a point inside the cascade, and the returned total is
//! in units of 1/180 of a point. The weight table below groups every tunable
//! constant, already scaled to units.

use vstd::prelude::*;

use crate::distance::edit_distance_chars;
use crate::distance::lev;
use crate::distance::min_int;
use crate::text::chars_vec;
use crate::text::contains_chars;
use crate::text::contains_seq;
use crate::text::is_prefix_of;
use crate::text::lower_of;
use crate::text::lowercase;
use crate::text::norm_spec;
use crate::text::normalize;
use crate::text::slice_eq;
use crate::text::starts_with_chars;
use crate::text::word_match_spec;
use crate::text::word_match_chars;

verus! {

// ---- The weight table, in units of 1/60 of a score point. ----
/// Units per score point inside the cascade.
pub const SCALE: u64 = 60;

/// Units per score point in the returned total, after the hidden-note step.
pub const FINAL_SCALE: u64 = 180;

/// Flat bonus when the lowercased identifier equals the raw query: 1000.
pub const NOTE_ID_EXACT_UNITS: u64 = 60000;

/// Flat bonus when the normalized title equals the normalized query: 2000.
pub const TITLE_EXACT_UNITS: u64 = 120000;

/// Flat bonus when the normalized title starts with the normalized query: 500.
pub const TITLE_PREFIX_UNITS: u64 = 30000;

/// Flat bonus when the normalized query is a whole word of the title: 300.
pub const TITLE_WORD_UNITS: u64 = 18000;

/// Cap on the title fuzzy bonus: 30% of the global fuzzy cap, 60 points.
/// When the fuzzy tier is eligible at all, its raw bonus `300 * sim * 0.7`
/// is at least `300 * 0.7 * 0.7 = 147` points (eligibility forces the
/// similarity to at least 0.7), so the tier always contributes this cap
/// exactly.
pub const TITLE_FUZZY_CAP_UNITS: u64 = 3600;

/// Global cap on the fuzzy budget shared across the whole call: 200 points.
pub const FUZZY_TOTAL_CAP_UNITS: u64 = 12000;

/// Cap on one token fuzzy contribution: 3 points.
pub const FUZZY_PAIR_CAP_UNITS: u64 = 180;

/// Title-field token weight 2.0, stored times 20 so that all token-tier
/// values are integers in units: a token tier worth `w * len * factor`
/// points is `w * 3 * (factor * 20) * len` units.
pub const TITLE_FACTOR_X20: u64 = 40;

/// Path-field token weight 0.3, stored times 20.
pub const PATH_FACTOR_X20: u64 = 6;

/// Token tier multipliers: tier weight times `SCALE / 20`, so that the tier
/// value in units is `mult * factor_x20 * len(token)`.
pub const TOKEN_EXACT_MULT: u64 = 12;

/// See `TOKEN_EXACT_MULT`; the prefix tier weight is 2.0.
pub const TOKEN_PREFIX_MULT: u64 = 6;

/// See `TOKEN_EXACT_MULT`; the contains tier weight is 1.0.
pub const TOKEN_CONTAINS_MULT: u64 = 3;

/// Fuzzy tiers ignore token length beyond this many characters.
pub const MAX_FUZZY_TOKEN_LEN: u64 = 3;

/// Distances above this bound never score; `edit_distance` may stop early
/// once the distance provably exceeds it.
pub const MAX_SCORED_DISTANCE: u64 = 3;

/// A running fuzzy budget never exceeds this: contributions are only added
/// below `FUZZY_TOTAL_CAP_UNITS`, and no single addition exceeds
/// `TITLE_FUZZY_CAP_UNITS`.
pub const BUDGET_LIMIT_UNITS: u64 = 15600;

/// The divisor applied to the total score of a hidden note.
pub const HIDDEN_NOTE_PENALTY: u64 = 3;

/// Machine limit: each normalized field and the normalized query must stay
/// below this many characters for the unit total to be provably in range.
pub const NORM_LEN_LIMIT: u64 = 0x8000_0000;

/// Machine limit on `tokens_weight` of the query tokens.
pub const TOKENS_WEIGHT_LIMIT: u64 = 0xFFFF_FFFF;

/// The query side of one scoring call. `query` is expected already
/// lowercased by the caller, `tokens` pre-split from it, and
/// `normalized_query` equal to `normalize(query)`; none of that is checked
/// here, and the score is whatever the formulas give for the fields as
/// passed.
pub struct ScoreParams {
    /// Raw query string.
    pub query: String,
    /// Ordered query tokens; may be empty.
    pub tokens: Vec<String>,
    /// The query as run through `normalize`.
    pub normalized_query: String,
}

/// One candidate note.
pub struct NoteInput {
    /// Stable identifier.
    pub id: String,
    /// Display title.
    pub title: String,
    /// Secondary text field, typically a breadcrumb of the note's location.
    pub path_title: String,
    /// Demoted-visibility flag; hidden notes score a third of the normal
    /// value, never zero.
    pub hidden: bool,
}

/// `s` split on every single space: one piece per gap, so consecutive spaces
/// yield empty pieces, and the result always has at least one piece.
pub open spec fn split_spaces(s: Seq<char>) -> Seq<Seq<char>>
    decreases s.len(),
{
    if s.len() == 0 {
        seq![Seq::<char>::empty()]
    } else if s[0] == ' ' {
        seq![Seq::<char>::empty()] + split_spaces(s.drop_first())
    } else {
        let rest = split_spaces(s.drop_first());
        seq![seq![s[0]] + rest[0]] + rest.drop_first()
    }
}

/// A split has at least one piece.
pub proof fn lemma_split_len(s: Seq<char>)
    ensures
        split_spaces(s).len() >= 1,
    decreases s.len(),
{
    if s.len() > 0 {
        lemma_split_len(s.drop_first());
    }
}

/// No piece of a split is longer than the text it came from.
pub proof fn lemma_split_piece_len(s: Seq<char>)
    ensures
        forall|k: int|
            0 <= k < split_spaces(s).len() ==> (#[trigger] split_spaces(s)[k]).len() <= s.len(),
    decreases s.len(),
{
    if s.len() > 0 {
        lemma_split_len(s.drop_first());
        lemma_split_piece_len(s.drop_first());
    }
}

/// The contribution of one (chunk, token) pair and the budget after it.
/// `ntok` is the normalized token, `raw_len` the raw token's length; exactly
/// one tier applies, in the order exact, prefix, contains, fuzzy, and only
/// the fuzzy tier consults or moves the budget.
pub open spec fn pair_units(
    chunk: Seq<char>,
    ntok: Seq<char>,
    raw_len: int,
    f20: int,
    budget: int,
) -> (int, int) {
    if chunk == ntok {
        ((TOKEN_EXACT_MULT as int) * f20 * raw_len, budget)
    } else if is_prefix_of(ntok, chunk) {
        ((TOKEN_PREFIX_MULT as int) * f20 * raw_len, budget)
    } else if contains_seq(chunk, ntok) {
        ((TOKEN_CONTAINS_MULT as int) * f20 * raw_len, budget)
    } else if budget >= FUZZY_TOTAL_CAP_UNITS as int || ntok.len() < MAX_FUZZY_TOKEN_LEN as int {
        (0, budget)
    } else {
        let d = lev(chunk, ntok) as int;
        if d <= MAX_SCORED_DISTANCE as int {
            let v = min_int(
                ((MAX_SCORED_DISTANCE as int) - d) * min_int(raw_len, MAX_FUZZY_TOKEN_LEN as int)
                    * (f20 / 2),
                FUZZY_PAIR_CAP_UNITS as int,
            );
            (v, budget + v)
        } else {
            (0, budget)
        }
    }
}

/// One chunk against every token, in token order, threading the budget.
pub open spec fn row_units(
    chunk: Seq<char>,
    toks: Seq<(Seq<char>, int)>,
    f20: int,
    budget: int,
) -> (int, int)
    decreases toks.len(),
{
    if toks.len() == 0 {
        (0, budget)
    } else {
        let p = pair_units(chunk, toks[0].0, toks[0].1, f20, budget);
        let r = row_units(chunk, toks.drop_first(), f20, p.1);
        (p.0 + r.0, r.1)
    }
}

/// Every (chunk, token) pair of one field, chunks outer, tokens inner.
pub open spec fn field_units(
    chunks: Seq<Seq<char>>,
    toks: Seq<(Seq<char>, int)>,
    f20: int,
    budget: int,
) -> (int, int)
    decreases chunks.len(),
{
    if chunks.len() == 0 {
        (0, budget)
    } else {
        let r = row_units(chunks[0], toks, f20, budget);
        let rest = field_units(chunks.drop_first(), toks, f20, r.1);
        (r.0 + rest.0, rest.1)
    }
}

/// The title cascade: exact, prefix, whole word, then the fuzzy fallback, in
/// strict priority; the first match wins. The fuzzy tier contributes only
/// when the budget is still below the global cap, the normalized query has
/// at least three characters, the distance is within bounds and small
/// relative to the longer length; it then contributes its cap exactly (see
/// `TITLE_FUZZY_CAP_UNITS`) and adds the same amount to the budget.
pub open spec fn title_units(nt: Seq<char>, nq: Seq<char>, budget: int) -> (int, int) {
    if nt == nq {
        (TITLE_EXACT_UNITS as int, budget)
    } else if is_prefix_of(nq, nt) {
        (TITLE_PREFIX_UNITS as int, budget)
    } else if word_match_spec(nt, nq) {
        (TITLE_WORD_UNITS as int, budget)
    } else if budget >= FUZZY_TOTAL_CAP_UNITS as int {
        (0, budget)
    } else {
        let d = lev(nt, nq) as int;
        let m = if nt.len() >= nq.len() {
            nt.len() as int
        } else {
            nq.len() as int
        };
        if nq.len() >= 3 && d <= MAX_SCORED_DISTANCE as int && 10 * d <= 3 * m {
            (TITLE_FUZZY_CAP_UNITS as int, budget + TITLE_FUZZY_CAP_UNITS as int)
        } else {
            (0, budget)
        }
    }
}

/// The normalized form and raw length of each token, in order.
pub open spec fn toks_view(tokens: Seq<Seq<char>>) -> Seq<(Seq<char>, int)> {
    tokens.map_values(|t: Seq<char>| (norm_spec(t), t.len() as int))
}

/// Raw lengths in a token list are lengths, hence non-negative.
pub open spec fn toks_wf(toks: Seq<(Seq<char>, int)>) -> bool {
    forall|k: int| 0 <= k < toks.len() ==> (#[trigger] toks[k]).1 >= 0
}

/// An upper bound on what one chunk can collect from a token list: the
/// largest tier multiplier on the raw length, plus the fuzzy pair cap.
pub open spec fn toks_weight(toks: Seq<(Seq<char>, int)>) -> int
    decreases toks.len(),
{
    if toks.len() == 0 {
        0
    } else {
        (TOKEN_EXACT_MULT as int) * (TITLE_FACTOR_X20 as int) * toks[0].1
            + (FUZZY_PAIR_CAP_UNITS as int) + toks_weight(toks.drop_first())
    }
}

/// The same bound stated over raw tokens, for callers that have not
/// normalized anything yet.
pub open spec fn tokens_weight(tokens: Seq<Seq<char>>) -> int
    decreases tokens.len(),
{
    if tokens.len() == 0 {
        0
    } else {
        (TOKEN_EXACT_MULT as int) * (TITLE_FACTOR_X20 as int) * tokens[0].len()
            + (FUZZY_PAIR_CAP_UNITS as int) + tokens_weight(tokens.drop_first())
    }
}

/// The two weight forms agree: normalization does not change raw lengths.
pub proof fn lemma_weights_agree(tokens: Seq<Seq<char>>)
    ensures
        toks_weight(toks_view(tokens)) == tokens_weight(tokens),
    decreases tokens.len(),
{
    if tokens.len() > 0 {
        lemma_weights_agree(tokens.drop_first());
        assert(toks_view(tokens).drop_first() =~= toks_view(tokens.drop_first()));
    }
}

/// The whole score of one call, in units of 1/180 of a score point: the
/// identifier bonus, the title cascade, the title token field and the path
/// token field share one fuzzy budget that starts at zero; a hidden note's
/// total is divided by 3 exactly (equivalently, a visible note's total is
/// tripled when moving from 1/60 to 1/180 units).
pub open spec fn score_units_spec(
    query: Seq<char>,
    tokens: Seq<Seq<char>>,
    nq: Seq<char>,
    id: Seq<char>,
    title: Seq<char>,
    path_title: Seq<char>,
    hidden: bool,
) -> int {
    let id_units: int = if lower_of(id) == query {
        NOTE_ID_EXACT_UNITS as int
    } else {
        0
    };
    let nt = norm_spec(title);
    let t = title_units(nt, nq, 0);
    let tf = field_units(split_spaces(nt), toks_view(tokens), TITLE_FACTOR_X20 as int, t.1);
    let pf = field_units(
        split_spaces(norm_spec(path_title)),
        toks_view(tokens),
        PATH_FACTOR_X20 as int,
        tf.1,
    );
    let pre = id_units + t.0 + tf.0 + pf.0;
    if hidden {
        pre
    } else {
        (HIDDEN_NOTE_PENALTY as int) * pre
    }
}

/// `score_units_spec` applied to the two argument records.
pub open spec fn note_score_units(params: &ScoreParams, note: &NoteInput) -> int {
    score_units_spec(
        params.query@,
        params.tokens.deep_view(),
        params.normalized_query@,
        note.id@,
        note.title@,
        note.path_title@,
        note.hidden,
    )
}

// ---- Bounds: contributions are non-negative and budgets stay small. ----
/// One pair contributes between 0 and the weight of its token, and moves the
/// budget only upward, only below the global cap, and by at most the pair
/// cap.
pub proof fn lemma_pair_bounds(
    chunk: Seq<char>,
    ntok: Seq<char>,
    raw_len: int,
    f20: int,
    budget: int,
)
    requires
        raw_len >= 0,
        f20 == TITLE_FACTOR_X20 as int || f20 == PATH_FACTOR_X20 as int,
    ensures
        0 <= pair_units(chunk, ntok, raw_len, f20, budget).0,
        pair_units(chunk, ntok, raw_len, f20, budget).0 <= (TOKEN_EXACT_MULT as int) * (
        TITLE_FACTOR_X20 as int) * raw_len + (FUZZY_PAIR_CAP_UNITS as int),
        pair_units(chunk, ntok, raw_len, f20, budget).1 == budget || (budget < FUZZY_TOTAL_CAP_UNITS
            as int && budget <= pair_units(chunk, ntok, raw_len, f20, budget).1 <= budget + (
        FUZZY_PAIR_CAP_UNITS as int)),
{
    assert(12 * f20 * raw_len >= 0 && 12 * f20 * raw_len <= 480 * raw_len && 6 * f20 * raw_len >= 0
        && 6 * f20 * raw_len <= 480 * raw_len && 3 * f20 * raw_len >= 0 && 3 * f20 * raw_len <= 480
        * raw_len) by (nonlinear_arith)
        requires
            f20 == 40 || f20 == 6,
            raw_len >= 0,
    ;
    if chunk != ntok && !is_prefix_of(ntok, chunk) && !contains_seq(chunk, ntok) && budget
        < FUZZY_TOTAL_CAP_UNITS as int && ntok.len() >= MAX_FUZZY_TOKEN_LEN as int {
        let d = lev(chunk, ntok) as int;
        if d <= MAX_SCORED_DISTANCE as int {
            let c1 = (MAX_SCORED_DISTANCE as int) - d;
            let c2 = min_int(raw_len, MAX_FUZZY_TOKEN_LEN as int);
            let c3 = f20 / 2;
            assert(c1 * c2 * c3 >= 0) by (nonlinear_arith)
                requires
                    c1 >= 0,
                    c2 >= 0,
                    c3 >= 0,
            ;
        }
    }
}

/// Row-level form of `lemma_pair_bounds`.
pub proof fn lemma_row_bounds(chunk: Seq<char>, toks: Seq<(Seq<char>, int)>, f20: int, budget: int)
    requires
        toks_wf(toks),
        f20 == TITLE_FACTOR_X20 as int || f20 == PATH_FACTOR_X20 as int,
    ensures
        0 <= row_units(chunk, toks, f20, budget).0 <= toks_weight(toks),
        budget <= row_units(chunk, toks, f20, budget).1,
        row_units(chunk, toks, f20, budget).1 == budget || row_units(chunk, toks, f20, budget).1
            < (FUZZY_TOTAL_CAP_UNITS as int) + (FUZZY_PAIR_CAP_UNITS as int),
    decreases toks.len(),
{
    if toks.len() > 0 {
        lemma_pair_bounds(chunk, toks[0].0, toks[0].1, f20, budget);
        let b1 = pair_units(chunk, toks[0].0, toks[0].1, f20, budget).1;
        lemma_row_bounds(chunk, toks.drop_first(), f20, b1);
    }
}

/// Field-level form of `lemma_pair_bounds`.
pub proof fn lemma_field_bounds(
    chunks: Seq<Seq<char>>,
    toks: Seq<(Seq<char>, int)>,
    f20: int,
    budget: int,
)
    requires
        toks_wf(toks),
        f20 == TITLE_FACTOR_X20 as int || f20 == PATH_FACTOR_X20 as int,
    ensures
        0 <= field_units(chunks, toks, f20, budget).0 <= chunks.len() * toks_weight(toks),
        budget <= field_units(chunks, toks, f20, budget).1,
        field_units(chunks, toks, f20, budget).1 == budget || field_units(
            chunks,
            toks,
            f20,
            budget,
        ).1 < (FUZZY_TOTAL_CAP_UNITS as int) + (FUZZY_PAIR_CAP_UNITS as int),
    decreases chunks.len(),
{
    if chunks.len() > 0 {
        lemma_row_bounds(chunks[0], toks, f20, budget);
        let b1 = row_units(chunks[0], toks, f20, budget).1;
        lemma_field_bounds(chunks.drop_first(), toks, f20, b1);
        let w = toks_weight(toks);
        let n = chunks.len() as int;
        assert(n * w == w + (n - 1) * w) by (nonlinear_arith);
        assert(chunks.drop_first().len() == n - 1);
    }
}

/// Token weights are non-negative.
pub proof fn lemma_toks_weight_nonneg(toks: Seq<(Seq<char>, int)>)
    requires
        toks_wf(toks),
    ensures
        toks_weight(toks) >= 0,
    decreases toks.len(),
{
    if toks.len() > 0 {
        lemma_toks_weight_nonneg(toks.drop_first());
    }
}

/// Raw token weights are non-negative.
pub proof fn lemma_tokens_weight_nonneg(tokens: Seq<Seq<char>>)
    ensures
        tokens_weight(tokens) >= 0,
    decreases tokens.len(),
{
    if tokens.len() > 0 {
        lemma_tokens_weight_nonneg(tokens.drop_first());
    }
}

/// A split has at most one piece more than the text has characters.
pub proof fn lemma_split_count(s: Seq<char>)
    ensures
        split_spaces(s).len() <= s.len() + 1,
    decreases s.len(),
{
    if s.len() > 0 {
        lemma_split_len(s.drop_first());
        lemma_split_count(s.drop_first());
    }
}

/// The spec view of a prepared token vector: normalized characters and raw
/// length of each token.
pub open spec fn toks_pairs(ts: Seq<(Vec<char>, usize)>) -> Seq<(Seq<char>, int)> {
    ts.map_values(|p: (Vec<char>, usize)| (p.0@, p.1 as int))
}

/// Normalizes each token once, pairing it with the raw token's length.
fn normalize_tokens(tokens: &Vec<String>) -> (r: Vec<(Vec<char>, usize)>)
    ensures
        toks_pairs(r@) == toks_view(tokens.deep_view()),
{
    let n = tokens.len();
    let mut r: Vec<(Vec<char>, usize)> = Vec::new();
    let mut i: usize = 0;
    while i < n
        invariant
            i <= n,
            n == tokens@.len(),
            r@.len() == i,
            forall|k: int|
                0 <= k < i ==> (#[trigger] r@[k]).0@ == norm_spec(tokens@[k]@) && r@[k].1
                    == tokens@[k]@.len(),
        decreases n - i,
    {
        let nt = normalize(tokens[i].as_str());
        let ntv = chars_vec(nt.as_str());
        let rl = tokens[i].as_str().unicode_len();
        r.push((ntv, rl));
        i = i + 1;
    }
    proof {
        assert(toks_pairs(r@) =~~= toks_view(tokens.deep_view()));
    }
    r
}

/// Splits a normalized field on single spaces into the chunks that token
/// matching compares against.
fn split_chunks(s: &[char]) -> (r: Vec<Vec<char>>)
    ensures
        r.deep_view() == split_spaces(s@),
        r@.len() >= 1,
{
    let n = s.len();
    let mut r: Vec<Vec<char>> = Vec::new();
    r.push(Vec::new());
    proof {
        assert(s@.skip(n as int) =~= Seq::<char>::empty());
        assert(r.deep_view() =~~= split_spaces(s@.skip(n as int)));
    }
    let mut k: usize = n;
    while k > 0
        invariant
            k <= n,
            n == s@.len(),
            r@.len() >= 1,
            r.deep_view() == split_spaces(s@.skip(k as int)),
        decreases k,
    {
        let ghost old_dv = r.deep_view();
        let c: char = s[k - 1];
        if c == ' ' {
            r.insert(0, Vec::new());
            proof {
                assert(r.deep_view() =~~= seq![Seq::<char>::empty()] + old_dv);
            }
        } else {
            let mut first: Vec<char> = r.remove(0);
            let ghost old_first = first@;
            first.insert(0, c);
            proof {
                assert(first@ =~= seq![c] + old_first);
            }
            r.insert(0, first);
            proof {
                assert(r.deep_view() =~~= seq![seq![c] + old_dv[0]] + old_dv.drop_first());
            }
        }
        proof {
            let u = s@.skip(k - 1);
            assert(u[0] == s@[k - 1]);
            assert(u.drop_first() =~= s@.skip(k as int));
            lemma_split_len(s@.skip(k as int));
            assert(r.deep_view() == split_spaces(u));
        }
        k = k - 1;
    }
    proof {
        assert(s@.skip(0) =~= s@);
        assert(split_spaces(s@).len() >= 1) by {
            lemma_split_len(s@);
        }
    }
    r
}

/// The title cascade against the normalized query, returning the tier value
/// and the budget after it.
fn title_score(nt: &[char], nq: &[char], budget: u64) -> (r: (u64, u64))
    requires
        budget <= BUDGET_LIMIT_UNITS,
        nt@.len() < usize::MAX,
        nq@.len() < usize::MAX,
    ensures
        r.0 as int == title_units(nt@, nq@, budget as int).0,
        r.1 as int == title_units(nt@, nq@, budget as int).1,
        r.1 <= BUDGET_LIMIT_UNITS,
{
    if slice_eq(nt, nq) {
        (TITLE_EXACT_UNITS, budget)
    } else if starts_with_chars(nt, nq) {
        (TITLE_PREFIX_UNITS, budget)
    } else if word_match_chars(nt, nq) {
        (TITLE_WORD_UNITS, budget)
    } else if budget >= FUZZY_TOTAL_CAP_UNITS {
        (0, budget)
    } else {
        let d: usize = edit_distance_chars(nt, nq, 3);
        let tl: usize = nt.len();
        let ql: usize = nq.len();
        let m: usize = if tl >= ql {
            tl
        } else {
            ql
        };
        if ql >= 3 && d <= 3 && 10 * (d as u128) <= 3 * (m as u128) {
            (TITLE_FUZZY_CAP_UNITS, budget + TITLE_FUZZY_CAP_UNITS)
        } else {
            (0, budget)
        }
    }
}

/// Scores one field: every chunk against every token, in order, threading
/// the shared fuzzy budget. Returns the field's units and the budget after.
fn token_field_score(
    chunks: &Vec<Vec<char>>,
    toks: &Vec<(Vec<char>, usize)>,
    f20: u64,
    budget: u64,
) -> (r: (u128, u64))
    requires
        f20 == TITLE_FACTOR_X20 || f20 == PATH_FACTOR_X20,
        budget <= BUDGET_LIMIT_UNITS,
        toks_weight(toks_pairs(toks@)) <= 0xFFFF_FFFF,
        chunks@.len() <= 0x1_0000_0000,
        forall|k: int| 0 <= k < chunks@.len() ==> (#[trigger] chunks@[k])@.len() < usize::MAX,
        forall|k: int| 0 <= k < toks@.len() ==> (#[trigger] toks@[k]).0@.len() < usize::MAX,
    ensures
        r.0 as int == field_units(chunks.deep_view(), toks_pairs(toks@), f20 as int, budget as int).0,
        r.1 as int == field_units(chunks.deep_view(), toks_pairs(toks@), f20 as int, budget as int).1,
        r.1 <= BUDGET_LIMIT_UNITS,
{
    let ghost all = chunks.deep_view();
    let ghost tks = toks_pairs(toks@);
    let ghost b0 = budget as int;
    let ghost total = field_units(all, tks, f20 as int, b0);
    proof {
        assert(toks_wf(tks)) by {
            assert forall|k: int| 0 <= k < tks.len() implies (#[trigger] tks[k]).1 >= 0 by {
                assert(tks[k] == (toks@[k].0@, toks@[k].1 as int));
            }
        }
        lemma_field_bounds(all, tks, f20 as int, b0);
        lemma_toks_weight_nonneg(tks);
        assert(total.0 <= all.len() * toks_weight(tks));
        assert(all.len() * toks_weight(tks) <= 0x1_0000_0000 * 0xFFFF_FFFFint)
            by (nonlinear_arith)
            requires
                all.len() <= 0x1_0000_0000,
                0 <= toks_weight(tks) <= 0xFFFF_FFFF,
        ;
    }
    let mut score: u128 = 0;
    let mut bud: u64 = budget;
    let cn: usize = chunks.len();
    let tn: usize = toks.len();
    proof {
        assert(all.skip(0) =~= all);
    }
    let mut ci: usize = 0;
    while ci < cn
        invariant
            ci <= cn,
            cn == all.len(),
            all == chunks.deep_view(),
            tn == toks@.len(),
            tks == toks_pairs(toks@),
            toks_wf(tks),
            f20 == TITLE_FACTOR_X20 || f20 == PATH_FACTOR_X20,
            toks_weight(tks) <= 0xFFFF_FFFF,
            all.len() <= 0x1_0000_0000,
            forall|k: int| 0 <= k < chunks@.len() ==> (#[trigger] chunks@[k])@.len() < usize::MAX,
            forall|k: int| 0 <= k < toks@.len() ==> (#[trigger] toks@[k]).0@.len() < usize::MAX,
            bud <= BUDGET_LIMIT_UNITS,
            total == field_units(all, tks, f20 as int, b0),
            total.0 <= 0x1_0000_0000 * 0xFFFF_FFFFint,
            score as int + field_units(all.skip(ci as int), tks, f20 as int, bud as int).0
                == total.0,
            field_units(all.skip(ci as int), tks, f20 as int, bud as int).1 == total.1,
            score as int <= total.0,
        decreases cn - ci,
    {
        proof {
            assert(all.skip(ci as int)[0] == all[ci as int]);
            assert(all.skip(ci as int).drop_first() =~= all.skip(ci + 1 as int));
            assert(all[ci as int] == chunks@[ci as int]@) by {
                assert(all[ci as int] =~= chunks@[ci as int]@);
            }
        }
        let chunk: &Vec<char> = &chunks[ci];
        let ghost cv = chunk@;
        let ghost row_b0 = bud as int;
        let ghost row_total = row_units(cv, tks, f20 as int, row_b0);
        proof {
            lemma_row_bounds(cv, tks, f20 as int, row_b0);
        }
        let mut row_score: u128 = 0;
        proof {
            assert(tks.skip(0) =~= tks);
        }
        let mut ti: usize = 0;
        while ti < tn
            invariant
                ti <= tn,
                tn == toks@.len(),
                tks == toks_pairs(toks@),
                toks_wf(tks),
                f20 == TITLE_FACTOR_X20 || f20 == PATH_FACTOR_X20,
                cv == chunk@,
                cv.len() < usize::MAX,
                forall|k: int| 0 <= k < toks@.len() ==> (#[trigger] toks@[k]).0@.len() < usize::MAX,
                bud <= BUDGET_LIMIT_UNITS,
                row_total == row_units(cv, tks, f20 as int, row_b0),
                row_score as int + row_units(cv, tks.skip(ti as int), f20 as int, bud as int).0
                    == row_total.0,
                row_units(cv, tks.skip(ti as int), f20 as int, bud as int).1 == row_total.1,
                row_score as int <= row_total.0,
                row_total.0 <= toks_weight(tks),
                toks_weight(tks) <= 0xFFFF_FFFF,
            decreases tn - ti,
        {
            proof {
                assert(tks.skip(ti as int)[0] == tks[ti as int]);
                assert(tks.skip(ti as int).drop_first() =~= tks.skip(ti + 1 as int));
                assert(tks[ti as int] == (toks@[ti as int].0@, toks@[ti as int].1 as int));
                lemma_pair_bounds(cv, tks[ti as int].0, tks[ti as int].1, f20 as int, bud as int);
                lemma_row_bounds(
                    cv,
                    tks.skip(ti + 1 as int),
                    f20 as int,
                    pair_units(cv, tks[ti as int].0, tks[ti as int].1, f20 as int, bud as int).1,
                );
            }
            let ntok: &[char] = toks[ti].0.as_slice();
            let rl: usize = toks[ti].1;
            let ghost pu = pair_units(cv, ntok@, rl as int, f20 as int, bud as int);
            let ghost rest = row_units(cv, tks.skip(ti + 1 as int), f20 as int, pu.1);
            proof {
                assert(row_units(cv, tks.skip(ti as int), f20 as int, bud as int) == (
                pu.0 + rest.0,
                rest.1,
                ));
                assert(row_score as int + pu.0 + rest.0 == row_total.0);
                assert(rest.0 >= 0 && pu.0 >= 0);
            }
            if slice_eq(chunk.as_slice(), ntok) {
                let v: u128 = (TOKEN_EXACT_MULT as u128) * (f20 as u128) * (rl as u128);
                proof {
                    assert(v as int == pu.0);
                }
                row_score = row_score + v;
            } else if starts_with_chars(chunk.as_slice(), ntok) {
                let v: u128 = (TOKEN_PREFIX_MULT as u128) * (f20 as u128) * (rl as u128);
                proof {
                    assert(v as int == pu.0);
                }
                row_score = row_score + v;
            } else if contains_chars(chunk.as_slice(), ntok) {
                let v: u128 = (TOKEN_CONTAINS_MULT as u128) * (f20 as u128) * (rl as u128);
                proof {
                    assert(v as int == pu.0);
                }
                row_score = row_score + v;
            } else if bud >= FUZZY_TOTAL_CAP_UNITS || ntok.len() < 3 {
                proof {
                    assert(pu == (0int, bud as int));
                }
            } else {
                let d: usize = edit_distance_chars(chunk.as_slice(), ntok, 3);
                if d <= 3 {
                    let clen: u64 = if rl < 3 {
                        rl as u64
                    } else {
                        3
                    };
                    let w3: u64 = (3 - d) as u64;
                    let half: u64 = f20 / 2;
                    proof {
                        assert((w3 as int) * (clen as int) <= 9 && (w3 as int) * (clen as int) * (
                        half as int) <= 180 && (w3 as int) * (clen as int) * (half as int) >= 0)
                            by (nonlinear_arith)
                            requires
                                0 <= w3 <= 3,
                                0 <= clen <= 3,
                                0 <= half <= 20,
                        ;
                    }
                    let raw: u64 = w3 * clen * half;
                    let v: u64 = if raw > FUZZY_PAIR_CAP_UNITS {
                        FUZZY_PAIR_CAP_UNITS
                    } else {
                        raw
                    };
                    proof {
                        assert(clen as int == min_int(rl as int, MAX_FUZZY_TOKEN_LEN as int));
                        assert(v as int == pu.0);
                        assert(pu.1 == bud + v);
                    }
                    row_score = row_score + v as u128;
                    bud = bud + v;
                } else {
                    proof {
                        assert(pu == (0int, bud as int));
                    }
                }
            }
            proof {
                assert(row_score as int <= row_total.0);
            }
            ti = ti + 1;
        }
        proof {
            assert(tks.skip(tn as int) =~= Seq::<(Seq<char>, int)>::empty());
            assert(row_score as int == row_total.0);
            assert(bud as int == row_total.1);
            lemma_field_bounds(all.skip(ci + 1 as int), tks, f20 as int, bud as int);
        }
        score = score + row_score;
        ci = ci + 1;
    }
    proof {
        assert(all.skip(cn as int) =~= Seq::<Seq<char>>::empty());
    }
    (score, bud)
}

/// All machine limits that `compute_score` asks of its inputs: normalized
/// fields and query below `NORM_LEN_LIMIT` characters, token weight below
/// `TOKENS_WEIGHT_LIMIT`.
pub open spec fn inputs_in_range(params: &ScoreParams, note: &NoteInput) -> bool {
    &&& params.normalized_query@.len() < NORM_LEN_LIMIT as int
    &&& norm_spec(note.title@).len() < NORM_LEN_LIMIT as int
    &&& norm_spec(note.path_title@).len() < NORM_LEN_LIMIT as int
    &&& tokens_weight(params.tokens.deep_view()) <= TOKENS_WEIGHT_LIMIT as int
    &&& forall|k: int|
        0 <= k < params.tokens.deep_view().len() ==> norm_spec(
            #[trigger] params.tokens.deep_view()[k],
        ).len() < NORM_LEN_LIMIT as int
}

/// The relevance score of `note` against the query in `params`, in units of
/// 1/180 of a score point: exactly `note_score_units`, the sum of the
/// identifier bonus, the title cascade and both token fields, with the
/// hidden-note division applied last. The machine limits in `requires` are
/// far beyond any real input; `compute_score_checked` tests them at run time.
pub fn compute_score(params: &ScoreParams, note: &NoteInput) -> (r: u128)
    requires
        inputs_in_range(params, note),
    ensures
        r as int == note_score_units(params, note),
{
    let ghost dv = params.tokens.deep_view();
    let ghost tview = toks_view(dv);

    // Identifier tier: lowercased identifier against the raw query, checked
    // independently of every other tier.
    let idl = lowercase(note.id.as_str());
    let id_units: u64 = if idl == params.query {
        NOTE_ID_EXACT_UNITS
    } else {
        0
    };

    let nt = normalize(note.title.as_str());
    let ntv = chars_vec(nt.as_str());
    let nqv = chars_vec(params.normalized_query.as_str());

    // Title cascade; the fuzzy budget starts at zero.
    let t = title_score(ntv.as_slice(), nqv.as_slice(), 0);

    // Tokens are normalized once and shared by both fields.
    let toks = normalize_tokens(&params.tokens);
    proof {
        lemma_weights_agree(dv);
        assert forall|k: int| 0 <= k < toks@.len() implies (#[trigger] toks@[k]).0@.len()
            < usize::MAX by {
            assert(toks_pairs(toks@)[k] == tview[k]);
            assert(toks@[k].0@ == norm_spec(dv[k]));
        }
    }

    // Title token field.
    let tchunks = split_chunks(ntv.as_slice());
    proof {
        lemma_split_count(ntv@);
        lemma_split_piece_len(ntv@);
        assert(tchunks@.len() == tchunks.deep_view().len());
        assert forall|k: int| 0 <= k < tchunks@.len() implies (#[trigger] tchunks@[k])@.len()
            < usize::MAX by {
            assert(tchunks@[k]@ =~= tchunks.deep_view()[k]);
        }
    }
    let tf = token_field_score(&tchunks, &toks, TITLE_FACTOR_X20, t.1);

    // Path token field, on the budget both earlier stages left.
    let np = normalize(note.path_title.as_str());
    let npv = chars_vec(np.as_str());
    let pchunks = split_chunks(npv.as_slice());
    proof {
        lemma_split_count(npv@);
        lemma_split_piece_len(npv@);
        assert(pchunks@.len() == pchunks.deep_view().len());
        assert forall|k: int| 0 <= k < pchunks@.len() implies (#[trigger] pchunks@[k])@.len()
            < usize::MAX by {
            assert(pchunks@[k]@ =~= pchunks.deep_view()[k]);
        }
    }
    let pf = token_field_score(&pchunks, &toks, PATH_FACTOR_X20, tf.1);

    proof {
        assert(toks_wf(tview)) by {
            assert forall|k: int| 0 <= k < tview.len() implies (#[trigger] tview[k]).1 >= 0 by {
                assert(tview[k] == (norm_spec(dv[k]), dv[k].len() as int));
            }
        }
        lemma_toks_weight_nonneg(tview);
        lemma_field_bounds(tchunks.deep_view(), tview, TITLE_FACTOR_X20 as int, t.1 as int);
        lemma_field_bounds(
            pchunks.deep_view(),
            tview,
            PATH_FACTOR_X20 as int,
            field_units(tchunks.deep_view(), tview, TITLE_FACTOR_X20 as int, t.1 as int).1,
        );
        assert(tchunks.deep_view().len() * toks_weight(tview) <= 0x1_0000_0000 * 0xFFFF_FFFFint)
            by (nonlinear_arith)
            requires
                tchunks.deep_view().len() <= 0x1_0000_0000,
                0 <= toks_weight(tview) <= 0xFFFF_FFFF,
        ;
        assert(pchunks.deep_view().len() * toks_weight(tview) <= 0x1_0000_0000 * 0xFFFF_FFFFint)
            by (nonlinear_arith)
            requires
                pchunks.deep_view().len() <= 0x1_0000_0000,
                0 <= toks_weight(tview) <= 0xFFFF_FFFF,
        ;
    }
    let pre: u128 = id_units as u128 + t.0 as u128 + tf.0 + pf.0;
    proof {
        assert(pre as int <= 180000 + 2 * (0x1_0000_0000 * 0xFFFF_FFFFint));
    }
    let total: u128 = if note.hidden {
        pre
    } else {
        (HIDDEN_NOTE_PENALTY as u128) * pre
    };
    total
}

/// `compute_score` behind run-time checks of its machine limits: `Some` of
/// the score whenever every limit holds, `None` otherwise. No real query or
/// note comes near the limits, so callers that cannot discharge the limits
/// statically use this form.
pub fn compute_score_checked(params: &ScoreParams, note: &NoteInput) -> (r: Option<u128>)
    ensures
        r is Some <==> inputs_in_range(params, note),
        r is Some ==> r->0 as int == note_score_units(params, note),
{
    let ghost dv = params.tokens.deep_view();
    if params.normalized_query.as_str().unicode_len() as u64 >= NORM_LEN_LIMIT {
        return None;
    }
    let nt = normalize(note.title.as_str());
    if nt.as_str().unicode_len() as u64 >= NORM_LEN_LIMIT {
        return None;
    }
    let np = normalize(note.path_title.as_str());
    if np.as_str().unicode_len() as u64 >= NORM_LEN_LIMIT {
        return None;
    }
    let n: usize = params.tokens.len();
    let mut w: u128 = 0;
    let mut i: usize = 0;
    proof {
        assert(dv.skip(0) =~= dv);
    }
    while i < n
        invariant
            i <= n,
            n == dv.len(),
            dv == params.tokens.deep_view(),
            w as int + tokens_weight(dv.skip(i as int)) == tokens_weight(dv),
            w <= TOKENS_WEIGHT_LIMIT,
            forall|k: int| 0 <= k < i ==> norm_spec(#[trigger] dv[k]).len() < NORM_LEN_LIMIT as int,
        decreases n - i,
    {
        proof {
            assert(dv.skip(i as int)[0] == dv[i as int]);
            assert(dv.skip(i as int).drop_first() =~= dv.skip(i + 1 as int));
            lemma_tokens_weight_nonneg(dv.skip(i + 1 as int));
            assert(params.tokens@[i as int]@ == dv[i as int]);
        }
        let ntk = normalize(params.tokens[i].as_str());
        if ntk.as_str().unicode_len() as u64 >= NORM_LEN_LIMIT {
            return None;
        }
        let l: usize = params.tokens[i].as_str().unicode_len();
        let step: u128 = (TOKEN_EXACT_MULT as u128) * (TITLE_FACTOR_X20 as u128) * (l as u128) + (
        FUZZY_PAIR_CAP_UNITS as u128);
        w = w + step;
        if w > TOKENS_WEIGHT_LIMIT as u128 {
            proof {
                assert(tokens_weight(dv) > TOKENS_WEIGHT_LIMIT as int);
            }
            return None;
        }
        i = i + 1;
    }
    proof {
        assert(dv.skip(n as int) =~= Seq::<Seq<char>>::empty());
        assert(inputs_in_range(params, note));
    }
    Some(compute_score(params, note))
}

// ---- Laws of the scoring rules. ----
/// Scoring is deterministic: a pure function of the record fields. Two calls
/// on field-for-field equal inputs score the same, and `compute_score`
/// returns exactly this function of its inputs.
pub proof fn lemma_score_deterministic(
    p1: &ScoreParams,
    n1: &NoteInput,
    p2: &ScoreParams,
    n2: &NoteInput,
)
    requires
        p1.query@ == p2.query@,
        p1.tokens.deep_view() == p2.tokens.deep_view(),
        p1.normalized_query@ == p2.normalized_query@,
        n1.id@ == n2.id@,
        n1.title@ == n2.title@,
        n1.path_title@ == n2.path_title@,
        n1.hidden == n2.hidden,
    ensures
        note_score_units(p1, n1) == note_score_units(p2, n2),
{
}

/// The title tiers pay strictly decreasing bonuses in strict priority order:
/// exact beats prefix beats whole word, and any fuzzy fallback stays below
/// the whole-word bonus.
pub proof fn lemma_title_tier_order(nt: Seq<char>, nq: Seq<char>, budget: int)
    ensures
        nt == nq ==> title_units(nt, nq, budget).0 == TITLE_EXACT_UNITS as int,
        nt != nq && is_prefix_of(nq, nt) ==> title_units(nt, nq, budget).0 == TITLE_PREFIX_UNITS
            as int,
        nt != nq && !is_prefix_of(nq, nt) && word_match_spec(nt, nq) ==> title_units(
            nt,
            nq,
            budget,
        ).0 == TITLE_WORD_UNITS as int,
        nt != nq && !is_prefix_of(nq, nt) && !word_match_spec(nt, nq) ==> 0 <= title_units(
            nt,
            nq,
            budget,
        ).0 <= TITLE_FUZZY_CAP_UNITS as int,
        (TITLE_FUZZY_CAP_UNITS as int) < (TITLE_WORD_UNITS as int) < (TITLE_PREFIX_UNITS as int) < (
        TITLE_EXACT_UNITS as int),
{
}

/// The hidden-note penalty is applied last and divides exactly by 3: in
/// units of 1/180 of a point, three times a hidden note's total equals the
/// identical visible note's total.
pub proof fn lemma_hidden_penalty(
    query: Seq<char>,
    tokens: Seq<Seq<char>>,
    nq: Seq<char>,
    id: Seq<char>,
    title: Seq<char>,
    path_title: Seq<char>,
)
    ensures
        (HIDDEN_NOTE_PENALTY as int) * score_units_spec(query, tokens, nq, id, title, path_title, true)
            == score_units_spec(query, tokens, nq, id, title, path_title, false),
{
}

/// At a saturated budget a pair's fuzzy tier contributes exactly zero and
/// the budget stays put, while the exact, prefix and contains tiers pay the
/// same at any budget.
pub proof fn lemma_pair_budget_saturated(
    chunk: Seq<char>,
    ntok: Seq<char>,
    raw_len: int,
    f20: int,
    b1: int,
    b2: int,
)
    requires
        b1 >= FUZZY_TOTAL_CAP_UNITS as int,
        b2 >= FUZZY_TOTAL_CAP_UNITS as int,
    ensures
        pair_units(chunk, ntok, raw_len, f20, b1).1 == b1,
        pair_units(chunk, ntok, raw_len, f20, b1).0 == pair_units(chunk, ntok, raw_len, f20, b2).0,
        chunk != ntok && !is_prefix_of(ntok, chunk) && !contains_seq(chunk, ntok) ==> pair_units(
            chunk,
            ntok,
            raw_len,
            f20,
            b1,
        ).0 == 0,
{
}

/// Field-level form of `lemma_pair_budget_saturated`: once the shared fuzzy
/// budget has reached the global cap, every later fuzzy-eligible pair in the
/// call contributes exactly zero — the field totals agree at any saturated
/// budget — and the budget never moves again.
pub proof fn lemma_field_budget_saturated(
    chunks: Seq<Seq<char>>,
    toks: Seq<(Seq<char>, int)>,
    f20: int,
    b1: int,
    b2: int,
)
    requires
        b1 >= FUZZY_TOTAL_CAP_UNITS as int,
        b2 >= FUZZY_TOTAL_CAP_UNITS as int,
    ensures
        field_units(chunks, toks, f20, b1).1 == b1,
        field_units(chunks, toks, f20, b1).0 == field_units(chunks, toks, f20, b2).0,
    decreases chunks.len(),
{
    if chunks.len() > 0 {
        lemma_row_budget_saturated(chunks[0], toks, f20, b1, b2);
        lemma_row_budget_saturated(chunks[0], toks, f20, b2, b1);
        lemma_field_budget_saturated(chunks.drop_first(), toks, f20, b1, b2);
    }
}

/// Row-level form of `lemma_pair_budget_saturated`.
pub proof fn lemma_row_budget_saturated(
    chunk: Seq<char>,
    toks: Seq<(Seq<char>, int)>,
    f20: int,
    b1: int,
    b2: int,
)
    requires
        b1 >= FUZZY_TOTAL_CAP_UNITS as int,
        b2 >= FUZZY_TOTAL_CAP_UNITS as int,
    ensures
        row_units(chunk, toks, f20, b1).1 == b1,
        row_units(chunk, toks, f20, b1).0 == row_units(chunk, toks, f20, b2).0,
    decreases toks.len(),
{
    if toks.len() > 0 {
        lemma_pair_budget_saturated(chunk, toks[0].0, toks[0].1, f20, b1, b2);
        lemma_pair_budget_saturated(chunk, toks[0].0, toks[0].1, f20, b2, b1);
        lemma_row_budget_saturated(chunk, toks.drop_first(), f20, b1, b2);
    }
}

/// Token weighting asymmetry: a token matching a chunk by the exact, prefix
/// or contains tier earns title-field and path-field units in the exact
/// ratio of the field weights, 2.0 to 0.3 — that is, 20 to 3 — whatever the
/// budgets, which these tiers neither read nor move.
pub proof fn lemma_field_weight_ratio(
    chunk: Seq<char>,
    ntok: Seq<char>,
    raw_len: int,
    b1: int,
    b2: int,
)
    requires
        chunk == ntok || is_prefix_of(ntok, chunk) || contains_seq(chunk, ntok),
    ensures
        3 * pair_units(chunk, ntok, raw_len, TITLE_FACTOR_X20 as int, b1).0 == 20 * pair_units(
            chunk,
            ntok,
            raw_len,
            PATH_FACTOR_X20 as int,
            b2,
        ).0,
        pair_units(chunk, ntok, raw_len, TITLE_FACTOR_X20 as int, b1).1 == b1,
        pair_units(chunk, ntok, raw_len, PATH_FACTOR_X20 as int, b2).1 == b2,
{
    assert(3 * (12 * 40 * raw_len) == 20 * (12 * 6 * raw_len)) by (nonlinear_arith);
    assert(3 * (6 * 40 * raw_len) == 20 * (6 * 6 * raw_len)) by (nonlinear_arith);
    assert(3 * (3 * 40 * raw_len) == 20 * (3 * 6 * raw_len)) by (nonlinear_arith);
}

} // verus!

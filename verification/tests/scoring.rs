//! End-to-end tests of the scoring kernel. Scores come back in units of
//! 1/180 of a score point, so a plain score of `s` points is `s * 180` units.

use search_native::{compute_score, compute_score_checked, NoteInput, ScoreParams};

fn params(query: &str, tokens: &[&str], normalized_query: &str) -> ScoreParams {
    ScoreParams {
        query: query.to_string(),
        tokens: tokens.iter().map(|t| t.to_string()).collect(),
        normalized_query: normalized_query.to_string(),
    }
}

fn note(id: &str, title: &str, path_title: &str, hidden: bool) -> NoteInput {
    NoteInput {
        id: id.to_string(),
        title: title.to_string(),
        path_title: path_title.to_string(),
        hidden,
    }
}

#[test]
fn identifier_exact_match_scores_1000() {
    let p = params("abc", &[], "abc");
    let n = note("ABC", "", "", false);
    // 1000 points from the identifier tier alone; empty fields add nothing.
    assert_eq!(compute_score(&p, &n), 1000 * 180);
}

#[test]
fn identifier_match_is_case_sensitive_on_the_query() {
    // The identifier is lowercased, the query is not: a mixed-case query
    // never matches.
    let p = params("Abc", &[], "abc");
    let n = note("ABC", "", "", false);
    assert_eq!(compute_score(&p, &n), 0);
}

#[test]
fn title_exact_match_scores_2000() {
    let p = params("q", &[], "cat");
    let n = note("n1", "cat", "", false);
    assert_eq!(compute_score(&p, &n), 2000 * 180);
}

#[test]
fn title_prefix_match_scores_500() {
    let p = params("q", &[], "cat");
    let n = note("n1", "catalog", "", false);
    assert_eq!(compute_score(&p, &n), 500 * 180);
}

#[test]
fn title_word_match_scores_300() {
    let p = params("q", &[], "cat");
    let n = note("n1", "the cat sat", "", false);
    assert_eq!(compute_score(&p, &n), 300 * 180);
}

#[test]
fn title_fuzzy_close_match_scores_the_cap() {
    // "cart" vs "care": distance 1 over length 4 is within the 0.3 ratio,
    // so the fuzzy tier pays its cap of 60 points exactly.
    let p = params("q", &[], "care");
    let n = note("n1", "cart", "", false);
    assert_eq!(compute_score(&p, &n), 60 * 180);
}

#[test]
fn title_fuzzy_high_ratio_scores_zero() {
    // "bat" vs "cat": distance 1 over length 3 exceeds the 0.3 ratio.
    let p = params("q", &[], "cat");
    let n = note("n1", "bat", "", false);
    assert_eq!(compute_score(&p, &n), 0);
}

#[test]
fn title_tiers_are_strictly_ordered() {
    let exact = compute_score(&params("q", &[], "cat"), &note("n1", "cat", "", false));
    let prefix = compute_score(&params("q", &[], "cat"), &note("n1", "catalog", "", false));
    let word = compute_score(&params("q", &[], "cat"), &note("n1", "the cat sat", "", false));
    let fuzzy = compute_score(&params("q", &[], "care"), &note("n1", "cart", "", false));
    assert!(exact > prefix && prefix > word && word > fuzzy);
}

#[test]
fn hidden_note_scores_exactly_a_third() {
    let p = params("cat", &["cat"], "cat");
    let visible = note("n1", "catalog", "cat pictures", false);
    let hidden = note("n1", "catalog", "cat pictures", true);
    let sv = compute_score(&p, &visible);
    let sh = compute_score(&p, &hidden);
    assert!(sv > 0);
    assert_eq!(sh * 3, sv);
}

#[test]
fn repeated_calls_are_identical() {
    let p = params("näte", &["näte", "plan"], "näte");
    let n = note("Näte-1", "Näte Plan!", "projects / plans", false);
    let first = compute_score(&p, &n);
    for _ in 0..5 {
        assert_eq!(compute_score(&p, &n), first);
    }
}

#[test]
fn token_exact_match_on_title_field() {
    // Token "beta" hits the single chunk "beta" exactly:
    // 4.0 * len 4 * factor 2.0 = 32 points; no title-cascade match.
    let p = params("zzz", &["beta"], "zzz");
    let n = note("n1", "beta", "", false);
    assert_eq!(compute_score(&p, &n), 32 * 180);
}

#[test]
fn token_exact_match_on_path_field() {
    // The same match against the path field: 4.0 * 4 * 0.3 = 4.8 points,
    // which is 864 units.
    let p = params("zzz", &["beta"], "zzz");
    let n = note("n1", "", "beta", false);
    assert_eq!(compute_score(&p, &n), 864);
}

#[test]
fn token_weighting_ratio_is_20_to_3() {
    let p = params("zzz", &["beta"], "zzz");
    let on_title = compute_score(&p, &note("n1", "beta", "", false));
    let on_path = compute_score(&p, &note("n1", "", "beta", false));
    assert_eq!(on_title * 3, on_path * 20);
}

#[test]
fn token_prefix_and_contains_tiers() {
    // "cat" against chunk "category": prefix, 2.0 * 3 * 2.0 = 12 points;
    // the title cascade also sees a prefix, 500 points.
    let p = params("q", &["cat"], "cat");
    let n = note("n1", "category", "", false);
    assert_eq!(compute_score(&p, &n), (500 + 12) * 180);

    // "cat" against chunk "concatenate": contains, 1.0 * 3 * 2.0 = 6 points;
    // no title-cascade match.
    let n2 = note("n1", "concatenate", "", false);
    assert_eq!(compute_score(&p, &n2), 6 * 180);
}

#[test]
fn token_fuzzy_match_values() {
    // Chunk "abce" vs token "abcd": distance 1, weight 0.5 * (1 - 1/3),
    // effective length 3, factor 2.0: 2 points = 360 units.
    let p = params("zz", &["abcd"], "zz");
    let n = note("n1", "abce", "", false);
    assert_eq!(compute_score(&p, &n), 360);

    // Distance 2 ("abde" vs "abcd"): 1 point = 180 units.
    let n2 = note("n1", "abde", "", false);
    assert_eq!(compute_score(&p, &n2), 180);
}

#[test]
fn token_fuzzy_skips_short_tokens() {
    // A token whose normalized form is shorter than 3 characters never
    // scores fuzzily: "ab" vs chunk "ax" stays at zero.
    let p = params("zz", &["ab"], "zz");
    let n = note("n1", "ax", "", false);
    assert_eq!(compute_score(&p, &n), 0);
}

#[test]
fn repeated_tokens_and_chunks_stack() {
    // No deduplication: the same token twice doubles the contribution, and
    // a repeated chunk doubles it again.
    let p1 = params("zzz", &["beta"], "zzz");
    let p2 = params("zzz", &["beta", "beta"], "zzz");
    let single = compute_score(&p1, &note("n1", "beta", "", false));
    let double_tok = compute_score(&p2, &note("n1", "beta", "", false));
    let double_chunk = compute_score(&p1, &note("n1", "beta beta", "", false));
    assert_eq!(double_tok, single * 2);
    assert_eq!(double_chunk, single * 2);
}

#[test]
fn consecutive_spaces_make_empty_chunks_that_never_match() {
    let p = params("zzz", &["beta"], "zzz");
    let spread = compute_score(&p, &note("n1", "beta  beta", "", false));
    let tight = compute_score(&p, &note("n1", "beta beta", "", false));
    assert_eq!(spread, tight);
}

fn saturating_params(extra: &[&str]) -> ScoreParams {
    // 100 fuzzy pairs at 2 points each exhaust the 200-point budget.
    let mut tokens: Vec<String> = Vec::new();
    for _ in 0..100 {
        tokens.push("abcd".to_string());
    }
    for t in extra {
        tokens.push(t.to_string());
    }
    ScoreParams {
        query: "qq".to_string(),
        tokens,
        normalized_query: "qq".to_string(),
    }
}

#[test]
fn fuzzy_budget_saturates_and_zeroes_later_fuzzy_tiers() {
    // Title chunk "abce" pays 100 fuzzy pairs of 2 points each, reaching
    // the 200-point budget cap; the path chunk "abcf" is fuzzy-eligible but
    // contributes exactly 0.
    let p = saturating_params(&[]);
    let n = note("n1", "abce", "abcf", false);
    assert_eq!(compute_score(&p, &n), 200 * 180);

    // With half the tokens the budget stays below the cap and the path
    // pairs still pay: 50 title pairs at 2 points plus 50 path pairs at
    // 0.5 * (1 - 1/3) * 3 * 0.3 = 0.3 points each, 115 points in all.
    let mut tokens: Vec<String> = Vec::new();
    for _ in 0..50 {
        tokens.push("abcd".to_string());
    }
    let p_half = ScoreParams {
        query: "qq".to_string(),
        tokens,
        normalized_query: "qq".to_string(),
    };
    assert_eq!(compute_score(&p_half, &n), 115 * 180);
}

#[test]
fn exact_tier_unaffected_by_saturated_budget() {
    // After the budget saturates, an exact token match still pays in full:
    // 4.0 * 4 * 2.0 = 32 points on top of the 200 fuzzy points.
    let p = saturating_params(&["abce"]);
    let n = note("n1", "abce", "abcf", false);
    assert_eq!(compute_score(&p, &n), (200 + 32) * 180);
}

#[test]
fn checked_form_agrees_with_the_plain_form() {
    let p = params("cat", &["cat", "dog"], "cat");
    let n = note("CAT", "the cat sat", "animals / pets", true);
    assert_eq!(compute_score_checked(&p, &n), Some(compute_score(&p, &n)));
}

#[test]
fn checked_form_rejects_oversized_token_lists() {
    // One enormous token pushes the weight bound past its limit.
    let big = "a".repeat(9_000_000);
    let p = ScoreParams {
        query: "q".to_string(),
        tokens: vec![big],
        normalized_query: "q".to_string(),
    };
    let n = note("n1", "title", "", false);
    assert_eq!(compute_score_checked(&p, &n), None);
}

#[test]
fn empty_inputs_follow_the_same_rules() {
    let p = params("", &[], "");
    let n = note("", "", "", false);
    // The empty id lowercases to the empty query: the identifier tier hits,
    // and the empty title equals the empty normalized query: exact tier.
    assert_eq!(compute_score(&p, &n), (1000 + 2000) * 180);

    let p2 = params("q", &[], "q");
    let n2 = note("x", "", "", false);
    assert_eq!(compute_score(&p2, &n2), 0);
}

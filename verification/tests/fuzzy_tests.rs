use folder_browser::fuzzy_match;

#[test]
fn gto_matches_go_to_top() {
    let m = fuzzy_match("gto", "go_to_top").expect("pattern should match");
    // g at 0: 10 + 15; t at 3: 10 + 10 (after '_'); o at 4: 10 + 5 (consecutive);
    // minus the candidate length 9.
    assert_eq!(m.score, 51);
    assert!(m.score > 0);
    assert_eq!(m.matched_indices, vec![0, 3, 4]);
}

#[test]
fn xyz_does_not_match_go_to_top() {
    assert!(fuzzy_match("xyz", "go_to_top").is_none());
}

#[test]
fn empty_pattern_matches_everything_with_zero() {
    let m = fuzzy_match("", "anything at all").expect("empty pattern always matches");
    assert_eq!(m.score, 0);
    assert!(m.matched_indices.is_empty());
    let m2 = fuzzy_match("", "").expect("empty pattern always matches");
    assert_eq!(m2.score, 0);
}

#[test]
fn matching_folds_pattern_case() {
    let m = fuzzy_match("GTO", "go_to_top").expect("uppercase pattern should match");
    assert_eq!(m.score, 51);
}

#[test]
fn matching_folds_candidate_case() {
    let m = fuzzy_match("gto", "GO_TO_TOP").expect("uppercase candidate should match");
    assert_eq!(m.score, 51);
}

#[test]
fn length_penalty_prefers_shorter_candidates() {
    let short = fuzzy_match("a", "a").expect("should match");
    let long = fuzzy_match("a", "ab").expect("should match");
    // Both score 10 + 15 at index 0, minus their lengths.
    assert_eq!(short.score, 24);
    assert_eq!(long.score, 23);
    assert!(short.score > long.score);
}

#[test]
fn separator_bonus_applies() {
    let m = fuzzy_match("b", "a_b").expect("should match");
    // 10 base + 10 after '_', minus length 3.
    assert_eq!(m.score, 17);
}

#[test]
fn consecutive_bonus_applies() {
    let m = fuzzy_match("ab", "ab").expect("should match");
    // a: 10 + 15; b: 10 + 5 consecutive; minus length 2.
    assert_eq!(m.score, 38);
    assert_eq!(m.matched_indices, vec![0, 1]);
}

#[test]
fn subsequence_must_be_in_order() {
    assert!(fuzzy_match("ba", "ab").is_none());
    assert!(fuzzy_match("ab", "ba").is_none());
    assert!(fuzzy_match("ab", "aXb").is_some());
}

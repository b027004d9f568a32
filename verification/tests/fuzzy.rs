use picky::fuzzy::{score, score_fields, try_score, try_score_fields};

#[test]
fn empty_query_matches_with_zero_score() {
    assert_eq!(score("", "anything"), Some(0));
    assert_eq!(score_fields("   ", &[("anything", 0)]), Some(0));
}

#[test]
fn all_terms_must_match_some_field() {
    assert!(score_fields("fire dp-3", &[("Firefox", 0), ("DP-3", 0)]).is_some());
    assert_eq!(score_fields("fire dp-4", &[("Firefox", 0), ("DP-3", 0)]), None);
}

#[test]
fn word_prefix_beats_plain_substring() {
    let word_prefix = score("term", "terminal window").unwrap();
    let substring = score("term", "midterminal window").unwrap();
    assert!(word_prefix > substring);
}

#[test]
fn field_prefix_beats_later_word_prefix() {
    let field_prefix = score("fire", "firefox developer edition").unwrap();
    let later_word_prefix = score("fire", "browser firefox").unwrap();
    assert!(field_prefix > later_word_prefix);
}

#[test]
fn multiple_field_matches_outrank_single_field_match() {
    let single = score_fields("fox", &[("Fox", 0)]).unwrap();
    let multiple = score_fields("fox", &[("Fox", 0), ("Firefox", 0)]).unwrap();
    assert!(multiple > single);
}

#[test]
fn field_prefix_score_subtracts_length_penalty() {
    // "fire" starts "firefox developer edition" (25 characters): 180 - (25 - 4) / 4.
    assert_eq!(score("fire", "firefox developer edition"), Some(175));
}

#[test]
fn word_prefix_score_subtracts_position_and_length() {
    // "fire" starts the word at position 8 of "browser firefox" (15 characters).
    assert_eq!(score("fire", "browser firefox"), Some(120 - 8 - 2));
}

#[test]
fn substring_score_subtracts_position_and_length() {
    // "term" occurs at position 3 of "midterminal window" (18 characters).
    assert_eq!(score("term", "midterminal window"), Some(70 - 3 - 3));
}

#[test]
fn matching_ignores_case() {
    assert_eq!(score("FIRE", "firefox"), score("fire", "FIREFOX"));
    assert_eq!(score("FIRE", "firefox"), Some(180 - 0));
}

#[test]
fn word_prefix_skips_overlapping_occurrences() {
    // The occurrences of "a-a" in "ba-a-a" start at 1 and 3; scanning without
    // overlap only sees the one at 1, which does not follow a boundary.
    assert_eq!(score("a-a", "ba-a-a"), Some(70 - 1 - 0));
}

#[test]
fn terms_scores_add_up() {
    let fire = score("fire", "firefox dp-3").unwrap();
    let dp = score("dp", "firefox dp-3").unwrap();
    assert_eq!(score("fire dp", "firefox dp-3"), Some(fire + dp));
    assert_eq!(score("fire zz", "firefox dp-3"), None);
}

#[test]
fn score_equals_single_field_without_bonus() {
    for (query, text) in [("fire", "Firefox"), ("term win", "terminal window"), ("x", "abc")] {
        assert_eq!(score(query, text), score_fields(query, &[(text, 0)]));
    }
}

#[test]
fn best_field_plus_echo_of_others() {
    // "fox" in "Fox": 180 (bonus 0); in "Firefox": substring at 4, penalty 1 => 65.
    // Best is 180, the other contributes its echo 6.
    assert_eq!(score_fields("fox", &[("Fox", 0), ("Firefox", 0)]), Some(186));
    // A bonus adds to the score and a tenth of it to the echo: "Firefox" now
    // scores 165 with echo 16, which still loses to "Fox" (180).
    assert_eq!(score_fields("fox", &[("Fox", 0), ("Firefox", 100)]), Some(180 + 6 + 10));
    // With a larger bonus "Firefox" wins (265) and "Fox" echoes 18.
    assert_eq!(score_fields("fox", &[("Fox", 0), ("Firefox", 200)]), Some(265 + 18));
}

#[test]
fn score_overflow_is_reported_by_checked_form() {
    assert_eq!(try_score_fields("fox", &[("Fox", i64::MAX)]), None);
    assert_eq!(try_score_fields("fox", &[("Fox", 0)]), Some(Some(180)));
    assert_eq!(try_score("fox", "Fox"), Some(Some(180)));
    assert_eq!(try_score("", "Fox"), Some(Some(0)));
}

#[test]
fn a_term_found_in_no_field_fails_and_no_fields_fail_every_term() {
    assert_eq!(score_fields("fire zzz", &[("Firefox", 0), ("Web Browser", 0)]), None);
    assert_eq!(score_fields("fire", &[]), None);
    assert_eq!(score_fields("   ", &[]), Some(0));
}

#[test]
fn a_bonus_on_a_single_field_counts_once_per_term() {
    let plain = score("fire fox", "Firefox").unwrap();
    assert_eq!(score_fields("fire fox", &[("Firefox", 7)]), Some(plain + 14));
    assert_eq!(score_fields("fire fox", &[("Firefox", -3)]), Some(plain - 6));
}

#[test]
fn adding_a_field_never_lowers_the_score() {
    let base = score_fields("fire", &[("Firefox", 0)]).unwrap();
    let unrelated = score_fields("fire", &[("Firefox", 0), ("Web Browser", 0)]).unwrap();
    let related = score_fields("fire", &[("Firefox", 0), ("campfire tools", 0)]).unwrap();
    assert_eq!(unrelated, base);
    assert!(related > base);
}

use pop_launcher_toggl::fuzzy::{fuzzy_score, match_score, match_score_wide, strip_diacritics};

fn chars(s: &str) -> Vec<char> {
    s.chars().collect()
}

#[test]
fn empty_query_scores_zero() {
    assert_eq!(fuzzy_score("", "anything"), Some(0));
    assert_eq!(fuzzy_score("", ""), Some(0));
}

#[test]
fn exact_match_scores_consecutive_and_short_text() {
    // a at a word start (2), b and c consecutive (3 each), and a short text (10).
    assert_eq!(fuzzy_score("abc", "abc"), Some(18));
}

#[test]
fn diacritics_and_case_are_ignored() {
    assert_eq!(fuzzy_score("cafe", "Café"), Some(fuzzy_score("cafe", "cafe").unwrap()));
    assert_eq!(fuzzy_score("ZLUTY", "žlutý"), fuzzy_score("zluty", "zluty"));
    assert_eq!(strip_diacritics("Ážšč"), chars("azsc"));
}

#[test]
fn word_boundaries_score_two() {
    // t at the start (2), m after a space (2); the text is long, no bonus.
    assert_eq!(fuzzy_score("tm", "toggl meeting"), Some(4));
    // g after '_' (2), then 'r' in the middle of a word (1).
    assert_eq!(fuzzy_score("gr", "xx_gxxxxxxxxxxxxxxxr"), Some(3));
}

#[test]
fn characters_out_of_order_do_not_match() {
    assert_eq!(fuzzy_score("ba", "ab"), None);
    assert_eq!(fuzzy_score("abcd", "abc"), None);
    assert_eq!(fuzzy_score("x", ""), None);
}

#[test]
fn score_is_some_exactly_for_subsequences() {
    let cases = [("ace", "abcde", true), ("aec", "abcde", false), ("aa", "a", false), ("aa", "aba", true)];
    for (q, t, sub) in cases {
        assert_eq!(match_score(&chars(q), &chars(t)).is_some(), sub, "{q} in {t}");
    }
}

#[test]
fn score_counts_between_one_and_three_per_character() {
    let s = match_score(&chars("abc"), &chars("xaxbxcxxxxxxxxxxxxxxxx")).unwrap();
    assert!(s >= 3 && s <= 9 + 10, "{s}");
    assert_eq!(s, 3);
}

#[test]
fn a_longer_text_never_scores_higher() {
    let a = fuzzy_score("abc", "abc").unwrap();
    let b = fuzzy_score("abc", "abcdef").unwrap();
    let c = fuzzy_score("abc", "abc and a much longer tail").unwrap();
    assert!(b <= a && c <= b, "{a} {b} {c}");
    assert_eq!((a, b, c), (18, 15, 8));
}

#[test]
fn wide_scores_match_the_i32_scores() {
    let long: Vec<char> = std::iter::repeat('x').take(100_000).chain("abc".chars()).collect();
    assert_eq!(match_score_wide(&chars("abc"), &long), Some(7));
    assert_eq!(match_score(&chars("abc"), &long), Some(7));
    assert_eq!(match_score_wide(&chars("abd"), &long), None);
}

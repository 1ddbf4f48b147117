use rusty_scrapper::extract::{extract_votes, find_vote_count, vote_count_in_text};
use rusty_scrapper::outcome::AttemptError;

fn chars(s: &str) -> Vec<char> {
    s.chars().collect()
}

/// The original extraction pipeline, built on the regex crate, for
/// comparison against the verified grammar.
fn regex_vote(s: &str) -> Option<u32> {
    let pattern = regex::Regex::new(r"from\s+(\d+)\s+votes?").unwrap();
    if !pattern.is_match(s) {
        return None;
    }
    pattern
        .captures(s)
        .and_then(|caps| caps.get(1))
        .and_then(|m| m.as_str().parse::<u32>().ok())
}

#[test]
fn basic_pattern() {
    assert_eq!(vote_count_in_text(&chars("rated from 42 votes here")), Some(42));
}

#[test]
fn singular_vote() {
    assert_eq!(vote_count_in_text(&chars("from 1 vote")), Some(1));
}

#[test]
fn no_pattern() {
    assert_eq!(vote_count_in_text(&chars("hello world")), None);
}

#[test]
fn missing_space_before_digits() {
    assert_eq!(vote_count_in_text(&chars("from42 votes")), None);
}

#[test]
fn no_digits() {
    assert_eq!(vote_count_in_text(&chars("from  votes")), None);
}

#[test]
fn first_occurrence_wins() {
    assert_eq!(vote_count_in_text(&chars("from 5 votes and from 9 votes")), Some(5));
}

#[test]
fn leading_zeros() {
    assert_eq!(vote_count_in_text(&chars("from 007 votes")), Some(7));
}

#[test]
fn value_just_above_u32_is_rejected() {
    assert_eq!(vote_count_in_text(&chars("from 4294967296 votes")), None);
}

#[test]
fn max_u32_value() {
    assert_eq!(vote_count_in_text(&chars("from 4294967295 votes")), Some(u32::MAX));
}

#[test]
fn long_run_of_zeros_still_fits() {
    assert_eq!(vote_count_in_text(&chars("from 0000000000000042 votes")), Some(42));
}

#[test]
fn newline_and_tab_whitespace() {
    assert_eq!(vote_count_in_text(&chars("from\n12\tvotes")), Some(12));
}

#[test]
fn no_break_space_whitespace() {
    assert_eq!(vote_count_in_text(&chars("from\u{a0}9 vote")), Some(9));
}

#[test]
fn unicode_whitespace_variants() {
    assert_eq!(vote_count_in_text(&chars("from\u{2009}3 votes")), Some(3));
    assert_eq!(vote_count_in_text(&chars("from\u{3000}21\u{3000}votes")), Some(21));
    assert_eq!(vote_count_in_text(&chars("from\u{b}5\u{c}votes")), Some(5));
}

#[test]
fn non_ascii_digits_are_not_digits() {
    assert_eq!(vote_count_in_text(&chars("from \u{660}\u{661} votes")), None);
}

#[test]
fn empty_text() {
    assert_eq!(vote_count_in_text(&chars("")), None);
}

#[test]
fn second_node_is_found() {
    let nodes = vec![chars("nothing here"), chars("from 8 votes")];
    assert_eq!(find_vote_count(&nodes), Some(8));
}

#[test]
fn first_matching_node_overflow_stops_search() {
    let nodes = vec![chars("from 5000000000 votes"), chars("from 3 votes")];
    assert_eq!(find_vote_count(&nodes), None);
}

#[test]
fn no_node_matches() {
    let nodes = vec![chars("abc"), chars("def")];
    assert_eq!(find_vote_count(&nodes), None);
}

#[test]
fn extract_from_markup() {
    assert_eq!(
        extract_votes("<html><body><p>scored from 42 votes</p></body></html>"),
        Ok(42)
    );
}

#[test]
fn extract_decodes_entities() {
    assert_eq!(
        extract_votes("<html><body>from 99 v&#111;tes</body></html>"),
        Ok(99)
    );
}

#[test]
fn extract_accepts_nbsp_entities() {
    assert_eq!(
        extract_votes("<html><body>rated from&nbsp;17&nbsp;votes</body></html>"),
        Ok(17)
    );
}

#[test]
fn markup_split_across_elements_fails() {
    assert_eq!(
        extract_votes("<html><body>from <b>7</b> votes</body></html>"),
        Err(AttemptError::Extraction)
    );
}

#[test]
fn extract_without_pattern_fails() {
    assert_eq!(
        extract_votes("<html><body>no numbers here</body></html>"),
        Err(AttemptError::Extraction)
    );
}

#[test]
fn grammar_agrees_with_regex_pipeline() {
    let cases = [
        "rated from 42 votes here",
        "from 1 vote",
        "hello world",
        "from42 votes",
        "from  votes",
        "from 5 votes and from 9 votes",
        "from 007 votes",
        "from 4294967296 votes",
        "from 4294967295 votes",
        "from\n12\tvotes",
        "from 3 vot",
        "xfrom 3 votes",
        "from 3  votes extra",
        "fro m 3 votes",
        "from 10 votes from 11 votes",
        "",
        "from\u{a0}9 vote",
        "from\u{a0}\u{2009}14\u{202f}votes",
        "from\u{b}5\u{c}votes",
        "from\u{85}6\u{1680}votes",
        "from\u{2028}8\u{205f}vote",
        "from\u{3000}21\u{3000}votes",
    ];
    for case in cases {
        assert_eq!(
            vote_count_in_text(&chars(case)),
            regex_vote(case),
            "disagreement on {:?}",
            case
        );
    }
}

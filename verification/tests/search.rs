use yutani::search::{match_chars, match_line, smart_case, Match, Search};

#[test]
fn smart_case_lowercase_is_insensitive() {
    assert!(!smart_case("foo"));
    assert!(!smart_case("foo-bar_baz 123"));
}

#[test]
fn smart_case_uppercase_is_sensitive() {
    assert!(smart_case("Foo"));
    assert!(smart_case("fooBar"));
    assert!(smart_case("ERROR"));
}

#[test]
fn smart_case_knows_uppercase_beyond_ascii() {
    assert!(smart_case("Ångström"));
    assert!(!smart_case("ångström"));
}

#[test]
fn match_line_empty_query() {
    assert!(match_line("anything", "", false).is_empty());
}

#[test]
fn match_line_no_match() {
    assert!(match_line("hello world", "xyz", false).is_empty());
}

#[test]
fn match_line_single_hit_indices() {
    // "hello world": "world" starts at char 6, ends at char 10.
    assert_eq!(match_line("hello world", "world", false), vec![(6, 10)]);
}

#[test]
fn match_line_hit_at_start_and_end() {
    assert_eq!(match_line("abcabc", "abc", false), vec![(0, 2), (3, 5)]);
}

#[test]
fn match_line_non_overlapping() {
    // "aaaa" with needle "aa" -> (0,1) and (2,3), not (1,2).
    assert_eq!(match_line("aaaa", "aa", false), vec![(0, 1), (2, 3)]);
}

#[test]
fn match_line_case_insensitive() {
    assert_eq!(match_line("Hello HELLO", "hello", false), vec![(0, 4), (6, 10)]);
}

#[test]
fn match_line_case_sensitive() {
    // Only the lowercase "hello" matches.
    assert_eq!(match_line("Hello hello", "hello", true), vec![(6, 10)]);
}

#[test]
fn match_line_multibyte_columns() {
    // Each accented char is one column; the match must report char
    // indices, not byte offsets.
    let line = "héllo wörld";
    // "wörld" begins at char 6 (h é l l o space) and ends at char 10.
    assert_eq!(match_line(line, "wörld", false), vec![(6, 10)]);
}

#[test]
fn match_line_multibyte_query_case_insensitive() {
    assert_eq!(match_line("CAFÉ café", "café", false), vec![(0, 3), (5, 8)]);
}

#[test]
fn match_line_query_longer_than_line() {
    assert!(match_line("ab", "abc", true).is_empty());
}

#[test]
fn match_line_keeps_columns_where_lowercase_grows() {
    // 'İ' lowercases to two characters, of which the first one is compared.
    assert_eq!(match_line("İx İy", "iy", false), vec![(3, 4)]);
}

#[test]
fn match_chars_covers_overlapping_occurrences() {
    let hay: Vec<char> = "xaaaaax".chars().collect();
    let need: Vec<char> = "aa".chars().collect();
    assert_eq!(match_chars(&hay, &need), vec![(1, 2), (3, 4)]);
    assert!(match_chars(&hay, &Vec::new()).is_empty());
}

#[test]
fn ring_next_prev_wrap() {
    let mut s = Search::default();
    s.set_matches(vec![
        Match { line: 0, start_col: 0, end_col: 1 },
        Match { line: 1, start_col: 0, end_col: 1 },
        Match { line: 2, start_col: 0, end_col: 1 },
    ]);
    assert_eq!(s.current, 0);
    s.next();
    assert_eq!(s.current, 1);
    s.next();
    s.next(); // wraps 2 -> 0
    assert_eq!(s.current, 0);
    s.prev(); // wraps 0 -> 2
    assert_eq!(s.current, 2);
}

#[test]
fn ring_navigation_empty_is_noop() {
    let mut s = Search::default();
    s.next();
    s.prev();
    assert_eq!(s.current, 0);
    assert!(s.current_match().is_none());
}

#[test]
fn set_matches_clamps_current() {
    let mut s = Search::default();
    s.set_matches(vec![
        Match { line: 0, start_col: 0, end_col: 0 },
        Match { line: 1, start_col: 0, end_col: 0 },
        Match { line: 2, start_col: 0, end_col: 0 },
    ]);
    s.current = 2;
    // Shrinking the list below `current` resets it to 0.
    s.set_matches(vec![Match { line: 9, start_col: 0, end_col: 0 }]);
    assert_eq!(s.current, 0);
}

#[test]
fn toggle_and_close_reset_state() {
    let mut s = Search::default();
    s.toggle();
    assert!(s.open);
    s.type_char('x');
    s.set_matches(vec![Match { line: 0, start_col: 0, end_col: 0 }]);
    s.toggle();
    assert!(!s.open);
    assert!(s.input.value.is_empty());
    assert!(s.matches.is_empty());
    assert_eq!(s.current, 0);
}

#[test]
fn stepping_back_and_forth_stays_on_the_match() {
    let mut s = Search::default();
    let hits: Vec<Match> =
        (0..4).map(|line| Match { line, start_col: 2, end_col: 3 }).collect();
    s.set_matches(hits.clone());
    for i in 0..4 {
        s.current = i;
        s.next();
        s.prev();
        assert_eq!(s.current, i);
        s.prev();
        s.next();
        assert_eq!(s.current, i);
        assert_eq!(s.current_match(), Some(hits[i]));
    }
}

#[test]
fn query_is_edited_at_its_end() {
    let mut s = Search::default();
    s.backspace();
    assert_eq!(s.input.value, "");
    s.type_char('a');
    s.type_char('é');
    assert_eq!(s.input.value, "aé");
    s.backspace();
    assert_eq!(s.input.value, "a");
    s.open();
    assert_eq!(s.input.value, "");
}

#[test]
fn steps_from_any_place() {
    let mut s = Search::default();
    s.current = usize::MAX;
    s.next();
    s.prev();
    assert_eq!(s.current, usize::MAX, "without matches nothing moves");
    s.matches = vec![Match { line: 0, start_col: 0, end_col: 1 }; 3];
    s.current = 4;
    s.next();
    assert_eq!(s.current, 2);
    s.current = 4;
    s.prev();
    assert_eq!(s.current, 0);
}

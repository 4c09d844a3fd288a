use table_regex::compiler::RegexError;
use table_regex::table::{Regex, RegexAction, REGEX_COLUMN_SIZE, REGEX_END};

fn compiled(p: &str) -> Regex {
    match Regex::compile(p) {
        Ok(r) => r,
        Err(e) => panic!("pattern {:?} refused: {:?}", p, e),
    }
}

fn act(next: usize, offset: usize) -> RegexAction {
    RegexAction { next, offset }
}

#[test]
fn literal_pattern_matches_itself_and_longer_subjects() {
    for p in ["a", "abc", "Hello, world!", "x y"] {
        let r = compiled(p);
        assert!(r.match_str(p));
        assert!(r.match_str(&format!("{}zzz", p)));
        assert!(r.match_str(&format!("{} tail", p)));
    }
    let r = compiled("abc");
    assert!(!r.match_str("ab"));
    assert!(!r.match_str("xabc"));
}

#[test]
fn end_anchor_rejects_trailing_input() {
    let r = compiled("abc$");
    assert!(r.match_str("abc"));
    assert!(!r.match_str("abcx"));
    assert!(!r.match_str("ab"));
}

#[test]
fn wildcard_matches_any_supported_character() {
    let r = compiled("a.c");
    assert!(r.match_str("abc"));
    assert!(r.match_str("a c"));
    assert!(r.match_str("a~c"));
    assert!(!r.match_str("ac"));
}

#[test]
fn star_accepts_zero_or_many() {
    let r = compiled("ab*c");
    assert!(r.match_str("ac"));
    assert!(r.match_str("abc"));
    assert!(r.match_str("abbbbc"));
    assert!(!r.match_str("abbbbd"));
}

#[test]
fn plus_needs_at_least_one() {
    let r = compiled("ab+c");
    assert!(!r.match_str("ac"));
    assert!(r.match_str("abc"));
    assert!(r.match_str("abbbc"));
}

#[test]
fn demo_pattern_against_samples() {
    let r = compiled("a+bc$");
    let cases = [
        ("Hello!", false),
        ("abc", true),
        ("bc", false),
        ("abcd", false),
        ("abcdefghij", false),
    ];
    for (s, expected) in cases {
        assert_eq!(r.match_str(s), expected, "subject {:?}", s);
    }
}

#[test]
fn compiling_twice_gives_identical_tables() {
    for p in ["a+bc$", "x.y*z", "", "q+"] {
        let a = compiled(p);
        let b = compiled(p);
        assert_eq!(a.num_columns(), b.num_columns());
        for state in 0..a.num_columns() {
            for sym in 0..REGEX_COLUMN_SIZE {
                assert_eq!(a.action(state, sym), b.action(state, sym));
            }
        }
        for s in ["abc", "xyz", "xyyyz", "q", "", "aabc"] {
            assert_eq!(a.match_str(s), b.match_str(s));
        }
    }
}

#[test]
fn empty_pattern_matches_everything() {
    let r = compiled("");
    assert_eq!(r.num_columns(), 1);
    assert!(r.match_str(""));
    assert!(r.match_str("anything"));
}

#[test]
fn literal_columns_advance_on_their_symbol_only() {
    let r = compiled("ab");
    assert_eq!(r.num_columns(), 3);
    assert_eq!(r.action(1, 'a' as usize), act(2, 1));
    assert_eq!(r.action(1, 'b' as usize), act(0, 0));
    assert_eq!(r.action(2, 'b' as usize), act(3, 1));
    assert_eq!(r.action(2, REGEX_END), act(0, 0));
    for sym in 0..REGEX_COLUMN_SIZE {
        assert_eq!(r.action(0, sym), act(0, 0));
    }
}

#[test]
fn wildcard_column_covers_printable_range() {
    let r = compiled(".");
    for sym in 0..REGEX_COLUMN_SIZE {
        let expected = if (32..=126).contains(&sym) { act(2, 1) } else { act(0, 0) };
        assert_eq!(r.action(1, sym), expected);
    }
}

#[test]
fn end_column_advances_on_end_of_input_only() {
    let r = compiled("$");
    assert_eq!(r.action(1, REGEX_END), act(2, 1));
    assert_eq!(r.action(1, 'a' as usize), act(0, 0));
    assert!(r.match_str(""));
    assert!(!r.match_str("a"));
}

#[test]
fn star_rewrites_its_column_in_place() {
    let r = compiled("a*");
    assert_eq!(r.num_columns(), 2);
    assert_eq!(r.action(1, 'a' as usize), act(1, 1));
    assert_eq!(r.action(1, 'b' as usize), act(2, 0));
    assert_eq!(r.action(1, REGEX_END), act(2, 0));
    assert!(r.match_str(""));
    assert!(r.match_str("aaa"));
}

#[test]
fn plus_appends_a_repeating_copy() {
    let r = compiled("a+");
    assert_eq!(r.num_columns(), 3);
    assert_eq!(r.action(1, 'a' as usize), act(2, 1));
    assert_eq!(r.action(1, 'b' as usize), act(0, 0));
    assert_eq!(r.action(2, 'a' as usize), act(2, 1));
    assert_eq!(r.action(2, 'b' as usize), act(3, 0));
    assert!(!r.match_str(""));
    assert!(r.match_str("a"));
    assert!(r.match_str("aaab"));
}

#[test]
fn end_of_input_is_resolved_once() {
    assert!(compiled("ab*").match_str("a"));
    assert!(!compiled("ab*c").match_str("a"));
    assert!(!compiled("ab*$").match_str("a"));
}

#[test]
fn quantifier_without_atom_is_refused() {
    for p in ["*", "+a", "a**", "a+*", "a*+", "$*", "a$+"] {
        assert!(
            matches!(Regex::compile(p), Err(RegexError::InvalidQuantifierPlacement)),
            "pattern {:?}",
            p
        );
    }
    assert!(Regex::compile(".*").is_ok());
    assert!(Regex::compile("a.+").is_ok());
}

#[test]
fn unsupported_pattern_symbol_is_refused() {
    for p in ["a\u{e9}", "\tb", "caf\u{e9}*", "\u{7f}"] {
        assert!(
            matches!(Regex::compile(p), Err(RegexError::UnsupportedSymbol)),
            "pattern {:?}",
            p
        );
    }
}

#[test]
fn leftmost_error_is_reported() {
    assert!(matches!(Regex::compile("*\u{e9}"), Err(RegexError::InvalidQuantifierPlacement)));
    assert!(matches!(Regex::compile("\u{e9}*"), Err(RegexError::UnsupportedSymbol)));
}

#[test]
fn checked_match_reports_unsupported_subject() {
    let r = compiled("a.c");
    assert_eq!(r.try_match_str("abc"), Ok(true));
    assert_eq!(r.try_match_str("ac"), Ok(false));
    assert_eq!(r.try_match_str("a\u{e9}c"), Err(RegexError::UnsupportedSymbol));
    assert_eq!(r.try_match_str("a\nc"), Err(RegexError::UnsupportedSymbol));
}

#[test]
fn must_compile_builds_the_same_table() {
    let a = Regex::must_compile("a+bc$");
    let b = compiled("a+bc$");
    assert_eq!(a.num_columns(), b.num_columns());
    for state in 0..a.num_columns() {
        for sym in 0..REGEX_COLUMN_SIZE {
            assert_eq!(a.action(state, sym), b.action(state, sym));
        }
    }
}

use agg_files::glob::{Pattern, is_match_all};

#[test]
fn star_ts_matches_simple_names() {
    let p = Pattern::compile("*.ts").expect("pattern compiles");
    assert!(p.matches("a.ts"));
    assert!(p.matches("dir/b.ts"));
    assert!(!p.matches("a.tsx"));
}

#[test]
fn suffix_is_anchored_at_the_end() {
    let p = Pattern::compile("*.ts").expect("pattern compiles");
    assert!(!p.matches("a.ts.bak"));
    assert!(!p.matches("ts"));
    assert!(p.matches(".ts"));
}

#[test]
fn dot_is_literal_not_any_character() {
    let p = Pattern::compile("*.ts").expect("pattern compiles");
    assert!(!p.matches("axts"));
}

#[test]
fn brace_alternation_two_ways() {
    let p = Pattern::compile("*.{ts,tsx}").expect("pattern compiles");
    assert!(p.matches("a.ts"));
    assert!(p.matches("a.tsx"));
    assert!(!p.matches("a.js"));
}

#[test]
fn brace_alternation_three_ways() {
    let p = Pattern::compile("{main,lib,mod}.rs").expect("pattern compiles");
    assert!(p.matches("main.rs"));
    assert!(p.matches("lib.rs"));
    assert!(p.matches("src/mod.rs"));
    assert!(!p.matches("other.rs"));
}

#[test]
fn spaces_are_stripped_before_compilation() {
    let spaced = Pattern::compile("*.{ts, tsx}").expect("pattern compiles");
    assert!(spaced.matches("a.tsx"));
    assert!(spaced.matches("a.ts"));
    assert!(!spaced.matches("a. tsx"));
}

#[test]
fn inner_star_matches_any_run() {
    let p = Pattern::compile("test*.rs").expect("pattern compiles");
    assert!(p.matches("test_util.rs"));
    assert!(p.matches("test.rs"));
    assert!(!p.matches("best.rs"));
}

#[test]
fn empty_path_is_matched_only_by_empty_tail() {
    let p = Pattern::compile("*").expect("pattern compiles");
    assert!(p.matches(""));
    assert!(p.matches("anything"));
}

#[test]
fn malformed_braces_are_refused() {
    assert!(Pattern::compile("{a").is_none());
    assert!(Pattern::compile("a}").is_none());
    assert!(Pattern::compile("{a,{b}}").is_none());
    assert!(Pattern::compile("a,b").is_none());
}

#[test]
fn alien_metacharacters_are_refused() {
    assert!(Pattern::compile("a(b").is_none());
    assert!(Pattern::compile("a[0]").is_none());
    assert!(Pattern::compile("a|b").is_none());
    assert!(Pattern::compile("a\\b").is_none());
}

#[test]
fn match_all_forms_are_recognised() {
    assert!(is_match_all("*"));
    assert!(is_match_all("./*"));
    assert!(!is_match_all("*.ts"));
    assert!(!is_match_all("**"));
    assert!(!is_match_all(""));
}

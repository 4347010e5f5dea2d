use nash::text::{last_token_of, split_lines, starts_with, suffix_from, tokenize};

fn tx(s: &str) -> Vec<char> {
    s.chars().collect()
}

#[test]
fn last_token_takes_final_word() {
    assert_eq!(last_token_of(&tx("ls -a")), tx("-a"));
}

#[test]
fn last_token_ignores_trailing_spaces() {
    assert_eq!(last_token_of(&tx("ls ")), tx("ls"));
}

#[test]
fn last_token_empty_buffer() {
    assert_eq!(last_token_of(&tx("")), tx(""));
    assert_eq!(last_token_of(&tx("   ")), tx(""));
}

#[test]
fn last_token_single_word() {
    assert_eq!(last_token_of(&tx("cargo")), tx("cargo"));
}

#[test]
fn tokenize_splits_on_whitespace() {
    let toks = tokenize(&tx("  ls  -a   /tmp "));
    assert_eq!(toks, vec![tx("ls"), tx("-a"), tx("/tmp")]);
}

#[test]
fn tokenize_empty_and_blank() {
    assert_eq!(tokenize(&tx("")).len(), 0);
    assert_eq!(tokenize(&tx(" \t ")).len(), 0);
}

#[test]
fn split_lines_three_lines() {
    let lines = split_lines(&tx("one\ntwo\nthree"));
    assert_eq!(lines, vec![tx("one"), tx("two"), tx("three")]);
}

#[test]
fn split_lines_empty_is_one_line() {
    assert_eq!(split_lines(&tx("")), vec![tx("")]);
}

#[test]
fn split_lines_trailing_newline() {
    assert_eq!(split_lines(&tx("a\n")), vec![tx("a"), tx("")]);
}

#[test]
fn starts_with_prefix_cases() {
    assert!(starts_with(&tx("lsof"), &tx("ls")));
    assert!(starts_with(&tx("ls"), &tx("")));
    assert!(starts_with(&tx("ls"), &tx("ls")));
    assert!(!starts_with(&tx("ls"), &tx("lsof")));
    assert!(!starts_with(&tx("cp"), &tx("ls")));
}

#[test]
fn suffix_from_copies_tail() {
    assert_eq!(suffix_from(&tx("lsof"), 2), tx("of"));
    assert_eq!(suffix_from(&tx("lsof"), 4), tx(""));
    assert_eq!(suffix_from(&tx("lsof"), 0), tx("lsof"));
}

use spacefmt::boundary::tab_indent;
use spacefmt::boundary::word_space;
use spacefmt::classify::comment;
use spacefmt::classify::quotations;
use spacefmt::lexer::make_vec_string;
use spacefmt::nesting::tab_counting;
use spacefmt::spacing::math_spaces;
use spacefmt::spacing::space_token;

fn to_vec(s: &str) -> Vec<char> {
    s.chars().collect()
}

fn to_str(v: &[char]) -> String {
    v.iter().collect()
}

fn toks(parts: &[&str]) -> Vec<Vec<char>> {
    parts.iter().map(|p| to_vec(p)).collect()
}

#[test]
fn lexer_splits_on_spaces_and_newlines() {
    let got = make_vec_string(to_vec("a b\nc"));
    let want = toks(&["a", "b\n", "c"]);
    assert_eq!(got, want);
}

#[test]
fn lexer_keeps_string_tokens_whole() {
    let got = make_vec_string(to_vec("x=\"a b\";\n"));
    let want = toks(&["x=", "\"a b\"", ";\n", ""]);
    assert_eq!(got, want);
}

#[test]
fn lexer_keeps_line_comment_until_newline() {
    let got = make_vec_string(to_vec("a //x y\nb"));
    let want = toks(&["a", "//x y\n", "b"]);
    assert_eq!(got, want);
}

#[test]
fn lexer_keeps_block_comment_with_newlines() {
    let got = make_vec_string(to_vec("a /*x\ny*/ b"));
    let want = toks(&["a", "/*x\ny*/", "b"]);
    assert_eq!(got, want);
}

#[test]
fn lexer_emits_final_partial_token() {
    let got = make_vec_string(to_vec("ab"));
    let want = toks(&["ab"]);
    assert_eq!(got, want);
}

#[test]
fn classify_quotation_token() {
    let v = toks(&["\"q\"", "plain", "//c", "/*b*/"]);
    assert!(quotations(&v, 0));
    assert!(!quotations(&v, 1));
    assert!(!quotations(&v, 2));
}

#[test]
fn classify_comment_token() {
    let v = toks(&["\"q\"", "plain", "//c", "/*b*/"]);
    assert!(!comment(&v, 0));
    assert!(!comment(&v, 1));
    assert!(comment(&v, 2));
    assert!(comment(&v, 3));
}

#[test]
fn tab_counting_balances_to_zero() {
    assert_eq!(tab_counting(0, &to_vec("{{}}")), 0);
}

#[test]
fn tab_counting_tracks_depth() {
    assert_eq!(tab_counting(0, &to_vec("{{")), 2);
    assert_eq!(tab_counting(2, &to_vec("}")), 1);
    assert_eq!(tab_counting(0, &to_vec("}")), -1);
    assert_eq!(tab_counting(1, &to_vec("a{b}c{")), 2);
}

#[test]
fn math_spaces_applies_one_pattern() {
    assert_eq!(to_str(&math_spaces(3, to_vec("a=1;"))), "a = 1;");
    assert_eq!(to_str(&math_spaces(1, to_vec("x+=1"))), "x += 1");
    assert_eq!(to_str(&math_spaces(0, to_vec("i++j"))), "i++ j");
    assert_eq!(to_str(&math_spaces(4, to_vec("=x"))), "= x");
}

#[test]
fn math_spaces_without_match_is_identity() {
    assert_eq!(to_str(&math_spaces(3, to_vec("abc"))), "abc");
    assert_eq!(to_str(&math_spaces(9, to_vec("a=1"))), "a=1");
}

#[test]
fn space_token_reaches_fixpoint() {
    assert_eq!(to_str(&space_token(to_vec("a=b=c"))), "a = b = c");
    assert_eq!(to_str(&space_token(to_vec("a<=b"))), "a <= b");
    assert_eq!(to_str(&space_token(to_vec("a!=b"))), "a != b");
    assert_eq!(to_str(&space_token(to_vec("noop"))), "noop");
}

#[test]
fn word_space_appends_single_separator() {
    let v = toks(&["ab", "cd"]);
    assert_eq!(to_str(&word_space(to_vec("ab"), 0, 4, &v, 0)), "ab ");
}

#[test]
fn word_space_skips_before_string_token() {
    let v = toks(&["x=", "\"s\""]);
    assert_eq!(to_str(&word_space(to_vec("x="), 0, 4, &v, 0)), "x=");
}

#[test]
fn word_space_indents_after_newline() {
    let v = toks(&["a{\n", "b\n"]);
    assert_eq!(to_str(&word_space(to_vec("a{\n"), 1, 4, &v, 0)), "a{\n    ");
}

#[test]
fn tab_indent_dedents_before_closing_brace() {
    let v = toks(&["b\n", "}\n"]);
    assert_eq!(to_str(&tab_indent(2, 4, to_vec("b\n"), &v, 0)), "b\n    ");
    let w = toks(&["b\n", "c\n"]);
    assert_eq!(to_str(&tab_indent(2, 4, to_vec("b\n"), &w, 0)), "b\n        ");
}

#[test]
fn tab_indent_negative_depth_adds_nothing() {
    let v = toks(&["b\n", "c\n"]);
    assert_eq!(to_str(&tab_indent(-1, 4, to_vec("b\n"), &v, 0)), "b\n");
}

fn to_vec(s: &str) -> Vec<char> {
    s.chars().collect()
}

fn to_str(v: &[char]) -> String {
    v.iter().collect()
}

fn run(s: &str, tab: u8) -> String {
    to_str(&spacefmt::engine::format(to_vec(s), tab))
}

fn stripped(s: &str) -> String {
    s.chars().filter(|c| *c != ' ' && *c != '\n').collect()
}

#[test]
fn single_assignment_spaced() {
    assert_eq!(run("a=1;\n", 4), "a = 1;\n");
}

#[test]
fn brace_block_indented() {
    assert_eq!(run("if(x){\nfoo();\n}\n", 4), "if(x){\n    foo();\n}\n");
}

#[test]
fn compound_operator_kept_adjacent() {
    assert_eq!(run("x+=1\n", 4), "x += 1\n");
}

#[test]
fn string_literal_passes_through() {
    // The quoted token keeps its exact content; no space is inserted before
    // a string-literal token, so the plain token ahead of it is unchanged.
    let out = run("x=\"a=b\";\n", 4);
    assert!(out.contains("\"a=b\""));
    assert_eq!(out, "x=\"a=b\";\n");
}

#[test]
fn string_with_spaces_kept_verbatim() {
    let out = run("say \"a b c\" now\n", 4);
    assert!(out.contains("\"a b c\""));
}

#[test]
fn line_comment_not_spaced() {
    assert_eq!(run("a=1 // b=2\n", 4), "a = 1 // b=2\n");
}

#[test]
fn block_comment_not_spaced() {
    assert_eq!(run("/*x=1*/y\n", 4), "/*x=1*/ y\n");
}

#[test]
fn nested_braces_indent_and_dedent() {
    assert_eq!(run("a{\nb{\nc\n}\n}\n", 2), "a{\n  b{\n    c\n  }\n}\n");
}

#[test]
fn tab_width_is_honored() {
    assert_eq!(run("if(x){\nfoo();\n}\n", 8), "if(x){\n        foo();\n}\n");
    assert_eq!(run("if(x){\nfoo();\n}\n", 0), "if(x){\nfoo();\n}\n");
}

#[test]
fn equality_operator_spaced_both_sides() {
    assert_eq!(run("a==b\n", 4), "a == b\n");
}

#[test]
fn sign_run_spaced_after() {
    assert_eq!(run("i++j\n", 4), "i++ j\n");
}

#[test]
fn operator_run_of_punctuation_only_is_left_alone() {
    assert_eq!(run("===\n", 4), "===\n");
}

#[test]
fn plain_single_plus_spaced() {
    assert_eq!(run("a+b\n", 4), "a + b\n");
}

#[test]
fn empty_input_stays_empty() {
    assert_eq!(run("", 4), "");
}

#[test]
fn interior_space_runs_collapse() {
    assert_eq!(run("a   b\n", 4), "a b\n");
}

#[test]
fn content_preserved_under_stripping() {
    let input = "fn f(){\nlet x=1;\nx+=2;\n}\n";
    let out = run(input, 4);
    assert_eq!(stripped(&out), stripped(input));
}

#[test]
fn balanced_braces_return_depth_to_zero() {
    // After a balanced text the last line carries no indentation.
    let out = run("{\n{\n}\n}\nend\n", 4);
    assert!(out.ends_with("end\n"));
    assert_eq!(stripped(&out), stripped("{\n{\n}\n}\nend\n"));
}

#[test]
fn trailing_token_gets_single_space() {
    assert_eq!(run("abc", 4), "abc ");
}

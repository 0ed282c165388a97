use rsh::shell::tokenizer::tokenize;

fn toks(line: &str) -> Vec<String> {
    tokenize(line)
}

#[test]
fn splits_on_whitespace_and_appends_terminator() {
    assert_eq!(toks("echo hi"), vec!["echo".to_string(), "hi".to_string(), ";".to_string()]);
}

#[test]
fn empty_line_is_just_the_terminator() {
    assert_eq!(toks(""), vec![";".to_string()]);
    assert_eq!(toks("   \t \n"), vec![";".to_string()]);
}

#[test]
fn existing_terminator_is_not_duplicated() {
    assert_eq!(toks("a ;"), vec!["a".to_string(), ";".to_string()]);
}

#[test]
fn semicolon_needs_surrounding_whitespace() {
    // no splitting happens inside a word: `a;` is one ordinary token
    assert_eq!(toks("a;"), vec!["a;".to_string(), ";".to_string()]);
}

#[test]
fn runs_of_mixed_whitespace_collapse() {
    assert_eq!(
        toks("  ls \t -l\n/tmp  "),
        vec!["ls".to_string(), "-l".to_string(), "/tmp".to_string(), ";".to_string()]
    );
}

#[test]
fn operators_are_plain_tokens_to_the_tokenizer() {
    assert_eq!(
        toks("a | b > f"),
        vec![
            "a".to_string(),
            "|".to_string(),
            "b".to_string(),
            ">".to_string(),
            "f".to_string(),
            ";".to_string()
        ]
    );
}

#[test]
fn no_quoting_is_interpreted() {
    assert_eq!(
        toks("echo \"hi there\""),
        vec!["echo".to_string(), "\"hi".to_string(), "there\"".to_string(), ";".to_string()]
    );
}

use mdprep::highlight::{
    command_words, failure_message, highlight_command, highlight_output,
    replace_language_placeholder, HighlightError,
};

fn strings(words: &[&str]) -> Vec<String> {
    words.iter().map(|w| w.to_string()).collect()
}

#[test]
fn command_is_split_and_the_placeholder_replaced() {
    let words = highlight_command("pygmentize -f html -O cssclass=syntax -l {}", "rust").unwrap();
    assert_eq!(words, strings(&["pygmentize", "-f", "html", "-O", "cssclass=syntax", "-l", "rust"]));
}

#[test]
fn command_follows_shell_quoting() {
    let words = highlight_command("'my tool' --lang \"{}\" a\\ b", "c++").unwrap();
    assert_eq!(words, strings(&["my tool", "--lang", "c++", "a b"]));
}

#[test]
fn placeholder_is_replaced_only_as_a_whole_word() {
    let mut words = strings(&["hl", "{}", "x{}", "{}{}", "{ }", "{}"]);
    replace_language_placeholder(&mut words, "go");
    assert_eq!(words, strings(&["hl", "go", "x{}", "{}{}", "{ }", "go"]));
}

#[test]
fn command_without_placeholder_is_kept() {
    assert_eq!(highlight_command("cat", "rust").unwrap(), strings(&["cat"]));
}

#[test]
fn empty_command_is_an_error() {
    assert_eq!(highlight_command("", "rust"), Err(HighlightError::EmptyCommand));
    assert_eq!(highlight_command("   # only a comment", "rust"), Err(HighlightError::EmptyCommand));
    assert_eq!(HighlightError::EmptyCommand.message(), "command is empty");
}

#[test]
fn unclosed_quote_is_an_error() {
    let error = highlight_command("cat 'oops", "rust").unwrap_err();
    assert_eq!(error, HighlightError::Syntax(shell_words::ParseError));
    assert_eq!(error.message(), "missing closing quote");
}

#[test]
fn command_words_takes_either_outcome() {
    assert_eq!(
        command_words(Err(shell_words::ParseError), "x"),
        Err(HighlightError::Syntax(shell_words::ParseError))
    );
    assert_eq!(command_words(Ok(Vec::new()), "x"), Err(HighlightError::EmptyCommand));
    assert_eq!(command_words(Ok(strings(&["{}"])), "x"), Ok(strings(&["x"])));
}

#[test]
fn successful_output_is_the_fragment() {
    let words = strings(&["cat"]);
    let output = "fn main() {}".as_bytes().to_vec();
    assert_eq!(
        highlight_output(&words, true, "exit status: 0", output),
        Ok("fn main() {}".to_string())
    );
    let accented = "<b>é</b>".as_bytes().to_vec();
    assert_eq!(highlight_output(&words, true, "exit status: 0", accented), Ok("<b>é</b>".to_string()));
}

#[test]
fn output_that_is_not_utf8_is_an_error() {
    let words = strings(&["cat"]);
    let error = highlight_output(&words, true, "exit status: 0", vec![0x66, 0xff, 0x6f]).unwrap_err();
    assert!(matches!(error, HighlightError::Encoding(_)));
}

#[test]
fn highlighter_failure() {
    let words = strings(&["false"]);
    let error = highlight_output(&words, false, "exit status: 1", Vec::new()).unwrap_err();
    assert_eq!(
        error,
        HighlightError::Failed {
            message: "false exited with non-zero exit code: exit status: 1".to_string()
        }
    );
    assert_eq!(error.message(), "false exited with non-zero exit code: exit status: 1");
}

#[test]
fn failure_names_the_quoted_command_line() {
    let words = strings(&["my tool", "-l", "it's", ""]);
    let error = highlight_output(&words, false, "exit status: 2", b"ignored".to_vec()).unwrap_err();
    assert_eq!(
        error.message(),
        "'my tool' -l 'it'\\''s' '' exited with non-zero exit code: exit status: 2"
    );
}

#[test]
fn failure_message_formula() {
    assert_eq!(
        failure_message("hl -x", "signal: 9 (SIGKILL)"),
        "hl -x exited with non-zero exit code: signal: 9 (SIGKILL)"
    );
}

//! The highlighter: an outside program that turns the text of a code block
//! into an HTML fragment. Here stand the command that is run and the reading
//! of what the program gave back; running it is the caller's part.

use vstd::prelude::*;
use vstd::string::StringExecFns;
use vstd::utf8::{decode_utf8, valid_utf8};

verus! {

/// The error of `shell_words::split`: a quote is never closed.
#[verifier::external_type_specification]
#[verifier::external_body]
pub struct ExParseError(shell_words::ParseError);

/// The error of `String::from_utf8`.
#[verifier::external_type_specification]
#[verifier::external_body]
pub struct ExFromUtf8Error(std::string::FromUtf8Error);

/// The words into which a Unix shell's quoting rules split `command`, `None`
/// where a quote is never closed. The rules are not restated here.
pub uninterp spec fn shell_split(command: Seq<char>) -> Option<Seq<Seq<char>>>;

/// The command line that holds `words`, each quoted as a Unix shell needs it.
/// The quoting rules are not restated here.
pub uninterp spec fn shell_join(words: Seq<Seq<char>>) -> Seq<char>;

/// Calls `shell_words::split`. The contract claims that the outcome depends
/// on the command alone: the words on success are `shell_split(command)`, and
/// the call fails exactly where `shell_split(command)` is `None`.
#[verifier::external_body]
fn split_words(command: &str) -> (r: Result<Vec<String>, shell_words::ParseError>)
    ensures
        match r {
            Ok(words) => shell_split(command@) == Some(words.deep_view()),
            Err(_) => shell_split(command@) is None,
        },
{
    shell_words::split(command)
}

/// Calls `shell_words::join`. The contract claims that the result depends on
/// the words alone and calls it `shell_join(words)`.
#[verifier::external_body]
fn join_words(words: &Vec<String>) -> (r: String)
    ensures
        r@ == shell_join(words.deep_view()),
{
    shell_words::join(words)
}

/// Calls `String::from_utf8`. The contract claims that the call succeeds
/// exactly on valid UTF-8 and then gives the text that the bytes encode.
#[verifier::external_body]
fn text_from_utf8(bytes: Vec<u8>) -> (r: Result<String, std::string::FromUtf8Error>)
    ensures
        match r {
            Ok(text) => valid_utf8(bytes@) && text@ == decode_utf8(bytes@),
            Err(_) => !valid_utf8(bytes@),
        },
{
    String::from_utf8(bytes)
}

/// Why a code block could not be highlighted.
#[derive(Debug, PartialEq, Eq)]
pub enum HighlightError {
    /// The command has a quote that is never closed.
    Syntax(shell_words::ParseError),
    /// The command holds no word.
    EmptyCommand,
    /// The program ended with a failure status; the message names the
    /// command line and the status.
    Failed { message: String },
    /// The program's output is not UTF-8.
    Encoding(std::string::FromUtf8Error),
}

impl HighlightError {
    /// The error in words. For an empty command and for a failed program the
    /// text is fixed by the contract; for the other two it is the text of
    /// the underlying error.
    pub fn message(&self) -> (r: String)
        ensures
            self is EmptyCommand ==> r@ == "command is empty"@,
            self is Failed ==> r@ == self->message@,
    {
        match self {
            HighlightError::Syntax(cause) => cause.to_string(),
            HighlightError::EmptyCommand => String::from_str("command is empty"),
            HighlightError::Failed { message } => message.clone(),
            HighlightError::Encoding(cause) => cause.to_string(),
        }
    }
}

/// The words of a command in which every word that is exactly `{}` has given
/// way to the language tag.
pub open spec fn with_language(words: Seq<Seq<char>>, language: Seq<char>) -> Seq<Seq<char>> {
    Seq::new(
        words.len(),
        |i: int|
            if words[i] == "{}"@ {
                language
            } else {
                words[i]
            },
    )
}

/// Puts the language tag in the place of every word that is exactly `{}`.
pub fn replace_language_placeholder(words: &mut Vec<String>, language: &str)
    ensures
        final(words).deep_view() == with_language(old(words).deep_view(), language@),
{
    let placeholder = String::from_str("{}");
    let mut i: usize = 0;
    while i < words.len()
        invariant
            i <= words.len(),
            words.len() == old(words).len(),
            placeholder@ == "{}"@,
            forall|k: int|
                0 <= k < i ==> words[k]@ == with_language(old(words).deep_view(), language@)[k],
            forall|k: int| i <= k < words.len() ==> words[k]@ == old(words)[k]@,
        decreases words.len() - i,
    {
        if words[i] == placeholder {
            words.set(i, String::from_str(language));
        }
        i = i + 1;
    }
    assert(words.deep_view() =~= with_language(old(words).deep_view(), language@));
}

/// The command to run for a code block in `language`, from the outcome of
/// splitting the configured command into words.
pub fn command_words(split: Result<Vec<String>, shell_words::ParseError>, language: &str) -> (r:
    Result<Vec<String>, HighlightError>)
    ensures
        match split {
            Err(cause) => r is Err && r->Err_0 == HighlightError::Syntax(cause),
            Ok(words) => if words.len() == 0 {
                r is Err && r->Err_0 is EmptyCommand
            } else {
                r is Ok && r->Ok_0.deep_view() == with_language(words.deep_view(), language@)
            },
        },
{
    match split {
        Err(cause) => Err(HighlightError::Syntax(cause)),
        Ok(words) => {
            let ghost given = words.deep_view();
            let mut words = words;
            replace_language_placeholder(&mut words, language);
            assert(words.deep_view().len() == given.len());
            if words.len() == 0 {
                Err(HighlightError::EmptyCommand)
            } else {
                Ok(words)
            }
        },
    }
}

/// The program and its arguments for a code block in `language`: the words
/// of `command`, with the language tag in the place of every `{}`. An
/// unclosed quote and a command without words are errors.
pub fn highlight_command(command: &str, language: &str) -> (r: Result<Vec<String>, HighlightError>)
    ensures
        match shell_split(command@) {
            None => r is Err && r->Err_0 is Syntax,
            Some(words) => if words.len() == 0 {
                r is Err && r->Err_0 is EmptyCommand
            } else {
                r is Ok && r->Ok_0.deep_view() == with_language(words, language@)
            },
        },
{
    let split = split_words(command);
    command_words(split, language)
}

/// The message for a program that ended with a failure status.
pub open spec fn failure_text(command_line: Seq<char>, status: Seq<char>) -> Seq<char> {
    command_line + " exited with non-zero exit code: "@ + status
}

/// The message for the command line `command_line` that ended with `status`.
pub fn failure_message(command_line: &str, status: &str) -> (r: String)
    ensures
        r@ == failure_text(command_line@, status@),
{
    let mut message = String::from_str(command_line);
    message.append(" exited with non-zero exit code: ");
    message.append(status);
    message
}

/// Reads what the program `words` gave back. If it succeeded, its output is
/// the fragment, and must be UTF-8; if not, the error names the command line
/// and `status`, the exit status in words.
pub fn highlight_output(words: &Vec<String>, succeeded: bool, status: &str, output: Vec<u8>) -> (r:
    Result<String, HighlightError>)
    ensures
        succeeded && valid_utf8(output@) ==> r is Ok && r->Ok_0@ == decode_utf8(output@),
        succeeded && !valid_utf8(output@) ==> r is Err && r->Err_0 is Encoding,
        !succeeded ==> r is Err && r->Err_0 is Failed && r->Err_0->message@ == failure_text(
            shell_join(words.deep_view()),
            status@,
        ),
{
    if succeeded {
        match text_from_utf8(output) {
            Ok(text) => Ok(text),
            Err(cause) => Err(HighlightError::Encoding(cause)),
        }
    } else {
        let command_line = join_words(words);
        Err(HighlightError::Failed { message: failure_message(command_line.as_str(), status) })
    }
}

} // verus!

//! The metadata block of a document: its text is TOML, parsed into a generic
//! tree value.

use vstd::prelude::*;
use vstd::string::StringExecFns;

verus! {

/// The tree value that holds parsed frontmatter. Its inside is not modelled:
/// the preprocessor only stores it and hands it on.
#[verifier::external_type_specification]
#[verifier::external_body]
pub struct ExValue(serde_json::Value);

/// The error with which the TOML parser rejects a text.
#[verifier::external_type_specification]
#[verifier::external_body]
pub struct ExTomlError(toml::de::Error);

/// The tree that the TOML parser gives for `text`, `None` where it rejects
/// the text. The TOML grammar is not restated here.
pub uninterp spec fn toml_document(text: Seq<char>) -> Option<serde_json::Value>;

/// Calls `toml::from_str` with `serde_json::Value` as the target type. The
/// contract claims that the outcome depends on the text alone: the value on
/// success is `toml_document(text)`, and the call fails exactly where
/// `toml_document(text)` is `None`.
#[verifier::external_body]
pub(crate) fn parse_toml(text: &str) -> (r: Result<serde_json::Value, toml::de::Error>)
    ensures
        match r {
            Ok(value) => toml_document(text@) == Some(value),
            Err(_) => toml_document(text@) is None,
        },
{
    toml::from_str(text)
}

/// Why a pass over a document was aborted.
#[derive(Debug, PartialEq, Eq)]
pub enum PreprocessError {
    /// The text of a `+++` metadata block is not valid TOML.
    Frontmatter(toml::de::Error),
}

impl PreprocessError {
    /// What the pass was doing when it failed.
    pub fn context(&self) -> (r: String)
        ensures
            r@ == "failed to parse frontmatter"@,
    {
        match self {
            PreprocessError::Frontmatter(_) => String::from_str("failed to parse frontmatter"),
        }
    }
}

} // verus!

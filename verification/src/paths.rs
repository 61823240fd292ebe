//! Names of the files that a rendering reads and writes.

use vstd::prelude::*;
use vstd::string::StringExecFns;

verus! {

/// Calls `Path::file_stem`: the name of the last component of `path`
/// without its extension, if the path has a file name. Nothing is claimed
/// of the answer: how a path falls into components depends on the platform.
#[verifier::external_body]
fn file_stem(path: &str) -> (r: Option<String>) {
    match std::path::Path::new(path).file_stem() {
        Some(stem) => Some(stem.to_string_lossy().into_owned()),
        None => None,
    }
}

/// Calls `Path::exists`. Nothing is claimed of the answer: it depends on
/// what is on disk.
#[verifier::external_body]
fn path_exists(path: &str) -> (r: bool) {
    std::path::Path::new(path).exists()
}

/// The output file for an input whose stem is `stem`, where `output_file`
/// was asked for: what was asked for, else the stem with `.html`, else
/// `output.html`.
pub open spec fn output_name(stem: Option<Seq<char>>, output_file: Option<Seq<char>>) -> Seq<
    char,
> {
    match output_file {
        Some(name) => name,
        None => match stem {
            Some(stem) => stem + ".html"@,
            None => "output.html"@,
        },
    }
}

/// The name of the output file, from the stem of the input file's name and
/// the name that was asked for.
pub fn output_name_from(stem: Option<String>, output_file: Option<String>) -> (r: String)
    ensures
        r@ == output_name(stem.deep_view(), output_file.deep_view()),
{
    match output_file {
        Some(name) => name,
        None => match stem {
            Some(stem) => stem.concat(".html"),
            None => String::from_str("output.html"),
        },
    }
}

/// The name of the output file for the input `input_file`: `output_file` if
/// it is given, else the stem of the input's name with `.html`, else
/// `output.html`. What the stem of a path is, is the platform's matter; for
/// each stem the name is the one that [`output_name`] gives.
pub fn output_file_name(input_file: &str, output_file: Option<String>) -> (r: String)
    ensures
        output_file is Some ==> r@ == output_file.unwrap()@,
        output_file is None ==> exists|stem: Option<Seq<char>>|
            r@ == #[trigger] output_name(stem, None),
{
    match output_file {
        Some(name) => name,
        None => output_name_from(file_stem(input_file), None),
    }
}

/// What is said of a path at which nothing was found.
pub open spec fn missing_text(path: Seq<char>) -> Seq<char> {
    "'"@ + path + "' does not exist or is not a file."@
}

/// Accepts a path at which something was found, and rejects any other with
/// a message that names it.
pub fn existing_path(path: &str, exists: bool) -> (r: Result<String, String>)
    ensures
        exists ==> r is Ok && r->Ok_0@ == path@,
        !exists ==> r is Err && r->Err_0@ == missing_text(path@),
{
    if exists {
        Ok(String::from_str(path))
    } else {
        let mut message = String::from_str("'");
        message.append(path);
        message.append("' does not exist or is not a file.");
        Err(message)
    }
}

/// Accepts `path` if something exists at it. Whether it does is not known
/// beforehand: either the path comes back, or the message that names it.
pub fn path_is_file(path: &str) -> (r: Result<String, String>)
    ensures
        match r {
            Ok(accepted) => accepted@ == path@,
            Err(message) => message@ == missing_text(path@),
        },
{
    existing_path(path, path_exists(path))
}

/// Accepts `-`, which stands for a standard stream, and any other path as
/// [`path_is_file`] does.
pub fn path_is_file_or_std_stream(path: &str) -> (r: Result<String, String>)
    ensures
        path@ == "-"@ ==> r is Ok,
        match r {
            Ok(accepted) => accepted@ == path@,
            Err(message) => message@ == missing_text(path@),
        },
{
    let owned = String::from_str(path);
    let dash = String::from_str("-");
    if owned == dash {
        Ok(owned)
    } else {
        path_is_file(path)
    }
}

} // verus!

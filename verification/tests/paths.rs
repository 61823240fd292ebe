use mdprep::paths::{
    existing_path, output_file_name, output_name_from, path_is_file, path_is_file_or_std_stream,
};

#[test]
fn output_name_defaults_to_the_stem_with_html() {
    assert_eq!(output_file_name("notes/doc.md", None), "doc.html");
    assert_eq!(output_file_name("doc.tar.gz", None), "doc.tar.html");
    assert_eq!(output_file_name("README", None), "README.html");
    assert_eq!(output_file_name(".hidden", None), ".hidden.html");
    assert_eq!(output_file_name("-", None), "-.html");
}

#[test]
fn output_name_as_asked_for() {
    assert_eq!(output_file_name("doc.md", Some("out/page.html".to_string())), "out/page.html");
    assert_eq!(output_file_name("doc.md", Some("-".to_string())), "-");
}

#[test]
fn output_name_without_a_stem() {
    assert_eq!(output_file_name("", None), "output.html");
    assert_eq!(output_file_name("..", None), "output.html");
    assert_eq!(output_file_name("/", None), "output.html");
}

#[test]
fn output_name_from_its_parts() {
    assert_eq!(output_name_from(Some("a".to_string()), None), "a.html");
    assert_eq!(output_name_from(None, None), "output.html");
    assert_eq!(output_name_from(Some("a".to_string()), Some("b".to_string())), "b");
    assert_eq!(output_name_from(None, Some("b".to_string())), "b");
}

#[test]
fn existing_path_is_accepted() {
    assert_eq!(existing_path("some/file.md", true), Ok("some/file.md".to_string()));
    assert_eq!(path_is_file("/"), Ok("/".to_string()));
}

#[test]
fn missing_path_is_rejected_by_name() {
    assert_eq!(
        existing_path("nowhere.md", false),
        Err("'nowhere.md' does not exist or is not a file.".to_string())
    );
    assert_eq!(
        path_is_file("/this/path/does/not/exist.md"),
        Err("'/this/path/does/not/exist.md' does not exist or is not a file.".to_string())
    );
}

#[test]
fn dash_stands_for_a_standard_stream() {
    assert_eq!(path_is_file_or_std_stream("-"), Ok("-".to_string()));
    assert_eq!(path_is_file_or_std_stream("/"), Ok("/".to_string()));
    assert_eq!(
        path_is_file_or_std_stream("/this/path/does/not/exist.md"),
        Err("'/this/path/does/not/exist.md' does not exist or is not a file.".to_string())
    );
    assert_eq!(
        path_is_file_or_std_stream("--"),
        Err("'--' does not exist or is not a file.".to_string())
    );
}

use docgen::config::{progress_line, Config};
use docgen::walk::{hidden_name, is_hidden};
use walkdir::WalkDir;

#[test]
fn name_with_leading_dot_is_hidden() {
    assert!(hidden_name(Some(".hidden")));
    assert!(hidden_name(Some(".")));
    assert!(hidden_name(Some("..")));
    assert!(!hidden_name(Some("file.txt")));
    assert!(!hidden_name(Some("")));
    assert!(!hidden_name(Some("a.")));
    assert!(!hidden_name(None));
}

#[test]
fn entry_is_judged_by_its_file_name() {
    let root = WalkDir::new("/").max_depth(0).into_iter().next().unwrap().unwrap();
    assert!(!is_hidden(&root));
    let here = WalkDir::new(".").max_depth(0).into_iter().next().unwrap().unwrap();
    assert!(is_hidden(&here));
}

#[test]
fn missing_arguments_take_their_defaults() {
    let c = Config::from_args(None, None);
    assert_eq!(c.source, ".");
    assert_eq!(c.output, "man");
    let c = Config::from_args(Some("src".to_string()), None);
    assert_eq!(c.source, "src");
    assert_eq!(c.output, "man");
    let c = Config::from_args(Some("a".to_string()), Some("b".to_string()));
    assert_eq!(c.source, "a");
    assert_eq!(c.output, "b");
}

#[test]
fn page_is_written_below_the_output_directory() {
    let c = Config::from_args(None, None);
    assert_eq!(c.page_path("foo"), "man/foo");
    let c = Config::from_args(None, Some("out/dir".to_string()));
    assert_eq!(c.page_path("page"), "out/dir/page");
}

#[test]
fn progress_line_joins_the_two_paths() {
    assert_eq!(progress_line("./src/a.rs", "man/foo"), "./src/a.rs -> man/foo");
    assert_eq!(progress_line("", ""), " -> ");
}

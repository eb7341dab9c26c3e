use server_wrapper::source::Error;
use server_wrapper::source::File;
use server_wrapper::transform::matches_all;
use server_wrapper::transform::Pattern;
use server_wrapper::transform::Transform;

use std::io::Write;

fn jar_patterns() -> Vec<Pattern> {
    vec![
        Pattern::new("lib/*.jar").expect("include pattern compiles"),
        Pattern::new("!lib/test-*.jar").expect("exclude pattern compiles"),
    ]
}

#[test]
fn include_and_exclude_patterns_compose() {
    let patterns = jar_patterns();
    assert!(matches_all("lib/core.jar", &patterns));
    assert!(!matches_all("lib/test-foo.jar", &patterns));
}

#[test]
fn without_include_patterns_everything_not_excluded_matches() {
    let patterns = vec![Pattern::new("!*.md").expect("compiles")];
    assert!(matches_all("anything.bin", &patterns));
    assert!(!matches_all("readme.md", &patterns));
    assert!(matches_all("whatever", &Vec::new()));
}

#[test]
fn leading_bang_marks_a_pattern_excluding() {
    assert!(Pattern::new("!x").expect("compiles").exclude);
    assert!(!Pattern::new("x").expect("compiles").exclude);
    assert!(Pattern::new("[").is_none());
}

fn sample_zip() -> Vec<u8> {
    let mut cursor = std::io::Cursor::new(Vec::new());
    {
        let mut w = zip::ZipWriter::new(&mut cursor);
        let opts = zip::write::FileOptions::default();
        w.add_directory("lib/", opts).expect("directory entry");
        w.start_file("lib/test-foo.jar", opts).expect("entry starts");
        w.write_all(b"test bytes").expect("entry writes");
        w.start_file("lib/core.jar", opts).expect("entry starts");
        w.write_all(b"core bytes").expect("entry writes");
        w.finish().expect("archive closes");
    }
    cursor.into_inner()
}

#[test]
fn unzip_extracts_the_first_accepted_regular_file() {
    let transform = Transform::Unzip { unzip: jar_patterns() };
    let input = File { name: "a.zip".to_string(), bytes: sample_zip() };
    let out = transform.apply(input).expect("readable archive").expect("a file matches");
    assert_eq!(out.name, "lib/core.jar");
    assert_eq!(out.bytes, b"core bytes".to_vec());
}

#[test]
fn unzip_with_no_accepted_entry_reports_no_artifact() {
    let transform = Transform::Unzip { unzip: vec![Pattern::new("*.dll").expect("compiles")] };
    let input = File { name: "a.zip".to_string(), bytes: sample_zip() };
    assert!(transform.apply(input).expect("readable archive").is_none());
}

#[test]
fn direct_transform_passes_the_file_through() {
    let transform = Transform::Direct;
    let input = File { name: "raw.bin".to_string(), bytes: vec![1, 2, 3] };
    let out = transform.apply(input).expect("identity never fails").expect("always some");
    assert_eq!(out.name, "raw.bin");
    assert_eq!(out.bytes, vec![1, 2, 3]);
}

#[test]
fn bytes_that_are_no_archive_fail_extraction() {
    let transform = Transform::Unzip { unzip: Vec::new() };
    let input = File { name: "a.zip".to_string(), bytes: vec![1, 2, 3] };
    assert!(matches!(transform.apply(input), Err(Error::Extraction)));
}

use hardcpy::path::{destination_of, rewrite, PathPart};

fn normal(name: &str) -> PathPart {
    PathPart::Normal(name.to_string())
}

fn names(segments: &[&str]) -> Vec<String> {
    segments.iter().map(|s| s.to_string()).collect()
}

#[test]
fn path_is_kept_from_the_source_name_on() {
    let parts = vec![
        PathPart::RootDir,
        normal("home"),
        normal("ann"),
        normal("photos"),
        normal("2020"),
        normal("a.jpg"),
    ];
    assert_eq!(rewrite(&parts, "photos"), names(&["photos", "2020", "a.jpg"]));
}

#[test]
fn relative_source_roots_work_the_same() {
    let parts = vec![
        normal("test"),
        normal("test_singlethread"),
        normal("source"),
        normal("big_file"),
    ];
    assert_eq!(rewrite(&parts, "source"), names(&["source", "big_file"]));
    let dotted = vec![PathPart::CurDir, normal("source"), normal("big_file")];
    assert_eq!(rewrite(&dotted, "source"), names(&["source", "big_file"]));
}

#[test]
fn prefix_root_and_current_dir_are_dropped() {
    let parts = vec![
        PathPart::Prefix,
        PathPart::RootDir,
        normal("src"),
        PathPart::CurDir,
        normal("a"),
        PathPart::CurDir,
        normal("b.txt"),
    ];
    assert_eq!(rewrite(&parts, "src"), names(&["src", "a", "b.txt"]));
}

#[test]
fn parent_steps_after_the_source_name_are_kept() {
    let parts = vec![
        PathPart::ParentDir,
        normal("src"),
        normal("a"),
        PathPart::ParentDir,
        normal("b.txt"),
    ];
    assert_eq!(rewrite(&parts, "src"), names(&["src", "a", "..", "b.txt"]));
}

#[test]
fn the_first_part_with_the_source_name_counts() {
    let parts =
        vec![PathPart::RootDir, normal("data"), normal("x"), normal("data"), normal("f")];
    assert_eq!(rewrite(&parts, "data"), names(&["data", "x", "data", "f"]));
}

#[test]
fn a_path_without_the_source_name_goes_under_root() {
    let parts = vec![PathPart::RootDir, normal("etc"), normal("hosts")];
    assert_eq!(rewrite(&parts, "photos"), names(&["root"]));
    assert_eq!(rewrite(&Vec::new(), "photos"), names(&["root"]));
    assert_eq!(rewrite(&vec![PathPart::RootDir], "/"), names(&["root"]));
}

#[test]
fn source_name_must_match_a_whole_part() {
    let parts = vec![normal("photos2"), normal("photos"), normal("f")];
    assert_eq!(rewrite(&parts, "photos"), names(&["photos", "f"]));
    let none = vec![normal("photos2"), normal("f")];
    assert_eq!(rewrite(&none, "photos"), names(&["root"]));
    let parent = vec![PathPart::ParentDir, normal("f")];
    assert_eq!(rewrite(&parent, ".."), names(&["root"]));
}

#[test]
fn destination_keeps_the_file_name() {
    let parts = vec![PathPart::RootDir, normal("home"), normal("src"), normal("d"), normal("f")];
    assert_eq!(destination_of(&parts, "src", "f"), names(&["src", "d", "f"]));
    let direct = vec![normal("src"), normal("f")];
    assert_eq!(destination_of(&direct, "src", "f"), names(&["src", "f"]));
}

#[test]
fn destination_without_the_source_name_is_under_root() {
    let parts = vec![PathPart::RootDir, normal("etc"), normal("hosts")];
    assert_eq!(destination_of(&parts, "photos", "hosts"), names(&["root", "hosts"]));
    let dotted = vec![PathPart::CurDir, normal("a.txt")];
    assert_eq!(destination_of(&dotted, ".", "a.txt"), names(&["root", "a.txt"]));
    assert_eq!(destination_of(&Vec::new(), "photos", "f"), names(&["root", "f"]));
}

#[test]
fn a_source_root_named_root_is_no_stray_path() {
    let parts = vec![PathPart::RootDir, normal("root"), normal("d"), normal("f")];
    assert_eq!(rewrite(&parts, "root"), names(&["root", "d", "f"]));
    assert_eq!(destination_of(&parts, "root", "f"), names(&["root", "d", "f"]));
    // The source root itself, taken as a file: only its name is replaced.
    let bare = vec![normal("root")];
    assert_eq!(rewrite(&bare, "root"), names(&["root"]));
    assert_eq!(destination_of(&bare, "root", "f"), names(&["f"]));
}

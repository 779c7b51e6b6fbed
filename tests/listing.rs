use rerun_except::{declaration_line, is_excluded, rerun_in_listing, rerun_unmarked, DirEntryPath};

fn text(p: &str) -> DirEntryPath {
    DirEntryPath::Text(p.to_string())
}

fn strings(ps: &[&str]) -> Vec<String> {
    ps.iter().map(|p| p.to_string()).collect()
}

#[test]
fn worked_example_declares_three_entries() {
    let entries = vec![
        text("/work/proj/target"),
        text("/work/proj/.gitignore"),
        text("/work/proj/src"),
        text("/work/proj/Cargo.toml"),
        text("/work/proj/Cargo.lock"),
        text("/work/proj/.git"),
    ];
    let except = strings(&[
        "/work/proj/Cargo.toml",
        "/work/proj/Cargo.lock",
        "/work/proj/.git",
    ]);
    assert_eq!(
        rerun_in_listing(&entries, &except),
        "cargo:rerun-if-changed=/work/proj/target\n\
         cargo:rerun-if-changed=/work/proj/.gitignore\n\
         cargo:rerun-if-changed=/work/proj/src\n"
    );
}

#[test]
fn empty_listing_gives_empty_text() {
    assert_eq!(rerun_in_listing(&vec![], &vec![]), "");
}

#[test]
fn full_exclusion_gives_empty_text() {
    let entries = vec![text("d/a"), text("d/b"), text("d/c")];
    let except = strings(&["d/a", "d/b", "d/c"]);
    assert_eq!(rerun_in_listing(&entries, &except), "");
}

#[test]
fn similar_paths_are_not_excluded() {
    let entries = vec![
        text("d/Cargo.tom"),
        text("d/Cargo.toml.bak"),
        text("d/Cargo.toml"),
        text("d/cargo.toml"),
    ];
    let except = strings(&["d/Cargo.toml"]);
    assert_eq!(
        rerun_in_listing(&entries, &except),
        "cargo:rerun-if-changed=d/Cargo.tom\n\
         cargo:rerun-if-changed=d/Cargo.toml.bak\n\
         cargo:rerun-if-changed=d/cargo.toml\n"
    );
}

#[test]
fn excluded_directory_keeps_its_siblings() {
    let entries = vec![text("d/src"), text("d/src2")];
    let except = strings(&["d/src"]);
    assert_eq!(
        rerun_in_listing(&entries, &except),
        "cargo:rerun-if-changed=d/src2\n"
    );
}

#[test]
fn paths_compare_by_components() {
    let except = strings(&["d//target/"]);
    assert!(is_excluded("d/target", &except));
    assert!(!is_excluded("d/targets", &except));
    assert!(!is_excluded("d", &except));
}

#[test]
fn no_canonicalization_of_exclusions() {
    let entries = vec![text("src")];
    let except = strings(&["./src", "/src"]);
    assert_eq!(
        rerun_in_listing(&entries, &except),
        "cargo:rerun-if-changed=src\n"
    );
}

#[test]
fn unlisted_and_non_text_entries_are_skipped() {
    let entries = vec![
        DirEntryPath::Unlisted,
        text("d/a"),
        DirEntryPath::NotText,
        text("d/b"),
    ];
    assert_eq!(
        rerun_in_listing(&entries, &vec![]),
        "cargo:rerun-if-changed=d/a\ncargo:rerun-if-changed=d/b\n"
    );
}

#[test]
fn duplicate_exclusions_are_harmless() {
    let entries = vec![text("d/a"), text("d/b")];
    let except = strings(&["d/a", "d/a", "d/a"]);
    assert_eq!(
        rerun_in_listing(&entries, &except),
        "cargo:rerun-if-changed=d/b\n"
    );
}

#[test]
fn repeated_entries_are_not_merged() {
    let entries = vec![text("d/a"), text("d/a")];
    assert_eq!(
        rerun_in_listing(&entries, &vec![]),
        "cargo:rerun-if-changed=d/a\ncargo:rerun-if-changed=d/a\n"
    );
}

#[test]
fn same_listing_twice_gives_same_text() {
    let entries = vec![text("d/x"), text("d/y"), text("d/z")];
    let except = strings(&["d/y"]);
    let first = rerun_in_listing(&entries, &except);
    let second = rerun_in_listing(&entries, &except);
    assert_eq!(first, second);
}

#[test]
fn reordered_listing_gives_same_lines() {
    let except = strings(&["d/y"]);
    let a = rerun_in_listing(&vec![text("d/x"), text("d/y"), text("d/z")], &except);
    let b = rerun_in_listing(&vec![text("d/z"), text("d/x"), text("d/y")], &except);
    let mut la: Vec<&str> = a.lines().collect();
    let mut lb: Vec<&str> = b.lines().collect();
    la.sort();
    lb.sort();
    assert_eq!(la, lb);
    assert_eq!(b, "cargo:rerun-if-changed=d/z\ncargo:rerun-if-changed=d/x\n");
}

#[test]
fn every_line_has_prefix_and_line_feed() {
    let entries = vec![text("d/a"), text("d/b c"), text("d/é")];
    let out = rerun_in_listing(&entries, &vec![]);
    assert!(out.ends_with('\n'));
    let lines: Vec<&str> = out.split_terminator('\n').collect();
    assert_eq!(lines.len(), 3);
    for line in lines {
        assert!(line.starts_with("cargo:rerun-if-changed="));
    }
}

#[test]
fn declaration_line_format() {
    assert_eq!(
        declaration_line("path/to/folder/test.c"),
        "cargo:rerun-if-changed=path/to/folder/test.c\n"
    );
    assert_eq!(declaration_line(""), "cargo:rerun-if-changed=\n");
}

#[test]
fn marked_entries_are_left_out() {
    let entries = vec![text("d/a"), DirEntryPath::Unlisted, text("d/b"), text("d/c")];
    let dropped = vec![true, false, false, true];
    assert_eq!(
        rerun_unmarked(&entries, &dropped),
        "cargo:rerun-if-changed=d/b\n"
    );
}

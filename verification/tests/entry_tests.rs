use std::path::Path;
use stow::entry::{has_suffix, with_suffix, EntryKind, PathEntry, SUFFIX};

fn entry(name: &str, kind: EntryKind) -> PathEntry {
    PathEntry::new(name.to_string(), kind, 0)
}

#[test]
fn the_suffix_is_dot_7z() {
    assert_eq!(SUFFIX, ".7z");
}

#[test]
fn names_that_end_in_the_suffix_are_artifacts() {
    assert!(has_suffix("a.7z"));
    assert!(has_suffix("a.txt.7z"));
    assert!(has_suffix(".tmpAbC123.7z"));
    assert!(has_suffix("..7z"));
    assert!(has_suffix("\u{00e9}.7z"));
}

#[test]
fn other_names_are_not_artifacts() {
    assert!(!has_suffix(""));
    assert!(!has_suffix("7z"));
    assert!(!has_suffix(".7z"));
    assert!(!has_suffix("a.7Z"));
    assert!(!has_suffix("a.7z.bak"));
    assert!(!has_suffix("a7z"));
    assert!(!has_suffix("a.txt"));
    assert!(!has_suffix("a.7z "));
    assert!(!has_suffix("a."));
}

#[test]
fn artifacts_are_the_names_with_extension_7z() {
    let names = [
        "a.7z", ".7z", "7z", "a", "", "a.b.7z", "..7z", "a.7z.", "a..7z", ".a.7z", "x.7zz", "x.z7",
        "a.tar.gz", ".hidden", "\u{4e2d}.7z",
    ];
    for name in names {
        let expected = Path::new(name).extension().and_then(|e| e.to_str()) == Some("7z");
        assert_eq!(has_suffix(name), expected, "{}", name);
    }
}

#[test]
fn the_suffix_is_appended() {
    assert_eq!(with_suffix("a.txt"), "a.txt.7z");
    assert_eq!(with_suffix("a"), "a.7z");
    assert_eq!(with_suffix(""), ".7z");
}

#[test]
fn a_kept_name_is_an_artifact_name() {
    for name in ["a", "a.txt", ".profile", "a.7z", "\u{00e9}"] {
        assert!(has_suffix(&with_suffix(name)));
    }
}

#[test]
fn an_entry_keeps_what_it_was_made_of() {
    let e = PathEntry::new("a.txt".to_string(), EntryKind::File, 5);
    assert_eq!(e.name, "a.txt");
    assert_eq!(e.kind, EntryKind::File);
    assert_eq!(e.size, 5);
}

#[test]
fn plain_files_are_packable() {
    assert!(entry("a.txt", EntryKind::File).is_packable());
    assert!(entry(".7z", EntryKind::File).is_packable());
    assert!(!entry("a.7z", EntryKind::File).is_packable());
    assert!(!entry("a.txt", EntryKind::Directory).is_packable());
    assert!(!entry("a.txt", EntryKind::Other).is_packable());
}

#[test]
fn directories_are_told_apart() {
    assert!(entry("d", EntryKind::Directory).is_directory());
    assert!(entry("d.7z", EntryKind::Directory).is_directory());
    assert!(!entry("d", EntryKind::File).is_directory());
    assert!(!entry("d", EntryKind::Other).is_directory());
}

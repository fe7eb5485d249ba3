use md_notes::DirEntry;
use md_notes::list_notes;
use md_notes::name_is_md;

fn entry(path: &str, name: &str) -> DirEntry {
    DirEntry { path: path.to_string(), name: name.to_string() }
}

#[test]
fn md_extension_is_accepted() {
    assert!(name_is_md("a.md"));
    assert!(name_is_md("notes.md"));
    assert!(name_is_md("b.txt.md"));
    assert!(name_is_md("a..md"));
}

#[test]
fn other_extensions_are_rejected() {
    assert!(!name_is_md("b.MD"));
    assert!(!name_is_md("c.markdown"));
    assert!(!name_is_md("notes.txt"));
    assert!(!name_is_md("a.mdx"));
    assert!(!name_is_md("a.md.txt"));
}

#[test]
fn names_without_extension_are_rejected() {
    assert!(!name_is_md("noext"));
    assert!(!name_is_md("md"));
    assert!(!name_is_md(""));
    // A hidden file whose whole name is `.md` has no extension at all.
    assert!(!name_is_md(".md"));
}

#[test]
fn listing_keeps_only_md_entries() {
    let entries = vec![
        entry("/notes/a.md", "a.md"),
        entry("/notes/b.MD", "b.MD"),
        entry("/notes/notes.txt", "notes.txt"),
    ];
    let notes = list_notes(true, Ok(entries)).unwrap();
    assert_eq!(notes, vec!["/notes/a.md".to_string()]);
}

#[test]
fn listing_keeps_enumeration_order() {
    let entries = vec![
        entry("/n/z.md", "z.md"),
        entry("/n/sub", "sub"),
        entry("/n/a.md", "a.md"),
    ];
    let notes = list_notes(true, Ok(entries)).unwrap();
    assert_eq!(notes, vec!["/n/z.md".to_string(), "/n/a.md".to_string()]);
}

#[test]
fn missing_directory_is_an_error() {
    let r = list_notes(false, Ok(Vec::new()));
    assert_eq!(r, Err("Directory does not exist".to_string()));
}

#[test]
fn empty_directory_gives_an_empty_listing() {
    let r = list_notes(true, Ok(Vec::new()));
    assert_eq!(r, Ok(Vec::new()));
}

#[test]
fn enumeration_failure_is_passed_on() {
    let r = list_notes(true, Err("permission denied".to_string()));
    assert_eq!(r, Err("permission denied".to_string()));
}

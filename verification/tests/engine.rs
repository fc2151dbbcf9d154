//! End-to-end tests of the resolving copy engine on in-memory trees.

use volsync::copy::{copy_dir, copy_tree, is_reserved_name, CopyReport};
use volsync::descriptor::parse_descriptor;
use volsync::fs_tree::{DirEntry, FsNode};
use volsync::resolve::{find_descriptor, resolve_destination};
use volsync::EngineError;

fn file(content: &str) -> FsNode {
    FsNode::File { readable: true, content: content.as_bytes().to_vec() }
}

fn unreadable_file() -> FsNode {
    FsNode::File { readable: false, content: Vec::new() }
}

fn dir(entries: Vec<(&str, FsNode)>) -> FsNode {
    FsNode::Dir {
        readable: true,
        entries: entries
            .into_iter()
            .map(|(name, node)| DirEntry { name: name.as_bytes().to_vec(), node })
            .collect(),
    }
}

fn unreadable_dir() -> FsNode {
    FsNode::Dir { readable: false, entries: Vec::new() }
}

fn tree_names_and_bytes(node: &FsNode, out: &mut Vec<(String, Option<Vec<u8>>)>, prefix: &str) {
    match node {
        FsNode::File { content, .. } => {
            out.push((prefix.to_string(), Some(content.clone())));
        }
        FsNode::Dir { entries, .. } => {
            out.push((prefix.to_string(), None));
            for e in entries {
                let name = String::from_utf8_lossy(&e.name).into_owned();
                let child = format!("{}/{}", prefix, name);
                tree_names_and_bytes(&e.node, out, &child);
            }
        }
    }
}

fn flattened(node: &FsNode) -> Vec<(String, Option<Vec<u8>>)> {
    let mut out = Vec::new();
    tree_names_and_bytes(node, &mut out, "");
    out
}

fn count_files(node: &FsNode) -> usize {
    match node {
        FsNode::File { .. } => 1,
        FsNode::Dir { entries, .. } => entries.iter().map(|e| count_files(&e.node)).sum(),
    }
}

#[test]
fn resolves_example_descriptor() {
    // A descriptor carrying both fields resolves to dest_base/schema/"schema unit".
    let tree = dir(vec![("EOT-META.txt", file("Customer ID: Acme\nEOT UNIT ID: 42\n"))]);
    let path = resolve_destination(&tree, b"D:/out").unwrap();
    assert_eq!(path, b"D:/out/Acme/Acme 42".to_vec());
}

#[test]
fn resolve_descends_into_first_entry() {
    let descriptor = file("Customer ID: Acme\nEOT UNIT ID: 7\n");
    let tree = dir(vec![("inner", dir(vec![("meta.txt", descriptor)]))]);
    let path = resolve_destination(&tree, b"base").unwrap();
    assert_eq!(path, b"base/Acme/Acme 7".to_vec());
}

#[test]
fn resolve_accepts_a_file_as_source_root() {
    // The degenerate case: the source root itself is the descriptor file.
    let path = resolve_destination(&file("Customer ID:Acme\nEOT UNIT ID:1"), b"base").unwrap();
    assert_eq!(path, b"base/Acme/Acme 1".to_vec());
}

#[test]
fn resolve_follows_only_the_first_entry() {
    // The descent always takes the first entry of a directory: a descriptor
    // in a later sibling is never reached.
    let tree = dir(vec![
        ("empty", dir(vec![])),
        ("meta.txt", file("Customer ID: Acme\nEOT UNIT ID: 1\n")),
    ]);
    assert_eq!(resolve_destination(&tree, b"base"), Err(EngineError::DescriptorNotFound));
}

#[test]
fn resolve_without_any_file_is_not_found() {
    // No descriptor file anywhere: the descent ends in an empty directory.
    let tree = dir(vec![("a", dir(vec![("b", dir(vec![]))]))]);
    assert_eq!(resolve_destination(&tree, b"base"), Err(EngineError::DescriptorNotFound));
}

#[test]
fn resolve_on_empty_tree_is_not_found() {
    let tree = dir(vec![]);
    assert_eq!(resolve_destination(&tree, b"base"), Err(EngineError::DescriptorNotFound));
}

#[test]
fn resolve_on_unreadable_descriptor_is_io_failure() {
    let tree = dir(vec![("meta.txt", unreadable_file())]);
    assert_eq!(resolve_destination(&tree, b"base"), Err(EngineError::DescriptorUnreadable));
}

#[test]
fn resolve_on_unreadable_directory_is_io_failure() {
    let tree = dir(vec![("locked", unreadable_dir())]);
    assert_eq!(resolve_destination(&tree, b"base"), Err(EngineError::DescriptorUnreadable));
}

#[test]
fn find_descriptor_returns_first_file_contents() {
    let tree = dir(vec![("m", file("hello"))]);
    assert_eq!(find_descriptor(&tree).unwrap(), b"hello".to_vec());
}

#[test]
fn parse_takes_last_match_for_each_key() {
    let d = parse_descriptor(b"Customer ID: First\nEOT UNIT ID: 1\nCustomer ID: Second\nEOT UNIT ID: 2\n");
    assert_eq!(d.schema_id, b"Second".to_vec());
    assert_eq!(d.unit_id, b"2".to_vec());
}

#[test]
fn parse_trims_field_whitespace_but_not_internal() {
    let d = parse_descriptor(b"Customer ID:   Acme Corp  \nEOT UNIT ID:\t9\n");
    assert_eq!(d.schema_id, b"Acme Corp".to_vec());
    assert_eq!(d.unit_id, b"9".to_vec());
}

#[test]
fn parse_takes_text_between_first_and_second_colon() {
    let d = parse_descriptor(b"Customer ID: Acme: extra\nEOT UNIT ID: 4:2\n");
    assert_eq!(d.schema_id, b"Acme".to_vec());
    assert_eq!(d.unit_id, b"4".to_vec());
}

#[test]
fn parse_without_matching_lines_leaves_fields_empty() {
    let d = parse_descriptor(b"nothing here\njust text\n");
    assert_eq!(d.schema_id, Vec::<u8>::new());
    assert_eq!(d.unit_id, Vec::<u8>::new());
}

#[test]
fn parse_handles_crlf_lines() {
    let d = parse_descriptor(b"Customer ID: Acme\r\nEOT UNIT ID: 42\r\n");
    assert_eq!(d.schema_id, b"Acme".to_vec());
    assert_eq!(d.unit_id, b"42".to_vec());
}

#[test]
fn empty_fields_still_produce_a_path() {
    // The named edge case: a descriptor with no matching lines still yields
    // a path, whose last segment is a single space.
    let tree = dir(vec![("meta.txt", file("no keys in this file\n"))]);
    let path = resolve_destination(&tree, b"base").unwrap();
    assert_eq!(path, b"base// ".to_vec());
}

#[test]
fn reserved_names_are_recognized_case_insensitively() {
    assert!(is_reserved_name(b"System Volume Information"));
    assert!(is_reserved_name(b"SYSTEM VOLUME INFORMATION"));
    assert!(is_reserved_name(b"system volume information"));
    assert!(is_reserved_name(b"IndexerVolumeGuid"));
    assert!(is_reserved_name(b"indexervolumeguid"));
    assert!(!is_reserved_name(b"System Volume Informatio"));
    assert!(!is_reserved_name(b"documents"));
}

#[test]
fn copy_skips_reserved_entries_entirely() {
    // An entry literally named "System Volume Information" never produces a
    // destination entry, whatever it contains.
    let tree = dir(vec![
        ("System Volume Information", dir(vec![("inner.txt", file("secret"))])),
        ("IndexerVolumeGuid", file("guid")),
        ("keep.txt", file("kept")),
    ]);
    let rep = copy_tree(&tree, b"src").unwrap();
    let flat = flattened(&rep.tree);
    assert_eq!(
        flat,
        vec![("".to_string(), None), ("/keep.txt".to_string(), Some(b"kept".to_vec()))]
    );
    assert_eq!(rep.failed, Vec::<Vec<u8>>::new());
}

#[test]
fn copy_tolerates_one_unreadable_file_among_readable_ones() {
    // Resilient policy: one unreadable file among three readable ones still
    // succeeds, three files arrive, and the skipped path is reported.
    let tree = dir(vec![
        ("a.txt", file("alpha")),
        ("bad.txt", unreadable_file()),
        ("b.txt", file("beta")),
        ("sub", dir(vec![("c.txt", file("gamma"))])),
    ]);
    let rep = copy_tree(&tree, b"src").unwrap();
    assert_eq!(count_files(&rep.tree), 3);
    assert_eq!(rep.failed, vec![b"src/bad.txt".to_vec()]);
    let flat = flattened(&rep.tree);
    assert_eq!(
        flat,
        vec![
            ("".to_string(), None),
            ("/a.txt".to_string(), Some(b"alpha".to_vec())),
            ("/b.txt".to_string(), Some(b"beta".to_vec())),
            ("/sub".to_string(), None),
            ("/sub/c.txt".to_string(), Some(b"gamma".to_vec())),
        ]
    );
}

#[test]
fn reserved_entries_are_skipped_before_being_read() {
    // A reserved entry is never descended into, so even an unreadable one
    // cannot abort the copy.
    let tree = dir(vec![
        ("System Volume Information", unreadable_dir()),
        ("a.txt", file("alpha")),
    ]);
    let rep = copy_tree(&tree, b"src").unwrap();
    assert_eq!(count_files(&rep.tree), 1);
    assert_eq!(rep.failed, Vec::<Vec<u8>>::new());
}

#[test]
fn copy_fails_on_unreadable_directory() {
    let tree = dir(vec![("ok.txt", file("x")), ("locked", unreadable_dir())]);
    assert!(matches!(copy_tree(&tree, b"src"), Err(EngineError::SourceDirUnreadable)));
}

#[test]
fn copy_of_single_file_root_is_supported() {
    let rep = copy_tree(&file("payload"), b"src/solo.bin").unwrap();
    assert_eq!(flattened(&rep.tree), vec![("".to_string(), Some(b"payload".to_vec()))]);
    assert_eq!(rep.failed, Vec::<Vec<u8>>::new());
}

#[test]
fn copy_of_unreadable_single_file_root_fails() {
    assert!(matches!(
        copy_tree(&unreadable_file(), b"src/solo.bin"),
        Err(EngineError::SourceFileUnreadable)
    ));
}

#[test]
fn copying_twice_is_idempotent() {
    // Copying a tree and copying the result again yields byte-identical
    // files and an identical structure, with nothing skipped.
    let tree = dir(vec![
        ("IndexerVolumeGuid", file("guid")),
        ("a.txt", file("alpha")),
        ("bad.txt", unreadable_file()),
        ("sub", dir(vec![("b.txt", file("beta"))])),
    ]);
    let first: CopyReport = copy_tree(&tree, b"src").unwrap();
    let second: CopyReport = copy_tree(&first.tree, b"dest").unwrap();
    assert_eq!(flattened(&second.tree), flattened(&first.tree));
    assert_eq!(second.failed, Vec::<Vec<u8>>::new());
}

#[test]
fn copy_dir_resolves_then_plans_the_copy() {
    let tree = dir(vec![
        ("meta.txt", file("Customer ID: Acme\nEOT UNIT ID: 42\n")),
        ("data", dir(vec![("payload.bin", file("bytes"))])),
    ]);
    let (dest, rep) = copy_dir(&tree, b"D:/out", b"E:").unwrap();
    assert_eq!(dest, b"D:/out/Acme/Acme 42".to_vec());
    assert_eq!(count_files(&rep.tree), 2);
    assert_eq!(rep.failed, Vec::<Vec<u8>>::new());
}

#[test]
fn copy_dir_aborts_before_copying_when_resolution_fails() {
    let tree = dir(vec![]);
    assert!(matches!(copy_dir(&tree, b"D:/out", b"E:"), Err(EngineError::DescriptorNotFound)));
}

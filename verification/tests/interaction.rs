use blip::finder::{FileFinder, FileRef};
use blip::input::apply_key;
use blip::path::{resolve, resolve_display, PathIdentity, PathNode};
use blip::select::{interpret_selection, Selection};

fn line(s: &str) -> Vec<char> {
    s.chars().collect()
}

#[test]
fn empty_line_means_exit() {
    assert_eq!(interpret_selection(&line(""), 3), Selection::Exit);
    assert_eq!(interpret_selection(&line(""), 0), Selection::Exit);
}

#[test]
fn in_range_digits_choose() {
    assert_eq!(interpret_selection(&line("0"), 1), Selection::Chosen(0));
    assert_eq!(interpret_selection(&line("2"), 3), Selection::Chosen(2));
    assert_eq!(interpret_selection(&line("007"), 8), Selection::Chosen(7));
    assert_eq!(interpret_selection(&line("10"), 11), Selection::Chosen(10));
}

#[test]
fn out_of_range_reprompts() {
    assert_eq!(interpret_selection(&line("3"), 3), Selection::Retry);
    assert_eq!(interpret_selection(&line("4"), 3), Selection::Retry);
    assert_eq!(interpret_selection(&line("0"), 0), Selection::Retry);
    assert_eq!(
        interpret_selection(&line("99999999999999999999999999999999"), 3),
        Selection::Retry,
    );
}

#[test]
fn non_numeric_reprompts() {
    assert_eq!(interpret_selection(&line("x"), 3), Selection::Retry);
    assert_eq!(interpret_selection(&line("1a"), 3), Selection::Retry);
    assert_eq!(interpret_selection(&line("-1"), 3), Selection::Retry);
    assert_eq!(interpret_selection(&line(" 1"), 3), Selection::Retry);
}

#[test]
fn line_editing_applies_keys() {
    let mut buffer: Vec<char> = Vec::new();
    assert!(!apply_key(&mut buffer, 'a'));
    assert!(!apply_key(&mut buffer, 'b'));
    assert!(!apply_key(&mut buffer, '\u{8}'));
    assert!(!apply_key(&mut buffer, '1'));
    assert!(apply_key(&mut buffer, '\r'));
    assert_eq!(buffer, line("a1"));
}

#[test]
fn backspace_on_empty_line_is_harmless() {
    let mut buffer: Vec<char> = Vec::new();
    assert!(!apply_key(&mut buffer, '\u{8}'));
    assert!(buffer.is_empty());
    assert!(apply_key(&mut buffer, '\r'));
    assert!(buffer.is_empty());
}

#[test]
fn registry_is_append_only_and_index_stable() {
    let mut finder = FileFinder::new();
    assert_eq!(finder.len(), 0);
    finder.append(FileRef::new(PathIdentity::Display(line("fs0:\\efi\\a\\x.efi")), 10));
    finder.append(FileRef::new(PathIdentity::Display(line("fs1:\\efi\\b\\y.efi")), 20));
    assert_eq!(finder.len(), 2);
    assert_eq!(finder.get(0).file_size(), 10);
    assert_eq!(finder.get(1).file_size(), 20);
    assert_eq!(finder.get(0).display_chars(), line("fs0:\\efi\\a\\x.efi"));
}

#[test]
fn resolve_copies_origin_and_appends_file_node() {
    let origin = vec![
        PathNode::Device { bytes: vec![1, 1, 4, 0] },
        PathNode::Device { bytes: vec![4, 4, 6, 0, 0, 0] },
    ];
    let segments = vec![line("efi"), line("BOOT"), line("bootx64.efi")];
    let p = resolve(&origin, &segments).expect("well-formed origin must resolve");
    assert_eq!(p.nodes.len(), 3);
    match &p.nodes[2] {
        PathNode::FilePath { text } => assert_eq!(text, &line("\\efi\\BOOT\\bootx64.efi")),
        PathNode::Device { .. } => panic!("last node must name the file"),
    }
    match &p.nodes[0] {
        PathNode::Device { bytes } => assert_eq!(bytes, &vec![1, 1, 4, 0]),
        PathNode::FilePath { .. } => panic!("origin nodes are copied first"),
    }
}

#[test]
fn resolve_rejects_malformed_origin_node() {
    let origin = vec![PathNode::Device { bytes: vec![1, 1] }];
    let segments = vec![line("efi"), line("a"), line("b.efi")];
    assert!(resolve(&origin, &segments).is_none());
}

#[test]
fn display_mode_concatenates_label_and_path() {
    let segments = vec![line("efi"), line("BOOT"), line("bootx64.efi")];
    let text = resolve_display(&line("fs0:"), &segments);
    assert_eq!(text, line("fs0:\\efi\\BOOT\\bootx64.efi"));
}

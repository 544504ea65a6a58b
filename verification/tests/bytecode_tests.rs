use std::collections::BTreeMap;

use solc_bytecode::{
    Bytecode, BytecodeObject, CompactBytecode, CompactDeployedBytecode, DeployedBytecode,
    LinkReferences, Offsets, StrMap,
};

fn fq_placeholder(name: &str) -> String {
    let mut s: String = name.chars().take(36).collect();
    while s.chars().count() < 36 {
        s.push('_');
    }
    s
}

fn offsets(start: u32) -> Vec<Offsets> {
    vec![Offsets { start, length: 20 }]
}

/// Link references for `(file, [library])` pairs.
fn refs(entries: &[(&str, &[&str])]) -> LinkReferences {
    let mut outer = StrMap::new();
    for (file, libs) in entries {
        let mut inner = StrMap::new();
        for (i, lib) in libs.iter().enumerate() {
            inner.insert(lib.to_string(), offsets(i as u32));
        }
        outer.insert(file.to_string(), inner);
    }
    outer
}

fn unlinked_bytecode(text: String, link_references: LinkReferences) -> Bytecode {
    let mut b = Bytecode::from(BytecodeObject::Unlinked(text));
    b.link_references = link_references;
    b
}

#[test]
fn link_last_library_resolves() {
    let text = format!("6080__{}__00", fq_placeholder("a.sol:Lib"));
    let mut b = unlinked_bytecode(text, refs(&[("a.sol", &["Lib"])]));
    assert!(b.link("a.sol", "Lib", [0x11; 20]));
    let mut expected = vec![0x60, 0x80];
    expected.extend([0x11u8; 20]);
    expected.push(0x00);
    assert_eq!(b.object, BytecodeObject::Bytecode(expected.clone()));
    assert!(b.link_references.is_empty());
    assert_eq!(b.bytes(), Some(&expected));
    assert_eq!(b.into_bytes(), Some(expected));
}

#[test]
fn link_with_libraries_left_is_not_done() {
    let text = format!(
        "__{}____{}__",
        fq_placeholder("a.sol:A"),
        fq_placeholder("b.sol:B")
    );
    let mut b = unlinked_bytecode(text, refs(&[("a.sol", &["A"]), ("b.sol", &["B"])]));
    assert!(!b.link("a.sol", "A", [0x01; 20]));
    assert!(b.object.is_unlinked());
    assert!(!b.link_references.contains_key("a.sol"));
    assert!(b.link_references.contains_key("b.sol"));
    assert_eq!(b.bytes(), None);
    assert!(b.link("b.sol", "B", [0x02; 20]));
    let mut expected = vec![0x01u8; 20];
    expected.extend([0x02u8; 20]);
    assert_eq!(b.object, BytecodeObject::Bytecode(expected));
}

#[test]
fn link_keeps_other_libraries_of_the_file() {
    let text = format!(
        "__{}____{}__",
        fq_placeholder("a.sol:A"),
        fq_placeholder("a.sol:B")
    );
    let mut b = unlinked_bytecode(text, refs(&[("a.sol", &["A", "B"])]));
    assert!(!b.link("a.sol", "A", [0x01; 20]));
    let inner = b.link_references.get("a.sol").unwrap();
    assert!(!inner.contains_key("A"));
    assert!(inner.contains_key("B"));
    assert_eq!(inner.len(), 1);
}

#[test]
fn link_of_unlisted_file_changes_nothing() {
    let text = format!("__{}__", fq_placeholder("a.sol:A"));
    let b0 = unlinked_bytecode(text, refs(&[("a.sol", &["A"])]));
    let mut b = b0.clone();
    assert!(!b.link("c.sol", "A", [0x01; 20]));
    assert_eq!(b, b0);
}

#[test]
fn link_of_linked_bytecode_reports_true() {
    let mut b = Bytecode::from(BytecodeObject::Bytecode(vec![1, 2, 3]));
    b.link_references = refs(&[("a.sol", &["A"])]);
    let b0 = b.clone();
    assert!(b.link("a.sol", "A", [0x01; 20]));
    assert_eq!(b, b0);
}

#[test]
fn link_of_unlisted_library_drops_only_when_empty() {
    // The library is not listed under the file: the object is not touched, and the file's
    // entry, still holding `A`, stays.
    let text = format!("__{}__", fq_placeholder("a.sol:A"));
    let mut b = unlinked_bytecode(text.clone(), refs(&[("a.sol", &["A"])]));
    assert!(!b.link("a.sol", "Z", [0x01; 20]));
    assert_eq!(b.object, BytecodeObject::Unlinked(text));
    assert!(b.link_references.get("a.sol").unwrap().contains_key("A"));
}

#[test]
fn link_that_empties_references_but_leaves_text_reports_false() {
    // The placeholder in the text belongs to no listed library, so after the last listed
    // library is linked the text still is not hex.
    let text = format!("__{}__", fq_placeholder("x.sol:X"));
    let mut b = unlinked_bytecode(text, refs(&[("a.sol", &["A"])]));
    assert!(!b.link("a.sol", "A", [0x01; 20]));
    assert!(b.link_references.is_empty());
    assert!(b.object.is_unlinked());
}

#[test]
fn link_fully_qualified_splits_at_first_colon() {
    let text = format!("__{}__", fq_placeholder("a.sol:A"));
    let mut b = unlinked_bytecode(text.clone(), refs(&[("a.sol", &["A"])]));
    assert!(b.link_fully_qualified("a.sol:A", [0x03; 20]));
    assert_eq!(b.object, BytecodeObject::Bytecode(vec![0x03; 20]));

    let mut c = unlinked_bytecode(text.clone(), refs(&[("a.sol", &["A"])]));
    assert!(!c.link_fully_qualified("a.sol", [0x03; 20]));
    assert_eq!(c.object, BytecodeObject::Unlinked(text));
}

#[test]
fn link_fully_qualified_on_linked_bytecode_reports_true() {
    let mut b = Bytecode::from(BytecodeObject::Bytecode(vec![1, 2]));
    b.link_references = refs(&[("a.sol", &["A"])]);
    let before = b.clone();
    assert!(b.link_fully_qualified("no-colon", [0x03; 20]));
    assert_eq!(b, before);
    assert!(b.link_fully_qualified("a.sol:A", [0x03; 20]));
    assert_eq!(b, before);
}

#[test]
fn link_all_stops_when_linked() {
    let text = format!("__{}__", fq_placeholder("a.sol:A"));
    let mut b = unlinked_bytecode(text, refs(&[("a.sol", &["A"])]));
    assert!(b.link_all(&[("c.sol", "C", [0x09; 20]), ("a.sol", "A", [0x04; 20]), ("a.sol", "A", [0x05; 20])]));
    assert_eq!(b.object, BytecodeObject::Bytecode(vec![0x04; 20]));
}

#[test]
fn link_all_of_nothing_reports_false() {
    let mut b = Bytecode::from(BytecodeObject::Bytecode(vec![]));
    assert!(!b.link_all(&[]));
    assert!(!b.link_all_fully_qualified(&[]));
}

#[test]
fn link_all_fully_qualified_links_each_name() {
    let text = format!(
        "__{}____{}__",
        fq_placeholder("a.sol:A"),
        fq_placeholder("b.sol:B")
    );
    let mut b = unlinked_bytecode(text, refs(&[("a.sol", &["A"]), ("b.sol", &["B"])]));
    assert!(b.link_all_fully_qualified(&[("a.sol:A", [0x01; 20]), ("b.sol:B", [0x02; 20])]));
    let mut expected = vec![0x01u8; 20];
    expected.extend([0x02u8; 20]);
    assert_eq!(b.object, BytecodeObject::Bytecode(expected));
}

#[test]
fn compact_link_matches_full_link() {
    let text = format!("60__{}__", fq_placeholder("a.sol:A"));
    let full = unlinked_bytecode(text, refs(&[("a.sol", &["A"])]));
    let mut compact = CompactBytecode::from(full.clone());
    let mut full = full;
    assert_eq!(compact.link("a.sol", "A", [0x07; 20]), full.link("a.sol", "A", [0x07; 20]));
    assert_eq!(compact.object, full.object);
    assert_eq!(compact.bytes(), full.bytes());
    assert_eq!(compact.into_bytes(), full.into_bytes());
}

#[test]
fn compact_empty_is_empty_bytecode() {
    let c = CompactBytecode::empty();
    assert_eq!(c.object, BytecodeObject::Bytecode(vec![]));
    assert_eq!(c.source_map, None);
    assert!(c.link_references.is_empty());
    assert_eq!(c.bytes(), Some(&vec![]));
}

#[test]
fn conversions_between_forms() {
    let mut full = unlinked_bytecode("60".to_string(), refs(&[("a.sol", &["A"])]));
    full.source_map = Some("0:1:2".to_string());
    full.opcodes = Some("PUSH1".to_string());
    let compact = CompactBytecode::from(full.clone());
    assert_eq!(compact.object, full.object);
    assert_eq!(compact.source_map, full.source_map);
    assert_eq!(compact.link_references, full.link_references);
    let back = Bytecode::from(compact.clone());
    assert_eq!(back.opcodes, None);
    assert!(back.function_debug_data.is_empty());
    assert!(back.generated_sources.is_empty());
    assert_eq!(CompactBytecode::from(back), compact);
}

#[test]
fn deployed_bytecode_bytes() {
    let d = DeployedBytecode::from(Bytecode::from(BytecodeObject::Bytecode(vec![5, 6])));
    assert_eq!(d.bytes(), Some(&vec![5, 6]));
    assert!(d.immutable_references.is_empty());
    let none = DeployedBytecode { bytecode: None, immutable_references: BTreeMap::new() };
    assert_eq!(none.bytes(), None);
    assert_eq!(none.into_bytes(), None);
    let unlinked = DeployedBytecode::from(Bytecode::from(BytecodeObject::Unlinked("__".to_string())));
    assert_eq!(unlinked.bytes(), None);
    assert_eq!(d.into_bytes(), Some(vec![5, 6]));
}

#[test]
fn compact_deployed_bytecode_forms() {
    let e = CompactDeployedBytecode::empty();
    assert_eq!(e.bytes(), Some(&vec![]));
    assert!(e.immutable_references.is_empty());
    let mut immutables = BTreeMap::new();
    immutables.insert("12".to_string(), offsets(3));
    let d = DeployedBytecode {
        bytecode: Some(Bytecode::from(BytecodeObject::Bytecode(vec![9]))),
        immutable_references: immutables,
    };
    let c = CompactDeployedBytecode::from(d.clone());
    assert_eq!(c.bytes(), Some(&vec![9]));
    assert_eq!(c.immutable_references, d.immutable_references);
    let back = DeployedBytecode::from(c.clone());
    assert_eq!(CompactDeployedBytecode::from(back), c);
    assert_eq!(c.into_bytes(), Some(vec![9]));
    assert_eq!(e.into_bytes(), Some(vec![]));
}

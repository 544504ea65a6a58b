use solc_bytecode::object::BytecodeObject;
use solc_bytecode::serialize_bytecode_without_prefix;

fn fq_placeholder(name: &str) -> String {
    let mut s: String = name.chars().take(36).collect();
    while s.chars().count() < 36 {
        s.push('_');
    }
    s
}

fn hash_placeholder(name: &str) -> String {
    foundry_compilers_core::utils::library_hash_placeholder(name)
}

#[test]
fn default_object_is_empty_bytecode() {
    let obj = BytecodeObject::default();
    assert!(obj.is_bytecode());
    assert!(!obj.is_unlinked());
    assert!(!obj.is_non_empty_bytecode());
    assert_eq!(obj.bytes_len(), 0);
    assert_eq!(obj.as_bytes(), Some(&Vec::new()));
}

#[test]
fn accessors_of_linked_object() {
    let obj = BytecodeObject::Bytecode(vec![0x60, 0x80]);
    assert!(obj.is_bytecode());
    assert!(obj.is_non_empty_bytecode());
    assert_eq!(obj.bytes_len(), 2);
    assert_eq!(obj.as_bytes(), Some(&vec![0x60, 0x80]));
    assert_eq!(obj.as_str(), None);
    assert_eq!(obj.clone().into_unlinked(), None);
    assert_eq!(obj.into_bytes(), Some(vec![0x60, 0x80]));
}

#[test]
fn accessors_of_unlinked_object() {
    let obj = BytecodeObject::Unlinked("6080__$abc$__".to_string());
    assert!(obj.is_unlinked());
    assert!(!obj.is_bytecode());
    assert!(!obj.is_non_empty_bytecode());
    assert_eq!(obj.bytes_len(), 0);
    assert_eq!(obj.as_bytes(), None);
    assert_eq!(obj.as_str(), Some("6080__$abc$__"));
    assert_eq!(obj.clone().into_bytes(), None);
    assert_eq!(obj.into_unlinked(), Some("6080__$abc$__".to_string()));
}

#[test]
fn as_ref_gives_bytes_or_text_bytes() {
    let linked = BytecodeObject::Bytecode(vec![1, 2, 3]);
    let r: &[u8] = linked.as_ref();
    assert_eq!(r, &[1u8, 2, 3][..]);
    let unlinked = BytecodeObject::Unlinked("0x60".to_string());
    let r: &[u8] = unlinked.as_ref();
    assert_eq!(r, b"0x60");
}

#[test]
fn resolve_reads_hex_with_and_without_prefix() {
    let mut a = BytecodeObject::Unlinked("6080aB".to_string());
    assert_eq!(a.resolve(), Some(&vec![0x60, 0x80, 0xab]));
    assert_eq!(a, BytecodeObject::Bytecode(vec![0x60, 0x80, 0xab]));

    let mut b = BytecodeObject::Unlinked("0x0aff".to_string());
    assert_eq!(b.resolve(), Some(&vec![0x0a, 0xff]));

    let mut c = BytecodeObject::Unlinked("0X01".to_string());
    assert_eq!(c.resolve(), Some(&vec![0x01]));
}

#[test]
fn resolve_empty_text() {
    let mut obj = BytecodeObject::Unlinked("0x".to_string());
    assert_eq!(obj.resolve(), Some(&Vec::new()));
    assert!(!obj.is_unlinked());
}

#[test]
fn resolve_keeps_text_that_is_not_hex() {
    let mut odd = BytecodeObject::Unlinked("608".to_string());
    assert_eq!(odd.resolve(), None);
    assert_eq!(odd, BytecodeObject::Unlinked("608".to_string()));

    let mut placeholder = BytecodeObject::Unlinked("60__$ab$__80".to_string());
    assert_eq!(placeholder.resolve(), None);
    assert!(placeholder.is_unlinked());

    let mut not_ascii = BytecodeObject::Unlinked("é0".to_string());
    assert_eq!(not_ascii.resolve(), None);
}

#[test]
fn resolve_leaves_linked_object() {
    let mut obj = BytecodeObject::Bytecode(vec![7]);
    assert_eq!(obj.resolve(), Some(&vec![7]));
    assert_eq!(obj, BytecodeObject::Bytecode(vec![7]));
}

#[test]
fn link_replaces_old_placeholder() {
    let name = "a.sol:Lib";
    let text = format!("6080__{}__6000", fq_placeholder(name));
    let mut obj = BytecodeObject::Unlinked(text);
    obj.link("a.sol", "Lib", [0x11; 20]);
    let expected = format!("6080{}6000", "11".repeat(20));
    assert_eq!(obj, BytecodeObject::Unlinked(expected));
}

#[test]
fn link_replaces_hash_placeholder_everywhere() {
    let name = "src/Math.sol:Math";
    let p = hash_placeholder(name);
    let text = format!("__{p}__00__{p}__");
    let mut obj = BytecodeObject::Unlinked(text);
    obj.link_fully_qualified(name, [0xab; 20]);
    let addr = "ab".repeat(20);
    assert_eq!(obj, BytecodeObject::Unlinked(format!("{addr}00{addr}")));
}

#[test]
fn link_with_placeholders_on_given_values() {
    let mut obj = BytecodeObject::Unlinked("__$h$____q__".to_string());
    let mut addr = [0u8; 20];
    addr[19] = 0x0f;
    obj.link_with_placeholders("$h$", "q", &addr);
    let hex_addr = format!("{}0f", "00".repeat(19));
    assert_eq!(obj, BytecodeObject::Unlinked(format!("{hex_addr}{hex_addr}")));
}

#[test]
fn link_with_placeholders_scans_left_to_right() {
    // "____x____" holds "__x__" starting at position 2 only once it is scanned from the
    // left without overlap.
    let mut obj = BytecodeObject::Unlinked("___x____".to_string());
    obj.link_with_placeholders("zz", "x", &[0x22; 20]);
    assert_eq!(obj, BytecodeObject::Unlinked(format!("_{}__", "22".repeat(20))));
}

#[test]
fn link_of_other_library_changes_nothing() {
    let text = format!("__{}__", fq_placeholder("a.sol:Lib"));
    let mut obj = BytecodeObject::Unlinked(text.clone());
    obj.link("a.sol", "Other", [0x11; 20]);
    assert_eq!(obj, BytecodeObject::Unlinked(text));
}

#[test]
fn link_on_linked_object_changes_nothing() {
    let mut obj = BytecodeObject::Bytecode(vec![1, 2]);
    obj.link("a.sol", "Lib", [0x11; 20]);
    assert_eq!(obj, BytecodeObject::Bytecode(vec![1, 2]));
}

#[test]
fn link_all_links_each_library() {
    let a = format!("__{}__", fq_placeholder("a.sol:A"));
    let b = format!("__{}__", hash_placeholder("b.sol:B"));
    let mut obj = BytecodeObject::Unlinked(format!("{a}{b}"));
    obj.link_all(&[("a.sol", "A", [0x01; 20]), ("b.sol", "B", [0x02; 20])]);
    assert_eq!(
        obj,
        BytecodeObject::Unlinked(format!("{}{}", "01".repeat(20), "02".repeat(20)))
    );
}

#[test]
fn placeholders_are_found() {
    let hash = hash_placeholder("a.sol:A");
    let obj = BytecodeObject::Unlinked(format!("60__{hash}__"));
    assert!(obj.contains_placeholder("a.sol", "A"));
    assert!(obj.contains_fully_qualified_placeholder("a.sol:A"));
    assert!(!obj.contains_placeholder("a.sol", "B"));

    let old = BytecodeObject::Unlinked(format!("60__{}__", fq_placeholder("a.sol:A")));
    assert!(old.contains_placeholder("a.sol", "A"));

    let linked = BytecodeObject::Bytecode(vec![]);
    assert!(!linked.contains_placeholder("a.sol", "A"));
}

#[test]
fn contains_placeholders_on_given_values() {
    let obj = BytecodeObject::Unlinked("60$h$80".to_string());
    assert!(obj.contains_placeholders("$h$", "q"));
    assert!(obj.contains_placeholders("zz", "80"));
    assert!(!obj.contains_placeholders("zz", "qq"));
}

#[test]
fn written_text_of_objects() {
    let linked = BytecodeObject::Bytecode(vec![0xde, 0xad, 0x0b]);
    assert_eq!(serialize_bytecode_without_prefix(&linked), "dead0b");
    let prefixed = BytecodeObject::Unlinked("0x60__$a$__".to_string());
    assert_eq!(serialize_bytecode_without_prefix(&prefixed), "60__$a$__");
    let bare = BytecodeObject::Unlinked("60__$a$__".to_string());
    assert_eq!(serialize_bytecode_without_prefix(&bare), "60__$a$__");
    let upper = BytecodeObject::Unlinked("0X60".to_string());
    assert_eq!(serialize_bytecode_without_prefix(&upper), "0X60");
}

#[test]
fn written_text_reads_back() {
    let linked = BytecodeObject::Bytecode(vec![0x00, 0x7f, 0x80, 0xff]);
    let mut back = BytecodeObject::Unlinked(serialize_bytecode_without_prefix(&linked));
    back.resolve();
    assert_eq!(back, linked);
}

#[test]
fn empty_object_text_is_not_unlinked() {
    let mut obj = BytecodeObject::Unlinked("0x".to_string());
    obj.resolve();
    assert!(!obj.is_unlinked());
    assert_eq!(obj, BytecodeObject::default());
}

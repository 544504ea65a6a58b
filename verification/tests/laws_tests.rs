use solc_bytecode::{
    serialize_bytecode_without_prefix, Bytecode, BytecodeObject, CompactBytecode,
    CompactDeployedBytecode, DeployedBytecode, LinkReferences, Offsets, StrMap,
};

fn fq_placeholder(name: &str) -> String {
    let mut s: String = name.chars().take(36).collect();
    while s.chars().count() < 36 {
        s.push('_');
    }
    s
}

fn one_library(file: &str, lib: &str) -> LinkReferences {
    let mut inner = StrMap::new();
    inner.insert(lib.to_string(), vec![Offsets { start: 0, length: 20 }]);
    let mut outer = StrMap::new();
    outer.insert(file.to_string(), inner);
    outer
}

#[test]
fn link_result_says_whether_linked() {
    let cases = [
        (format!("__{}__", fq_placeholder("a.sol:A")), "a.sol", "A"),
        (format!("__{}__", fq_placeholder("a.sol:A")), "a.sol", "B"),
        (format!("__{}__", fq_placeholder("a.sol:A")), "b.sol", "A"),
        ("zz".to_string(), "a.sol", "A"),
    ];
    for (text, file, lib) in cases {
        let mut b = Bytecode::from(BytecodeObject::Unlinked(text));
        b.link_references = one_library("a.sol", "A");
        let r = b.link(file, lib, [0x0c; 20]);
        assert_eq!(r, b.object.is_bytecode());
    }
}

#[test]
fn link_all_result_says_whether_linked() {
    let mut b = Bytecode::from(BytecodeObject::Unlinked(format!("__{}__", fq_placeholder("a.sol:A"))));
    b.link_references = one_library("a.sol", "A");
    let r = b.link_all(&[("x.sol", "X", [1; 20])]);
    assert_eq!(r, b.object.is_bytecode());
    let r = b.link_all(&[("a.sol", "A", [1; 20])]);
    assert_eq!(r, b.object.is_bytecode());
    assert!(r);
}

#[test]
fn linking_is_noop_on_linked_bytecode() {
    let mut obj = BytecodeObject::Bytecode(vec![1]);
    obj.link_fully_qualified("a.sol:A", [3; 20]);
    assert_eq!(obj, BytecodeObject::Bytecode(vec![1]));
    let mut b = Bytecode::from(BytecodeObject::Bytecode(vec![1]));
    b.link_references = one_library("a.sol", "A");
    let before = b.clone();
    assert!(b.link("a.sol", "A", [3; 20]));
    assert_eq!(b, before);
}

#[test]
fn linking_without_placeholder_changes_nothing() {
    let obj0 = BytecodeObject::Unlinked("6080__$0000$__".to_string());
    assert!(!obj0.contains_fully_qualified_placeholder("a.sol:A"));
    let mut obj = obj0.clone();
    obj.link_fully_qualified("a.sol:A", [3; 20]);
    assert_eq!(obj, obj0);
}

#[test]
fn link_references_only_shrink() {
    let mut b = Bytecode::from(BytecodeObject::Unlinked("zz".to_string()));
    b.link_references = one_library("a.sol", "A");
    b.link("a.sol", "A", [1; 20]);
    assert!(!b.link_references.contains_key("a.sol"));
    b.link("b.sol", "B", [1; 20]);
    assert!(b.link_references.is_empty());
}

#[test]
fn written_text_resolves_to_same_bytes() {
    for bytes in [vec![], vec![0u8], vec![0x0f, 0xf0, 0xab]] {
        let obj = BytecodeObject::Bytecode(bytes.clone());
        let mut back = BytecodeObject::Unlinked(serialize_bytecode_without_prefix(&obj));
        assert_eq!(back.resolve(), Some(&bytes));
    }
}

#[test]
fn resolving_twice_is_resolving_once() {
    for text in ["0x60", "6", "__"] {
        let mut once = BytecodeObject::Unlinked(text.to_string());
        once.resolve();
        let mut twice = once.clone();
        twice.resolve();
        assert_eq!(once, twice);
    }
}

#[test]
fn compact_round_trips() {
    let mut c = CompactBytecode::empty();
    c.source_map = Some("1:2:3".to_string());
    c.link_references = one_library("a.sol", "A");
    assert_eq!(CompactBytecode::from(Bytecode::from(c.clone())), c);
    let d = CompactDeployedBytecode::empty();
    assert_eq!(CompactDeployedBytecode::from(DeployedBytecode::from(d.clone())), d);
}

#[test]
fn linking_twice_is_linking_once() {
    let hash = foundry_compilers_core::utils::library_hash_placeholder("a.sol:A");
    let text = format!("60__{}____{hash}__00", fq_placeholder("a.sol:A"));
    let mut once = BytecodeObject::Unlinked(text);
    once.link("a.sol", "A", [0x0a; 20]);
    let mut twice = once.clone();
    twice.link("a.sol", "A", [0x0b; 20]);
    assert_eq!(once, twice);
    assert!(!once.contains_placeholder("a.sol", "A"));
}

#[test]
fn link_fully_qualified_name_result_says_whether_linked() {
    for (obj, name) in [
        (BytecodeObject::Bytecode(vec![1]), "no-colon"),
        (BytecodeObject::Unlinked("zz".to_string()), "no-colon"),
        (BytecodeObject::Unlinked("zz".to_string()), "a.sol:A"),
    ] {
        let mut b = Bytecode::from(obj);
        b.link_references = one_library("a.sol", "A");
        let r = b.link_fully_qualified(name, [2; 20]);
        assert_eq!(r, b.object.is_bytecode());
    }
}

#[test]
fn linking_two_libraries_commutes() {
    let (ha, hb) = (
        foundry_compilers_core::utils::library_hash_placeholder("a.sol:A"),
        foundry_compilers_core::utils::library_hash_placeholder("b.sol:B"),
    );
    let text = format!(
        "60__{}__01__{hb}__02__{ha}__03__{}__",
        fq_placeholder("b.sol:B"),
        fq_placeholder("a.sol:A")
    );
    let mut ab = BytecodeObject::Unlinked(text.clone());
    ab.link("a.sol", "A", [0xaa; 20]).link("b.sol", "B", [0xbb; 20]);
    let mut ba = BytecodeObject::Unlinked(text);
    ba.link("b.sol", "B", [0xbb; 20]).link("a.sol", "A", [0xaa; 20]);
    assert_eq!(ab, ba);
    let (a, b) = ("aa".repeat(20), "bb".repeat(20));
    assert_eq!(ab, BytecodeObject::Unlinked(format!("60{b}01{b}02{a}03{a}")));
}

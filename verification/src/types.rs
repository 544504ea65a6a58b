//! Plain data carried along with bytecode: source offsets, per-function debugging data,
//! compiler-generated sources, and addresses.

use vstd::prelude::*;

verus! {

/// A library address: 20 bytes.
pub type Address = [u8; 20];

/// A byte range in the bytecode: where it starts and how long it is.
#[derive(Clone, Copy, Debug, PartialEq, Eq)]
pub struct Offsets {
    pub start: u32,
    pub length: u32,
}

/// Debugging information the compiler gives for one function.
#[derive(Clone, Copy, Debug, PartialEq, Eq)]
pub struct FunctionDebugData {
    pub entry_point: Option<u32>,
    pub id: Option<u32>,
    pub parameter_slots: Option<u32>,
    pub return_slots: Option<u32>,
}

/// The JSON value type of `serde_json`, which holds a generated source's syntax tree.
#[verifier::external_type_specification]
#[verifier::external_body]
pub struct ExJsonValue(serde_json::Value);

/// `Clone::clone` of `serde_json::Value` makes a deep copy: a value equal to the original.
pub assume_specification[ <serde_json::Value as Clone>::clone ](v: &serde_json::Value) -> (r: serde_json::Value)
    ensures
        r == *v,
;

/// A source file that the compiler generated, such as a Yul utility file.
#[derive(Clone, Debug, PartialEq, Eq)]
pub struct GeneratedSource {
    pub ast: serde_json::Value,
    pub contents: String,
    pub id: u32,
    pub language: String,
    pub name: String,
}

} // verus!

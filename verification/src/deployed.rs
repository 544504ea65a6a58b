//! Deployed bytecode and its compact form: bytecode, if there is any, with the places that
//! hold immutable values.

use std::collections::BTreeMap;
use vstd::prelude::*;
use crate::bytecode::{
    bytecode_of_compact, bytes_of, compact_of, owned_bytes_of, Bytecode, BytecodeView,
    CompactBytecode, CompactBytecodeView,
};
use crate::object::ObjectView;
use crate::types::Offsets;

verus! {

/// Deployed bytecode.
#[derive(Clone, Debug, PartialEq, Eq)]
pub struct DeployedBytecode {
    /// The bytecode, if there is any.
    pub bytecode: Option<Bytecode>,
    /// For each immutable variable, the places in the bytecode that hold its value.
    pub immutable_references: BTreeMap<String, Vec<Offsets>>,
}

/// Deployed bytecode with only what linking needs.
#[derive(Clone, Debug, PartialEq, Eq)]
pub struct CompactDeployedBytecode {
    /// The bytecode, if there is any.
    pub bytecode: Option<CompactBytecode>,
    /// For each immutable variable, the places in the bytecode that hold its value.
    pub immutable_references: BTreeMap<String, Vec<Offsets>>,
}

/// What a `DeployedBytecode` holds.
pub ghost struct DeployedBytecodeView {
    pub bytecode: Option<BytecodeView>,
    pub immutable_references: Map<String, Vec<Offsets>>,
}

/// What a `CompactDeployedBytecode` holds.
pub ghost struct CompactDeployedBytecodeView {
    pub bytecode: Option<CompactBytecodeView>,
    pub immutable_references: Map<String, Vec<Offsets>>,
}

impl View for DeployedBytecode {
    type V = DeployedBytecodeView;

    open spec fn view(&self) -> DeployedBytecodeView {
        DeployedBytecodeView {
            bytecode: match self.bytecode {
                Some(b) => Some(b@),
                None => None,
            },
            immutable_references: self.immutable_references@,
        }
    }
}

impl View for CompactDeployedBytecode {
    type V = CompactDeployedBytecodeView;

    open spec fn view(&self) -> CompactDeployedBytecodeView {
        CompactDeployedBytecodeView {
            bytecode: match self.bytecode {
                Some(b) => Some(b@),
                None => None,
            },
            immutable_references: self.immutable_references@,
        }
    }
}

/// The object of deployed bytecode, if it has bytecode.
pub open spec fn deployed_object(b: Option<BytecodeView>) -> Option<ObjectView> {
    match b {
        Some(b) => Some(b.object),
        None => None,
    }
}

/// The object of compact deployed bytecode, if it has bytecode.
pub open spec fn compact_deployed_object(b: Option<CompactBytecodeView>) -> Option<ObjectView> {
    match b {
        Some(b) => Some(b.object),
        None => None,
    }
}

/// `r` holds the bytes of `obj` when there is an object and it is fully linked.
pub open spec fn maybe_bytes_of(r: Option<&Vec<u8>>, obj: Option<ObjectView>) -> bool {
    match obj {
        Some(o) => bytes_of(r, o),
        None => r is None,
    }
}

/// As `maybe_bytes_of`, for owned bytes.
pub open spec fn maybe_owned_bytes_of(r: Option<Vec<u8>>, obj: Option<ObjectView>) -> bool {
    match obj {
        Some(o) => owned_bytes_of(r, o),
        None => r is None,
    }
}

/// The compact form of deployed bytecode.
pub open spec fn compact_deployed_of(d: DeployedBytecodeView) -> CompactDeployedBytecodeView {
    CompactDeployedBytecodeView {
        bytecode: match d.bytecode {
            Some(b) => Some(compact_of(b)),
            None => None,
        },
        immutable_references: d.immutable_references,
    }
}

/// Deployed bytecode made from a compact form.
pub open spec fn deployed_of_compact(c: CompactDeployedBytecodeView) -> DeployedBytecodeView {
    DeployedBytecodeView {
        bytecode: match c.bytecode {
            Some(b) => Some(bytecode_of_compact(b)),
            None => None,
        },
        immutable_references: c.immutable_references,
    }
}

impl DeployedBytecode {
    /// The bytes, if there is bytecode and it is fully linked.
    pub fn bytes(&self) -> (r: Option<&Vec<u8>>)
        ensures
            maybe_bytes_of(r, deployed_object(self@.bytecode)),
    {
        match &self.bytecode {
            Some(bytecode) => bytecode.object.as_bytes(),
            None => None,
        }
    }

    /// The bytes, if there is bytecode and it is fully linked.
    pub fn into_bytes(self) -> (r: Option<Vec<u8>>)
        ensures
            maybe_owned_bytes_of(r, deployed_object(self@.bytecode)),
    {
        match self.bytecode {
            Some(bytecode) => bytecode.object.into_bytes(),
            None => None,
        }
    }
}

impl CompactDeployedBytecode {
    /// A compact deployed bytecode that holds nothing, as for interfaces and for Solidity
    /// files that define no contract: an empty compact bytecode, and no immutable references.
    pub fn empty() -> (r: Self)
        ensures
            r@ == (CompactDeployedBytecodeView {
                bytecode: Some(CompactBytecodeView {
                    object: ObjectView::Bytecode(Seq::empty()),
                    source_map: None,
                    link_references: Map::empty(),
                }),
                immutable_references: Map::empty(),
            }),
    {
        CompactDeployedBytecode {
            bytecode: Some(CompactBytecode::empty()),
            immutable_references: BTreeMap::new(),
        }
    }

    /// The bytes, if there is bytecode and it is fully linked.
    pub fn bytes(&self) -> (r: Option<&Vec<u8>>)
        ensures
            maybe_bytes_of(r, compact_deployed_object(self@.bytecode)),
    {
        match &self.bytecode {
            Some(bytecode) => bytecode.object.as_bytes(),
            None => None,
        }
    }

    /// The bytes, if there is bytecode and it is fully linked.
    pub fn into_bytes(self) -> (r: Option<Vec<u8>>)
        ensures
            maybe_owned_bytes_of(r, compact_deployed_object(self@.bytecode)),
    {
        match self.bytecode {
            Some(bytecode) => bytecode.object.into_bytes(),
            None => None,
        }
    }
}

impl From<Bytecode> for DeployedBytecode {
    fn from(bcode: Bytecode) -> (r: Self)
        ensures
            r@ == (DeployedBytecodeView { bytecode: Some(bcode@), immutable_references: Map::empty() }),
    {
        DeployedBytecode { bytecode: Some(bcode), immutable_references: BTreeMap::new() }
    }
}

impl vstd::std_specs::convert::FromSpecImpl<Bytecode> for DeployedBytecode {
    open spec fn obeys_from_spec() -> bool {
        false
    }

    open spec fn from_spec(bcode: Bytecode) -> DeployedBytecode {
        vstd::pervasive::arbitrary()
    }
}

impl From<DeployedBytecode> for CompactDeployedBytecode {
    fn from(bcode: DeployedBytecode) -> (r: Self)
        ensures
            r@ == compact_deployed_of(bcode@),
    {
        CompactDeployedBytecode {
            bytecode: match bcode.bytecode {
                Some(d_bcode) => Some(CompactBytecode::from(d_bcode)),
                None => None,
            },
            immutable_references: bcode.immutable_references,
        }
    }
}

impl vstd::std_specs::convert::FromSpecImpl<DeployedBytecode> for CompactDeployedBytecode {
    open spec fn obeys_from_spec() -> bool {
        false
    }

    open spec fn from_spec(bcode: DeployedBytecode) -> CompactDeployedBytecode {
        vstd::pervasive::arbitrary()
    }
}

impl From<CompactDeployedBytecode> for DeployedBytecode {
    fn from(bcode: CompactDeployedBytecode) -> (r: Self)
        ensures
            r@ == deployed_of_compact(bcode@),
    {
        DeployedBytecode {
            bytecode: match bcode.bytecode {
                Some(d_bcode) => Some(Bytecode::from(d_bcode)),
                None => None,
            },
            immutable_references: bcode.immutable_references,
        }
    }
}

impl vstd::std_specs::convert::FromSpecImpl<CompactDeployedBytecode> for DeployedBytecode {
    open spec fn obeys_from_spec() -> bool {
        false
    }

    open spec fn from_spec(bcode: CompactDeployedBytecode) -> DeployedBytecode {
        vstd::pervasive::arbitrary()
    }
}

} // verus!

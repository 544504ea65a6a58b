//! Bytecode as the compiler reports it, its compact and deployed forms, and linking
//! libraries into it.

use std::collections::BTreeMap;
use vstd::prelude::*;
use crate::object::{
    libs_view, link_fully_qualified_spec, qualified_name, resolve_spec, BytecodeObject, ObjectView,
};
use crate::str_map::StrMap;
use crate::text::{chars_of, split_once_chars, split_once_seq, string_from_chars};
use crate::types::{Address, FunctionDebugData, GeneratedSource, Offsets};

verus! {

/// For each file, for each library in it, the places in the bytecode that hold its address.
pub type LinkReferences = StrMap<StrMap<Vec<Offsets>>>;

/// What link references hold: file to library to offsets.
pub type LinkReferencesView = Map<Seq<char>, Map<Seq<char>, Seq<Offsets>>>;

/// Bytecode with what the compiler reports along with it.
#[derive(Clone, Debug, PartialEq, Eq)]
pub struct Bytecode {
    /// Debugging information at function level.
    pub function_debug_data: BTreeMap<String, FunctionDebugData>,
    /// The bytecode.
    pub object: BytecodeObject,
    /// The opcodes, as text.
    pub opcodes: Option<String>,
    /// The source mapping, as text.
    pub source_map: Option<String>,
    /// Sources generated by the compiler.
    pub generated_sources: Vec<GeneratedSource>,
    /// Where the addresses of libraries that are not linked yet go.
    pub link_references: LinkReferences,
}

/// Bytecode with only what linking needs.
#[derive(Clone, Debug, PartialEq, Eq)]
pub struct CompactBytecode {
    /// The bytecode.
    pub object: BytecodeObject,
    /// The source mapping, as text.
    pub source_map: Option<String>,
    /// Where the addresses of libraries that are not linked yet go.
    pub link_references: LinkReferences,
}

/// What a `Bytecode` holds.
pub ghost struct BytecodeView {
    pub function_debug_data: Map<String, FunctionDebugData>,
    pub object: ObjectView,
    pub opcodes: Option<Seq<char>>,
    pub source_map: Option<Seq<char>>,
    pub generated_sources: Seq<GeneratedSource>,
    pub link_references: LinkReferencesView,
}

/// What a `CompactBytecode` holds.
pub ghost struct CompactBytecodeView {
    pub object: ObjectView,
    pub source_map: Option<Seq<char>>,
    pub link_references: LinkReferencesView,
}

impl View for Bytecode {
    type V = BytecodeView;

    open spec fn view(&self) -> BytecodeView {
        BytecodeView {
            function_debug_data: self.function_debug_data@,
            object: self.object@,
            opcodes: self.opcodes.deep_view(),
            source_map: self.source_map.deep_view(),
            generated_sources: self.generated_sources@,
            link_references: self.link_references@,
        }
    }
}

impl View for CompactBytecode {
    type V = CompactBytecodeView;

    open spec fn view(&self) -> CompactBytecodeView {
        CompactBytecodeView {
            object: self.object@,
            source_map: self.source_map.deep_view(),
            link_references: self.link_references@,
        }
    }
}

/// Linking the library `library` of file `file` at `addr`: the object, the link references
/// after it, and whether the object is then fully linked.
///
/// An object that is already fully linked is left alone, with `true`. Otherwise, when the
/// references list `file`, the library is taken out of that file's entry (and the object
/// linked if it was there), the file's entry goes when no library is left in it, and when
/// no file is left the object is resolved; the result says whether it is then fully
/// linked. When the references do not list `file`, nothing changes, with `false`.
pub open spec fn link_spec(
    obj: ObjectView,
    refs: LinkReferencesView,
    file: Seq<char>,
    library: Seq<char>,
    addr: Seq<u8>,
) -> (ObjectView, LinkReferencesView, bool) {
    if !(obj is Unlinked) {
        (obj, refs, true)
    } else if !refs.contains_key(file) {
        (obj, refs, false)
    } else {
        let contracts = refs[file];
        let linked = if contracts.contains_key(library) {
            link_fully_qualified_spec(obj, qualified_name(file, library), addr)
        } else {
            obj
        };
        let rest = contracts.remove(library);
        let refs1 = if rest == Map::<Seq<char>, Seq<Offsets>>::empty() {
            refs.remove(file)
        } else {
            refs.insert(file, rest)
        };
        if refs1 == LinkReferencesView::empty() {
            let resolved = resolve_spec(linked);
            (resolved, refs1, resolved is Bytecode)
        } else {
            (linked, refs1, false)
        }
    }
}

/// Linking by fully qualified name `<file>:<library>`, split at the first `:`, as `link_spec`
/// does: an object that is already fully linked is left alone, with `true`; otherwise a name
/// without `:` links nothing and gives `false`.
pub open spec fn link_fully_qualified_name_spec(
    obj: ObjectView,
    refs: LinkReferencesView,
    name: Seq<char>,
    addr: Seq<u8>,
) -> (ObjectView, LinkReferencesView, bool) {
    if !(obj is Unlinked) {
        (obj, refs, true)
    } else {
        match split_once_seq(name, ':') {
            Some((file, library)) => link_spec(obj, refs, file, library, addr),
            None => (obj, refs, false),
        }
    }
}

/// Linking each `(file, library, address)` of `libs` in turn, stopping at the first link
/// that gives `true`, which is then the result; `false` when none does.
pub open spec fn link_all_refs_spec(
    obj: ObjectView,
    refs: LinkReferencesView,
    libs: Seq<(Seq<char>, Seq<char>, Seq<u8>)>,
) -> (ObjectView, LinkReferencesView, bool)
    decreases libs.len(),
{
    if libs.len() == 0 {
        (obj, refs, false)
    } else {
        let step = link_spec(obj, refs, libs[0].0, libs[0].1, libs[0].2);
        if step.2 {
            step
        } else {
            link_all_refs_spec(step.0, step.1, libs.drop_first())
        }
    }
}

/// Linking each `(fully qualified name, address)` of `libs` in turn, stopping at the first
/// link that gives `true`, which is then the result; `false` when none does.
pub open spec fn link_all_names_spec(
    obj: ObjectView,
    refs: LinkReferencesView,
    libs: Seq<(Seq<char>, Seq<u8>)>,
) -> (ObjectView, LinkReferencesView, bool)
    decreases libs.len(),
{
    if libs.len() == 0 {
        (obj, refs, false)
    } else {
        let step = link_fully_qualified_name_spec(obj, refs, libs[0].0, libs[0].1);
        if step.2 {
            step
        } else {
            link_all_names_spec(step.0, step.1, libs.drop_first())
        }
    }
}

/// Links the library `library` of file `file` at `address` into `object`, keeping
/// `link_references` up to date; says whether `object` is then fully linked.
fn link_parts(
    object: &mut BytecodeObject,
    link_references: &mut LinkReferences,
    file: &str,
    library: &str,
    address: Address,
) -> (r: bool)
    ensures
        (final(object)@, final(link_references)@, r) == link_spec(
            old(object)@,
            old(link_references)@,
            file@,
            library@,
            address@,
        ),
{
    if !object.is_unlinked() {
        return true;
    }
    let ghost obj0 = object@;
    let ghost refs0 = link_references@;
    if let Some((key, mut contracts)) = link_references.remove_entry(file) {
        let ghost inner0 = contracts@;
        assert(inner0 == refs0[file@]);
        if contracts.remove(library).is_some() {
            object.link(file, library, address);
        }
        assert(contracts@ == inner0.remove(library@));
        if !contracts.is_empty() {
            link_references.insert(key, contracts);
            assert(refs0.remove(file@).insert(file@, inner0.remove(library@)) =~= refs0.insert(file@, inner0.remove(library@)));
        }
        if link_references.is_empty() {
            return object.resolve().is_some();
        }
        return false;
    }
    false
}

/// The compact form of bytecode: its object, source map and link references.
pub open spec fn compact_of(b: BytecodeView) -> CompactBytecodeView {
    CompactBytecodeView {
        object: b.object,
        source_map: b.source_map,
        link_references: b.link_references,
    }
}

/// Bytecode made from a compact form: nothing else is reported with it.
pub open spec fn bytecode_of_compact(c: CompactBytecodeView) -> BytecodeView {
    BytecodeView {
        function_debug_data: Map::empty(),
        object: c.object,
        opcodes: None,
        source_map: c.source_map,
        generated_sources: Seq::empty(),
        link_references: c.link_references,
    }
}

impl From<Bytecode> for CompactBytecode {
    fn from(bcode: Bytecode) -> (r: Self)
        ensures
            r@ == compact_of(bcode@),
    {
        CompactBytecode {
            object: bcode.object,
            source_map: bcode.source_map,
            link_references: bcode.link_references,
        }
    }
}

impl vstd::std_specs::convert::FromSpecImpl<Bytecode> for CompactBytecode {
    open spec fn obeys_from_spec() -> bool {
        true
    }

    open spec fn from_spec(bcode: Bytecode) -> CompactBytecode {
        CompactBytecode {
            object: bcode.object,
            source_map: bcode.source_map,
            link_references: bcode.link_references,
        }
    }
}

impl From<CompactBytecode> for Bytecode {
    fn from(bcode: CompactBytecode) -> (r: Self)
        ensures
            r@ == bytecode_of_compact(bcode@),
    {
        Bytecode {
            object: bcode.object,
            source_map: bcode.source_map,
            link_references: bcode.link_references,
            function_debug_data: BTreeMap::new(),
            opcodes: None,
            generated_sources: Vec::new(),
        }
    }
}

impl vstd::std_specs::convert::FromSpecImpl<CompactBytecode> for Bytecode {
    open spec fn obeys_from_spec() -> bool {
        false
    }

    open spec fn from_spec(bcode: CompactBytecode) -> Bytecode {
        vstd::pervasive::arbitrary()
    }
}

/// Bytecode made from an object alone: nothing else is reported with it.
pub open spec fn bytecode_of_object(obj: ObjectView) -> BytecodeView {
    BytecodeView {
        function_debug_data: Map::empty(),
        object: obj,
        opcodes: None,
        source_map: None,
        generated_sources: Seq::empty(),
        link_references: Map::empty(),
    }
}

impl From<BytecodeObject> for Bytecode {
    fn from(object: BytecodeObject) -> (r: Self)
        ensures
            r@ == bytecode_of_object(object@),
    {
        Bytecode {
            object,
            function_debug_data: BTreeMap::new(),
            opcodes: None,
            source_map: None,
            generated_sources: Vec::new(),
            link_references: StrMap::new(),
        }
    }
}

impl vstd::std_specs::convert::FromSpecImpl<BytecodeObject> for Bytecode {
    open spec fn obeys_from_spec() -> bool {
        false
    }

    open spec fn from_spec(object: BytecodeObject) -> Bytecode {
        vstd::pervasive::arbitrary()
    }
}

/// The libraries as sequences: fully qualified name, address bytes.
pub open spec fn names_view(libs: Seq<(&str, Address)>) -> Seq<(Seq<char>, Seq<u8>)> {
    libs.map_values(|l: (&str, Address)| (l.0@, l.1@))
}

/// `b` with the object and link references replaced.
pub open spec fn with_link_parts(b: BytecodeView, obj: ObjectView, refs: LinkReferencesView) -> BytecodeView {
    BytecodeView {
        function_debug_data: b.function_debug_data,
        object: obj,
        opcodes: b.opcodes,
        source_map: b.source_map,
        generated_sources: b.generated_sources,
        link_references: refs,
    }
}

/// `c` with the object and link references replaced.
pub open spec fn with_compact_link_parts(
    c: CompactBytecodeView,
    obj: ObjectView,
    refs: LinkReferencesView,
) -> CompactBytecodeView {
    CompactBytecodeView { object: obj, source_map: c.source_map, link_references: refs }
}

/// The bytes of a fully linked object, with the linked bytes held by `r`.
pub open spec fn bytes_of(r: Option<&Vec<u8>>, obj: ObjectView) -> bool {
    &&& (r is Some <==> obj is Bytecode)
    &&& (r matches Some(b) ==> obj == ObjectView::Bytecode(b@))
}

/// As `bytes_of`, for owned bytes.
pub open spec fn owned_bytes_of(r: Option<Vec<u8>>, obj: ObjectView) -> bool {
    &&& (r is Some <==> obj is Bytecode)
    &&& (r matches Some(b) ==> obj == ObjectView::Bytecode(b@))
}

impl Bytecode {
    /// Same as `link`, with the fully qualified name (`file.sol:Math`) split at its first
    /// `:`. Bytecode that is already fully linked is left as it is, with `true`; otherwise a
    /// name without `:` links nothing and gives `false`.
    pub fn link_fully_qualified(&mut self, name: &str, addr: Address) -> (r: bool)
        ensures
            ({
                let step = link_fully_qualified_name_spec(old(self)@.object, old(self)@.link_references, name@, addr@);
                final(self)@ == with_link_parts(old(self)@, step.0, step.1) && r == step.2
            }),
    {
        if !self.object.is_unlinked() {
            return true;
        }
        let name_chars = chars_of(name);
        match split_once_chars(&name_chars, ':') {
            Some((file, lib)) => {
                let file = string_from_chars(&file);
                let lib = string_from_chars(&lib);
                self.link(file.as_str(), lib.as_str(), addr)
            },
            None => false,
        }
    }

    /// Tries to link the bytecode object with the `file` and `library` name, replacing all
    /// placeholders of that library with `address`.
    ///
    /// Returns whether the bytecode object is then fully linked. An object that is already
    /// fully linked is left as it is.
    pub fn link(&mut self, file: &str, library: &str, address: Address) -> (r: bool)
        ensures
            ({
                let step = link_spec(old(self)@.object, old(self)@.link_references, file@, library@, address@);
                final(self)@ == with_link_parts(old(self)@, step.0, step.1) && r == step.2
            }),
    {
        link_parts(&mut self.object, &mut self.link_references, file, library, address)
    }

    /// Links each `(file, library, address)` of `libs` in turn, stopping at the first link
    /// that leaves the object fully linked; returns whether one did.
    pub fn link_all(&mut self, libs: &[(&str, &str, Address)]) -> (r: bool)
        ensures
            ({
                let step = link_all_refs_spec(old(self)@.object, old(self)@.link_references, libs_view(libs@));
                final(self)@ == with_link_parts(old(self)@, step.0, step.1) && r == step.2
            }),
    {
        let ghost all = libs_view(libs@);
        let ghost start = self@;
        let mut i: usize = 0;
        let mut linked = false;
        assert(all.skip(0) =~= all);
        while i < libs.len() && !linked
            invariant
                i <= libs@.len(),
                all == libs_view(libs@),
                !linked ==> link_all_refs_spec(start.object, start.link_references, all)
                    == link_all_refs_spec(self@.object, self@.link_references, all.skip(i as int)),
                linked ==> link_all_refs_spec(start.object, start.link_references, all)
                    == (self@.object, self@.link_references, true),
                self@ == with_link_parts(start, self@.object, self@.link_references),
            decreases libs.len() - i,
        {
            let (file, lib, addr) = libs[i];
            assert(all.skip(i as int).drop_first() =~= all.skip(i + 1));
            assert(all.skip(i as int)[0] == (file@, lib@, addr@));
            linked = self.link(file, lib, addr);
            i += 1;
        }
        if !linked {
            assert(all.skip(i as int) =~= Seq::<(Seq<char>, Seq<char>, Seq<u8>)>::empty());
        }
        linked
    }

    /// Links each `(fully qualified name, address)` of `libs` in turn, stopping at the first
    /// link that leaves the object fully linked; returns whether one did.
    pub fn link_all_fully_qualified(&mut self, libs: &[(&str, Address)]) -> (r: bool)
        ensures
            ({
                let step = link_all_names_spec(old(self)@.object, old(self)@.link_references, names_view(libs@));
                final(self)@ == with_link_parts(old(self)@, step.0, step.1) && r == step.2
            }),
    {
        let ghost all = names_view(libs@);
        let ghost start = self@;
        let mut i: usize = 0;
        let mut linked = false;
        assert(all.skip(0) =~= all);
        while i < libs.len() && !linked
            invariant
                i <= libs@.len(),
                all == names_view(libs@),
                !linked ==> link_all_names_spec(start.object, start.link_references, all)
                    == link_all_names_spec(self@.object, self@.link_references, all.skip(i as int)),
                linked ==> link_all_names_spec(start.object, start.link_references, all)
                    == (self@.object, self@.link_references, true),
                self@ == with_link_parts(start, self@.object, self@.link_references),
            decreases libs.len() - i,
        {
            let (name, addr) = libs[i];
            assert(all.skip(i as int).drop_first() =~= all.skip(i + 1));
            assert(all.skip(i as int)[0] == (name@, addr@));
            linked = self.link_fully_qualified(name, addr);
            i += 1;
        }
        if !linked {
            assert(all.skip(i as int) =~= Seq::<(Seq<char>, Seq<u8>)>::empty());
        }
        linked
    }

    /// The bytes, if the object is fully linked.
    pub fn bytes(&self) -> (r: Option<&Vec<u8>>)
        ensures
            bytes_of(r, self@.object),
    {
        self.object.as_bytes()
    }

    /// The bytes, if the object is fully linked.
    pub fn into_bytes(self) -> (r: Option<Vec<u8>>)
        ensures
            owned_bytes_of(r, self@.object),
    {
        self.object.into_bytes()
    }
}

impl CompactBytecode {
    /// A compact bytecode that holds nothing, as for interfaces and for Solidity files that
    /// define no contract: an empty, fully linked object.
    pub fn empty() -> (r: Self)
        ensures
            r@ == (CompactBytecodeView {
                object: ObjectView::Bytecode(Seq::empty()),
                source_map: None,
                link_references: Map::empty(),
            }),
    {
        CompactBytecode { object: BytecodeObject::default(), source_map: None, link_references: StrMap::new() }
    }

    /// Tries to link the bytecode object with the `file` and `library` name, replacing all
    /// placeholders of that library with `address`.
    ///
    /// Returns whether the bytecode object is then fully linked. An object that is already
    /// fully linked is left as it is.
    pub fn link(&mut self, file: &str, library: &str, address: Address) -> (r: bool)
        ensures
            ({
                let step = link_spec(old(self)@.object, old(self)@.link_references, file@, library@, address@);
                final(self)@ == with_compact_link_parts(old(self)@, step.0, step.1) && r == step.2
            }),
    {
        link_parts(&mut self.object, &mut self.link_references, file, library, address)
    }

    /// The bytes, if the object is fully linked.
    pub fn bytes(&self) -> (r: Option<&Vec<u8>>)
        ensures
            bytes_of(r, self@.object),
    {
        self.object.as_bytes()
    }

    /// The bytes, if the object is fully linked.
    pub fn into_bytes(self) -> (r: Option<Vec<u8>>)
        ensures
            owned_bytes_of(r, self@.object),
    {
        self.object.into_bytes()
    }
}

} // verus!

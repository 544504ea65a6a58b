//! The bytecode object: either fully linked bytes, or hex text that still holds library
//! placeholders.

use vstd::prelude::*;
use crate::hex::{decode_hex, encode_hex, hex_encoding, hex_decoding, is_hex_text};
use crate::placeholder::{
    fully_qualified_placeholder_of, library_fully_qualified_placeholder,
    library_hash_placeholder, library_hash_placeholder_of, wrapped,
};
use crate::text::{
    chars_of, contains_chars, contains_seq, extend_chars, replace_all, replace_chars,
    string_from_chars, strip_prefix_chars, strip_prefix_seq,
};
use crate::types::Address;

verus! {

/// The bytecode of a contract, which may not be fully linked yet.
#[derive(Clone, Debug, PartialEq, Eq)]
pub enum BytecodeObject {
    /// Fully linked bytecode.
    Bytecode(Vec<u8>),
    /// Bytecode as hex text that is not fully linked yet and holds library placeholders.
    Unlinked(String),
}

/// What a bytecode object holds: its bytes, or its unlinked text.
pub ghost enum ObjectView {
    Bytecode(Seq<u8>),
    Unlinked(Seq<char>),
}

impl View for BytecodeObject {
    type V = ObjectView;

    open spec fn view(&self) -> ObjectView {
        match self {
            BytecodeObject::Bytecode(b) => ObjectView::Bytecode(b@),
            BytecodeObject::Unlinked(s) => ObjectView::Unlinked(s@),
        }
    }
}

/// The fully qualified name `<file>:<library>`.
pub open spec fn qualified_name(file: Seq<char>, library: Seq<char>) -> Seq<char> {
    file + seq![':'] + library
}

/// The object after every occurrence of the old placeholder `fq` and then of the hash
/// placeholder `hash`, each wrapped in `__`, has been replaced by the hex of `addr`.
/// A fully linked object stays as it is.
pub open spec fn link_with_placeholders_spec(
    obj: ObjectView,
    hash: Seq<char>,
    fq: Seq<char>,
    addr: Seq<u8>,
) -> ObjectView {
    match obj {
        ObjectView::Unlinked(s) => ObjectView::Unlinked(
            replace_all(
                replace_all(s, wrapped(fq), hex_encoding(addr)),
                wrapped(hash),
                hex_encoding(addr),
            ),
        ),
        ObjectView::Bytecode(_) => obj,
    }
}

/// The object after linking the library with fully qualified name `name` at `addr`.
pub open spec fn link_fully_qualified_spec(obj: ObjectView, name: Seq<char>, addr: Seq<u8>) -> ObjectView {
    link_with_placeholders_spec(
        obj,
        library_hash_placeholder_of(name),
        fully_qualified_placeholder_of(name),
        addr,
    )
}

/// The object after linking each `(file, library, address)` of `libs` in turn.
pub open spec fn link_all_spec(obj: ObjectView, libs: Seq<(Seq<char>, Seq<char>, Seq<u8>)>) -> ObjectView
    decreases libs.len(),
{
    if libs.len() == 0 {
        obj
    } else {
        link_all_spec(
            link_fully_qualified_spec(obj, qualified_name(libs[0].0, libs[0].1), libs[0].2),
            libs.drop_first(),
        )
    }
}

/// The libraries as sequences: file, library name, address bytes.
pub open spec fn libs_view(libs: Seq<(&str, &str, Address)>) -> Seq<(Seq<char>, Seq<char>, Seq<u8>)> {
    libs.map_values(|l: (&str, &str, Address)| (l.0@, l.1@, l.2@))
}

/// Whether the unlinked text holds the hash placeholder `hash` or the old placeholder `fq`.
pub open spec fn contains_placeholders_spec(obj: ObjectView, hash: Seq<char>, fq: Seq<char>) -> bool {
    match obj {
        ObjectView::Unlinked(s) => contains_seq(s, hash) || contains_seq(s, fq),
        ObjectView::Bytecode(_) => false,
    }
}

/// Whether the unlinked text holds a placeholder of the library with fully qualified name `name`.
pub open spec fn contains_fully_qualified_placeholder_spec(obj: ObjectView, name: Seq<char>) -> bool {
    contains_placeholders_spec(obj, library_hash_placeholder_of(name), fully_qualified_placeholder_of(name))
}

/// The object after trying to read its unlinked text as hex: text that is hex becomes the
/// bytes it stands for; anything else stays as it is.
pub open spec fn resolve_spec(obj: ObjectView) -> ObjectView {
    match obj {
        ObjectView::Unlinked(s) => if is_hex_text(s) {
            ObjectView::Bytecode(hex_decoding(s))
        } else {
            obj
        },
        ObjectView::Bytecode(_) => obj,
    }
}

/// The bytes of a fully linked object.
pub open spec fn linked_bytes(obj: ObjectView) -> Option<Seq<u8>> {
    match obj {
        ObjectView::Bytecode(b) => Some(b),
        ObjectView::Unlinked(_) => None,
    }
}

/// The text written for an object: the hex of the bytes, or the unlinked text without a
/// leading `0x`.
pub open spec fn text_without_prefix(obj: ObjectView) -> Seq<char> {
    match obj {
        ObjectView::Bytecode(b) => hex_encoding(b),
        ObjectView::Unlinked(s) => match strip_prefix_seq(s, seq!['0', 'x']) {
            Some(rest) => rest,
            None => s,
        },
    }
}

/// `pat` wrapped in two `__` on each side, as characters.
fn wrap_chars(pat: &Vec<char>) -> (r: Vec<char>)
    ensures
        r@ == wrapped(pat@),
{
    let mut r: Vec<char> = Vec::new();
    r.push('_');
    r.push('_');
    extend_chars(&mut r, pat);
    r.push('_');
    r.push('_');
    assert(r@ =~= wrapped(pat@));
    r
}

/// The characters of `<file>:<library>`.
fn qualified_name_chars(file: &str, library: &str) -> (r: Vec<char>)
    ensures
        r@ == qualified_name(file@, library@),
{
    let mut r = chars_of(file);
    r.push(':');
    let lib = chars_of(library);
    extend_chars(&mut r, &lib);
    r
}

impl BytecodeObject {
    /// The bytes, if the object is fully linked.
    pub fn as_bytes(&self) -> (r: Option<&Vec<u8>>)
        ensures
            r is Some <==> linked_bytes(self@) is Some,
            r matches Some(b) ==> linked_bytes(self@) == Some(b@),
    {
        match self {
            BytecodeObject::Bytecode(bytes) => Some(bytes),
            BytecodeObject::Unlinked(_) => None,
        }
    }

    /// The bytes, if the object is fully linked.
    pub fn into_bytes(self) -> (r: Option<Vec<u8>>)
        ensures
            r is Some <==> linked_bytes(self@) is Some,
            r matches Some(b) ==> linked_bytes(self@) == Some(b@),
    {
        match self {
            BytecodeObject::Bytecode(bytes) => Some(bytes),
            BytecodeObject::Unlinked(_) => None,
        }
    }

    /// The number of bytes of fully linked bytecode; `0` if the object is unlinked.
    pub fn bytes_len(&self) -> (r: usize)
        ensures
            r == match self@ {
                ObjectView::Bytecode(b) => b.len(),
                ObjectView::Unlinked(_) => 0,
            },
    {
        match self.as_bytes() {
            Some(b) => b.len(),
            None => 0,
        }
    }

    /// The unlinked text, if the object is unlinked.
    pub fn as_str(&self) -> (r: Option<&str>)
        ensures
            r is Some <==> self@ is Unlinked,
            r matches Some(s) ==> self@ == ObjectView::Unlinked(s@),
    {
        match self {
            BytecodeObject::Bytecode(_) => None,
            BytecodeObject::Unlinked(s) => Some(s.as_str()),
        }
    }

    /// The unlinked text, if the object is unlinked.
    pub fn into_unlinked(self) -> (r: Option<String>)
        ensures
            r is Some <==> self@ is Unlinked,
            r matches Some(s) ==> self@ == ObjectView::Unlinked(s@),
    {
        match self {
            BytecodeObject::Bytecode(_) => None,
            BytecodeObject::Unlinked(code) => Some(code),
        }
    }

    /// Whether the object is still unlinked.
    pub fn is_unlinked(&self) -> (r: bool)
        ensures
            r == self@ is Unlinked,
    {
        match self {
            BytecodeObject::Unlinked(_) => true,
            BytecodeObject::Bytecode(_) => false,
        }
    }

    /// Whether the object is fully linked bytecode.
    pub fn is_bytecode(&self) -> (r: bool)
        ensures
            r == self@ is Bytecode,
    {
        match self {
            BytecodeObject::Bytecode(_) => true,
            BytecodeObject::Unlinked(_) => false,
        }
    }

    /// Whether the object is fully linked bytecode of at least one byte.
    pub fn is_non_empty_bytecode(&self) -> (r: bool)
        ensures
            r == (self@ matches ObjectView::Bytecode(b) && b.len() > 0),
    {
        match self.as_bytes() {
            Some(c) => c.len() != 0,
            None => false,
        }
    }

    /// Tries to read the unlinked text as hex; where it is, the object becomes the bytes it
    /// stands for. Returns the bytes if the object is then fully linked.
    pub fn resolve(&mut self) -> (r: Option<&Vec<u8>>)
        ensures
            final(self)@ == resolve_spec(old(self)@),
            r is Some <==> linked_bytes(final(self)@) is Some,
            r matches Some(b) ==> linked_bytes(final(self)@) == Some(b@),
    {
        let decoded = match self {
            BytecodeObject::Unlinked(unlinked) => match decode_hex(unlinked.as_str()) {
                Ok(linked) => Some(linked),
                Err(_) => None,
            },
            BytecodeObject::Bytecode(_) => None,
        };
        if let Some(linked) = decoded {
            *self = BytecodeObject::Bytecode(linked);
        }
        self.as_bytes()
    }

    /// Replaces, in unlinked text, every occurrence of the old placeholder `fq` and then of
    /// the hash placeholder `hash`, each wrapped in `__`, by the lowercase hex of `addr`.
    /// A fully linked object is left as it is.
    pub fn link_with_placeholders(&mut self, hash: &str, fq: &str, addr: &Address)
        ensures
            final(self)@ == link_with_placeholders_spec(old(self)@, hash@, fq@, addr@),
    {
        let linked = match self {
            BytecodeObject::Unlinked(unlinked) => {
                let hex_addr = encode_hex(addr.as_slice());
                let rep = chars_of(hex_addr.as_str());
                let text = chars_of(unlinked.as_str());
                let fq_pat = wrap_chars(&chars_of(fq));
                let hash_pat = wrap_chars(&chars_of(hash));
                let once = replace_chars(&text, &fq_pat, &rep);
                let twice = replace_chars(&once, &hash_pat, &rep);
                Some(string_from_chars(&twice))
            },
            BytecodeObject::Bytecode(_) => None,
        };
        if let Some(s) = linked {
            *self = BytecodeObject::Unlinked(s);
        }
    }

    /// Links the library with fully qualified name `name` (`file.sol:Math`): every
    /// placeholder of that library in unlinked text becomes the lowercase hex of `addr`.
    pub fn link_fully_qualified(&mut self, name: &str, addr: Address) -> (r: &mut Self)
        ensures
            r@ == link_fully_qualified_spec(old(self)@, name@, addr@),
            *final(self) == *final(r),
    {
        if self.is_unlinked() {
            let hash = library_hash_placeholder(name);
            let fq = library_fully_qualified_placeholder(name);
            self.link_with_placeholders(hash.as_str(), fq.as_str(), &addr);
        }
        self
    }

    /// Links using the `file` and `library` names as the fully qualified name
    /// `<file>:<library>`.
    pub fn link(&mut self, file: &str, library: &str, addr: Address) -> (r: &mut Self)
        ensures
            r@ == link_fully_qualified_spec(old(self)@, qualified_name(file@, library@), addr@),
            *final(self) == *final(r),
    {
        let name = string_from_chars(&qualified_name_chars(file, library));
        self.link_fully_qualified(name.as_str(), addr)
    }

    /// Links each `(file, library, address)` of `libs`, in order.
    pub fn link_all(&mut self, libs: &[(&str, &str, Address)]) -> (r: &mut Self)
        ensures
            r@ == link_all_spec(old(self)@, libs_view(libs@)),
            *final(self) == *final(r),
    {
        let ghost all = libs_view(libs@);
        let mut i: usize = 0;
        assert(all.skip(0) =~= all);
        while i < libs.len()
            invariant
                i <= libs@.len(),
                all == libs_view(libs@),
                link_all_spec(old(self)@, all) == link_all_spec(self@, all.skip(i as int)),
            decreases libs.len() - i,
        {
            let (file, library, addr) = libs[i];
            assert(all.skip(i as int).drop_first() =~= all.skip(i + 1));
            assert(all.skip(i as int)[0] == (file@, library@, addr@));
            self.link(file, library, addr);
            i += 1;
        }
        assert(all.skip(i as int) =~= Seq::<(Seq<char>, Seq<char>, Seq<u8>)>::empty());
        self
    }

    /// Whether unlinked text holds the hash placeholder `hash` or the old placeholder `fq`
    /// (each as it is, without `__` around it); `false` for a fully linked object.
    pub fn contains_placeholders(&self, hash: &str, fq: &str) -> (r: bool)
        ensures
            r == contains_placeholders_spec(self@, hash@, fq@),
    {
        match self {
            BytecodeObject::Unlinked(unlinked) => {
                let text = chars_of(unlinked.as_str());
                contains_chars(&text, &chars_of(hash)) || contains_chars(&text, &chars_of(fq))
            },
            BytecodeObject::Bytecode(_) => false,
        }
    }

    /// Whether the bytecode holds a placeholder of the library with fully qualified name
    /// `name`.
    pub fn contains_fully_qualified_placeholder(&self, name: &str) -> (r: bool)
        ensures
            r == contains_fully_qualified_placeholder_spec(self@, name@),
    {
        if self.is_unlinked() {
            let hash = library_hash_placeholder(name);
            let fq = library_fully_qualified_placeholder(name);
            self.contains_placeholders(hash.as_str(), fq.as_str())
        } else {
            false
        }
    }

    /// Whether the bytecode holds a placeholder of the library `library` of file `file`.
    pub fn contains_placeholder(&self, file: &str, library: &str) -> (r: bool)
        ensures
            r == contains_fully_qualified_placeholder_spec(self@, qualified_name(file@, library@)),
    {
        let name = string_from_chars(&qualified_name_chars(file, library));
        self.contains_fully_qualified_placeholder(name.as_str())
    }
}

/// An empty, fully linked object.
impl Default for BytecodeObject {
    fn default() -> (r: Self)
        ensures
            r@ == ObjectView::Bytecode(Seq::empty()),
    {
        BytecodeObject::Bytecode(Vec::new())
    }
}

/// The bytes of a fully linked object, or the UTF-8 bytes of the unlinked text.
impl AsRef<[u8]> for BytecodeObject {
    fn as_ref(&self) -> (r: &[u8])
        ensures
            r@ == match self@ {
                ObjectView::Bytecode(b) => b,
                ObjectView::Unlinked(s) => vstd::utf8::encode_utf8(s),
            },
    {
        match self {
            BytecodeObject::Bytecode(code) => code.as_slice(),
            BytecodeObject::Unlinked(code) => code.as_str().as_bytes(),
        }
    }
}

/// The text that stands for a bytecode object when it is written out: the lowercase hex of
/// fully linked bytes, or the unlinked text without a leading `0x`.
pub fn serialize_bytecode_without_prefix(bytecode: &BytecodeObject) -> (r: String)
    ensures
        r@ == text_without_prefix(bytecode@),
{
    match bytecode {
        BytecodeObject::Bytecode(code) => encode_hex(code.as_slice()),
        BytecodeObject::Unlinked(code) => {
            let text = chars_of(code.as_str());
            let mut prefix: Vec<char> = Vec::new();
            prefix.push('0');
            prefix.push('x');
            assert(prefix@ =~= seq!['0', 'x']);
            match strip_prefix_chars(&text, &prefix) {
                Some(rest) => string_from_chars(&rest),
                None => code.clone(),
            }
        },
    }
}

} // verus!

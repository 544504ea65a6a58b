//! What holds of linking, resolving and converting bytecode across calls.

use vstd::prelude::*;
use crate::bytecode::{
    bytecode_of_compact, compact_of, link_all_names_spec, link_all_refs_spec,
    link_fully_qualified_name_spec, link_spec, CompactBytecodeView, LinkReferencesView,
};
use crate::deployed::{compact_deployed_of, deployed_of_compact, CompactDeployedBytecodeView};
use crate::hex::{hex_encoding, lemma_hex_char, lemma_hex_roundtrip};
use crate::object::{
    contains_fully_qualified_placeholder_spec, link_all_spec, link_fully_qualified_spec,
    link_with_placeholders_spec, qualified_name, resolve_spec, text_without_prefix, ObjectView,
};
use crate::multi_replace::{
    apart, lemma_many_same_entries, lemma_replace_after_many, lemma_replace_all_is_many,
    replace_many, starts_with,
};
use crate::placeholder::{fully_qualified_placeholder_of, library_hash_placeholder_of, wrapped};
use crate::text::{
    contains_seq, free_of, lemma_contains_inner, lemma_replace_absent, lemma_replace_leaves_no_bounded,
    replace_all, split_once_seq,
};

verus! {

/// Linking a library into bytecode reports `true` exactly when the object is then fully
/// linked.
pub proof fn lemma_link_reports_linked(
    obj: ObjectView,
    refs: LinkReferencesView,
    file: Seq<char>,
    library: Seq<char>,
    addr: Seq<u8>,
)
    ensures
        link_spec(obj, refs, file, library, addr).2 <==> link_spec(obj, refs, file, library, addr).0 is Bytecode,
{
}

/// Linking into bytecode whose object is already fully linked changes nothing and reports
/// `true`.
pub proof fn lemma_link_when_linked(
    bytes: Seq<u8>,
    refs: LinkReferencesView,
    file: Seq<char>,
    library: Seq<char>,
    addr: Seq<u8>,
)
    ensures
        link_spec(ObjectView::Bytecode(bytes), refs, file, library, addr) == (ObjectView::Bytecode(bytes), refs, true),
        link_fully_qualified_spec(ObjectView::Bytecode(bytes), library, addr) == ObjectView::Bytecode(bytes),
{
}

/// Linking into unlinked bytecode a library of a file that the link references do not list
/// changes nothing and reports `false`.
pub proof fn lemma_link_unlisted_file(
    text: Seq<char>,
    refs: LinkReferencesView,
    file: Seq<char>,
    library: Seq<char>,
    addr: Seq<u8>,
)
    requires
        !refs.contains_key(file),
    ensures
        link_spec(ObjectView::Unlinked(text), refs, file, library, addr) == (ObjectView::Unlinked(text), refs, false),
{
}

/// Linking never adds link references: every file left was listed before, and every library
/// left under it was listed under it before.
pub proof fn lemma_link_shrinks_references(
    obj: ObjectView,
    refs: LinkReferencesView,
    file: Seq<char>,
    library: Seq<char>,
    addr: Seq<u8>,
)
    ensures
        ({
            let after = link_spec(obj, refs, file, library, addr).1;
            forall|f: Seq<char>| #[trigger] after.contains_key(f) ==> refs.contains_key(f)
                && after[f].dom().subset_of(refs[f].dom())
        }),
        !link_spec(obj, refs, file, library, addr).1.contains_key(file) || !link_spec(obj, refs, file, library, addr).1[file].contains_key(library) || !(obj is Unlinked),
{
}

/// Linking a whole list of libraries, when the list is not empty, reports `true` exactly
/// when the object is then fully linked.
pub proof fn lemma_link_all_reports_linked(
    obj: ObjectView,
    refs: LinkReferencesView,
    libs: Seq<(Seq<char>, Seq<char>, Seq<u8>)>,
)
    requires
        libs.len() > 0,
    ensures
        link_all_refs_spec(obj, refs, libs).2 <==> link_all_refs_spec(obj, refs, libs).0 is Bytecode,
    decreases libs.len(),
{
    let step = link_spec(obj, refs, libs[0].0, libs[0].1, libs[0].2);
    lemma_link_reports_linked(obj, refs, libs[0].0, libs[0].1, libs[0].2);
    assert(libs.drop_first().len() == 0 ==> link_all_refs_spec(step.0, step.1, libs.drop_first()) == (step.0, step.1, false));
    if !step.2 && libs.len() > 1 {
        lemma_link_all_reports_linked(step.0, step.1, libs.drop_first());
    }
}

/// Linking by fully qualified name reports `true` exactly when the object is then fully
/// linked.
pub proof fn lemma_link_name_reports_linked(
    obj: ObjectView,
    refs: LinkReferencesView,
    name: Seq<char>,
    addr: Seq<u8>,
)
    ensures
        link_fully_qualified_name_spec(obj, refs, name, addr).2 <==> link_fully_qualified_name_spec(obj, refs, name, addr).0 is Bytecode,
{
    if let Some((file, library)) = split_once_seq(name, ':') {
        lemma_link_reports_linked(obj, refs, file, library, addr);
    }
}

/// Linking a non-empty list of fully qualified names reports `true` exactly when the object
/// is then fully linked.
pub proof fn lemma_link_all_names_reports_linked(
    obj: ObjectView,
    refs: LinkReferencesView,
    libs: Seq<(Seq<char>, Seq<u8>)>,
)
    requires
        libs.len() > 0,
    ensures
        link_all_names_spec(obj, refs, libs).2 <==> link_all_names_spec(obj, refs, libs).0 is Bytecode,
    decreases libs.len(),
{
    let step = link_fully_qualified_name_spec(obj, refs, libs[0].0, libs[0].1);
    lemma_link_name_reports_linked(obj, refs, libs[0].0, libs[0].1);
    assert(libs.drop_first().len() == 0 ==> link_all_names_spec(step.0, step.1, libs.drop_first()) == (step.0, step.1, false));
    if !step.2 && libs.len() > 1 {
        lemma_link_all_names_reports_linked(step.0, step.1, libs.drop_first());
    }
}

/// Linking a library whose placeholders do not occur in the bytecode leaves it as it is.
pub proof fn lemma_link_without_placeholder(obj: ObjectView, name: Seq<char>, addr: Seq<u8>)
    requires
        !contains_fully_qualified_placeholder_spec(obj, name),
    ensures
        link_fully_qualified_spec(obj, name, addr) == obj,
{
    if let ObjectView::Unlinked(s) = obj {
        let hash = library_hash_placeholder_of(name);
        let fq = fully_qualified_placeholder_of(name);
        let rep = crate::hex::hex_encoding(addr);
        if contains_seq(s, wrapped(fq)) {
            lemma_contains_inner(s, seq!['_', '_'], fq, seq!['_', '_']);
        }
        lemma_replace_absent(s, wrapped(fq), rep);
        if contains_seq(s, wrapped(hash)) {
            lemma_contains_inner(s, seq!['_', '_'], hash, seq!['_', '_']);
        }
        lemma_replace_absent(s, wrapped(hash), rep);
    }
}

/// The text written for fully linked bytecode, read back as unlinked text and resolved,
/// gives the same bytecode.
pub proof fn lemma_written_bytecode_resolves(bytes: Seq<u8>)
    ensures
        resolve_spec(ObjectView::Unlinked(text_without_prefix(ObjectView::Bytecode(bytes)))) == ObjectView::Bytecode(bytes),
{
    lemma_hex_roundtrip(bytes);
}

/// Resolving twice is resolving once.
pub proof fn lemma_resolve_idempotent(obj: ObjectView)
    ensures
        resolve_spec(resolve_spec(obj)) == resolve_spec(obj),
{
}

/// Turning compact bytecode into bytecode and back gives the same compact bytecode.
pub proof fn lemma_compact_roundtrip(c: CompactBytecodeView)
    ensures
        compact_of(bytecode_of_compact(c)) == c,
{
}

/// Turning compact deployed bytecode into deployed bytecode and back gives the same compact
/// deployed bytecode.
pub proof fn lemma_compact_deployed_roundtrip(c: CompactDeployedBytecodeView)
    ensures
        compact_deployed_of(deployed_of_compact(c)) == c,
{
}

/// The hex of an address has 40 characters, none of them `_`.
proof fn lemma_address_hex(addr: Seq<u8>)
    requires
        addr.len() == 20,
    ensures
        hex_encoding(addr).len() == 40,
        free_of(hex_encoding(addr), '_'),
{
    let e = hex_encoding(addr);
    assert forall|i: int| 0 <= i < e.len() implies e[i] != '_' by {
        if i % 2 == 0 {
            lemma_hex_char(addr[i / 2] as int / 16);
        } else {
            lemma_hex_char(addr[i / 2] as int % 16);
        }
    }
}

/// A placeholder wrapped in `__` starts and ends with `_`.
proof fn lemma_wrapped(p: Seq<char>)
    ensures
        wrapped(p).len() == p.len() + 4,
        wrapped(p)[0] == '_',
        wrapped(p)[wrapped(p).len() - 1] == '_',
{
}

/// Linking leaves none of the library's placeholders, each wrapped in `__`, in the text, so
/// linking the same library again, at any address, changes nothing. This holds for
/// placeholders of at most 36 characters, the length the compiler gives them; a longer
/// placeholder can be rebuilt from the hex of the address around it.
pub proof fn lemma_link_with_placeholders_twice(
    obj: ObjectView,
    hash: Seq<char>,
    fq: Seq<char>,
    addr1: Seq<u8>,
    addr2: Seq<u8>,
)
    requires
        hash.len() <= 36,
        fq.len() <= 36,
        addr1.len() == 20,
        addr2.len() == 20,
    ensures
        link_with_placeholders_spec(obj, hash, fq, addr1) matches ObjectView::Unlinked(t)
            ==> !contains_seq(t, wrapped(fq)) && !contains_seq(t, wrapped(hash)),
        link_with_placeholders_spec(link_with_placeholders_spec(obj, hash, fq, addr1), hash, fq, addr2)
            == link_with_placeholders_spec(obj, hash, fq, addr1),
{
    if let ObjectView::Unlinked(s) = obj {
        let wf = wrapped(fq);
        let wh = wrapped(hash);
        let rep = hex_encoding(addr1);
        lemma_address_hex(addr1);
        lemma_wrapped(fq);
        lemma_wrapped(hash);
        let t1 = replace_all(s, wf, rep);
        let t2 = replace_all(t1, wh, rep);
        lemma_replace_leaves_no_bounded(s, wf, rep, wf);
        lemma_replace_leaves_no_bounded(t1, wh, rep, wf);
        lemma_replace_leaves_no_bounded(t1, wh, rep, wh);
        let rep2 = hex_encoding(addr2);
        lemma_replace_absent(t2, wf, rep2);
        lemma_replace_absent(t2, wh, rep2);
    }
}

/// Linking a library leaves none of its placeholders, each wrapped in `__`, in the text, so
/// linking it again, at any address, changes nothing. The hash placeholder has 36 characters,
/// as the placeholder call states for every name.
pub proof fn lemma_link_twice(obj: ObjectView, name: Seq<char>, addr1: Seq<u8>, addr2: Seq<u8>)
    requires
        library_hash_placeholder_of(name).len() == 36,
        addr1.len() == 20,
        addr2.len() == 20,
    ensures
        link_fully_qualified_spec(obj, name, addr1) matches ObjectView::Unlinked(t)
            ==> !contains_seq(t, wrapped(fully_qualified_placeholder_of(name)))
                && !contains_seq(t, wrapped(library_hash_placeholder_of(name))),
        link_fully_qualified_spec(link_fully_qualified_spec(obj, name, addr1), name, addr2)
            == link_fully_qualified_spec(obj, name, addr1),
{
    lemma_link_with_placeholders_twice(
        obj,
        library_hash_placeholder_of(name),
        fully_qualified_placeholder_of(name),
        addr1,
        addr2,
    );
}

/// Overlap is symmetric.
proof fn lemma_apart_symmetric(s: Seq<char>, p: Seq<char>, q: Seq<char>)
    requires
        apart(s, p, q),
    ensures
        apart(s, q, p),
{
}

/// Different placeholders stay different once wrapped in `__`.
proof fn lemma_wrapped_injective(p: Seq<char>, q: Seq<char>)
    requires
        p != q,
    ensures
        wrapped(p) != wrapped(q),
{
    lemma_wrapped(p);
    lemma_wrapped(q);
    if wrapped(p) == wrapped(q) {
        assert(p.len() == q.len());
        assert(wrapped(p).subrange(2, 2 + p.len() as int) =~= p);
        assert(wrapped(q).subrange(2, 2 + q.len() as int) =~= q);
    }
}

/// Linking one library and then another is one scan that replaces each of the four wrapped
/// placeholders by the hex of its library's address.
proof fn lemma_link_pair_is_scan(
    s: Seq<char>,
    h1: Seq<char>,
    f1: Seq<char>,
    a1: Seq<u8>,
    h2: Seq<char>,
    f2: Seq<char>,
    a2: Seq<u8>,
)
    requires
        h1.len() == 36,
        f1.len() == 36,
        h2.len() == 36,
        f2.len() == 36,
        a1.len() == 20,
        a2.len() == 20,
        apart(s, wrapped(f1), wrapped(h1)),
        apart(s, wrapped(f1), wrapped(f2)),
        apart(s, wrapped(f1), wrapped(h2)),
        apart(s, wrapped(h1), wrapped(f2)),
        apart(s, wrapped(h1), wrapped(h2)),
        apart(s, wrapped(f2), wrapped(h2)),
    ensures
        link_with_placeholders_spec(link_with_placeholders_spec(ObjectView::Unlinked(s), h1, f1, a1), h2, f2, a2)
            == ObjectView::Unlinked(replace_many(s, seq![
                (wrapped(f1), hex_encoding(a1)),
                (wrapped(h1), hex_encoding(a1)),
                (wrapped(f2), hex_encoding(a2)),
                (wrapped(h2), hex_encoding(a2)),
            ])),
{
    let (wf1, wh1, wf2, wh2) = (wrapped(f1), wrapped(h1), wrapped(f2), wrapped(h2));
    let (x1, x2) = (hex_encoding(a1), hex_encoding(a2));
    lemma_address_hex(a1);
    lemma_address_hex(a2);
    lemma_wrapped(f1);
    lemma_wrapped(h1);
    lemma_wrapped(f2);
    lemma_wrapped(h2);
    let p1 = seq![(wf1, x1)];
    let p2 = p1.push((wh1, x1));
    let p3 = p2.push((wf2, x2));
    let p4 = p3.push((wh2, x2));
    lemma_replace_all_is_many(s, wf1, x1);
    lemma_replace_after_many(s, p1, wh1, x1);
    assert(p2[0] == (wf1, x1) && p2[1] == (wh1, x1));
    lemma_replace_after_many(s, p2, wf2, x2);
    assert(p3[0] == (wf1, x1) && p3[1] == (wh1, x1) && p3[2] == (wf2, x2));
    lemma_replace_after_many(s, p3, wh2, x2);
    assert(p4 =~= seq![(wf1, x1), (wh1, x1), (wf2, x2), (wh2, x2)]);
}

/// Linking two libraries gives the same bytecode in either order, when their four
/// placeholders (each of 36 characters, as the compiler gives them) are different from one
/// another and, wrapped in `__`, no occurrence of one overlaps an occurrence of another in the
/// text.
pub proof fn lemma_link_commutes(
    s: Seq<char>,
    h1: Seq<char>,
    f1: Seq<char>,
    a1: Seq<u8>,
    h2: Seq<char>,
    f2: Seq<char>,
    a2: Seq<u8>,
)
    requires
        h1.len() == 36,
        f1.len() == 36,
        h2.len() == 36,
        f2.len() == 36,
        a1.len() == 20,
        a2.len() == 20,
        h1 != f1,
        h1 != f2,
        h1 != h2,
        f1 != f2,
        f1 != h2,
        f2 != h2,
        apart(s, wrapped(f1), wrapped(h1)),
        apart(s, wrapped(f1), wrapped(f2)),
        apart(s, wrapped(f1), wrapped(h2)),
        apart(s, wrapped(h1), wrapped(f2)),
        apart(s, wrapped(h1), wrapped(h2)),
        apart(s, wrapped(f2), wrapped(h2)),
    ensures
        link_with_placeholders_spec(link_with_placeholders_spec(ObjectView::Unlinked(s), h1, f1, a1), h2, f2, a2)
            == link_with_placeholders_spec(link_with_placeholders_spec(ObjectView::Unlinked(s), h2, f2, a2), h1, f1, a1),
{
    let (wf1, wh1, wf2, wh2) = (wrapped(f1), wrapped(h1), wrapped(f2), wrapped(h2));
    let (x1, x2) = (hex_encoding(a1), hex_encoding(a2));
    lemma_apart_symmetric(s, wf1, wh1);
    lemma_apart_symmetric(s, wf1, wf2);
    lemma_apart_symmetric(s, wf1, wh2);
    lemma_apart_symmetric(s, wh1, wf2);
    lemma_apart_symmetric(s, wh1, wh2);
    lemma_apart_symmetric(s, wf2, wh2);
    lemma_link_pair_is_scan(s, h1, f1, a1, h2, f2, a2);
    lemma_link_pair_is_scan(s, h2, f2, a2, h1, f1, a1);
    lemma_wrapped_injective(h1, f1);
    lemma_wrapped_injective(h1, f2);
    lemma_wrapped_injective(h1, h2);
    lemma_wrapped_injective(f1, f2);
    lemma_wrapped_injective(f1, h2);
    lemma_wrapped_injective(f2, h2);
    let l12 = seq![(wf1, x1), (wh1, x1), (wf2, x2), (wh2, x2)];
    let l21 = seq![(wf2, x2), (wh2, x2), (wf1, x1), (wh1, x1)];
    assert forall|e: (Seq<char>, Seq<char>)| l12.contains(e) <==> l21.contains(e) by {
        if l12.contains(e) {
            let k = choose|k: int| 0 <= k < l12.len() && l12[k] == e;
            assert(l21[(k + 2) % 4] == e);
        }
        if l21.contains(e) {
            let k = choose|k: int| 0 <= k < l21.len() && l21[k] == e;
            assert(l12[(k + 2) % 4] == e);
        }
    }
    assert forall|i: int, e: (Seq<char>, Seq<char>), f: (Seq<char>, Seq<char>)|
        #![trigger starts_with(s.skip(i), e.0), starts_with(s.skip(i), f.0)]
        l12.contains(e) && l12.contains(f) && starts_with(s.skip(i), e.0) && starts_with(s.skip(i), f.0)
        && 0 <= i <= s.len() implies e == f by {
        let ke = choose|k: int| 0 <= k < l12.len() && l12[k] == e;
        let kf = choose|k: int| 0 <= k < l12.len() && l12[k] == f;
        lemma_wrapped(f1);
        lemma_wrapped(h1);
        lemma_wrapped(f2);
        lemma_wrapped(h2);
        assert(e.0.len() == 40 && f.0.len() == 40);
        assert(e.0 == f.0);
        if ke != kf {
            assert(l12[ke].0 != l12[kf].0);
        }
    }
    lemma_many_same_entries(s, l12, l21);
}

/// Linking two libraries by fully qualified name gives the same bytecode in either order,
/// when their four placeholders are different from one another and, wrapped in `__`, no
/// occurrence of one overlaps an occurrence of another in the text. The hash placeholders
/// have 36 characters, as the placeholder call states for every name.
pub proof fn lemma_link_names_commute(s: Seq<char>, n1: Seq<char>, a1: Seq<u8>, n2: Seq<char>, a2: Seq<u8>)
    requires
        library_hash_placeholder_of(n1).len() == 36,
        library_hash_placeholder_of(n2).len() == 36,
        a1.len() == 20,
        a2.len() == 20,
        library_hash_placeholder_of(n1) != fully_qualified_placeholder_of(n1),
        library_hash_placeholder_of(n1) != fully_qualified_placeholder_of(n2),
        library_hash_placeholder_of(n1) != library_hash_placeholder_of(n2),
        fully_qualified_placeholder_of(n1) != fully_qualified_placeholder_of(n2),
        fully_qualified_placeholder_of(n1) != library_hash_placeholder_of(n2),
        fully_qualified_placeholder_of(n2) != library_hash_placeholder_of(n2),
        apart(s, wrapped(fully_qualified_placeholder_of(n1)), wrapped(library_hash_placeholder_of(n1))),
        apart(s, wrapped(fully_qualified_placeholder_of(n1)), wrapped(fully_qualified_placeholder_of(n2))),
        apart(s, wrapped(fully_qualified_placeholder_of(n1)), wrapped(library_hash_placeholder_of(n2))),
        apart(s, wrapped(library_hash_placeholder_of(n1)), wrapped(fully_qualified_placeholder_of(n2))),
        apart(s, wrapped(library_hash_placeholder_of(n1)), wrapped(library_hash_placeholder_of(n2))),
        apart(s, wrapped(fully_qualified_placeholder_of(n2)), wrapped(library_hash_placeholder_of(n2))),
    ensures
        link_fully_qualified_spec(link_fully_qualified_spec(ObjectView::Unlinked(s), n1, a1), n2, a2)
            == link_fully_qualified_spec(link_fully_qualified_spec(ObjectView::Unlinked(s), n2, a2), n1, a1),
{
    lemma_link_commutes(
        s,
        library_hash_placeholder_of(n1),
        fully_qualified_placeholder_of(n1),
        a1,
        library_hash_placeholder_of(n2),
        fully_qualified_placeholder_of(n2),
        a2,
    );
}

/// The link references list `library` under `file`.
pub open spec fn lists(refs: LinkReferencesView, file: Seq<char>, library: Seq<char>) -> bool {
    refs.contains_key(file) && refs[file].contains_key(library)
}

/// Linking a library that the references list into unlinked bytecode links its object
/// exactly as linking the bytecode object alone by `<file>:<library>` does, whatever other
/// libraries are still listed, and reads it as hex when no reference is left. The library,
/// and only it, stops being listed.
pub proof fn lemma_link_listed_links_object(
    obj: ObjectView,
    refs: LinkReferencesView,
    file: Seq<char>,
    library: Seq<char>,
    addr: Seq<u8>,
)
    requires
        obj is Unlinked,
        lists(refs, file, library),
    ensures
        ({
            let after = link_spec(obj, refs, file, library, addr);
            let linked = link_fully_qualified_spec(obj, qualified_name(file, library), addr);
            &&& after.1 == LinkReferencesView::empty() ==> after.0 == resolve_spec(linked)
            &&& after.1 != LinkReferencesView::empty() ==> after.0 == linked
            &&& forall|f: Seq<char>, l: Seq<char>| #[trigger] lists(after.1, f, l)
                <==> lists(refs, f, l) && !(f == file && l == library)
        }),
{
    let after = link_spec(obj, refs, file, library, addr);
    let rest = refs[file].remove(library);
    assert forall|f: Seq<char>, l: Seq<char>| #[trigger] lists(after.1, f, l)
        <==> lists(refs, f, l) && !(f == file && l == library) by {
        if rest == Map::<Seq<char>, Seq<crate::types::Offsets>>::empty() {
            if f == file && l != library && refs[file].contains_key(l) {
                assert(rest.contains_key(l));
            }
        }
    }
}

/// Linking a library that is not listed changes no listing, and linking any library keeps
/// every library that is not listed unlisted.
proof fn lemma_link_listings_shrink(
    obj: ObjectView,
    refs: LinkReferencesView,
    file: Seq<char>,
    library: Seq<char>,
    addr: Seq<u8>,
    f: Seq<char>,
    l: Seq<char>,
)
    ensures
        lists(link_spec(obj, refs, file, library, addr).1, f, l) ==> lists(refs, f, l),
        !link_spec(obj, refs, file, library, addr).2 ==> !lists(link_spec(obj, refs, file, library, addr).1, file, library),
{
    lemma_link_shrinks_references(obj, refs, file, library, addr);
    let after = link_spec(obj, refs, file, library, addr).1;
    if lists(after, f, l) {
        assert(after[f].dom().contains(l));
    }
}

/// Listings only shrink as a list of libraries is linked.
proof fn lemma_link_all_listings_shrink(
    obj: ObjectView,
    refs: LinkReferencesView,
    libs: Seq<(Seq<char>, Seq<char>, Seq<u8>)>,
    f: Seq<char>,
    l: Seq<char>,
)
    ensures
        lists(link_all_refs_spec(obj, refs, libs).1, f, l) ==> lists(refs, f, l),
    decreases libs.len(),
{
    if libs.len() > 0 {
        let step = link_spec(obj, refs, libs[0].0, libs[0].1, libs[0].2);
        lemma_link_listings_shrink(obj, refs, libs[0].0, libs[0].1, libs[0].2, f, l);
        if !step.2 {
            lemma_link_all_listings_shrink(step.0, step.1, libs.drop_first(), f, l);
        }
    }
}

/// When linking a list of libraries into bytecode reports `false`, every library of the list
/// has been linked: none of them is listed in the link references any more.
pub proof fn lemma_link_all_unlists_every_library(
    obj: ObjectView,
    refs: LinkReferencesView,
    libs: Seq<(Seq<char>, Seq<char>, Seq<u8>)>,
)
    ensures
        !link_all_refs_spec(obj, refs, libs).2 ==> forall|i: int| 0 <= i < libs.len()
            ==> !lists(link_all_refs_spec(obj, refs, libs).1, #[trigger] libs[i].0, libs[i].1),
    decreases libs.len(),
{
    if libs.len() > 0 {
        let step = link_spec(obj, refs, libs[0].0, libs[0].1, libs[0].2);
        lemma_link_listings_shrink(obj, refs, libs[0].0, libs[0].1, libs[0].2, libs[0].0, libs[0].1);
        if !step.2 {
            let rest = libs.drop_first();
            lemma_link_all_unlists_every_library(step.0, step.1, rest);
            lemma_link_all_listings_shrink(step.0, step.1, rest, libs[0].0, libs[0].1);
            assert(link_all_refs_spec(obj, refs, libs) == link_all_refs_spec(step.0, step.1, rest));
            if !link_all_refs_spec(obj, refs, libs).2 {
                assert forall|i: int| 0 <= i < libs.len()
                    implies !lists(link_all_refs_spec(obj, refs, libs).1, #[trigger] libs[i].0, libs[i].1) by {
                    if i > 0 {
                        assert(libs[i] == rest[i - 1]);
                        assert(!lists(link_all_refs_spec(step.0, step.1, rest).1, rest[i - 1].0, rest[i - 1].1));
                    }
                }
            }
        }
    }
}

/// Listings only shrink as a list of fully qualified names is linked.
proof fn lemma_link_all_names_listings_shrink(
    obj: ObjectView,
    refs: LinkReferencesView,
    libs: Seq<(Seq<char>, Seq<u8>)>,
    f: Seq<char>,
    l: Seq<char>,
)
    ensures
        lists(link_all_names_spec(obj, refs, libs).1, f, l) ==> lists(refs, f, l),
    decreases libs.len(),
{
    if libs.len() > 0 {
        let step = link_fully_qualified_name_spec(obj, refs, libs[0].0, libs[0].1);
        if let Some((file, library)) = split_once_seq(libs[0].0, ':') {
            lemma_link_listings_shrink(obj, refs, file, library, libs[0].1, f, l);
        }
        if !step.2 {
            lemma_link_all_names_listings_shrink(step.0, step.1, libs.drop_first(), f, l);
        }
    }
}

/// When linking a list of fully qualified names into bytecode reports `false`, every name of
/// the list that holds a `:` has been linked: its library (the part after the first `:`) is
/// no longer listed under its file (the part before).
pub proof fn lemma_link_all_names_unlists_every_library(
    obj: ObjectView,
    refs: LinkReferencesView,
    libs: Seq<(Seq<char>, Seq<u8>)>,
)
    ensures
        !link_all_names_spec(obj, refs, libs).2 ==> forall|i: int| 0 <= i < libs.len()
            ==> (split_once_seq(#[trigger] libs[i].0, ':') matches Some((f, l))
                ==> !lists(link_all_names_spec(obj, refs, libs).1, f, l)),
    decreases libs.len(),
{
    if libs.len() > 0 {
        let step = link_fully_qualified_name_spec(obj, refs, libs[0].0, libs[0].1);
        if !step.2 {
            let rest = libs.drop_first();
            lemma_link_all_names_unlists_every_library(step.0, step.1, rest);
            if let Some((f, l)) = split_once_seq(libs[0].0, ':') {
                lemma_link_listings_shrink(obj, refs, f, l, libs[0].1, f, l);
                lemma_link_all_names_listings_shrink(step.0, step.1, rest, f, l);
            }
            assert(link_all_names_spec(obj, refs, libs) == link_all_names_spec(step.0, step.1, rest));
            if !link_all_names_spec(obj, refs, libs).2 {
                assert forall|i: int| 0 <= i < libs.len()
                    implies (split_once_seq(#[trigger] libs[i].0, ':') matches Some((f, l))
                        ==> !lists(link_all_names_spec(obj, refs, libs).1, f, l)) by {
                    if i > 0 {
                        assert(libs[i] == rest[i - 1]);
                        assert(split_once_seq(rest[i - 1].0, ':') matches Some((f, l))
                            ==> !lists(link_all_names_spec(step.0, step.1, rest).1, f, l));
                    }
                }
            }
        }
    }
}

/// A placeholder wrapped in `__` of 40 characters that does not occur in unlinked text does
/// not occur after linking any library at any address.
proof fn lemma_link_keeps_absent(s: Seq<char>, name: Seq<char>, addr: Seq<u8>, w: Seq<char>)
    requires
        addr.len() == 20,
        w.len() == 40,
        w[0] == '_',
        w[39] == '_',
        !contains_seq(s, w),
    ensures
        link_fully_qualified_spec(ObjectView::Unlinked(s), name, addr) matches ObjectView::Unlinked(t)
            ==> !contains_seq(t, w),
{
    let wf = wrapped(fully_qualified_placeholder_of(name));
    let wh = wrapped(library_hash_placeholder_of(name));
    let rep = hex_encoding(addr);
    lemma_address_hex(addr);
    lemma_wrapped(fully_qualified_placeholder_of(name));
    lemma_wrapped(library_hash_placeholder_of(name));
    lemma_replace_leaves_no_bounded(s, wf, rep, w);
    let t1 = replace_all(s, wf, rep);
    lemma_replace_leaves_no_bounded(t1, wh, rep, w);
}

/// An absent wrapped placeholder stays absent through linking a list of libraries.
proof fn lemma_link_all_keeps_absent(
    obj: ObjectView,
    libs: Seq<(Seq<char>, Seq<char>, Seq<u8>)>,
    w: Seq<char>,
)
    requires
        forall|i: int| 0 <= i < libs.len() ==> (#[trigger] libs[i]).2.len() == 20,
        w.len() == 40,
        w[0] == '_',
        w[39] == '_',
        obj matches ObjectView::Unlinked(s) ==> !contains_seq(s, w),
    ensures
        link_all_spec(obj, libs) matches ObjectView::Unlinked(t) ==> !contains_seq(t, w),
    decreases libs.len(),
{
    if libs.len() > 0 {
        let name = qualified_name(libs[0].0, libs[0].1);
        let next = link_fully_qualified_spec(obj, name, libs[0].2);
        if let ObjectView::Unlinked(s) = obj {
            assert(libs[0].2.len() == 20);
            lemma_link_keeps_absent(s, name, libs[0].2, w);
        }
        let rest = libs.drop_first();
        assert forall|i: int| 0 <= i < rest.len() implies (#[trigger] rest[i]).2.len() == 20 by {
            assert(rest[i] == libs[i + 1]);
        }
        lemma_link_all_keeps_absent(next, rest, w);
    }
}

/// After linking a list of libraries into a bytecode object, none of their placeholders,
/// wrapped in `__`, is left in the text: every library of the list has been linked. The hash
/// placeholders have 36 characters, as the placeholder call states for every name, and each
/// address has 20 bytes.
pub proof fn lemma_link_all_leaves_no_placeholder(obj: ObjectView, libs: Seq<(Seq<char>, Seq<char>, Seq<u8>)>)
    requires
        forall|i: int| 0 <= i < libs.len() ==> (#[trigger] libs[i]).2.len() == 20
            && library_hash_placeholder_of(qualified_name(libs[i].0, libs[i].1)).len() == 36,
    ensures
        link_all_spec(obj, libs) matches ObjectView::Unlinked(t) ==> forall|i: int| 0 <= i < libs.len() ==> {
            let name = qualified_name(libs[i].0, libs[i].1);
            &&& !contains_seq(t, wrapped(fully_qualified_placeholder_of(name)))
            &&& !contains_seq(t, wrapped(library_hash_placeholder_of(#[trigger] qualified_name(libs[i].0, libs[i].1))))
        },
    decreases libs.len(),
{
    if libs.len() > 0 {
        let name = qualified_name(libs[0].0, libs[0].1);
        let next = link_fully_qualified_spec(obj, name, libs[0].2);
        let rest = libs.drop_first();
        assert forall|i: int| 0 <= i < rest.len() implies (#[trigger] rest[i]).2.len() == 20
            && library_hash_placeholder_of(qualified_name(rest[i].0, rest[i].1)).len() == 36 by {
            assert(rest[i] == libs[i + 1]);
        }
        lemma_link_all_leaves_no_placeholder(next, rest);
        assert(libs[0].2.len() == 20);
        lemma_link_twice(obj, name, libs[0].2, libs[0].2);
        let wf = wrapped(fully_qualified_placeholder_of(name));
        let wh = wrapped(library_hash_placeholder_of(name));
        lemma_wrapped(fully_qualified_placeholder_of(name));
        lemma_wrapped(library_hash_placeholder_of(name));
        lemma_link_all_keeps_absent(next, rest, wf);
        lemma_link_all_keeps_absent(next, rest, wh);
        if let ObjectView::Unlinked(t) = link_all_spec(obj, libs) {
            assert forall|i: int| 0 <= i < libs.len() implies {
                let nm = qualified_name(libs[i].0, libs[i].1);
                &&& !contains_seq(t, wrapped(fully_qualified_placeholder_of(nm)))
                &&& !contains_seq(t, wrapped(library_hash_placeholder_of(#[trigger] qualified_name(libs[i].0, libs[i].1))))
            } by {
                if i > 0 {
                    assert(libs[i] == rest[i - 1]);
                }
            }
        }
    }
}

/// Linking into unlinked bytecode a library that is not listed under a listed file leaves
/// every listing as it is and the object as it is, except that it is read as hex when the
/// file's entry, holding no library, was the last reference.
pub proof fn lemma_link_unlisted_library(
    obj: ObjectView,
    refs: LinkReferencesView,
    file: Seq<char>,
    library: Seq<char>,
    addr: Seq<u8>,
)
    requires
        obj is Unlinked,
        refs.contains_key(file),
        !refs[file].contains_key(library),
    ensures
        ({
            let after = link_spec(obj, refs, file, library, addr);
            &&& after.1 == LinkReferencesView::empty() ==> after.0 == resolve_spec(obj)
            &&& after.1 != LinkReferencesView::empty() ==> after.0 == obj
            &&& forall|f: Seq<char>, l: Seq<char>| #[trigger] lists(after.1, f, l) <==> lists(refs, f, l)
        }),
{
    let after = link_spec(obj, refs, file, library, addr);
    assert(refs[file].remove(library) =~= refs[file]);
    assert forall|f: Seq<char>, l: Seq<char>| #[trigger] lists(after.1, f, l) <==> lists(refs, f, l) by {
        if refs[file] == Map::<Seq<char>, Seq<crate::types::Offsets>>::empty() && f == file {
            assert(!refs[file].contains_key(l));
        }
    }
}

/// Linking a list of libraries into a bytecode object and then one more is linking the longer
/// list.
pub proof fn lemma_link_all_then_one(
    obj: ObjectView,
    libs: Seq<(Seq<char>, Seq<char>, Seq<u8>)>,
    lib: (Seq<char>, Seq<char>, Seq<u8>),
)
    ensures
        link_all_spec(obj, libs.push(lib))
            == link_fully_qualified_spec(link_all_spec(obj, libs), qualified_name(lib.0, lib.1), lib.2),
    decreases libs.len(),
{
    if libs.len() == 0 {
        let e = Seq::<(Seq<char>, Seq<char>, Seq<u8>)>::empty();
        assert(libs.push(lib).drop_first() =~= e);
        assert(libs.push(lib)[0] == lib);
        let next = link_fully_qualified_spec(obj, qualified_name(lib.0, lib.1), lib.2);
        assert(link_all_spec(next, e) == next);
        assert(link_all_spec(obj, e) == obj);
    } else {
        let next = link_fully_qualified_spec(obj, qualified_name(libs[0].0, libs[0].1), libs[0].2);
        assert(libs.push(lib).drop_first() =~= libs.drop_first().push(lib));
        assert(libs.push(lib)[0] == libs[0]);
        lemma_link_all_then_one(next, libs.drop_first(), lib);
    }
}

/// Linking a list of libraries into bytecode and then one more, unless the list already left
/// it fully linked, is linking the longer list.
pub proof fn lemma_link_all_refs_then_one(
    obj: ObjectView,
    refs: LinkReferencesView,
    libs: Seq<(Seq<char>, Seq<char>, Seq<u8>)>,
    lib: (Seq<char>, Seq<char>, Seq<u8>),
)
    ensures
        ({
            let before = link_all_refs_spec(obj, refs, libs);
            link_all_refs_spec(obj, refs, libs.push(lib))
                == if before.2 { before } else { link_spec(before.0, before.1, lib.0, lib.1, lib.2) }
        }),
    decreases libs.len(),
{
    if libs.len() == 0 {
        let e = Seq::<(Seq<char>, Seq<char>, Seq<u8>)>::empty();
        assert(libs.push(lib).drop_first() =~= e);
        assert(libs.push(lib)[0] == lib);
        let step = link_spec(obj, refs, lib.0, lib.1, lib.2);
        assert(link_all_refs_spec(step.0, step.1, e) == (step.0, step.1, false));
        assert(link_all_refs_spec(obj, refs, e) == (obj, refs, false));
    } else {
        let step = link_spec(obj, refs, libs[0].0, libs[0].1, libs[0].2);
        assert(libs.push(lib).drop_first() =~= libs.drop_first().push(lib));
        assert(libs.push(lib)[0] == libs[0]);
        lemma_link_all_refs_then_one(step.0, step.1, libs.drop_first(), lib);
    }
}

/// Linking a list of fully qualified names into bytecode and then one more, unless the list
/// already left it fully linked, is linking the longer list.
pub proof fn lemma_link_all_names_then_one(
    obj: ObjectView,
    refs: LinkReferencesView,
    libs: Seq<(Seq<char>, Seq<u8>)>,
    lib: (Seq<char>, Seq<u8>),
)
    ensures
        ({
            let before = link_all_names_spec(obj, refs, libs);
            link_all_names_spec(obj, refs, libs.push(lib))
                == if before.2 { before } else { link_fully_qualified_name_spec(before.0, before.1, lib.0, lib.1) }
        }),
    decreases libs.len(),
{
    if libs.len() == 0 {
        let e = Seq::<(Seq<char>, Seq<u8>)>::empty();
        assert(libs.push(lib).drop_first() =~= e);
        assert(libs.push(lib)[0] == lib);
        let step = link_fully_qualified_name_spec(obj, refs, lib.0, lib.1);
        assert(link_all_names_spec(step.0, step.1, e) == (step.0, step.1, false));
        assert(link_all_names_spec(obj, refs, e) == (obj, refs, false));
    } else {
        let step = link_fully_qualified_name_spec(obj, refs, libs[0].0, libs[0].1);
        assert(libs.push(lib).drop_first() =~= libs.drop_first().push(lib));
        assert(libs.push(lib)[0] == libs[0]);
        lemma_link_all_names_then_one(step.0, step.1, libs.drop_first(), lib);
    }
}

} // verus!

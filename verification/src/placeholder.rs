//! The two placeholders that the Solidity compiler leaves in unlinked bytecode for a
//! library, and the calls into `foundry_compilers_core` that compute them.

use vstd::prelude::*;
use crate::hex::hex_char;

verus! {

/// What `foundry_compilers_core::utils::library_hash_placeholder` returns for a fully
/// qualified library name: `$`, the lowercase hex of the first 17 bytes of the keccak256
/// hash of the name, and `$`.
pub uninterp spec fn library_hash_placeholder_of(name: Seq<char>) -> Seq<char>;

/// The older placeholder for a fully qualified library name: the name cut to 36 characters,
/// or filled up to 36 characters with `_`.
pub open spec fn fully_qualified_placeholder_of(name: Seq<char>) -> Seq<char> {
    if name.len() >= 36 {
        name.take(36)
    } else {
        name + Seq::new((36 - name.len()) as nat, |i: int| '_')
    }
}

/// A placeholder as it stands in the bytecode: between two `__` on each side.
pub open spec fn wrapped(placeholder: Seq<char>) -> Seq<char> {
    seq!['_', '_'] + placeholder + seq!['_', '_']
}

/// `c` is a lowercase hex digit.
pub open spec fn is_lower_hex_digit(c: char) -> bool {
    exists|n: int| 0 <= n < 16 && c == hex_char(n)
}

/// Calls `foundry_compilers_core::utils::library_hash_placeholder`, which hashes the bytes of
/// `name` with keccak256 and returns `$`, the lowercase hex of the hash's first 17 bytes,
/// and `$`: 36 characters in all. The hash itself is not stated: the result is named by
/// `library_hash_placeholder_of`.
#[verifier::external_body]
pub(crate) fn library_hash_placeholder(name: &str) -> (r: String)
    ensures
        r@ == library_hash_placeholder_of(name@),
        r@.len() == 36,
        r@[0] == '$',
        r@[35] == '$',
        forall|i: int| 1 <= i < 35 ==> is_lower_hex_digit(#[trigger] r@[i]),
{
    foundry_compilers_core::utils::library_hash_placeholder(name)
}

/// Calls `foundry_compilers_core::utils::library_fully_qualified_placeholder`, which takes
/// the characters of `name`, followed by as many `_` as needed, up to 36 characters.
#[verifier::external_body]
pub(crate) fn library_fully_qualified_placeholder(name: &str) -> (r: String)
    ensures
        r@ == fully_qualified_placeholder_of(name@),
{
    foundry_compilers_core::utils::library_fully_qualified_placeholder(name)
}

} // verus!

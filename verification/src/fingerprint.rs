//! Content fingerprints: a stable digest of a publication, insensitive to case
//! and to white space at either end.
use std::collections::hash_map::DefaultHasher;
use std::hash::Hash;
use std::hash::Hasher;
use vstd::prelude::*;
use vstd::std_specs::hash::DefaultHasherAdditionalSpecFns;
use vstd::string::StrSliceExecFns;

use crate::text::chars_of;
use crate::text::trim_bounds;
use crate::text::trimmed;

verus! {

/// The lowercase form of `s`, as `str::to_lowercase` computes it (Unicode
/// `Lowercase` mapping).
pub uninterp spec fn lowercase(s: Seq<char>) -> Seq<char>;

/// Calls `str::to_lowercase`. The contract claims that the result depends on the
/// characters of `s` alone; the Unicode case mapping itself is left unstated.
#[verifier::external_body]
fn to_lowercase(s: &str) -> (r: String)
    ensures
        r@ == lowercase(s@),
{
    s.to_lowercase()
}

/// The writes that hashing the string `s` (`<str as Hash>::hash`) feeds a hasher,
/// in the model of `DefaultHasher` that vstd gives (a sequence of byte writes).
pub uninterp spec fn str_hash_writes(s: Seq<char>) -> Seq<Seq<u8>>;

/// Calls `<str as Hash>::hash` on a freshly created `DefaultHasher`. The contract
/// claims that the hasher's state afterwards depends on the characters of `s`
/// alone; which bytes are written is left unstated.
#[verifier::external_body]
fn hash_str_into(s: &str, hasher: &mut DefaultHasher)
    requires
        old(hasher)@ == Seq::<Seq<u8>>::empty(),
    ensures
        final(hasher)@ == str_hash_writes(s@),
{
    s.hash(hasher)
}

/// The digest of the string `s`: what `finish` gives on a fresh `DefaultHasher`
/// into which `s` was hashed.
pub open spec fn str_digest(s: Seq<char>) -> u64 {
    DefaultHasher::spec_finish(str_hash_writes(s))
}

/// The digest of `s` by a new `DefaultHasher`.
fn hash_str(s: &str) -> (r: u64)
    ensures
        r == str_digest(s@),
{
    let mut hasher = DefaultHasher::new();
    hash_str_into(s, &mut hasher);
    hasher.finish()
}

/// The normal form of a publication: trimmed, then lowercased.
pub open spec fn normalized(content: Seq<char>) -> Seq<char> {
    lowercase(trimmed(content))
}

/// The fingerprint of a publication: the digest of its normal form.
pub open spec fn fingerprint(content: Seq<char>) -> u64 {
    str_digest(normalized(content))
}

/// The fingerprint of `content`, independent of any state: the digest of the
/// content once trimmed and lowercased. Meant to be stored by the caller (for
/// instance in a database) to detect duplicates across restarts.
pub fn content_fingerprint(content: &str) -> (r: u64)
    ensures
        r == fingerprint(content@),
{
    let chars = chars_of(content);
    let (lo, hi) = trim_bounds(&chars);
    let core = content.substring_char(lo, hi);
    let lower = to_lowercase(core);
    hash_str(lower.as_str())
}

} // verus!

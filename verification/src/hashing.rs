//! Stable hashing of file paths and the URL-safe Base64 text of a hash.
use vstd::prelude::*;
use base64::Engine;
use std::hash::Hasher;
use rustc_stable_hash::ExtendedHasher;

verus! {

/// The two 64-bit words of the 128-bit SipHash-1-3 (keys 0 and 0) of `bytes`,
/// as `rustc_stable_hash` computes it.
pub uninterp spec fn sip_hash_128(bytes: Seq<u8>) -> (u64, u64);

/// The URL-safe Base64 encoding of `bytes`, without padding.
pub uninterp spec fn base64_url_safe_no_pad(bytes: Seq<u8>) -> Seq<char>;

/// A character of the URL-safe Base64 alphabet.
pub open spec fn is_url_safe_base64_char(c: char) -> bool {
    ||| 'A' <= c && c <= 'Z'
    ||| 'a' <= c && c <= 'z'
    ||| '0' <= c && c <= '9'
    ||| c == '-'
    ||| c == '_'
}

/// Hashes `bytes` as `rustc_stable_hash::StableSipHasher128` does: that type is a
/// `StableHasher` over a default `SipHasher128` (keys 0 and 0), whose `write`
/// forwards to `SipHasher128::write` and whose `finish` hands the
/// `SipHasher128Hash` words of `ExtendedHasher::finish` to the caller's
/// `FromStableHash` conversion. The contract only names the two words: the
/// hash itself is not stated.
#[verifier::external_body]
pub(crate) fn stable_sip_hash_128(bytes: &[u8]) -> (r: (u64, u64))
    ensures
        r == sip_hash_128(bytes@),
{
    let mut hasher = rustc_stable_hash::hashers::SipHasher128::default();
    hasher.write(bytes);
    let rustc_stable_hash::SipHasher128Hash(words) = ExtendedHasher::finish(hasher);
    (words[0], words[1])
}

/// Encodes `bytes` with `base64::prelude::BASE64_URL_SAFE_NO_PAD` through
/// `Engine::encode`. The contract names the result and states what the
/// crate's source shows of it: its length (`encoded_len` without padding)
/// and that every character is from the URL-safe alphabet (`alphabet::URL_SAFE`).
/// The input is bounded so that `encoded_len` cannot overflow, where the
/// crate panics.
#[verifier::external_body]
pub(crate) fn encode_base64_url_safe_no_pad(bytes: &[u8]) -> (r: String)
    requires
        bytes.len() <= usize::MAX / 2,
    ensures
        r@ == base64_url_safe_no_pad(bytes@),
        r@.len() == 4 * (bytes@.len() / 3) + (if bytes@.len() % 3 == 0 {
            0
        } else {
            bytes@.len() % 3 + 1
        }),
        forall|i: int| 0 <= i < r@.len() ==> is_url_safe_base64_char(#[trigger] r@[i]),
{
    base64::prelude::BASE64_URL_SAFE_NO_PAD.encode(bytes)
}

} // verus!

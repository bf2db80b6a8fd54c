//! Turning the error output of a tool into readable text.
use vstd::prelude::*;
use vstd::utf8::{valid_utf8, encode_utf8};

verus! {

/// `bytes` with ANSI escape sequences removed, as `strip_ansi_escapes::strip`
/// computes it.
pub uninterp spec fn ansi_stripped(bytes: Seq<u8>) -> Seq<u8>;

/// Calls `strip_ansi_escapes::strip`, which feeds the bytes through a VTE
/// parser and writes out only the characters it prints and the line feeds it
/// executes (other controls, tabs and carriage returns among them, are
/// dropped). The contract names the result and states that it is UTF-8: the
/// writer only ever writes whole `char`s and line feeds, invalid input being
/// printed as U+FFFD by the parser.
#[verifier::external_body]
pub(crate) fn strip_ansi(bytes: &[u8]) -> (r: Vec<u8>)
    ensures
        r@ == ansi_stripped(bytes@),
        valid_utf8(r@),
{
    strip_ansi_escapes::strip(bytes)
}

/// Calls `String::from_utf8`: the documentation says that it succeeds exactly
/// when the bytes are valid UTF-8, and the string then holds those bytes.
#[verifier::external_body]
pub(crate) fn string_from_utf8(bytes: Vec<u8>) -> (r: Option<String>)
    ensures
        r is Some <==> valid_utf8(bytes@),
        r matches Some(s) ==> encode_utf8(s@) == bytes@,
{
    String::from_utf8(bytes).ok()
}

} // verus!

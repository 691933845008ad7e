//! Trusted boundary to the `encoding_rs` crate: decoding raw bytes into text
//! for the encoding-aware parse entry point. The core parser itself only
//! ever sees text; what an encoding produces from given bytes is not spelt
//! out here, only named, and the parse of that text is fully specified.

use vstd::prelude::*;

verus! {

/// The text that `encoding_rs::Encoding::decode` produces from `bytes`
/// under `enc`: a function of the encoding and the bytes alone, left
/// uninterpreted here.
pub uninterp spec fn decoded(enc: &'static encoding_rs::Encoding, bytes: Seq<u8>) -> Seq<char>;

/// `encoding_rs::Encoding` is declared so that a reference to the chosen
/// encoding can be carried through a `PatchSet`; the value is opaque.
#[verifier::external_type_specification]
#[verifier::external_body]
pub struct ExEncoding(encoding_rs::Encoding);

/// Relies on `encoding_rs::UTF_8`: the statically allocated UTF-8 encoding.
#[verifier::external_body]
pub(crate) fn utf8_encoding() -> &'static encoding_rs::Encoding {
    encoding_rs::UTF_8
}

/// Relies on `encoding_rs::Encoding::for_label`: looks an encoding up by its
/// WHATWG label, or returns `None` for an unknown label.
#[verifier::external_body]
pub(crate) fn encoding_for_label(label: &str) -> Option<&'static encoding_rs::Encoding> {
    encoding_rs::Encoding::for_label(label.as_bytes())
}

/// Relies on `encoding_rs::Encoding::decode`: decodes a byte sequence into
/// text, honouring a leading byte-order mark and replacing malformed
/// sequences with the replacement character. The result depends on the
/// encoding and the bytes alone, so it carries the name [`decoded`]; the
/// verified parser takes the text from there.
#[verifier::external_body]
pub(crate) fn decode_bytes(enc: &'static encoding_rs::Encoding, input: &[u8]) -> (r: String)
    ensures
        r@ == decoded(enc, input@),
{
    enc.decode(input).0.to_string()
}

} // verus!

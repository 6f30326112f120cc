//! The calls into the `base64` crate (standard alphabet, with padding).
use vstd::prelude::*;
use vstd::utf8::encode_utf8;

verus! {

/// What `base64::encode` returns for the given bytes.
pub uninterp spec fn base64_encoding(data: Seq<u8>) -> Seq<char>;

/// What `base64::decode` returns for the given text bytes: the decoded
/// bytes, or `None` where it returns an error.
pub uninterp spec fn base64_decoding(text: Seq<u8>) -> Option<Seq<u8>>;

/// Calls `base64::encode` (standard alphabet, padded). The result is
/// `base64_encoding(data)`, and `base64::decode` gives `data` back from it,
/// as the crate's round-trip tests show; nothing else is stated of the text.
#[verifier::external_body]
pub(crate) fn base64_encode(data: &[u8]) -> (res: String)
    ensures
        res@ == base64_encoding(data@),
        base64_decoding(encode_utf8(res@)) == Some(data@),
{
    base64::encode(data)
}

/// Calls `base64::decode` (standard alphabet, padded) on the UTF-8 bytes of
/// `text`; the result is `base64_decoding` of those bytes.
#[verifier::external_body]
pub(crate) fn base64_decode(text: &str) -> (res: Option<Vec<u8>>)
    ensures
        match res {
            Some(v) => base64_decoding(encode_utf8(text@)) == Some(v@),
            None => base64_decoding(encode_utf8(text@)) is None,
        },
{
    base64::decode(text).ok()
}

} // verus!

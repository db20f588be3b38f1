//! Trusted bridges to the transfer decoders used by the header pipeline:
//! quoted-printable, base64, lossy UTF-8 interpretation and Unicode case
//! folding. Each outside result is given a name, and every contract above
//! these speaks through those names.

use vstd::prelude::*;

verus! {

/// The Unicode lowercase form of `s`, as computed by `str::to_lowercase`.
pub uninterp spec fn lower_of(s: Seq<char>) -> Seq<char>;

/// Relies on `str::to_lowercase`: the result depends on the characters alone;
/// an empty input stays empty.
#[verifier::external_body]
pub(crate) fn lowercase(s: &str) -> (r: String)
    ensures
        r@ == lower_of(s@),
        s@.len() == 0 ==> r@.len() == 0,
{
    s.to_lowercase()
}

/// The lossy UTF-8 interpretation of `b`, as computed by
/// `String::from_utf8_lossy`.
pub uninterp spec fn utf8_lossy_of(b: Seq<u8>) -> Seq<char>;

/// Relies on `String::from_utf8_lossy`: invalid sequences are replaced, valid
/// ones kept, so the result depends on the bytes alone and ASCII bytes pass
/// through unchanged.
#[verifier::external_body]
pub(crate) fn utf8_lossy(b: &[u8]) -> (r: String)
    ensures
        r@ == utf8_lossy_of(b@),
        (forall|i: int| 0 <= i < b@.len() ==> b@[i] < 0x80) ==> r@ == b@.map_values(
            |x: u8| x as char,
        ),
{
    String::from_utf8_lossy(b).into_owned()
}

/// What `quoted_printable::decode` in robust mode returns for the UTF-8 bytes
/// of `s`; absent when that call reports an error.
pub uninterp spec fn qp_robust_of(s: Seq<char>) -> Option<Seq<u8>>;

/// Relies on `quoted_printable::decode` with `ParseMode::Robust`: the decoded
/// bytes depend on the input alone.
#[verifier::external_body]
pub(crate) fn qp_decode_robust(s: &str) -> (r: Option<Vec<u8>>)
    ensures
        match r {
            Option::Some(v) => qp_robust_of(s@) == Option::Some(v@),
            Option::None => qp_robust_of(s@) == Option::<Seq<u8>>::None,
        },
{
    match quoted_printable::decode(s.as_bytes(), quoted_printable::ParseMode::Robust) {
        Ok(v) => Some(v),
        Err(_) => None,
    }
}

/// What the standard-alphabet base64 decode returns for `s`; absent when the
/// input is not valid base64.
pub uninterp spec fn b64_std_of(s: Seq<char>) -> Option<Seq<u8>>;

/// Relies on `base64`'s `STANDARD` engine `decode`: the decoded bytes depend
/// on the input alone.
#[verifier::external_body]
pub(crate) fn b64_decode_std(s: &str) -> (r: Option<Vec<u8>>)
    ensures
        match r {
            Option::Some(v) => b64_std_of(s@) == Option::Some(v@),
            Option::None => b64_std_of(s@) == Option::<Seq<u8>>::None,
        },
{
    match base64::Engine::decode(&base64::engine::general_purpose::STANDARD, s) {
        Ok(v) => Some(v),
        Err(_) => None,
    }
}

} // verus!

//! The telemetry target URL: `{base}/api/v1/{token}/telemetry`.
//!
//! The URL is assembled in a fixed-capacity `heapless::String<128>`, the same
//! bounded buffer the node uses on the device: it never grows, and a
//! configuration whose parts do not fit is reported as an error instead of
//! being truncated.

use vstd::prelude::*;
use vstd::string::is_ascii;

verus! {

#[verifier::external_type_specification]
#[verifier::external_body]
pub struct ExHeaplessString<const N: usize>(heapless::String<N>);

/// The characters held by a URL buffer.
pub uninterp spec fn url_chars(s: heapless::String<128>) -> Seq<char>;

/// The number of bytes held by a URL buffer; at most its capacity of 128.
pub uninterp spec fn url_byte_len(s: heapless::String<128>) -> nat;

/// Relies on heapless::String::new: a freshly created string is empty.
#[verifier::external_body]
fn url_new() -> (r: heapless::String<128>)
    ensures
        url_chars(r) == Seq::<char>::empty(),
        url_byte_len(r) == 0,
{
    heapless::String::new()
}

/// Relies on heapless::String::push_str: appends the whole slice when it
/// fits in the remaining capacity (128 bytes in all), otherwise changes
/// nothing and reports failure. ASCII input keeps byte and character counts
/// equal.
#[verifier::external_body]
fn url_push_str(s: &mut heapless::String<128>, t: &str) -> (r: bool)
    requires
        t.is_ascii(),
    ensures
        r == (url_byte_len(*old(s)) + t@.len() <= 128),
        r ==> url_chars(*final(s)) == url_chars(*old(s)) + t@
            && url_byte_len(*final(s)) == url_byte_len(*old(s)) + t@.len(),
        !r ==> url_chars(*final(s)) == url_chars(*old(s))
            && url_byte_len(*final(s)) == url_byte_len(*old(s)),
{
    s.push_str(t).is_ok()
}

/// Relies on heapless::String::as_str: a view of exactly the held text.
#[verifier::external_body]
pub fn url_as_str(s: &heapless::String<128>) -> (r: &str)
    ensures
        r@ == url_chars(*s),
{
    s.as_str()
}

/// Why a request target could not be built.
#[derive(Clone, Copy, PartialEq, Eq, Structural, Debug)]
pub enum UrlError {
    /// A configured part holds a non-ASCII character.
    NotAscii,
    /// Base URL and token together overrun the 128-byte URL buffer.
    TooLong,
}

/// The request target for one delivery: the configured base URL, the fixed
/// API path, the configured device token, and the fixed endpoint segment.
pub open spec fn telemetry_url(base: Seq<char>, token: Seq<char>) -> Seq<char> {
    base + "/api/v1/"@ + token + "/telemetry"@
}

/// Build the request target URL. Returns the filled buffer exactly when both
/// configured parts are ASCII and the result fits in 128 bytes.
pub fn build_url(base: &str, token: &str) -> (r: Result<heapless::String<128>, UrlError>)
    ensures
        r matches Ok(u) ==> url_chars(u) == telemetry_url(base@, token@),
        r matches Ok(u) ==> url_byte_len(u) == base@.len() + token@.len() + 18,
        (r matches Err(e) && e == UrlError::NotAscii) <==> !(is_ascii(base) && is_ascii(
            token,
        )),
        (r matches Err(e) && e == UrlError::TooLong) <==> (is_ascii(base) && is_ascii(token)
            && base@.len() + token@.len() + 18 > 128),
        r is Ok <==> (is_ascii(base) && is_ascii(token) && base@.len() + token@.len() + 18
            <= 128),
{
    proof {
        reveal_strlit("/api/v1/");
        reveal_strlit("/telemetry");
    }
    assert("/api/v1/"@.len() == 8 && "/telemetry"@.len() == 10);
    assert(is_ascii("/api/v1/") && is_ascii("/telemetry"));
    if !base.is_ascii() || !token.is_ascii() {
        return Err(UrlError::NotAscii);
    }
    let mut u = url_new();
    if !url_push_str(&mut u, base) {
        return Err(UrlError::TooLong);
    }
    if !url_push_str(&mut u, "/api/v1/") {
        return Err(UrlError::TooLong);
    }
    if !url_push_str(&mut u, token) {
        return Err(UrlError::TooLong);
    }
    if !url_push_str(&mut u, "/telemetry") {
        return Err(UrlError::TooLong);
    }
    proof {
        assert(url_chars(u) =~= telemetry_url(base@, token@));
    }
    Ok(u)
}

} // verus!

//! Window thumbnails from niri: the request that asks for one, and the PNG
//! bytes that a reply carries in base64.

use vstd::prelude::*;
use base64::Engine;
use vstd::string::StringSliceAdditionalSpecFns;
use crate::text::{concat, decimal, decimal_string};

verus! {

broadcast use vstd::string::group_string_axioms;

/// The largest thumbnail width asked for.
pub const WINDOW_THUMBNAIL_MAX_WIDTH: u32 = 256;

/// The largest thumbnail height asked for.
pub const WINDOW_THUMBNAIL_MAX_HEIGHT: u32 = 160;

/// The request line for the thumbnail of a window, as niri's JSON protocol
/// has it (keys in the order `serde_json` writes them).
pub open spec fn thumbnail_request_text(window_id: u64) -> Seq<char> {
    "{\"WindowThumbnail\":{\"id\":"@ + decimal(window_id as nat) + ",\"max_height\":"@ + decimal(
        WINDOW_THUMBNAIL_MAX_HEIGHT as nat,
    ) + ",\"max_width\":"@ + decimal(WINDOW_THUMBNAIL_MAX_WIDTH as nat) + "}}"@
}

pub fn thumbnail_request(window_id: u64) -> (r: String)
    ensures
        r@ == thumbnail_request_text(window_id),
{
    let a = concat("{\"WindowThumbnail\":{\"id\":", decimal_string(window_id).as_str());
    let b = concat(a.as_str(), ",\"max_height\":");
    let c = concat(b.as_str(), decimal_string(WINDOW_THUMBNAIL_MAX_HEIGHT as u64).as_str());
    let d = concat(c.as_str(), ",\"max_width\":");
    let e = concat(d.as_str(), decimal_string(WINDOW_THUMBNAIL_MAX_WIDTH as u64).as_str());
    concat(e.as_str(), "}}")
}

/// What base64's standard engine decodes `input` to: the bytes, or the text
/// of its error.
pub uninterp spec fn base64_standard_decoded(input: Seq<u8>) -> Result<Seq<u8>, Seq<char>>;

/// `base64::engine::general_purpose::STANDARD.decode`, with the error turned
/// into its message. The contract claims only that the outcome is a function
/// of the input bytes, named `base64_standard_decoded`.
#[verifier::external_body]
fn decode_base64(input: &[u8]) -> (r: Result<Vec<u8>, String>)
    ensures
        match r {
            Ok(v) => base64_standard_decoded(input@) == Ok::<Seq<u8>, Seq<char>>(v@),
            Err(e) => base64_standard_decoded(input@) == Err::<Seq<u8>, Seq<char>>(e@),
        },
{
    match base64::engine::general_purpose::STANDARD.decode(input) {
        Ok(v) => Ok(v),
        Err(e) => Err(e.to_string()),
    }
}

/// The PNG bytes of a decoded thumbnail, or the decoding error explained.
pub fn thumbnail_png_from(decoded: Result<Vec<u8>, String>) -> (r: Result<Vec<u8>, String>)
    ensures
        match decoded {
            Ok(v) => r matches Ok(w) && w@ == v@,
            Err(e) => r matches Err(m) && m@ == "failed to decode thumbnail PNG: "@ + e@,
        },
{
    match decoded {
        Ok(v) => Ok(v),
        Err(e) => Err(concat("failed to decode thumbnail PNG: ", e.as_str())),
    }
}

/// The PNG bytes of a thumbnail reply for window `reply_id` to a request for
/// window `window_id`: an error when the reply is for another window, else
/// the decoded base64 text.
pub fn thumbnail_png(window_id: u64, reply_id: u64, png_base64: &str) -> (r: Result<Vec<u8>, String>)
    ensures
        reply_id != window_id ==> (r matches Err(m) && m@ == "niri returned thumbnail for window "@
            + decimal(reply_id as nat) + ", expected "@ + decimal(window_id as nat)),
        reply_id == window_id ==> match base64_standard_decoded(png_base64.spec_bytes()) {
            Ok(v) => r matches Ok(w) && w@ == v,
            Err(e) => r matches Err(m) && m@ == "failed to decode thumbnail PNG: "@ + e,
        },
{
    if reply_id != window_id {
        let a = concat("niri returned thumbnail for window ", decimal_string(reply_id).as_str());
        let b = concat(a.as_str(), ", expected ");
        return Err(concat(b.as_str(), decimal_string(window_id).as_str()));
    }
    thumbnail_png_from(decode_base64(png_base64.as_bytes()))
}

} // verus!

//! MIME type lookup: a pure function from a file extension to the
//! `Content-Type` text sent on the wire.

use crate::ascii::str_eq;
use vstd::prelude::*;

verus! {

/// The MIME type for a file extension, or the caller's default (or the
/// empty string) when the extension is unknown.
pub open spec fn spec_mime_from_ext(ext: Seq<char>, default: Option<Seq<char>>) -> Seq<char> {
    if ext == "txt"@ {
        "text/plain"@
    } else if ext == "html"@ {
        "text/html"@
    } else if ext == "css"@ {
        "text/css"@
    } else if ext == "js"@ || ext == "mjs"@ {
        "text/javascript"@
    } else if ext == "wasm"@ {
        "application/wasm"@
    } else if ext == "apng"@ {
        "image/apng"@
    } else if ext == "avif"@ {
        "image/avif"@
    } else if ext == "gif"@ {
        "image/gif"@
    } else if ext == "jpg"@ || ext == "jpeg"@ {
        "image/jpeg"@
    } else if ext == "png"@ {
        "image/png"@
    } else if ext == "svg"@ {
        "image/svg+xml"@
    } else if ext == "webp"@ {
        "image/webp"@
    } else if ext == "ogg"@ {
        "application/ogg"@
    } else if ext == "wav"@ {
        "audio/wave"@
    } else if ext == "webm"@ {
        "audio/webm"@
    } else {
        match default {
            Some(d) => d,
            None => ""@,
        }
    }
}

/// Map a file extension to its MIME type; unknown extensions give the
/// supplied default, or the empty string without one.
pub fn mime_from_ext(ext: &str, default: Option<&'static str>) -> (r: &'static str)
    ensures
        r@ == spec_mime_from_ext(
            ext@,
            match default {
                Some(d) => Some(d@),
                None => None,
            },
        ),
{
    if str_eq(ext, "txt") {
        "text/plain"
    } else if str_eq(ext, "html") {
        "text/html"
    } else if str_eq(ext, "css") {
        "text/css"
    } else if str_eq(ext, "js") || str_eq(ext, "mjs") {
        "text/javascript"
    } else if str_eq(ext, "wasm") {
        "application/wasm"
    } else if str_eq(ext, "apng") {
        "image/apng"
    } else if str_eq(ext, "avif") {
        "image/avif"
    } else if str_eq(ext, "gif") {
        "image/gif"
    } else if str_eq(ext, "jpg") || str_eq(ext, "jpeg") {
        "image/jpeg"
    } else if str_eq(ext, "png") {
        "image/png"
    } else if str_eq(ext, "svg") {
        "image/svg+xml"
    } else if str_eq(ext, "webp") {
        "image/webp"
    } else if str_eq(ext, "ogg") {
        "application/ogg"
    } else if str_eq(ext, "wav") {
        "audio/wave"
    } else if str_eq(ext, "webm") {
        "audio/webm"
    } else {
        match default {
            Some(d) => d,
            None => "",
        }
    }
}

} // verus!

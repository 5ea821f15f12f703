use vstd::prelude::*;

use crate::text::{chars_eq, chars_of, starts_with};

verus! {

/// The content classes the deployer distinguishes. Anything else is
/// rejected rather than assumed.
#[derive(PartialEq, Eq, Structural, Clone, Copy, Debug)]
pub enum ContentKind {
    Executable,
    SharedLibrary,
    Png,
    Svg,
    Unknown,
}

/// The MIME type the sniffing oracle reports for a byte buffer, if any.
/// The oracle's verdict depends on the bytes alone.
pub uninterp spec fn sniffed_mime(bytes: Seq<u8>) -> Option<Seq<char>>;

/// Relies on infer::get: matches a byte buffer against its built-in
/// signature table and reports the MIME type of the first match; the
/// result depends on the buffer contents alone.
#[verifier::external_body]
fn sniff_mime(bytes: &[u8]) -> (r: Option<Vec<char>>)
    ensures
        match r {
            Some(m) => sniffed_mime(bytes@) == Some(m@),
            None => sniffed_mime(bytes@) is None,
        },
{
    match infer::get(bytes) {
        Some(kind) => Some(kind.mime_type().chars().collect()),
        None => None,
    }
}

/// The mapping from an oracle verdict to a content class: executables
/// and shared libraries are recognised by a MIME prefix, icons by an
/// exact MIME type, and a missing verdict is never trusted.
pub open spec fn classify_spec(mime: Option<Seq<char>>) -> ContentKind {
    match mime {
        Option::None => ContentKind::Unknown,
        Option::Some(m) => {
            if "application/x-executable"@.is_prefix_of(m) {
                ContentKind::Executable
            } else if "application/x-sharedlib"@.is_prefix_of(m) {
                ContentKind::SharedLibrary
            } else if m == "image/png"@ {
                ContentKind::Png
            } else if m == "image/svg+xml"@ {
                ContentKind::Svg
            } else {
                ContentKind::Unknown
            }
        },
    }
}

/// Maps an oracle verdict to a content class.
pub fn classify_mime(mime: &Option<Vec<char>>) -> (k: ContentKind)
    ensures
        k == classify_spec(match mime {
            Some(m) => Some(m@),
            None => None::<Seq<char>>,
        }),
{
    match mime {
        None => ContentKind::Unknown,
        Some(m) => {
            let exe = chars_of("application/x-executable");
            if starts_with(m.as_slice(), exe.as_slice()) {
                return ContentKind::Executable;
            }
            let lib = chars_of("application/x-sharedlib");
            if starts_with(m.as_slice(), lib.as_slice()) {
                return ContentKind::SharedLibrary;
            }
            let png = chars_of("image/png");
            if chars_eq(m.as_slice(), png.as_slice()) {
                return ContentKind::Png;
            }
            let svg = chars_of("image/svg+xml");
            if chars_eq(m.as_slice(), svg.as_slice()) {
                return ContentKind::Svg;
            }
            ContentKind::Unknown
        },
    }
}

/// Classifies a file by its bytes: sniffs the MIME type and maps it to
/// a content class.
pub fn classify_bytes(bytes: &[u8]) -> (k: ContentKind)
    ensures
        k == classify_spec(sniffed_mime(bytes@)),
{
    let mime = sniff_mime(bytes);
    classify_mime(&mime)
}

} // verus!

use vstd::prelude::*;
use vstd::string::StringExecFns;
use infer::MatcherType as M;
use crate::text::{after_first, after_first_str, contains, contains_seq};

verus! {

/// The family of a detected file type.
#[derive(Clone, Copy, Debug, PartialEq, Eq, Structural)]
pub enum MediaKind {
    App,
    Archive,
    Audio,
    Book,
    Doc,
    Font,
    Image,
    Text,
    Video,
    Custom,
}

/// The MIME type and family that magic-byte detection finds in a buffer.
pub uninterp spec fn detected_type(buf: Seq<u8>) -> Option<(Seq<char>, MediaKind)>;

/// A file name with path separators, control and reserved characters taken
/// out.
pub uninterp spec fn sanitised(name: Seq<char>) -> Seq<char>;

/// Relies on `infer::get` with `Type::mime_type` and `Type::matcher_type`:
/// the type read from the buffer's magic bytes, which depends on the bytes
/// alone.
#[verifier::external_body]
fn detect_type(buf: &[u8]) -> (r: Option<(&'static str, MediaKind)>)
    ensures
        r is None <==> detected_type(buf@) is None,
        r is Some ==> detected_type(buf@) == Some((r->Some_0.0@, r->Some_0.1)),
{
    infer::get(buf).map(|t| (t.mime_type(), match t.matcher_type() {
        M::App => MediaKind::App,
        M::Archive => MediaKind::Archive,
        M::Audio => MediaKind::Audio,
        M::Book => MediaKind::Book,
        M::Doc => MediaKind::Doc,
        M::Font => MediaKind::Font,
        M::Image => MediaKind::Image,
        M::Text => MediaKind::Text,
        M::Video => MediaKind::Video,
        M::Custom => MediaKind::Custom,
    }))
}

/// Relies on `sanitize_filename::sanitize_with_options`, with Unix rules,
/// no truncation and an empty replacement: the result depends on the name
/// alone.
#[verifier::external_body]
pub fn sanitise_filename(filename: String) -> (r: String)
    ensures
        r@ == sanitised(filename@),
{
    let options = sanitize_filename::Options { windows: false, truncate: false, replacement: "" };
    sanitize_filename::sanitize_with_options(filename, options)
}

/// Families that a browser may show inline.
pub open spec fn shows_inline(k: MediaKind) -> bool {
    k == MediaKind::Image || k == MediaKind::Audio || k == MediaKind::Text || k == MediaKind::Video
}

/// `inline` for a detected image, audio, text or video type whose MIME type
/// does not mention xml; `attachment` otherwise, and when nothing was
/// detected.
pub open spec fn disposition_for(t: Option<(Seq<char>, MediaKind)>) -> Seq<char> {
    match t {
        Some(d) => if shows_inline(d.1) && !contains_seq(d.0, "xml"@) {
            "inline"@
        } else {
            "attachment"@
        },
        None => "attachment"@,
    }
}

/// The detected MIME type, with SVG corrected when the client claimed it;
/// `application/octet-stream` when nothing was detected.
pub open spec fn content_type_for(t: Option<(Seq<char>, MediaKind)>, claimed: Option<Seq<char>>) -> Seq<char> {
    match t {
        None => "application/octet-stream"@,
        Some(d) => match claimed {
            None => d.0,
            Some(c) => if contains_seq(c, "svg"@) && contains_seq(d.0, "xml"@) {
                "image/svg+xml"@
            } else {
                d.0
            },
        },
    }
}

/// The file name for the header: the requested one, else the one after
/// `filename=` in the stored disposition, sanitised; empty when there is
/// none.
pub open spec fn filename_for(stored: Option<Seq<char>>, requested: Option<Seq<char>>) -> Seq<char> {
    match requested {
        Some(f) => sanitised(f),
        None => match stored {
            None => Seq::empty(),
            Some(c) => if after_first(c, "filename="@).len() == 0 {
                Seq::empty()
            } else {
                sanitised(after_first(c, "filename="@))
            },
        },
    }
}

/// The whole Content-Disposition value.
pub open spec fn disposition_header(
    t: Option<(Seq<char>, MediaKind)>,
    stored: Option<Seq<char>>,
    requested: Option<Seq<char>>,
) -> Seq<char> {
    let name = filename_for(stored, requested);
    if name.len() > 0 {
        disposition_for(t) + "; filename="@ + name
    } else {
        disposition_for(t)
    }
}

pub open spec fn opt_view(o: Option<String>) -> Option<Seq<char>> {
    match o {
        Some(s) => Some(s@),
        None => None,
    }
}

/// The view of a detected type.
pub open spec fn detected_view(t: Option<(&'static str, MediaKind)>) -> Option<(Seq<char>, MediaKind)> {
    match t {
        Some(d) => Some((d.0@, d.1)),
        None => None,
    }
}

/// The disposition type for a buffer, decided from its detected type.
pub fn disposition_of(t: Option<(&'static str, MediaKind)>) -> (r: &'static str)
    ensures
        r@ == disposition_for(
            match t {
                Some(d) => Some((d.0@, d.1)),
                None => None,
            },
        ),
{
    match t {
        None => "attachment",
        Some((mime, kind)) => {
            let inline_kind = match kind {
                MediaKind::Image | MediaKind::Audio | MediaKind::Text | MediaKind::Video => true,
                _ => false,
            };
            if inline_kind && !contains(mime, "xml") {
                "inline"
            } else {
                "attachment"
            }
        },
    }
}

/// `attachment` or `inline`, from what the buffer's bytes show it to be and
/// never from what the uploader claimed.
pub fn content_disposition_type(buf: &[u8], content_type: &Option<String>) -> (r: &'static str)
    ensures
        r@ == disposition_for(detected_type(buf@)),
{
    disposition_of(detect_type(buf))
}

/// The Content-Type to serve: the detected one, with SVG corrected.
pub fn make_content_type(buf: &[u8], content_type: &Option<String>) -> (r: &'static str)
    ensures
        r@ == content_type_for(detected_type(buf@), opt_view(*content_type)),
{
    content_type_of(detect_type(buf), content_type)
}

/// The Content-Type to serve, decided from the detected type and the type
/// the uploader claimed.
pub fn content_type_of(detected: Option<(&'static str, MediaKind)>, content_type: &Option<String>) -> (r: &'static str)
    ensures
        r@ == content_type_for(detected_view(detected), opt_view(*content_type)),
{
    match detected {
        None => "application/octet-stream",
        Some((mime, _)) => match content_type {
            None => mime,
            Some(claimed) => {
                if contains(claimed.as_str(), "svg") && contains(mime, "xml") {
                    "image/svg+xml"
                } else {
                    mime
                }
            },
        },
    }
}

/// The Content-Disposition value: the disposition type, followed by
/// `; filename=` and the sanitised file name when there is one.
pub fn make_content_disposition(
    file: &[u8],
    content_type: &Option<String>,
    content_disposition: Option<String>,
    req_filename: Option<String>,
) -> (r: String)
    ensures
        r@ == disposition_header(
            detected_type(file@),
            opt_view(content_disposition),
            opt_view(req_filename),
        ),
{
    let filename: String = match req_filename {
        Some(f) => sanitise_filename(f),
        None => match content_disposition {
            None => String::new(),
            Some(cd) => {
                let after = after_first_str(cd.as_str(), "filename=");
                if after.as_str().is_empty() {
                    String::new()
                } else {
                    sanitise_filename(after)
                }
            },
        },
    };
    let kind = content_disposition_type(file, content_type);
    if !filename.as_str().is_empty() {
        let mut r = String::from_str(kind);
        r.append("; filename=");
        r.append(filename.as_str());
        r
    } else {
        String::from_str(kind)
    }
}

} // verus!

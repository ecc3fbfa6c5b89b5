//! Response headers: what they hold, as plain values, and their conversion
//! into `tiny_http` headers.

use vstd::prelude::*;
use vstd::utf8::is_ascii_chars;
use tiny_http::Header;
use crate::naming::zip_content_disposition;
use crate::routing::{HeaderLine, ZIP_TYPE};

verus! {

#[verifier::external_type_specification]
#[verifier::external_body]
pub struct ExHeader(Header);

/// `tiny_http::Header::from_bytes` on the name and value of `line`. Both
/// are stored as `AsciiString`s, so the call succeeds exactly when every
/// character of both is ASCII. The header it builds holds `line`'s name and
/// value one for one; that is not stated, the type being opaque here.
#[verifier::external_body]
fn header_from_line(line: &HeaderLine) -> (r: Option<Header>)
    ensures
        r is Some <==> (is_ascii_chars(line.name@) && is_ascii_chars(line.value@)),
{
    Header::from_bytes(line.name.as_bytes(), line.value.as_bytes()).ok()
}

/// `line` as a `tiny_http` header; `None` when its name or value is not
/// ASCII (the only case in which `tiny_http` refuses it).
pub fn response_header(line: &HeaderLine) -> (r: Option<Header>)
    ensures
        r is Some <==> (is_ascii_chars(line.name@) && is_ascii_chars(line.value@)),
{
    header_from_line(line)
}

/// The `Content-Type` header for a media type.
pub fn content_type_line(mime: &str) -> (h: HeaderLine)
    ensures
        h.name@ == "Content-Type"@,
        h.value@ == mime@,
{
    HeaderLine::new("Content-Type", mime)
}

/// The `Content-Disposition` header of the zip download of `display_name`.
pub fn zip_disposition_line(display_name: &str) -> (h: HeaderLine)
    ensures
        h.name@ == "Content-Disposition"@,
        h.value@ == "attachment; filename=\""@ + display_name@ + ".zip\""@,
{
    let value = zip_content_disposition(display_name);
    HeaderLine::new("Content-Disposition", value.as_str())
}

/// The headers of the zip download of `display_name`: its content type,
/// then its content disposition.
pub fn zip_download_headers(display_name: &str) -> (hs: Vec<HeaderLine>)
    ensures
        hs.len() == 2,
        hs[0].name@ == "Content-Type"@,
        hs[0].value@ == "application/zip"@,
        hs[1].name@ == "Content-Disposition"@,
        hs[1].value@ == "attachment; filename=\""@ + display_name@ + ".zip\""@,
{
    let mut hs = Vec::new();
    hs.push(content_type_line(ZIP_TYPE));
    hs.push(zip_disposition_line(display_name));
    hs
}

/// Law: the headers of a zip download can be sent exactly when the display
/// name is ASCII.
pub proof fn lemma_zip_headers_sendable(display_name: Seq<char>)
    ensures
        is_ascii_chars("Content-Disposition"@),
        is_ascii_chars("Content-Type"@),
        is_ascii_chars("application/zip"@),
        is_ascii_chars("attachment; filename=\""@ + display_name + ".zip\""@) <==> is_ascii_chars(display_name),
{
    reveal_strlit("Content-Disposition");
    reveal_strlit("Content-Type");
    reveal_strlit("application/zip");
    reveal_strlit("attachment; filename=\"");
    reveal_strlit(".zip\"");
    let pre = "attachment; filename=\""@;
    let post = ".zip\""@;
    let v = pre + display_name + post;
    if is_ascii_chars(display_name) {
        assert forall|i: int| 0 <= i < v.len() implies '\0' <= #[trigger] v[i] <= '\u{7f}' by {
            if i < pre.len() {
                assert(v[i] == pre[i]);
            } else if i < pre.len() + display_name.len() {
                assert(v[i] == display_name[i - pre.len()]);
            } else {
                assert(v[i] == post[i - pre.len() - display_name.len()]);
            }
        }
    }
    if is_ascii_chars(v) {
        assert forall|i: int| 0 <= i < display_name.len() implies '\0' <= #[trigger] display_name[i] <= '\u{7f}' by {
            assert(v[i + pre.len()] == display_name[i]);
        }
    }
}

} // verus!

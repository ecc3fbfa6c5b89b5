//! What the server does with a request: the token and read-only checks,
//! and the choice between listing, downloading, zipping, uploading and an
//! error reply.

use vstd::prelude::*;
use crate::paths::{normalized_request, opt_view, spec_safe_path, trim_leading_slashes, trim_trailing_slashes};
use crate::text::{eq_ignore_ascii_case, equals_ignore_ascii_case};

verus! {

/// Content type of plain-text replies.
pub const PLAIN_TEXT_TYPE: &'static str = "text/plain; charset=utf-8";

/// Content type of file downloads.
pub const DOWNLOAD_TYPE: &'static str = "application/octet-stream";

/// Content type of directory downloads.
pub const ZIP_TYPE: &'static str = "application/zip";

/// Status of a successful directory download.
pub const ZIP_STATUS: u16 = 200;

/// One request header: its field name and value as received.
pub struct HeaderLine {
    pub name: String,
    pub value: String,
}

impl HeaderLine {
    /// A header with the given field name and value.
    pub fn new(name: &str, value: &str) -> (h: HeaderLine)
        ensures
            h.name@ == name@,
            h.value@ == value@,
    {
        HeaderLine { name: String::from_str(name), value: String::from_str(value) }
    }
}

/// Some header is an `X-Token` header (field name compared without regard
/// to ASCII case) whose value is exactly `token`.
pub open spec fn carries_token(headers: Seq<HeaderLine>, token: Seq<char>) -> bool {
    exists|i: int|
        0 <= i < headers.len() && eq_ignore_ascii_case(#[trigger] headers[i].name@, "X-Token"@)
            && headers[i].value@ == token
}

/// Whether the request carries the expected shared token.
pub fn has_valid_token(headers: &[HeaderLine], expected_token: &str) -> (r: bool)
    ensures
        r == carries_token(headers@, expected_token@),
{
    let expected = String::from_str(expected_token);
    let n = headers.len();
    let mut i: usize = 0;
    while i < n
        invariant
            n == headers@.len(),
            i <= n,
            expected@ == expected_token@,
            forall|k: int|
                0 <= k < i ==> !(eq_ignore_ascii_case(#[trigger] headers@[k].name@, "X-Token"@)
                    && headers@[k].value@ == expected_token@),
        decreases n - i,
    {
        let h = &headers[i];
        if equals_ignore_ascii_case(h.name.as_str(), "X-Token") && h.value == expected {
            return true;
        }
        i = i + 1;
    }
    false
}

/// The request methods the server tells apart.
#[derive(PartialEq, Eq, Structural, Clone, Copy)]
pub enum RequestMethod {
    Get,
    Put,
    Other,
}

/// A plain-text reply: a status code and a body.
pub struct Reply {
    pub status: u16,
    pub body: String,
}

/// A reply as plain values.
pub open spec fn reply_view(r: Reply) -> (u16, Seq<char>) {
    (r.status, r.body@)
}

fn reply(status: u16, body: &str) -> (r: Reply)
    ensures
        reply_view(r) == (status, body@),
{
    Reply { status, body: String::from_str(body) }
}

/// The outcome of the checks made before a request is dispatched.
pub enum Admission {
    /// Answer with this reply and do nothing else.
    Reject(Reply),
    /// Go on to dispatch the request.
    Proceed,
}

/// The reply a request is refused with, if any: 401 without the required
/// token, then 403 for an upload in read-only mode.
pub open spec fn spec_admission(
    token: Option<Seq<char>>,
    headers: Seq<HeaderLine>,
    read_only: bool,
    method: RequestMethod,
) -> Option<(u16, Seq<char>)> {
    if token is Some && !carries_token(headers, token->0) {
        Some((401u16, "Unauthorized"@))
    } else if read_only && method == RequestMethod::Put {
        Some((403u16, "Read-only mode"@))
    } else {
        None
    }
}

/// The admission outcome as plain values.
pub open spec fn admission_view(a: Admission) -> Option<(u16, Seq<char>)> {
    match a {
        Admission::Reject(r) => Some(reply_view(r)),
        Admission::Proceed => None,
    }
}

/// The token and read-only checks made on every request.
pub fn admit_request(
    token: &Option<String>,
    headers: &[HeaderLine],
    read_only: bool,
    method: RequestMethod,
) -> (a: Admission)
    ensures
        admission_view(a) == spec_admission(opt_view(*token), headers@, read_only, method),
{
    match token {
        Some(expected) => {
            if !has_valid_token(headers, expected.as_str()) {
                return Admission::Reject(reply(401, "Unauthorized"));
            }
        },
        None => {},
    }
    if read_only && method == RequestMethod::Put {
        return Admission::Reject(reply(403, "Read-only mode"));
    }
    Admission::Proceed
}

/// Whether a method's path is resolved at all, and whether a missing leaf
/// is accepted then: `Some(false)` for GET, `Some(true)` for PUT, `None`
/// for any other method.
pub fn resolution_mode(method: RequestMethod) -> (r: Option<bool>)
    ensures
        r == (match method {
            RequestMethod::Get => Some(false),
            RequestMethod::Put => Some(true),
            RequestMethod::Other => None::<bool>,
        }),
{
    match method {
        RequestMethod::Get => Some(false),
        RequestMethod::Put => Some(true),
        RequestMethod::Other => None,
    }
}

/// What to do with an admitted request.
pub enum Action {
    /// Answer with a plain-text reply.
    Respond(Reply),
    /// Send the listing of this directory.
    ListDirectory(String),
    /// Send this file.
    DownloadFile(String),
    /// Send this directory as a zip archive.
    ZipDirectory(String),
    /// Store the request body at this path.
    Upload(String),
}

/// An action as plain values.
pub enum ActionView {
    Respond(u16, Seq<char>),
    ListDirectory(Seq<char>),
    DownloadFile(Seq<char>),
    ZipDirectory(Seq<char>),
    Upload(Seq<char>),
}

/// The view of an action.
pub open spec fn action_view(a: Action) -> ActionView {
    match a {
        Action::Respond(r) => ActionView::Respond(r.status, r.body@),
        Action::ListDirectory(p) => ActionView::ListDirectory(p@),
        Action::DownloadFile(p) => ActionView::DownloadFile(p@),
        Action::ZipDirectory(p) => ActionView::ZipDirectory(p@),
        Action::Upload(p) => ActionView::Upload(p@),
    }
}

/// The URL ends with `/`.
pub open spec fn ends_with_slash(url: Seq<char>) -> bool {
    url.len() > 0 && url.last() == '/'
}

/// The action for a request, given the path its URL resolved to (`None`
/// when it was refused) and whether that path is a directory or a file.
/// With a trailing slash a GET lists a directory; without one it downloads
/// a file, or a directory as a zip archive.
pub open spec fn spec_dispatch(
    method: RequestMethod,
    url: Seq<char>,
    resolved: Option<Seq<char>>,
    is_dir: bool,
    is_file: bool,
) -> ActionView {
    match method {
        RequestMethod::Get => match resolved {
            None => ActionView::Respond(400, "Invalid path"@),
            Some(p) => if ends_with_slash(url) {
                if is_dir {
                    ActionView::ListDirectory(p)
                } else {
                    ActionView::Respond(404, "Not found"@)
                }
            } else if is_file {
                ActionView::DownloadFile(p)
            } else if is_dir {
                ActionView::ZipDirectory(p)
            } else {
                ActionView::Respond(404, "Not found"@)
            },
        },
        RequestMethod::Put => match resolved {
            None => ActionView::Respond(400, "Invalid path"@),
            Some(p) => ActionView::Upload(p),
        },
        RequestMethod::Other => ActionView::Respond(404, "Not found"@),
    }
}

fn ends_with_slash_exec(url: &str) -> (r: bool)
    ensures
        r == ends_with_slash(url@),
{
    let n = url.unicode_len();
    n > 0 && url.get_char(n - 1) == '/'
}

fn respond(status: u16, body: &str) -> (a: Action)
    ensures
        action_view(a) == ActionView::Respond(status, body@),
{
    Action::Respond(reply(status, body))
}

/// Chooses what to do with an admitted request (see [`spec_dispatch`]).
pub fn dispatch(
    method: RequestMethod,
    url: &str,
    resolved: Option<String>,
    is_dir: bool,
    is_file: bool,
) -> (a: Action)
    ensures
        action_view(a) == spec_dispatch(method, url@, opt_view(resolved), is_dir, is_file),
{
    match method {
        RequestMethod::Get => match resolved {
            None => respond(400, "Invalid path"),
            Some(p) => {
                if ends_with_slash_exec(url) {
                    if is_dir {
                        Action::ListDirectory(p)
                    } else {
                        respond(404, "Not found")
                    }
                } else if is_file {
                    Action::DownloadFile(p)
                } else if is_dir {
                    Action::ZipDirectory(p)
                } else {
                    respond(404, "Not found")
                }
            },
        },
        RequestMethod::Put => match resolved {
            None => respond(400, "Invalid path"),
            Some(p) => Action::Upload(p),
        },
        RequestMethod::Other => respond(404, "Not found"),
    }
}

/// The reply to a stored upload.
pub fn upload_done_reply() -> (r: Reply)
    ensures
        reply_view(r) == (200u16, "OK"@),
{
    reply(200, "OK")
}

/// Law: when a token is configured, a request without a matching `X-Token`
/// header is answered 401, whatever its method and whatever the read-only
/// setting.
pub proof fn lemma_missing_token_unauthorized(
    token: Seq<char>,
    headers: Seq<HeaderLine>,
    read_only: bool,
    method: RequestMethod,
)
    requires
        !carries_token(headers, token),
    ensures
        spec_admission(Some(token), headers, read_only, method) == Some((401u16, "Unauthorized"@)),
{
}

/// Law: the `X-Token` field name is matched without regard to ASCII case,
/// and the value must match exactly.
pub proof fn lemma_token_header_case_insensitive(
    headers: Seq<HeaderLine>,
    token: Seq<char>,
    i: int,
)
    requires
        0 <= i < headers.len(),
        eq_ignore_ascii_case(headers[i].name@, "X-Token"@),
        headers[i].value@ == token,
    ensures
        carries_token(headers, token),
        forall|read_only: bool, method: RequestMethod|
            spec_admission(Some(token), headers, read_only, method) == spec_admission(None, headers, read_only, method),
{
}

/// Law: read-only mode refuses uploads with 403 and lets every other
/// admitted request through.
pub proof fn lemma_read_only_refuses_only_uploads(
    token: Option<Seq<char>>,
    headers: Seq<HeaderLine>,
    method: RequestMethod,
)
    requires
        token is None || carries_token(headers, token->0),
    ensures
        method == RequestMethod::Put ==> spec_admission(token, headers, true, method) == Some((403u16, "Read-only mode"@)),
        method != RequestMethod::Put ==> spec_admission(token, headers, true, method) is None,
        spec_admission(token, headers, false, method) is None,
{
}

/// Law: a GET of `/` lists the shared directory, whatever the filesystem
/// answers about candidate paths.
pub proof fn lemma_root_url_lists_root(
    root: Seq<char>,
    found: bool,
    leaf_is_symlink: bool,
    canonical: Option<Seq<char>>,
    canonical_parent: Option<Seq<char>>,
    link_target_dir: Option<Seq<char>>,
    is_file: bool,
)
    ensures
        spec_dispatch(
            RequestMethod::Get,
            seq!['/'],
            spec_safe_path(root, seq!['/'], false, found, leaf_is_symlink, canonical, canonical_parent, link_target_dir),
            true,
            is_file,
        ) == ActionView::ListDirectory(root),
{
    let s = seq!['/'];
    assert(s[0] == '/');
    assert(s.drop_first() =~= Seq::<char>::empty());
    assert(trim_leading_slashes(s) == trim_leading_slashes(s.drop_first()));
    assert(trim_leading_slashes(Seq::<char>::empty()) == Seq::<char>::empty());
    assert(trim_trailing_slashes(Seq::<char>::empty()) == Seq::<char>::empty());
    assert(normalized_request(seq!['/']) =~= Seq::<char>::empty());
}

/// Law: for a GET of a directory the trailing slash decides: with it the
/// directory is listed, without it the directory is sent as a zip archive.
pub proof fn lemma_trailing_slash_decides(url: Seq<char>, p: Seq<char>)
    ensures
        ends_with_slash(url) ==> spec_dispatch(RequestMethod::Get, url, Some(p), true, false)
            == ActionView::ListDirectory(p),
        !ends_with_slash(url) ==> spec_dispatch(RequestMethod::Get, url, Some(p), true, false)
            == ActionView::ZipDirectory(p),
{
}


/// Law: an upload whose path resolved is stored at that path, whether a
/// file or a directory is there already (an existing file is overwritten);
/// one whose path was refused is answered 400.
pub proof fn lemma_put_stores_at_resolved_path(url: Seq<char>, p: Seq<char>, is_dir: bool, is_file: bool)
    ensures
        spec_dispatch(RequestMethod::Put, url, Some(p), is_dir, is_file) == ActionView::Upload(p),
        spec_dispatch(RequestMethod::Put, url, None, is_dir, is_file) == ActionView::Respond(400, "Invalid path"@),
{
}

} // verus!

//! Names the server gives to things: thread names, the name of a zip
//! download and of its temporary file, entry names inside the archive and
//! the name under which a request is logged.

use vstd::prelude::*;
use crate::paths::trim_leading_slashes;
use crate::text::{chars_of, decimal, push_char, push_decimal, string_from_chars};

verus! {

/// `char::is_ascii_alphanumeric`.
pub open spec fn is_ascii_alphanumeric(c: char) -> bool {
    ('a' <= c && c <= 'z') || ('A' <= c && c <= 'Z') || ('0' <= c && c <= '9')
}

/// A character kept in a thread name; anything else becomes `-`.
pub open spec fn thread_name_char(c: char) -> char {
    if is_ascii_alphanumeric(c) || c == '-' || c == '_' { c } else { '-' }
}

/// The most characters of a name that go into a thread name.
pub open spec fn thread_name_limit() -> nat {
    32
}

/// The first 32 characters of `name`, each outside `[A-Za-z0-9_-]`
/// replaced by `-`.
pub open spec fn sanitized_name(name: Seq<char>) -> Seq<char> {
    let n = if name.len() < thread_name_limit() { name.len() } else { thread_name_limit() };
    Seq::new(n, |i: int| thread_name_char(name[i]))
}

/// Makes a display name fit for a thread name (see [`sanitized_name`]).
pub fn sanitize_thread_name(name: &str) -> (r: String)
    ensures
        r@ == sanitized_name(name@),
{
    let len = name.unicode_len();
    let n: usize = if len < 32 { len } else { 32 };
    let mut r = String::new();
    let mut i: usize = 0;
    while i < n
        invariant
            len == name@.len(),
            n <= len,
            n == (if name@.len() < thread_name_limit() { name@.len() } else { thread_name_limit() }),
            i <= n,
            r@ =~= Seq::new(i as nat, |k: int| thread_name_char(name@[k])),
        decreases n - i,
    {
        let c = name.get_char(i);
        let keep = ('a' <= c && c <= 'z') || ('A' <= c && c <= 'Z') || ('0' <= c && c <= '9') || c == '-'
            || c == '_';
        if keep {
            push_char(&mut r, c);
        } else {
            push_char(&mut r, '-');
        }
        i = i + 1;
    }
    r
}

/// Law: a sanitized name holds at most 32 characters, each of them an ASCII
/// letter, digit, `-` or `_`.
pub proof fn lemma_sanitized_name_shape(name: Seq<char>)
    ensures
        sanitized_name(name).len() <= 32,
        forall|i: int| 0 <= i < sanitized_name(name).len() ==> {
            let c = #[trigger] sanitized_name(name)[i];
            is_ascii_alphanumeric(c) || c == '-' || c == '_'
        },
{
}

/// Law: a name of at most 32 characters drawn from `[A-Za-z0-9_-]` is kept
/// as it is.
pub proof fn lemma_sanitize_keeps_clean_names(name: Seq<char>)
    requires
        name.len() <= 32,
        forall|i: int| 0 <= i < name.len() ==> is_ascii_alphanumeric(#[trigger] name[i]) || name[i] == '-' || name[i] == '_',
    ensures
        sanitized_name(name) == name,
{
    assert(sanitized_name(name) =~= name);
}

/// `prefix` followed by `text`.
fn prefixed(prefix: &str, text: &str) -> (r: String)
    ensures
        r@ == prefix@ + text@,
{
    let mut r = String::from_str(prefix);
    r.append(text);
    r
}

/// The name of the thread that writes the zip archive of `display_name`.
pub fn zip_thread_name(display_name: &str) -> (r: String)
    ensures
        r@ == "zip-stream-"@ + sanitized_name(display_name@),
{
    let clean = sanitize_thread_name(display_name);
    prefixed("zip-stream-", clean.as_str())
}

/// The name of worker thread `idx`.
pub fn worker_thread_name(idx: usize) -> (r: String)
    ensures
        r@ == "file-transfer-worker-"@ + decimal(idx as nat),
{
    let mut r = String::from_str("file-transfer-worker-");
    push_decimal(&mut r, idx as u128);
    r
}

/// The `Content-Disposition` value of the zip download of `display_name`:
/// `attachment; filename="<display_name>.zip"`.
pub fn zip_content_disposition(display_name: &str) -> (r: String)
    ensures
        r@ == "attachment; filename=\""@ + display_name@ + ".zip\""@,
{
    let mut r = String::from_str("attachment; filename=\"");
    r.append(display_name);
    r.append(".zip\"");
    r
}

/// The name of the temporary file a zip archive is written to, from the
/// process id and a timestamp in nanoseconds:
/// `file-transfer-zip-<pid>-<nanos>.tmp`.
pub fn temp_zip_file_name(pid: u32, nanos: u128) -> (r: String)
    ensures
        r@ == "file-transfer-zip-"@ + decimal(pid as nat) + "-"@ + decimal(nanos as nat) + ".tmp"@,
{
    let mut r = String::from_str("file-transfer-zip-");
    push_decimal(&mut r, pid as u128);
    r.append("-");
    push_decimal(&mut r, nanos);
    r.append(".tmp");
    r
}

/// The name of an archive entry: `name` inside the directory `prefix`
/// (`prefix/name`, or `name` at the top of the archive).
pub open spec fn entry_path(prefix: Seq<char>, name: Seq<char>) -> Seq<char> {
    if prefix.len() == 0 { name } else { prefix + seq!['/'] + name }
}

/// The archive name of the directory entry `name` found under `prefix`.
pub fn zip_entry_name(prefix: &str, name: &str) -> (r: String)
    ensures
        r@ == entry_path(prefix@, name@),
{
    if prefix.unicode_len() == 0 {
        String::from_str(name)
    } else {
        let mut r = String::from_str(prefix);
        push_char(&mut r, '/');
        r.append(name);
        r
    }
}

/// What goes into the archive for one directory entry.
pub enum ZipEntryAction {
    /// A directory entry, whose contents follow under this name.
    AddDirectory(String),
    /// A file entry with the file's bytes.
    AddFile(String),
    /// Nothing (neither a directory nor a regular file).
    Skip,
}

/// Decides how the directory entry `name` under `prefix` enters the archive.
pub fn zip_entry_action(prefix: &str, name: &str, is_dir: bool, is_file: bool) -> (r: ZipEntryAction)
    ensures
        is_dir ==> (r matches ZipEntryAction::AddDirectory(n) && n@ == entry_path(prefix@, name@)),
        !is_dir && is_file ==> (r matches ZipEntryAction::AddFile(n) && n@ == entry_path(prefix@, name@)),
        !is_dir && !is_file ==> r is Skip,
{
    if is_dir {
        ZipEntryAction::AddDirectory(zip_entry_name(prefix, name))
    } else if is_file {
        ZipEntryAction::AddFile(zip_entry_name(prefix, name))
    } else {
        ZipEntryAction::Skip
    }
}

/// The name a request is logged and archived under: its URL without the
/// leading slashes.
pub fn display_name(url: &str) -> (r: String)
    ensures
        r@ == trim_leading_slashes(url@),
{
    let v = chars_of(url);
    let len = v.len();
    let mut start: usize = 0;
    assert(v@.skip(0) =~= v@);
    while start < len && v[start] == '/'
        invariant
            len == v@.len(),
            start <= len,
            v@.skip(start as int) =~= v@.subrange(start as int, len as int),
            trim_leading_slashes(v@) == trim_leading_slashes(v@.skip(start as int)),
        decreases len - start,
    {
        assert(v@.skip(start as int).drop_first() =~= v@.skip(start + 1));
        start = start + 1;
    }
    string_from_chars(&v, start, len)
}


/// Law: below a non-empty prefix, an archive entry is named by the whole
/// prefix, a `/`, then the entry's own name.
pub proof fn lemma_entry_path_keeps_prefix(prefix: Seq<char>, name: Seq<char>)
    requires
        prefix.len() > 0,
    ensures
        entry_path(prefix, name).len() == prefix.len() + 1 + name.len(),
        entry_path(prefix, name).take(prefix.len() as int) == prefix,
        entry_path(prefix, name)[prefix.len() as int] == '/',
        entry_path(prefix, name).skip(prefix.len() as int + 1) == name,
{
    let e = entry_path(prefix, name);
    assert(e.take(prefix.len() as int) =~= prefix);
    assert(e.skip(prefix.len() as int + 1) =~= name);
}

/// The archive name reached by descending through the directories `cs`
/// (each entry named below the name of the one before).
pub open spec fn nested_entry(cs: Seq<Seq<char>>) -> Seq<char>
    decreases cs.len(),
{
    if cs.len() == 0 {
        seq![]
    } else {
        entry_path(nested_entry(cs.drop_last()), cs.last())
    }
}

/// The pieces of `cs` separated by single slashes.
pub open spec fn slash_separated(cs: Seq<Seq<char>>) -> Seq<char>
    decreases cs.len(),
{
    if cs.len() == 0 {
        seq![]
    } else if cs.len() == 1 {
        cs[0]
    } else {
        slash_separated(cs.drop_last()) + seq!['/'] + cs.last()
    }
}

/// Law: the archive name of a file reached through nested directories is
/// its path relative to the zipped directory: the names along the way,
/// separated by `/`.
pub proof fn lemma_nested_entry_is_relative_path(cs: Seq<Seq<char>>)
    requires
        forall|i: int| 0 <= i < cs.len() ==> (#[trigger] cs[i]).len() > 0,
    ensures
        nested_entry(cs) == slash_separated(cs),
        cs.len() > 0 ==> nested_entry(cs).len() > 0,
    decreases cs.len(),
{
    if cs.len() > 0 {
        let init = cs.drop_last();
        assert forall|i: int| 0 <= i < init.len() implies (#[trigger] init[i]).len() > 0 by {
            assert(init[i] == cs[i]);
        }
        lemma_nested_entry_is_relative_path(init);
        assert(cs.last() == cs[cs.len() - 1]);
        if cs.len() == 1 {
            assert(nested_entry(init) =~= Seq::<char>::empty());
        }
    }
}

} // verus!

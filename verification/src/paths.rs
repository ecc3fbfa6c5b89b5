//! Resolution of request URLs to paths inside the shared directory.
//!
//! Paths are handled as strings with `/` as separator. The filesystem
//! queries that resolution needs (whether the candidate exists, whether it
//! is itself a symbolic link, and what canonicalizing the candidate or its
//! parent gives) are answered by the caller in a [`PathFacts`]; everything
//! else is decided here.

use vstd::prelude::*;
use crate::text::{chars_of, push_char, string_from_chars};

verus! {

/// `s` without its leading `/` characters (`trim_start_matches('/')`).
pub open spec fn trim_leading_slashes(s: Seq<char>) -> Seq<char>
    decreases s.len(),
{
    if s.len() > 0 && s[0] == '/' {
        trim_leading_slashes(s.drop_first())
    } else {
        s
    }
}

/// `s` without its trailing `/` characters (`trim_end_matches('/')`).
pub open spec fn trim_trailing_slashes(s: Seq<char>) -> Seq<char>
    decreases s.len(),
{
    if s.len() > 0 && s.last() == '/' {
        trim_trailing_slashes(s.drop_last())
    } else {
        s
    }
}

/// The request path with the slashes at both ends removed.
pub open spec fn normalized_request(url: Seq<char>) -> Seq<char> {
    trim_trailing_slashes(trim_leading_slashes(url))
}

/// `s[a..b]` is one of the `/`-separated components of `s`.
pub open spec fn is_component(s: Seq<char>, a: int, b: int) -> bool {
    &&& 0 <= a <= b <= s.len()
    &&& (a == 0 || s[a - 1] == '/')
    &&& (b == s.len() || s[b] == '/')
    &&& forall|k: int| a <= k < b ==> s[k] != '/'
}

/// A component that is empty, `.` or `..`.
pub open spec fn is_bad_component(c: Seq<char>) -> bool {
    c.len() == 0 || c =~= seq!['.'] || c =~= seq!['.', '.']
}

/// Some `/`-separated component of `s` is empty, `.` or `..`.
pub open spec fn has_bad_component(s: Seq<char>) -> bool {
    exists|a: int, b: int| is_component(s, a, b) && is_bad_component(#[trigger] s.subrange(a, b))
}

/// What a request URL names, before the filesystem is consulted.
pub enum UrlTarget {
    /// The shared directory itself.
    Root,
    /// A relative path below the shared directory, without slashes at its ends.
    Relative(String),
    /// A path with an empty, `.` or `..` component.
    Rejected,
}

/// `Path::join` of a relative path onto `base`.
pub open spec fn join_path(base: Seq<char>, rel: Seq<char>) -> Seq<char> {
    if base.len() == 0 || base.last() == '/' {
        base + rel
    } else {
        base + seq!['/'] + rel
    }
}

/// Index of the last `/` in `s`, or -1.
pub open spec fn last_slash(s: Seq<char>) -> int
    decreases s.len(),
{
    if s.len() == 0 {
        -1
    } else if s.last() == '/' {
        s.len() - 1
    } else {
        last_slash(s.drop_last())
    }
}

/// The directory holding `p`: `p` up to its last `/`, `/` when that is the
/// first character, the empty path when `p` has no `/`.
pub open spec fn parent_path(p: Seq<char>) -> Seq<char> {
    let i = last_slash(p);
    if i < 0 {
        seq![]
    } else if i == 0 {
        seq!['/']
    } else {
        p.take(i)
    }
}

/// The pieces of `s` between `/` separators, empty pieces included
/// (`"a//b/"` gives `a`, ``, `b`, ``).
pub open spec fn split_slash(s: Seq<char>) -> Seq<Seq<char>>
    decreases s.len(),
{
    if s.len() == 0 {
        seq![seq![]]
    } else if s.last() == '/' {
        split_slash(s.drop_last()).push(seq![])
    } else {
        let pre = split_slash(s.drop_last());
        pre.update(pre.len() - 1, pre.last().push(s.last()))
    }
}

/// A piece that names a path component: neither empty nor `.`.
pub open spec fn is_normal_segment(c: Seq<char>) -> bool {
    c.len() > 0 && !(c =~= seq!['.'])
}

/// The pieces that name path components, in order.
pub open spec fn normal_segments(segs: Seq<Seq<char>>) -> Seq<Seq<char>>
    decreases segs.len(),
{
    if segs.len() == 0 {
        seq![]
    } else {
        let k = normal_segments(segs.drop_last());
        if is_normal_segment(segs.last()) { k.push(segs.last()) } else { k }
    }
}

/// The component a path starts with before its named components: `/` for
/// an absolute path, `.` for a path that starts with the component `.`,
/// nothing otherwise.
pub open spec fn leading_component(s: Seq<char>) -> Seq<Seq<char>> {
    if s.len() > 0 && s[0] == '/' {
        seq![seq!['/']]
    } else if s.len() > 0 && s[0] == '.' && (s.len() == 1 || s[1] == '/') {
        seq![seq!['.']]
    } else {
        seq![]
    }
}

/// The components of a path as `Path::components` gives them on Unix: the
/// root (written `/`) or a leading `.`, then every piece between separators
/// that is neither empty nor `.`.
pub open spec fn path_components(s: Seq<char>) -> Seq<Seq<char>> {
    leading_component(s) + normal_segments(split_slash(s))
}

/// `p` lies in `root` (`Path::starts_with`): the components of `root` are
/// the first components of `p`.
pub open spec fn path_within(root: Seq<char>, p: Seq<char>) -> bool {
    let a = path_components(root);
    let b = path_components(p);
    a.len() <= b.len() && b.take(a.len() as int) =~= a
}

/// What the filesystem says about the candidate path of a request: whether
/// it exists (following links), whether the candidate itself is a symbolic
/// link (not following it), what canonicalizing it gives (when it exists),
/// what canonicalizing its parent gives (when it does not), and, for a
/// candidate that is a link, the canonical form of the directory that holds
/// the last target of its chain of links (`None` when that directory does
/// not exist or the chain cannot be followed).
pub struct PathFacts {
    pub exists: bool,
    pub leaf_is_symlink: bool,
    pub canonical: Option<String>,
    pub canonical_parent: Option<String>,
    pub link_target_dir: Option<String>,
}

/// The view of an optional string.
pub open spec fn opt_view(o: Option<String>) -> Option<Seq<char>> {
    match o {
        Some(s) => Some(s@),
        None => None,
    }
}

/// `canonical` when it lies within `root`.
pub open spec fn spec_within_root(root: Seq<char>, canonical: Option<Seq<char>>) -> Option<Seq<char>> {
    match canonical {
        Some(c) => if path_within(root, c) { Some(c) } else { None },
        None => None,
    }
}

/// The path that serves `url` from `root`, given the filesystem's answers.
/// An existing candidate is served by its canonical form when that lies in
/// `root`; a missing one only for uploads, only inside an existing
/// directory whose canonical form lies in `root`, and, when it is a dangling
/// link, only when the directory its target would be created in lies in
/// `root` too.
pub open spec fn spec_safe_path(
    root: Seq<char>,
    url: Seq<char>,
    allow_missing_leaf: bool,
    found: bool,
    leaf_is_symlink: bool,
    canonical: Option<Seq<char>>,
    canonical_parent: Option<Seq<char>>,
    link_target_dir: Option<Seq<char>>,
) -> Option<Seq<char>> {
    let n = normalized_request(url);
    if n.len() == 0 {
        Some(root)
    } else if has_bad_component(n) {
        None
    } else if found {
        spec_within_root(root, canonical)
    } else if !allow_missing_leaf {
        None
    } else if leaf_is_symlink && spec_within_root(root, link_target_dir) is None {
        None
    } else {
        match spec_within_root(root, canonical_parent) {
            Some(_) => Some(join_path(root, n)),
            None => None,
        }
    }
}


proof fn lemma_trim_leading(s: Seq<char>, i: int)
    requires
        0 <= i <= s.len(),
        forall|k: int| 0 <= k < i ==> s[k] == '/',
        i == s.len() || s[i] != '/',
    ensures
        trim_leading_slashes(s) =~= s.skip(i),
    decreases i,
{
    if i > 0 {
        lemma_trim_leading(s.drop_first(), i - 1);
        assert(s.drop_first().skip(i - 1) =~= s.skip(i));
    } else {
        assert(s.skip(0) =~= s);
    }
}

proof fn lemma_trim_trailing(s: Seq<char>, j: int)
    requires
        0 <= j <= s.len(),
        forall|k: int| j <= k < s.len() ==> s[k] == '/',
        j == 0 || s[j - 1] != '/',
    ensures
        trim_trailing_slashes(s) =~= s.take(j),
    decreases s.len() - j,
{
    if j < s.len() {
        lemma_trim_trailing(s.drop_last(), j);
        assert(s.drop_last().take(j) =~= s.take(j));
    } else {
        assert(s.take(j) =~= s);
    }
}

/// A component ending at `b` starts right after the previous `/`.
proof fn lemma_component_start(s: Seq<char>, start: int, a: int, b: int)
    requires
        0 <= start <= b <= s.len(),
        start == 0 || s[start - 1] == '/',
        forall|k: int| start <= k < b ==> s[k] != '/',
        is_component(s, a, b),
    ensures
        a == start,
{
    if a < start {
        assert(s[start - 1] != '/');
    } else if a > start {
        assert(s[a - 1] != '/');
    }
}

fn is_bad_segment(s: &Vec<char>, a: usize, b: usize) -> (r: bool)
    requires
        a <= b <= s.len(),
    ensures
        r == is_bad_component(s@.subrange(a as int, b as int)),
{
    let n = b - a;
    let ghost c = s@.subrange(a as int, b as int);
    if n == 0 {
        true
    } else if n == 1 {
        let r = s[a] == '.';
        assert(r ==> c =~= seq!['.']);
        assert(c =~= seq!['.'] ==> c[0] == seq!['.'][0]);
        r
    } else if n == 2 {
        let r = s[a] == '.' && s[a + 1] == '.';
        assert(r ==> c =~= seq!['.', '.']);
        assert(c =~= seq!['.', '.'] ==> c[0] == '.' && c[1] == '.');
        r
    } else {
        false
    }
}

/// Whether some `/`-separated component of `s` is empty, `.` or `..`.
pub fn find_bad_component(s: &Vec<char>) -> (r: bool)
    ensures
        r == has_bad_component(s@),
{
    let len = s.len();
    let mut start: usize = 0;
    let mut i: usize = 0;
    while i < len
        invariant
            len == s@.len(),
            0 <= start <= i <= len,
            start == 0 || s@[start - 1] == '/',
            forall|k: int| start <= k < i ==> s@[k] != '/',
            forall|a: int, b: int|
                is_component(s@, a, b) && b < start ==> !is_bad_component(#[trigger] s@.subrange(a, b)),
        decreases len - i,
    {
        if s[i] == '/' {
            if is_bad_segment(s, start, i) {
                assert(is_component(s@, start as int, i as int));
                return true;
            }
            assert forall|a: int, b: int|
                is_component(s@, a, b) && b < i + 1 implies !is_bad_component(#[trigger] s@.subrange(a, b)) by {
                if b >= start {
                    if b < i {
                        assert(s@[b] == '/');
                    }
                    lemma_component_start(s@, start as int, a, b);
                }
            }
            start = i + 1;
        }
        i = i + 1;
    }
    if is_bad_segment(s, start, len) {
        assert(is_component(s@, start as int, len as int));
        return true;
    }
    assert forall|a: int, b: int| is_component(s@, a, b) implies !is_bad_component(#[trigger] s@.subrange(a, b)) by {
        if b >= start {
            if b < len {
                assert(s@[b] == '/');
            }
            lemma_component_start(s@, start as int, a, b);
        }
    }
    false
}

/// Splits a request URL into what it names, before any filesystem query.
pub fn classify_url(url: &str) -> (t: UrlTarget)
    ensures
        t is Root <==> normalized_request(url@).len() == 0,
        t is Rejected <==> (normalized_request(url@).len() > 0 && has_bad_component(normalized_request(url@))),
        t matches UrlTarget::Relative(n) ==> n@ == normalized_request(url@),
{
    let v = chars_of(url);
    let len = v.len();
    let mut start: usize = 0;
    while start < len && v[start] == '/'
        invariant
            len == v@.len(),
            start <= len,
            forall|k: int| 0 <= k < start ==> v@[k] == '/',
        decreases len - start,
    {
        start = start + 1;
    }
    proof {
        lemma_trim_leading(v@, start as int);
    }
    let ghost rel = v@.skip(start as int);
    let mut end: usize = len;
    while end > start && v[end - 1] == '/'
        invariant
            len == v@.len(),
            start <= end <= len,
            forall|k: int| end <= k < len ==> v@[k] == '/',
        decreases end - start,
    {
        end = end - 1;
    }
    proof {
        lemma_trim_trailing(rel, end - start);
        assert(rel.take(end - start) =~= v@.subrange(start as int, end as int));
    }
    if start == end {
        return UrlTarget::Root;
    }
    let n = string_from_chars(&v, start, end);
    let mut w: Vec<char> = Vec::new();
    let mut i = start;
    while i < end
        invariant
            start <= i <= end <= len,
            len == v@.len(),
            w@ =~= v@.subrange(start as int, i as int),
        decreases end - i,
    {
        w.push(v[i]);
        i = i + 1;
    }
    if find_bad_component(&w) {
        UrlTarget::Rejected
    } else {
        UrlTarget::Relative(n)
    }
}


/// `base` joined with the relative path `rel`.
pub fn join(base: &str, rel: &str) -> (p: String)
    ensures
        p@ == join_path(base@, rel@),
{
    let mut p = String::from_str(base);
    let n = base.unicode_len();
    if n > 0 && base.get_char(n - 1) != '/' {
        push_char(&mut p, '/');
    }
    p.append(rel);
    p
}

proof fn lemma_last_slash_step(s: Seq<char>, j: int)
    requires
        0 < j <= s.len(),
    ensures
        s.take(j).drop_last() =~= s.take(j - 1),
        s.take(j).last() == s[j - 1],
{
}

/// The directory holding `p` (see [`parent_path`]).
pub fn parent_of(p: &str) -> (r: String)
    ensures
        r@ == parent_path(p@),
{
    let v = chars_of(p);
    let len = v.len();
    let mut j = len;
    assert(v@.take(len as int) =~= v@);
    while j > 0 && v[j - 1] != '/'
        invariant
            len == v@.len(),
            j <= len,
            last_slash(v@) == last_slash(v@.take(j as int)),
        decreases j,
    {
        proof {
            lemma_last_slash_step(v@, j as int);
        }
        j = j - 1;
    }
    if j == 0 {
        assert(v@.take(0) =~= Seq::<char>::empty());
        String::new()
    } else {
        proof {
            lemma_last_slash_step(v@, j as int);
        }
        if j == 1 {
            let mut r = String::new();
            push_char(&mut r, '/');
            assert(r@ =~= seq!['/']);
            r
        } else {
            string_from_chars(&v, 0, j - 1)
        }
    }
}

/// The views of a vector of character vectors.
pub open spec fn char_views(s: Seq<Vec<char>>) -> Seq<Seq<char>> {
    s.map_values(|v: Vec<char>| v@)
}

proof fn lemma_split_len(s: Seq<char>)
    ensures
        split_slash(s).len() >= 1,
    decreases s.len(),
{
    if s.len() > 0 {
        lemma_split_len(s.drop_last());
    }
}

fn same_chars(x: &Vec<char>, y: &Vec<char>) -> (r: bool)
    ensures
        r == (x@ == y@),
{
    if x.len() != y.len() {
        return false;
    }
    let mut i: usize = 0;
    while i < x.len()
        invariant
            x.len() == y.len(),
            i <= x.len(),
            forall|k: int| 0 <= k < i ==> x@[k] == y@[k],
        decreases x.len() - i,
    {
        if x[i] != y[i] {
            return false;
        }
        i = i + 1;
    }
    assert(x@ =~= y@);
    true
}

fn is_normal_piece(c: &Vec<char>) -> (r: bool)
    ensures
        r == is_normal_segment(c@),
{
    if c.len() == 0 {
        false
    } else if c.len() == 1 && c[0] == '.' {
        assert(c@ =~= seq!['.']);
        false
    } else {
        assert(c.len() == 1 ==> c@[0] != seq!['.'][0]);
        true
    }
}

fn single(c: char) -> (r: Vec<char>)
    ensures
        r@ == seq![c],
{
    let mut r = Vec::new();
    r.push(c);
    assert(r@ =~= seq![c]);
    r
}

/// The components of a path (see [`path_components`]).
pub fn components_of(s: &str) -> (r: Vec<Vec<char>>)
    ensures
        char_views(r@) == path_components(s@),
{
    let v = chars_of(s);
    let n = v.len();
    let mut out: Vec<Vec<char>> = Vec::new();
    if n > 0 && v[0] == '/' {
        out.push(single('/'));
    } else if n > 0 && v[0] == '.' && (n == 1 || v[1] == '/') {
        out.push(single('.'));
    }
    let ghost pre = char_views(out@);
    assert(pre =~= leading_component(v@));
    let mut cur: Vec<char> = Vec::new();
    let mut i: usize = 0;
    assert(v@.take(0) =~= Seq::<char>::empty());
    assert(normal_segments(split_slash(v@.take(0)).drop_last()) =~= Seq::<Seq<char>>::empty());
    assert(char_views(out@) =~= pre + normal_segments(split_slash(v@.take(0)).drop_last()));
    while i < n
        invariant
            n == v@.len(),
            i <= n,
            char_views(out@) =~= pre + normal_segments(split_slash(v@.take(i as int)).drop_last()),
            cur@ == split_slash(v@.take(i as int)).last(),
        decreases n - i,
    {
        let ghost t0 = v@.take(i as int);
        let ghost t1 = v@.take(i + 1);
        proof {
            assert(t1.drop_last() =~= t0);
            assert(t1.last() == v@[i as int]);
            lemma_split_len(t0);
        }
        let c = v[i];
        let ghost before = char_views(out@);
        if c == '/' {
            proof {
                assert(split_slash(t1) == split_slash(t0).push(seq![]));
                assert(split_slash(t1).drop_last() =~= split_slash(t0));
                let st0 = split_slash(t0);
                assert(st0.last() == cur@);
                assert(normal_segments(st0) == (if is_normal_segment(cur@) {
                    normal_segments(st0.drop_last()).push(cur@)
                } else {
                    normal_segments(st0.drop_last())
                }));
            }
            if is_normal_piece(&cur) {
                let ghost cv = cur@;
                out.push(cur);
                assert(char_views(out@) =~= before.push(cv));
            }
            cur = Vec::new();
            proof {
                assert(split_slash(t1).last() =~= Seq::<char>::empty());
            }
        } else {
            proof {
                let pre0 = split_slash(t0);
                assert(split_slash(t1) == pre0.update(pre0.len() - 1, pre0.last().push(c)));
                assert(split_slash(t1).drop_last() =~= pre0.drop_last());
            }
            cur.push(c);
        }
        i = i + 1;
    }
    proof {
        assert(v@.take(n as int) =~= v@);
        lemma_split_len(v@);
        let sv = split_slash(v@);
        assert(normal_segments(sv) == (if is_normal_segment(cur@) {
            normal_segments(sv.drop_last()).push(cur@)
        } else {
            normal_segments(sv.drop_last())
        }));
    }
    let ghost before = char_views(out@);
    if is_normal_piece(&cur) {
        let ghost cv = cur@;
        out.push(cur);
        assert(char_views(out@) =~= before.push(cv));
    }
    assert(char_views(out@) =~= path_components(s@));
    out
}

/// Whether `p` lies in `root` (see [`path_within`]).
pub fn is_within(root: &str, p: &str) -> (r: bool)
    ensures
        r == path_within(root@, p@),
{
    let a = components_of(root);
    let b = components_of(p);
    if a.len() > b.len() {
        return false;
    }
    let mut i: usize = 0;
    while i < a.len()
        invariant
            a.len() <= b.len(),
            i <= a.len(),
            char_views(a@) == path_components(root@),
            char_views(b@) == path_components(p@),
            forall|k: int| 0 <= k < i ==> char_views(b@)[k] == char_views(a@)[k],
        decreases a.len() - i,
    {
        assert(char_views(b@)[i as int] == b@[i as int]@);
        assert(char_views(a@)[i as int] == a@[i as int]@);
        if !same_chars(&a[i], &b[i]) {
            assert(char_views(b@)[i as int] == b@[i as int]@);
            assert(char_views(a@)[i as int] == a@[i as int]@);
            assert(char_views(b@).take(a.len() as int)[i as int] != char_views(a@)[i as int]);
            return false;
        }
        i = i + 1;
    }
    assert(char_views(b@).take(a.len() as int) =~= char_views(a@));
    true
}

/// `canonical` when it lies within `shared_dir`: the check made on the
/// result of canonicalizing a candidate path.
pub fn canonicalize_within_root(shared_dir: &str, canonical: Option<String>) -> (r: Option<String>)
    ensures
        opt_view(r) == spec_within_root(shared_dir@, opt_view(canonical)),
{
    match canonical {
        Some(c) => {
            if is_within(shared_dir, c.as_str()) {
                Some(c)
            } else {
                None
            }
        },
        None => None,
    }
}

/// The filesystem queries a request path needs.
pub enum PathProbe {
    /// The request names the shared directory itself.
    Root,
    /// The request path has an empty, `.` or `..` component.
    Rejected,
    /// Look at `candidate`: whether it exists and its canonical form, or,
    /// when it does not exist, the canonical form of `parent`.
    Probe { candidate: String, parent: String },
}

/// Which path a request names and which directory holds it.
pub fn path_probe(shared_dir: &str, url: &str) -> (r: PathProbe)
    ensures
        r is Root <==> normalized_request(url@).len() == 0,
        r is Rejected <==> (normalized_request(url@).len() > 0 && has_bad_component(normalized_request(url@))),
        r matches PathProbe::Probe { candidate, parent } ==> {
            &&& candidate@ == join_path(shared_dir@, normalized_request(url@))
            &&& parent@ == parent_path(candidate@)
        },
{
    match classify_url(url) {
        UrlTarget::Root => PathProbe::Root,
        UrlTarget::Rejected => PathProbe::Rejected,
        UrlTarget::Relative(n) => {
            let candidate = join(shared_dir, n.as_str());
            let parent = parent_of(candidate.as_str());
            PathProbe::Probe { candidate, parent }
        },
    }
}

/// The path that serves `url` out of `shared_dir`, or `None` when the request
/// may not be served. `facts` holds the filesystem's answers for the
/// candidate named by [`path_probe`]; a missing leaf is accepted only when
/// `allow_missing_leaf` holds (uploads), and then only inside an existing
/// directory within the shared one and, for a dangling symbolic link, only
/// when its target would be created within the shared one too.
pub fn safe_path(shared_dir: &str, url: &str, allow_missing_leaf: bool, facts: PathFacts) -> (r: Option<String>)
    ensures
        opt_view(r) == spec_safe_path(
            shared_dir@,
            url@,
            allow_missing_leaf,
            facts.exists,
            facts.leaf_is_symlink,
            opt_view(facts.canonical),
            opt_view(facts.canonical_parent),
            opt_view(facts.link_target_dir),
        ),
{
    match classify_url(url) {
        UrlTarget::Root => Some(String::from_str(shared_dir)),
        UrlTarget::Rejected => None,
        UrlTarget::Relative(n) => {
            if facts.exists {
                canonicalize_within_root(shared_dir, facts.canonical)
            } else if !allow_missing_leaf {
                None
            } else if facts.leaf_is_symlink && canonicalize_within_root(shared_dir, facts.link_target_dir).is_none() {
                None
            } else {
                match canonicalize_within_root(shared_dir, facts.canonical_parent) {
                    Some(_) => Some(join(shared_dir, n.as_str())),
                    None => None,
                }
            }
        },
    }
}


/// Number of characters `trim_trailing_slashes` keeps.
pub open spec fn kept_before_trailing_slashes(s: Seq<char>) -> nat
    decreases s.len(),
{
    if s.len() > 0 && s.last() == '/' {
        kept_before_trailing_slashes(s.drop_last())
    } else {
        s.len()
    }
}

/// Number of leading `/` characters of `s`.
pub open spec fn leading_slash_count(s: Seq<char>) -> nat
    decreases s.len(),
{
    if s.len() > 0 && s[0] == '/' {
        1 + leading_slash_count(s.drop_first())
    } else {
        0
    }
}

proof fn lemma_trailing_shape(s: Seq<char>)
    ensures
        kept_before_trailing_slashes(s) <= s.len(),
        trim_trailing_slashes(s) =~= s.take(kept_before_trailing_slashes(s) as int),
        forall|i: int| kept_before_trailing_slashes(s) <= i < s.len() ==> s[i] == '/',
        kept_before_trailing_slashes(s) == 0 || s[kept_before_trailing_slashes(s) - 1] != '/',
    decreases s.len(),
{
    if s.len() > 0 && s.last() == '/' {
        lemma_trailing_shape(s.drop_last());
        let k = kept_before_trailing_slashes(s) as int;
        assert(s.drop_last().take(k) =~= s.take(k));
        assert forall|i: int| k <= i < s.len() implies s[i] == '/' by {
            if i < s.len() - 1 {
                assert(s.drop_last()[i] == s[i]);
            }
        }
    } else {
        assert(s.take(s.len() as int) =~= s);
    }
}

proof fn lemma_leading_shape(s: Seq<char>)
    ensures
        leading_slash_count(s) <= s.len(),
        trim_leading_slashes(s) =~= s.skip(leading_slash_count(s) as int),
        forall|i: int| 0 <= i < leading_slash_count(s) ==> s[i] == '/',
        leading_slash_count(s) == s.len() || s[leading_slash_count(s) as int] != '/',
    decreases s.len(),
{
    if s.len() > 0 && s[0] == '/' {
        lemma_leading_shape(s.drop_first());
        let k = leading_slash_count(s) as int;
        assert(s.drop_first().skip(k - 1) =~= s.skip(k));
        assert forall|i: int| 0 <= i < k implies s[i] == '/' by {
            if i > 0 {
                assert(s.drop_first()[i - 1] == s[i]);
            }
        }
    } else {
        assert(s.skip(0) =~= s);
    }
}

/// Every path lies within itself.
pub proof fn lemma_within_itself(root: Seq<char>)
    ensures
        path_within(root, root),
{
    let a = path_components(root);
    assert(a.take(a.len() as int) =~= a);
}

/// Splitting at a separator splits the pieces.
proof fn lemma_split_concat(a: Seq<char>, b: Seq<char>)
    ensures
        split_slash(a + seq!['/'] + b) =~= split_slash(a) + split_slash(b),
    decreases b.len(),
{
    let s = a + seq!['/'] + b;
    lemma_split_len(a);
    if b.len() == 0 {
        assert(s.drop_last() =~= a);
        assert(s.last() == '/');
        assert(split_slash(b) =~= seq![Seq::<char>::empty()]);
    } else {
        let b0 = b.drop_last();
        lemma_split_concat(a, b0);
        lemma_split_len(b0);
        assert(s.drop_last() =~= a + seq!['/'] + b0);
        assert(s.last() == b.last());
        let sa = split_slash(a);
        let sb0 = split_slash(b0);
        if b.last() == '/' {
            assert(split_slash(s) == (sa + sb0).push(Seq::<char>::empty()));
            assert(split_slash(b) == sb0.push(Seq::<char>::empty()));
        } else {
            let whole = sa + sb0;
            assert(split_slash(s) == whole.update(whole.len() - 1, whole.last().push(b.last())));
            assert(split_slash(b) == sb0.update(sb0.len() - 1, sb0.last().push(b.last())));
            assert(whole.last() == sb0.last());
        }
    }
}

/// Taking the named pieces commutes with concatenation.
proof fn lemma_normal_concat(x: Seq<Seq<char>>, y: Seq<Seq<char>>)
    ensures
        normal_segments(x + y) =~= normal_segments(x) + normal_segments(y),
    decreases y.len(),
{
    if y.len() == 0 {
        assert(x + y =~= x);
    } else {
        lemma_normal_concat(x, y.drop_last());
        assert((x + y).drop_last() =~= x + y.drop_last());
        assert((x + y).last() == y.last());
    }
}

/// A relative path joined onto `root` lies within `root`: its components
/// are those of `root` followed by those of `rel`.
pub proof fn lemma_join_within(root: Seq<char>, rel: Seq<char>)
    requires
        rel.len() > 0,
    ensures
        path_within(root, join_path(root, rel)),
        root.len() > 0 ==> path_components(join_path(root, rel))
            =~= path_components(root) + normal_segments(split_slash(rel)),
{
    let p = join_path(root, rel);
    let a = path_components(root);
    if root.len() == 0 {
        let e = seq![Seq::<char>::empty()];
        assert(normal_segments(Seq::<Seq<char>>::empty()) =~= Seq::<Seq<char>>::empty());
        assert(split_slash(root) =~= e);
        assert(e.drop_last() =~= Seq::<Seq<char>>::empty());
        assert(!is_normal_segment(e.last()));
        assert(normal_segments(e) =~= Seq::<Seq<char>>::empty());
        assert(a =~= Seq::<Seq<char>>::empty());
        assert(path_components(p).take(0) =~= a);
    } else {
        if root.last() == '/' {
            let r0 = root.drop_last();
            assert(root =~= r0 + seq!['/']);
            assert(p =~= r0 + seq!['/'] + rel);
            lemma_split_concat(r0, rel);
            lemma_split_len(r0);
            assert(split_slash(root) == split_slash(r0).push(Seq::<char>::empty()));
            assert(split_slash(root).drop_last() =~= split_slash(r0));
            assert(normal_segments(split_slash(root)) == normal_segments(split_slash(r0)));
            lemma_normal_concat(split_slash(r0), split_slash(rel));
        } else {
            lemma_split_concat(root, rel);
            lemma_normal_concat(split_slash(root), split_slash(rel));
        }
        assert(p[0] == root[0]);
        if root.len() >= 2 {
            assert(p[1] == root[1]);
        }
        assert(leading_component(p) == leading_component(root));
        let b = path_components(p);
        assert(b =~= a + normal_segments(split_slash(rel)));
        assert(b.take(a.len() as int) =~= a);
    }
}

/// Law: whatever the filesystem answers, a path that `safe_path` hands back
/// lies within the shared directory. A path that does not exist yet is
/// handed back only for uploads, as the shared directory joined with a
/// relative path that has no empty, `.` or `..` component, and, when it is
/// a dangling symbolic link, only when the directory its target would be
/// created in lies within the shared directory.
pub proof fn lemma_safe_path_within_root(
    root: Seq<char>,
    url: Seq<char>,
    allow_missing_leaf: bool,
    found: bool,
    leaf_is_symlink: bool,
    canonical: Option<Seq<char>>,
    canonical_parent: Option<Seq<char>>,
    link_target_dir: Option<Seq<char>>,
)
    ensures
        ({
            let r = spec_safe_path(root, url, allow_missing_leaf, found, leaf_is_symlink, canonical, canonical_parent, link_target_dir);
            r is Some ==> path_within(root, r->0)
        }),
        ({
            let r = spec_safe_path(root, url, allow_missing_leaf, found, leaf_is_symlink, canonical, canonical_parent, link_target_dir);
            let n = normalized_request(url);
            r is Some ==> (r->0 == root || found || (allow_missing_leaf
                && r->0 == join_path(root, n) && !has_bad_component(n)
                && (leaf_is_symlink ==> spec_within_root(root, link_target_dir) is Some)))
        }),
{
    lemma_within_itself(root);
    let n = normalized_request(url);
    if n.len() > 0 {
        lemma_join_within(root, n);
        if !has_bad_component(n) && !found && allow_missing_leaf
            && !(leaf_is_symlink && spec_within_root(root, link_target_dir) is None) {
            if spec_within_root(root, canonical_parent) is Some {
                assert(spec_safe_path(root, url, allow_missing_leaf, found, leaf_is_symlink, canonical, canonical_parent, link_target_dir)
                    == Some(join_path(root, n)));
            }
        }
    }
}

/// Law: a dangling symbolic link whose target would be created outside the
/// shared directory (or whose target directory cannot be resolved) is never
/// handed back, so an upload cannot write through it.
pub proof fn lemma_dangling_symlink_refused(
    root: Seq<char>,
    url: Seq<char>,
    allow_missing_leaf: bool,
    canonical: Option<Seq<char>>,
    canonical_parent: Option<Seq<char>>,
    link_target_dir: Option<Seq<char>>,
)
    requires
        normalized_request(url).len() > 0,
        spec_within_root(root, link_target_dir) is None,
    ensures
        spec_safe_path(root, url, allow_missing_leaf, false, true, canonical, canonical_parent, link_target_dir) is None,
{
}

/// Law: an upload through a dangling symbolic link whose target would be
/// created inside the shared directory is accepted like any other new file.
pub proof fn lemma_inner_dangling_symlink_accepted(
    root: Seq<char>,
    url: Seq<char>,
    canonical: Option<Seq<char>>,
    canonical_parent: Option<Seq<char>>,
    link_target_dir: Option<Seq<char>>,
)
    requires
        normalized_request(url).len() > 0,
        !has_bad_component(normalized_request(url)),
        spec_within_root(root, link_target_dir) is Some,
        spec_within_root(root, canonical_parent) is Some,
    ensures
        spec_safe_path(root, url, true, false, true, canonical, canonical_parent, link_target_dir)
            == Some(join_path(root, normalized_request(url))),
{
}

/// Law: a request URL with a `.` or `..` component is never served, whatever
/// the filesystem answers and whatever the method.
pub proof fn lemma_dot_segments_rejected(
    root: Seq<char>,
    url: Seq<char>,
    a: int,
    b: int,
    allow_missing_leaf: bool,
    found: bool,
    leaf_is_symlink: bool,
    canonical: Option<Seq<char>>,
    canonical_parent: Option<Seq<char>>,
    link_target_dir: Option<Seq<char>>,
)
    requires
        is_component(url, a, b),
        url.subrange(a, b) =~= seq!['.'] || url.subrange(a, b) =~= seq!['.', '.'],
    ensures
        spec_safe_path(root, url, allow_missing_leaf, found, leaf_is_symlink, canonical, canonical_parent, link_target_dir) is None,
{
    lemma_leading_shape(url);
    let s = leading_slash_count(url) as int;
    let rel = trim_leading_slashes(url);
    lemma_trailing_shape(rel);
    let e = kept_before_trailing_slashes(rel) as int;
    let n = normalized_request(url);
    assert(url.subrange(a, b)[0] == url[a]);
    assert(url[a] == '.');
    // the component starts after the leading slashes and ends before the trailing ones
    assert(a >= s) by {
        if a < s {
            assert(url[a] == '/');
        }
    }
    assert(b - s <= e) by {
        if b - s > e {
            assert(rel[b - 1 - s] == url[b - 1]);
            assert(rel[b - 1 - s] == '/');
        }
    }
    assert(n =~= url.subrange(s, s + e));
    assert(is_component(n, a - s, b - s)) by {
        if a - s > 0 {
            assert(n[a - s - 1] == url[a - 1]);
        }
        if b - s < n.len() {
            assert(n[b - s] == url[b]);
        }
        assert forall|k: int| a - s <= k < b - s implies n[k] != '/' by {
            assert(n[k] == url[k + s]);
        }
    }
    assert(n.subrange(a - s, b - s) =~= url.subrange(a, b));
    assert(is_bad_component(n.subrange(a - s, b - s)));
}


/// The request path of `'/' + n` is `n`, when `n` neither starts nor ends
/// with a slash.
proof fn lemma_normalized_simple(n: Seq<char>)
    requires
        n.len() > 0,
        n[0] != '/',
        n.last() != '/',
    ensures
        normalized_request(seq!['/'] + n) == n,
{
    let u = seq!['/'] + n;
    assert(u.drop_first() =~= n);
    assert(trim_leading_slashes(u) == trim_leading_slashes(n));
    assert(trim_leading_slashes(n) == n);
    assert(trim_trailing_slashes(n) == n);
}

/// Law: uploading a new file (one that does not exist and is not a symbolic
/// link) to `/n`, where every component of `n` is a name (not empty, `.` or
/// `..`) and its directory canonicalizes to a path within the shared
/// directory `root`, stores it at `root`, a `/`, then `n`.
pub proof fn lemma_new_upload_accepted(
    root: Seq<char>,
    n: Seq<char>,
    parent_dir: Seq<char>,
    canonical: Option<Seq<char>>,
    link_target_dir: Option<Seq<char>>,
)
    requires
        root.len() > 0,
        root.last() != '/',
        n.len() > 0,
        n[0] != '/',
        n.last() != '/',
        forall|a: int, b: int| is_component(n, a, b) ==> {
            &&& a < b
            &&& !(n.subrange(a, b) =~= seq!['.'])
            &&& !(n.subrange(a, b) =~= seq!['.', '.'])
        },
        path_within(root, parent_dir),
    ensures
        spec_safe_path(root, seq!['/'] + n, true, false, false, canonical, Some(parent_dir), link_target_dir)
            == Some(root + seq!['/'] + n),
{
    lemma_normalized_simple(n);
    assert(!has_bad_component(n)) by {
        if has_bad_component(n) {
            let (a, b) = choose|a: int, b: int| is_component(n, a, b) && is_bad_component(#[trigger] n.subrange(a, b));
            assert(a < b);
            assert(n.subrange(a, b).len() > 0);
        }
    }
}

/// Law: a new file uploaded straight into the shared directory `root` is
/// stored at `root`, a `/`, then its name.
pub proof fn lemma_upload_into_root_accepted(root: Seq<char>, name: Seq<char>, canonical: Option<Seq<char>>)
    requires
        root.len() > 0,
        root.last() != '/',
        name.len() > 0,
        forall|i: int| 0 <= i < name.len() ==> name[i] != '/',
        !(name =~= seq!['.']),
        !(name =~= seq!['.', '.']),
    ensures
        spec_safe_path(root, seq!['/'] + name, true, false, false, canonical, Some(root), None)
            == Some(root + seq!['/'] + name),
{
    lemma_within_itself(root);
    assert forall|a: int, b: int| is_component(name, a, b) implies {
        &&& a < b
        &&& !(name.subrange(a, b) =~= seq!['.'])
        &&& !(name.subrange(a, b) =~= seq!['.', '.'])
    } by {
        if a > 0 {
            assert(name[a - 1] != '/');
        }
        if b < name.len() {
            assert(name[b] != '/');
        }
        assert(a == 0 && b == name.len());
        assert(name.subrange(a, b) =~= name);
    }
    lemma_new_upload_accepted(root, name, root, canonical, None);
}

} // verus!

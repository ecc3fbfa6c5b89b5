//! Directory listings: the entries of a directory, sorted and without
//! duplicates, one per line, with a `/` after each subdirectory.

use vstd::prelude::*;

verus! {

/// One entry of a directory as the filesystem reports it: its name as UTF-8
/// bytes, and whether it is a directory or a regular file (both false when
/// its type could not be read or it is neither).
pub struct ListingEntry {
    pub name: Vec<u8>,
    pub is_dir: bool,
    pub is_file: bool,
}

/// The line that lists an entry: a directory's name followed by `/`, a file's
/// name, and no line for anything else.
pub open spec fn entry_label(e: ListingEntry) -> Option<Seq<u8>> {
    if e.is_dir {
        Some(e.name@.push(47u8))
    } else if e.is_file {
        Some(e.name@)
    } else {
        None
    }
}

/// The labels of the first `n` entries.
pub open spec fn labels_of(entries: Seq<ListingEntry>, n: int) -> Set<Seq<u8>> {
    Set::new(|l: Seq<u8>| exists|i: int| 0 <= i < n && i < entries.len() && #[trigger] entry_label(entries[i]) == Some(l))
}

/// Byte-wise lexicographic order, the order of `str` and `[u8]`.
pub open spec fn lex_lt(a: Seq<u8>, b: Seq<u8>) -> bool
    decreases a.len(),
{
    if b.len() == 0 {
        false
    } else if a.len() == 0 {
        true
    } else if a[0] != b[0] {
        a[0] < b[0]
    } else {
        lex_lt(a.drop_first(), b.drop_first())
    }
}

/// Each element comes strictly before every later one.
pub open spec fn strictly_sorted(s: Seq<Seq<u8>>) -> bool {
    forall|i: int, j: int| 0 <= i < j < s.len() ==> lex_lt(#[trigger] s[i], #[trigger] s[j])
}

/// The byte strings held by a vector of byte vectors.
pub open spec fn views(s: Seq<Vec<u8>>) -> Seq<Seq<u8>> {
    s.map_values(|v: Vec<u8>| v@)
}

/// `lex_lt` is irreflexive.
pub proof fn lemma_lex_irreflexive(a: Seq<u8>)
    ensures
        !lex_lt(a, a),
    decreases a.len(),
{
    if a.len() > 0 {
        lemma_lex_irreflexive(a.drop_first());
    }
}

/// Of two different byte strings, exactly one comes first.
pub proof fn lemma_lex_total(a: Seq<u8>, b: Seq<u8>)
    ensures
        a != b ==> (lex_lt(a, b) || lex_lt(b, a)),
        !(lex_lt(a, b) && lex_lt(b, a)),
    decreases a.len(),
{
    if a.len() > 0 && b.len() > 0 && a[0] == b[0] {
        lemma_lex_total(a.drop_first(), b.drop_first());
        if a != b {
            assert(a.drop_first() != b.drop_first()) by {
                if a.drop_first() =~= b.drop_first() {
                    assert forall|i: int| 0 <= i < a.len() implies a[i] == b[i] by {
                        if i > 0 {
                            assert(a[i] == a.drop_first()[i - 1]);
                            assert(b[i] == b.drop_first()[i - 1]);
                        }
                    }
                    assert(a =~= b);
                }
            }
        }
    } else if a.len() == 0 && b.len() == 0 {
        assert(a =~= b);
    }
}

/// `lex_lt` is transitive.
pub proof fn lemma_lex_transitive(a: Seq<u8>, b: Seq<u8>, c: Seq<u8>)
    requires
        lex_lt(a, b),
        lex_lt(b, c),
    ensures
        lex_lt(a, c),
    decreases a.len(),
{
    if a.len() > 0 && b.len() > 0 && c.len() > 0 && a[0] == b[0] && b[0] == c[0] {
        lemma_lex_transitive(a.drop_first(), b.drop_first(), c.drop_first());
    }
}

/// Two strictly sorted sequences with the same elements are equal: the
/// listing is determined by its set of labels.
pub proof fn lemma_sorted_unique(s: Seq<Seq<u8>>, t: Seq<Seq<u8>>)
    requires
        strictly_sorted(s),
        strictly_sorted(t),
        s.to_set() == t.to_set(),
    ensures
        s == t,
    decreases s.len(),
{
    if s.len() == 0 {
        if t.len() > 0 {
            assert(t.to_set().contains(t[0]));
        }
        assert(s =~= t);
    } else if t.len() == 0 {
        assert(s.to_set().contains(s[0]));
    } else {
        let x = s.last();
        let y = t.last();
        assert(s.to_set().contains(x));
        assert(t.to_set().contains(y));
        let ix = choose|i: int| 0 <= i < t.len() && t[i] == x;
        let iy = choose|i: int| 0 <= i < s.len() && s[i] == y;
        // the largest elements agree
        if x != y {
            lemma_lex_total(x, y);
            if lex_lt(x, y) {
                assert(iy < s.len() - 1);
                lemma_lex_total(s[iy], x);
            } else {
                assert(ix < t.len() - 1);
                lemma_lex_total(t[ix], y);
            }
        }
        let s2 = s.drop_last();
        let t2 = t.drop_last();
        assert forall|z: Seq<u8>| s2.to_set().contains(z) <==> t2.to_set().contains(z) by {
            if s2.to_set().contains(z) {
                let i = choose|i: int| 0 <= i < s2.len() && s2[i] == z;
                assert(s.to_set().contains(z));
                let j = choose|j: int| 0 <= j < t.len() && t[j] == z;
                assert(s[i] == z);
                lemma_lex_irreflexive(z);
                assert(j != t.len() - 1);
                assert(t2[j] == z);
            }
            if t2.to_set().contains(z) {
                let i = choose|i: int| 0 <= i < t2.len() && t2[i] == z;
                assert(t.to_set().contains(z));
                let j = choose|j: int| 0 <= j < s.len() && s[j] == z;
                assert(t[i] == z);
                lemma_lex_irreflexive(z);
                assert(j != s.len() - 1);
                assert(s2[j] == z);
            }
        }
        assert(s2.to_set() =~= t2.to_set());
        lemma_sorted_unique(s2, t2);
        assert(s =~= s2.push(x));
        assert(t =~= t2.push(y));
    }
}

/// The outcome of comparing two byte strings.
pub enum ByteOrder {
    Less,
    Equal,
    Greater,
}

/// Compares two byte strings in lexicographic order.
pub fn compare_bytes(a: &Vec<u8>, b: &Vec<u8>) -> (c: ByteOrder)
    ensures
        c is Less <==> lex_lt(a@, b@),
        c is Equal <==> a@ == b@,
        c is Greater <==> lex_lt(b@, a@),
{
    proof {
        lemma_lex_total(a@, b@);
        lemma_lex_irreflexive(a@);
        assert(a@.skip(0) =~= a@);
        assert(b@.skip(0) =~= b@);
    }
    let mut i: usize = 0;
    loop
        invariant
            i <= a.len(),
            i <= b.len(),
            a@.take(i as int) =~= b@.take(i as int),
            lex_lt(a@, b@) == lex_lt(a@.skip(i as int), b@.skip(i as int)),
            lex_lt(b@, a@) == lex_lt(b@.skip(i as int), a@.skip(i as int)),
            a@ != b@ ==> (lex_lt(a@, b@) || lex_lt(b@, a@)),
            !(lex_lt(a@, b@) && lex_lt(b@, a@)),
            !lex_lt(a@, a@),
        decreases a.len() - i,
    {
        if i == a.len() {
            if i == b.len() {
                assert(a@ =~= a@.take(i as int));
                assert(b@ =~= b@.take(i as int));
                return ByteOrder::Equal;
            }
            return ByteOrder::Less;
        }
        if i == b.len() {
            return ByteOrder::Greater;
        }
        if a[i] < b[i] {
            return ByteOrder::Less;
        }
        if a[i] > b[i] {
            return ByteOrder::Greater;
        }
        assert(a@.skip(i as int).drop_first() =~= a@.skip(i + 1));
        assert(b@.skip(i as int).drop_first() =~= b@.skip(i + 1));
        assert(a@.take(i + 1) =~= a@.take(i as int).push(a@[i as int]));
        assert(b@.take(i + 1) =~= b@.take(i as int).push(b@[i as int]));
        i = i + 1;
    }
}


/// Inserts `x` into a strictly sorted vector unless it is already there.
fn insert_sorted(out: &mut Vec<Vec<u8>>, x: Vec<u8>)
    requires
        strictly_sorted(views(old(out)@)),
    ensures
        strictly_sorted(views(final(out)@)),
        views(final(out)@).to_set() == views(old(out)@).to_set().insert(x@),
{
    let ghost s = views(out@);
    let len = out.len();
    let mut p: usize = 0;
    while p < len && lex_lt_exec(&out[p], &x)
        invariant
            len == out.len(),
            p <= len,
            s == views(out@),
            forall|k: int| 0 <= k < p ==> lex_lt(#[trigger] s[k], x@),
        decreases len - p,
    {
        p = p + 1;
    }
    if p < len {
        let same = match compare_bytes(&out[p], &x) {
            ByteOrder::Equal => true,
            _ => false,
        };
        if same {
            assert(s[p as int] == x@);
            assert(s.to_set().insert(x@) =~= s.to_set());
            return;
        }
    }
    proof {
        if p < len {
            lemma_lex_total(s[p as int], x@);
        }
    }
    let ghost xv = x@;
    out.insert(p, x);
    let ghost t = views(out@);
    assert(t =~= s.insert(p as int, xv));
    assert forall|i: int, j: int| 0 <= i < j < t.len() implies lex_lt(#[trigger] t[i], #[trigger] t[j]) by {
        if j < p {
        } else if j == p {
        } else if i < p {
            assert(t[j] == s[j - 1]);
        } else if i == p {
            assert(t[j] == s[j - 1]);
            if j - 1 > p {
                lemma_lex_transitive(xv, s[p as int], s[j - 1]);
            }
        } else {
            assert(t[i] == s[i - 1]);
            assert(t[j] == s[j - 1]);
        }
    }
    assert forall|z: Seq<u8>| t.to_set().contains(z) <==> s.to_set().insert(xv).contains(z) by {
        if t.to_set().contains(z) {
            let i = choose|i: int| 0 <= i < t.len() && t[i] == z;
            if i < p {
                assert(s[i] == z);
            } else if i > p {
                assert(s[i - 1] == z);
            }
        }
        if s.to_set().contains(z) {
            let i = choose|i: int| 0 <= i < s.len() && s[i] == z;
            if i < p {
                assert(t[i] == z);
            } else {
                assert(t[i + 1] == z);
            }
        }
        if z == xv {
            assert(t[p as int] == z);
        }
    }
    assert(t.to_set() =~= s.to_set().insert(xv));
}

fn lex_lt_exec(a: &Vec<u8>, b: &Vec<u8>) -> (r: bool)
    ensures
        r == lex_lt(a@, b@),
{
    match compare_bytes(a, b) {
        ByteOrder::Less => true,
        _ => false,
    }
}

/// The line that lists one directory entry (see [`entry_label`]).
pub fn listing_label(e: &ListingEntry) -> (r: Option<Vec<u8>>)
    ensures
        match r {
            Some(v) => entry_label(*e) == Some(v@),
            None => entry_label(*e) is None,
        },
{
    if e.is_dir {
        let mut v = e.name.clone();
        v.push(47u8);
        Some(v)
    } else if e.is_file {
        Some(e.name.clone())
    } else {
        None
    }
}

/// The lines of a directory listing: the labels of `entries`, sorted and
/// without duplicates.
pub fn sorted_listing(entries: &Vec<ListingEntry>) -> (r: Vec<Vec<u8>>)
    ensures
        strictly_sorted(views(r@)),
        views(r@).to_set() == labels_of(entries@, entries@.len() as int),
{
    let mut out: Vec<Vec<u8>> = Vec::new();
    let n = entries.len();
    let mut i: usize = 0;
    assert(views(out@).to_set() =~= labels_of(entries@, 0));
    while i < n
        invariant
            n == entries@.len(),
            i <= n,
            strictly_sorted(views(out@)),
            views(out@).to_set() == labels_of(entries@, i as int),
        decreases n - i,
    {
        let ghost before = views(out@).to_set();
        match listing_label(&entries[i]) {
            Some(l) => {
                let ghost lv = l@;
                insert_sorted(&mut out, l);
                assert(views(out@).to_set() =~= labels_of(entries@, i + 1)) by {
                    assert forall|z: Seq<u8>| labels_of(entries@, i + 1).contains(z) implies before.insert(lv).contains(z) by {
                        let k = choose|k: int| 0 <= k < i + 1 && k < entries@.len() && #[trigger] entry_label(entries@[k]) == Some(z);
                        if k < i {
                            assert(labels_of(entries@, i as int).contains(z));
                        }
                    }
                    assert forall|z: Seq<u8>| before.insert(lv).contains(z) implies labels_of(entries@, i + 1).contains(z) by {
                        if z == lv {
                            assert(entry_label(entries@[i as int]) == Some(z));
                        } else {
                            let k = choose|k: int| 0 <= k < i && k < entries@.len() && #[trigger] entry_label(entries@[k]) == Some(z);
                            assert(entry_label(entries@[k]) == Some(z));
                        }
                    }
                }
            },
            None => {
                assert(views(out@).to_set() =~= labels_of(entries@, i + 1)) by {
                    assert forall|z: Seq<u8>| labels_of(entries@, i + 1).contains(z) implies before.contains(z) by {
                        let k = choose|k: int| 0 <= k < i + 1 && k < entries@.len() && #[trigger] entry_label(entries@[k]) == Some(z);
                        if k < i {
                            assert(labels_of(entries@, i as int).contains(z));
                        }
                    }
                    assert forall|z: Seq<u8>| before.contains(z) implies labels_of(entries@, i + 1).contains(z) by {
                        let k = choose|k: int| 0 <= k < i && k < entries@.len() && #[trigger] entry_label(entries@[k]) == Some(z);
                        assert(entry_label(entries@[k]) == Some(z));
                    }
                }
            },
        }
        i = i + 1;
    }
    out
}

/// Each line followed by a newline.
pub open spec fn lines(s: Seq<Seq<u8>>) -> Seq<u8>
    decreases s.len(),
{
    if s.len() == 0 {
        seq![]
    } else {
        lines(s.drop_last()) + s.last() + seq![10u8]
    }
}

/// The body of a listing: the lines joined by newlines, plus a final
/// newline (a single newline for an empty directory).
pub open spec fn listing_text(s: Seq<Seq<u8>>) -> Seq<u8> {
    if s.len() == 0 {
        seq![10u8]
    } else {
        lines(s)
    }
}

/// The response body for a listing.
pub fn render_listing(labels: &Vec<Vec<u8>>) -> (body: Vec<u8>)
    ensures
        body@ == listing_text(views(labels@)),
{
    let mut body: Vec<u8> = Vec::new();
    if labels.len() == 0 {
        body.push(10u8);
        assert(body@ =~= seq![10u8]);
        return body;
    }
    let n = labels.len();
    let mut i: usize = 0;
    while i < n
        invariant
            n == labels@.len(),
            i <= n,
            body@ == lines(views(labels@).take(i as int)),
        decreases n - i,
    {
        body.extend_from_slice(labels[i].as_slice());
        body.push(10u8);
        assert(views(labels@).take(i + 1).drop_last() =~= views(labels@).take(i as int));
        i = i + 1;
    }
    assert(views(labels@).take(n as int) =~= views(labels@));
    body
}

/// Law: a listing has no line twice, and a line comes before every line
/// after it.
pub proof fn lemma_listing_lines_distinct(entries: Seq<ListingEntry>, s: Seq<Seq<u8>>)
    requires
        strictly_sorted(s),
        s.to_set() == labels_of(entries, entries.len() as int),
    ensures
        forall|i: int, j: int| 0 <= i < j < s.len() ==> s[i] != s[j],
{
    assert forall|i: int, j: int| 0 <= i < j < s.len() implies s[i] != s[j] by {
        lemma_lex_irreflexive(s[i]);
        assert(lex_lt(s[i], s[j]));
    }
}


/// Law: the listing depends only on which labels the entries give, not on
/// the order in which the directory was read nor on repeated entries.
pub proof fn lemma_listing_order_independent(
    a: Seq<ListingEntry>,
    b: Seq<ListingEntry>,
    sa: Seq<Seq<u8>>,
    sb: Seq<Seq<u8>>,
)
    requires
        labels_of(a, a.len() as int) == labels_of(b, b.len() as int),
        strictly_sorted(sa),
        sa.to_set() == labels_of(a, a.len() as int),
        strictly_sorted(sb),
        sb.to_set() == labels_of(b, b.len() as int),
    ensures
        sa == sb,
        listing_text(sa) == listing_text(sb),
{
    lemma_sorted_unique(sa, sb);
}


/// Law: a listing shows every directory entry, whatever its name: a
/// directory as its name followed by `/`, a regular file as its name; and
/// it shows nothing else.
pub proof fn lemma_listing_shows_every_entry(entries: Seq<ListingEntry>, s: Seq<Seq<u8>>)
    requires
        s.to_set() == labels_of(entries, entries.len() as int),
    ensures
        forall|i: int| 0 <= i < entries.len() && entries[i].is_dir ==> s.contains(#[trigger] entries[i].name@.push(47u8)),
        forall|i: int| 0 <= i < entries.len() && !entries[i].is_dir && entries[i].is_file
            ==> s.contains(#[trigger] entries[i].name@),
        forall|l: Seq<u8>| s.contains(l) ==> exists|i: int| 0 <= i < entries.len() && {
            ||| (entries[i].is_dir && l == (#[trigger] entries[i]).name@.push(47u8))
            ||| (!entries[i].is_dir && entries[i].is_file && l == entries[i].name@)
        },
{
    assert forall|i: int| 0 <= i < entries.len() && entries[i].is_dir implies s.contains(#[trigger] entries[i].name@.push(47u8)) by {
        assert(entry_label(entries[i]) == Some(entries[i].name@.push(47u8)));
        assert(labels_of(entries, entries.len() as int).contains(entries[i].name@.push(47u8)));
        assert(s.to_set().contains(entries[i].name@.push(47u8)));
    }
    assert forall|i: int| 0 <= i < entries.len() && !entries[i].is_dir && entries[i].is_file
        implies s.contains(#[trigger] entries[i].name@) by {
        assert(entry_label(entries[i]) == Some(entries[i].name@));
        assert(labels_of(entries, entries.len() as int).contains(entries[i].name@));
        assert(s.to_set().contains(entries[i].name@));
    }
    assert forall|l: Seq<u8>| s.contains(l) implies exists|i: int| 0 <= i < entries.len() && {
        ||| (entries[i].is_dir && l == (#[trigger] entries[i]).name@.push(47u8))
        ||| (!entries[i].is_dir && entries[i].is_file && l == entries[i].name@)
    } by {
        assert(s.to_set().contains(l));
        let i = choose|i: int| 0 <= i < entries.len() && i < entries.len() && #[trigger] entry_label(entries[i]) == Some(l);
        assert(entry_label(entries[i]) == Some(l));
    }
}

} // verus!

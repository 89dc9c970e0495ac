//! Path and text helpers shared by the rest of the library.

use vstd::prelude::*;

verus! {

/// The characters of `s`, as a vector.
pub fn chars_of(s: &str) -> (r: Vec<char>)
    ensures
        r@ == s@,
{
    let mut out: Vec<char> = Vec::new();
    for c in it: s.chars()
        invariant
            it.seq() == s@,
            out@ == it.seq().take(it.index() as int),
    {
        out.push(c);
    }
    out
}

/// Relies on `String::push`: appends one character.
#[verifier::external_body]
pub(crate) fn push_char(s: &mut String, c: char)
    ensures
        final(s)@ == old(s)@.push(c),
{
    s.push(c)
}

/// The string made of the characters of `v` from index `from` up to `to`.
pub fn string_of_range(v: &Vec<char>, from: usize, to: usize) -> (r: String)
    requires
        from <= to <= v.len(),
    ensures
        r@ == v@.subrange(from as int, to as int),
{
    let mut out = String::new();
    let mut i: usize = from;
    while i < to
        invariant
            from <= i <= to <= v.len(),
            out@ == v@.subrange(from as int, i as int),
        decreases to - i,
    {
        push_char(&mut out, v[i]);
        i = i + 1;
        assert(v@.subrange(from as int, i as int) == v@.subrange(from as int, i - 1 as int).push(
            v@[i - 1 as int],
        ));
    }
    out
}

/// The string made of the characters of `v`.
pub fn string_of(v: &Vec<char>) -> (r: String)
    ensures
        r@ == v@,
{
    let r = string_of_range(v, 0, v.len());
    assert(v@.subrange(0, v.len() as int) == v@);
    r
}

/// Whether `s` holds exactly the characters of `lit`.
pub(crate) fn is_text(s: &String, lit: &str) -> (r: bool)
    ensures
        r == (s@ == lit@),
{
    *s == lit.to_string()
}

/// Whether the text `s` starts with `p`.
pub open spec fn starts_with(s: Seq<char>, p: Seq<char>) -> bool {
    p.len() <= s.len() && s.take(p.len() as int) == p
}

/// The index of the first occurrence of `needle` in `hay`.
pub open spec fn find(hay: Seq<char>, needle: Seq<char>) -> Option<nat>
    decreases hay.len(),
{
    if starts_with(hay, needle) {
        Some(0)
    } else if hay.len() == 0 {
        None
    } else {
        match find(hay.drop_first(), needle) {
            Some(k) => Some(k + 1),
            None => None,
        }
    }
}

/// Whether the text `s` ends with `p`.
pub open spec fn ends_with(s: Seq<char>, p: Seq<char>) -> bool {
    p.len() <= s.len() && s.skip(s.len() - p.len()) == p
}

/// Text shorter than `needle` does not hold it.
pub proof fn lemma_find_short(hay: Seq<char>, needle: Seq<char>)
    requires
        hay.len() < needle.len(),
    ensures
        find(hay, needle) is None,
    decreases hay.len(),
{
    if hay.len() > 0 {
        lemma_find_short(hay.drop_first(), needle);
    }
}

/// Whether `v` holds `p` from index `at` on.
fn matches_at(v: &Vec<char>, at: usize, p: &Vec<char>) -> (r: bool)
    requires
        at + p.len() <= v.len(),
    ensures
        r == (v@.subrange(at as int, at + p.len()) == p@),
{
    let mut i: usize = 0;
    while i < p.len()
        invariant
            i <= p.len(),
            at + p.len() <= v.len(),
            v@.subrange(at as int, at + i) == p@.take(i as int),
        decreases p.len() - i,
    {
        if v[at + i] != p[i] {
            assert(v@.subrange(at as int, at + p.len())[i as int] != p@[i as int]);
            return false;
        }
        i = i + 1;
        assert(v@.subrange(at as int, at + i) == v@.subrange(at as int, at + i - 1).push(
            v@[at + i - 1],
        ));
        assert(p@.take(i as int) == p@.take(i - 1 as int).push(p@[i - 1 as int]));
    }
    assert(p@.take(p.len() as int) == p@);
    true
}

/// The index in `v` of the first occurrence of `needle` between `from` and `to`.
pub fn find_in(v: &Vec<char>, from: usize, to: usize, needle: &Vec<char>) -> (r: Option<usize>)
    requires
        from <= to <= v.len(),
    ensures
        r is None <==> find(v@.subrange(from as int, to as int), needle@) is None,
        r matches Some(i) ==> from <= i && find(v@.subrange(from as int, to as int), needle@)
            == Some((i - from) as nat),
        r matches Some(i) ==> i + needle.len() <= to && v@.subrange(
            i as int,
            i + needle.len(),
        ) == needle@,
{
    let ghost hay = v@.subrange(from as int, to as int);
    let mut k: usize = from;
    assert(hay.skip(0) == hay);
    while k <= to && needle.len() <= to - k
        invariant
            from <= k,
            to <= v.len(),
            hay == v@.subrange(from as int, to as int),
            k <= to ==> find(hay, needle@) == match find(hay.skip(k - from), needle@) {
                Some(j) => Some((j + k - from) as nat),
                None => None::<nat>,
            },
            k > to ==> find(hay, needle@) is None,
        decreases to + 1 - k,
    {
        let ghost rest = hay.skip(k - from);
        assert(rest.take(needle.len() as int) =~= v@.subrange(k as int, k + needle.len()));
        if matches_at(v, k, needle) {
            return Some(k);
        }
        assert(rest.len() > 0) by {
            if rest.len() == 0 {
                assert(needle@.len() == 0);
                assert(v@.subrange(k as int, k + needle.len()) =~= needle@);
            }
        }
        assert(rest.drop_first() =~= hay.skip(k + 1 - from));
        k = k + 1;
    }
    if k <= to {
        proof {
            lemma_find_short(hay.skip(k - from), needle@);
        }
    }
    None
}

/// The views of a sequence of strings.
pub open spec fn views(v: Seq<String>) -> Seq<Seq<char>> {
    v.map_values(|s: String| s@)
}

/// The view of an optional string.
pub open spec fn opt_view(o: Option<String>) -> Option<Seq<char>> {
    match o {
        Some(s) => Some(s@),
        None => None,
    }
}

/// What `Path::join` gives for `base` joined with `rest`, as text.
pub uninterp spec fn joined_path(base: Seq<char>, rest: Seq<char>) -> Seq<char>;

/// What `Path::parent` gives for `p`, as text.
pub uninterp spec fn parent_of(p: Seq<char>) -> Option<Seq<char>>;

/// What `Path::strip_prefix` gives for `p` without the leading `base`, as text.
pub uninterp spec fn stripped_path(p: Seq<char>, base: Seq<char>) -> Option<Seq<char>>;

/// What `Path::extension` gives for `p`, as text.
pub uninterp spec fn extension_of(p: Seq<char>) -> Option<Seq<char>>;

/// Relies on `std::path::Path::join`: `rest` appended to `base` with a separator,
/// or `rest` alone where it is absolute. Both inputs are UTF-8, so the lossy
/// conversion back to text loses nothing.
#[verifier::external_body]
pub(crate) fn join_path(base: &str, rest: &str) -> (r: String)
    ensures
        r@ == joined_path(base@, rest@),
{
    std::path::Path::new(base).join(rest).to_string_lossy().into_owned()
}

/// Relies on `std::path::Path::parent`: the path without its final component,
/// if it has one.
#[verifier::external_body]
pub(crate) fn parent_path(p: &str) -> (r: Option<String>)
    ensures
        opt_view(r) == parent_of(p@),
{
    std::path::Path::new(p).parent().map(|q| q.to_string_lossy().into_owned())
}

/// Relies on `std::path::Path::strip_prefix`: the rest of `p` after the
/// components of `base`, or nothing where `base` is not a prefix of `p`.
#[verifier::external_body]
pub(crate) fn strip_path(p: &str, base: &str) -> (r: Option<String>)
    ensures
        opt_view(r) == stripped_path(p@, base@),
{
    match std::path::Path::new(p).strip_prefix(base) {
        Ok(q) => Some(q.to_string_lossy().into_owned()),
        Err(_) => None,
    }
}

/// Relies on `std::path::Path::extension`: the extension of the file name, if any.
#[verifier::external_body]
pub(crate) fn path_extension(p: &str) -> (r: Option<String>)
    ensures
        opt_view(r) == extension_of(p@),
{
    std::path::Path::new(p).extension().map(|e| e.to_string_lossy().into_owned())
}

/// `p` followed by each of its ancestors, closest first, as `Path::parent` gives
/// them (each strictly shorter than the one before).
pub open spec fn ancestors(p: Seq<char>) -> Seq<Seq<char>>
    decreases p.len(),
{
    seq![p] + match parent_of(p) {
        Some(q) => if q.len() < p.len() {
            ancestors(q)
        } else {
            Seq::empty()
        },
        None => Seq::empty(),
    }
}

/// Traverses all directories upwards from `base_dir`: the directory itself,
/// then its parent, its parent's parent, and so on up to the root.
pub fn traverse_upwards(base_dir: &str) -> (r: Vec<String>)
    ensures
        views(r@) == ancestors(base_dir@),
{
    let mut out: Vec<String> = Vec::new();
    let mut current = base_dir.to_string();
    let mut done = false;
    while !done
        invariant
            !done ==> views(out@) + ancestors(current@) == ancestors(base_dir@),
            done ==> views(out@) == ancestors(base_dir@),
        decreases current@.len() + if done { 0int } else { 1int },
    {
        let parent = parent_path(current.as_str());
        let here = current.clone();
        proof {
            assert(views(out@.push(here)) == views(out@).push(here@));
        }
        out.push(here);
        match parent {
            Some(q) => {
                if q.as_str().unicode_len() < current.as_str().unicode_len() {
                    assert(views(out@) + ancestors(q@) == ancestors(base_dir@));
                    current = q;
                } else {
                    assert(views(out@) == ancestors(base_dir@));
                    done = true;
                }
            },
            None => {
                assert(views(out@) == ancestors(base_dir@));
                done = true;
            },
        }
    }
    out
}

} // verus!

//! The gathered inputs of a run, and how they are assembled and checked.

use sha2::Digest;
use vstd::prelude::*;

use crate::config::{Config, Dir, FILE_NAME};
use crate::config::Link as Declared;
use crate::error::{error_views, Error, ErrorView};
use crate::output_path::OutputPath;
use crate::stdx::{join_path, joined_path};

verus! {

/// Everything a run reads: the manifest's directory, the fetched links and
/// the files of the declared directories.
#[derive(Debug)]
pub struct World {
    /// Path which contains the manifest
    pub root: String,
    /// Fetched links
    pub links: Vec<Link>,
    /// Files to place
    pub files: Vec<File>,
}

/// A link whose file has been fetched.
#[derive(Debug)]
pub struct Link {
    /// URL of the file
    pub url: String,
    /// What the URL held
    pub contents: String,
    /// Where to write the file, relative to the manifest's directory
    pub path: String,
    /// Expected SHA-256 digest of the file, as lowercase hex
    pub sha256: Option<String>,
    /// Arguments of a marker to write on the file's first line, as they are
    pub marker: Option<String>,
}

/// A file found in an input directory, to be written to its place under the
/// directory's output.
#[derive(Debug)]
pub struct File {
    /// Where the file was read from
    pub old_location: String,
    /// Contents of the file
    pub contents: String,
    /// Output directory of the input directory it belongs to
    pub output: OutputPath,
    /// Input directory it belongs to, relative to the manifest's directory
    pub input: String,
}

/// One entry met while walking an input directory.
#[derive(Debug)]
pub enum Visit {
    /// A regular file, and what it holds
    File { location: String, contents: String },
    /// An entry that the walk could not pass
    WalkFailed { message: String },
    /// A regular file that could not be read
    ReadFailed { location: String, message: String },
}

/// What a [`Link`] holds, as text.
pub ghost struct LinkView {
    pub url: Seq<char>,
    pub contents: Seq<char>,
    pub path: Seq<char>,
    pub sha256: Option<Seq<char>>,
    pub marker: Option<Seq<char>>,
}

/// What a [`File`] holds, as text.
pub ghost struct FileView {
    pub old_location: Seq<char>,
    pub contents: Seq<char>,
    pub output: Seq<char>,
    pub input: Seq<char>,
}

impl View for Link {
    type V = LinkView;

    open spec fn view(&self) -> LinkView {
        LinkView {
            url: self.url@,
            contents: self.contents@,
            path: self.path@,
            sha256: crate::stdx::opt_view(self.sha256),
            marker: crate::stdx::opt_view(self.marker),
        }
    }
}

impl View for File {
    type V = FileView;

    open spec fn view(&self) -> FileView {
        FileView {
            old_location: self.old_location@,
            contents: self.contents@,
            output: self.output@,
            input: self.input@,
        }
    }
}

/// The SHA-256 digest of the UTF-8 encoding of `s`, as lowercase hex.
pub uninterp spec fn sha256_hex(s: Seq<char>) -> Seq<char>;

/// Whether `c` is a lowercase hexadecimal digit.
pub open spec fn is_lower_hex(c: char) -> bool {
    ('0' <= c && c <= '9') || ('a' <= c && c <= 'f')
}

/// Relies on `sha2::Sha256::digest` over the bytes of `s`, printed with `{:x}`
/// (generic-array's `LowerHex`): the 32 bytes of the digest as 64 lowercase
/// hex digits.
#[verifier::external_body]
fn digest_hex(s: &str) -> (r: String)
    ensures
        r@ == sha256_hex(s@),
        r@.len() == 64,
        forall|i: int| 0 <= i < r@.len() ==> is_lower_hex(#[trigger] r@[i]),
{
    format!("{:x}", sha2::Sha256::digest(s.as_bytes()))
}

/// The failure of a link declared as `d` whose fetch gave `fetched`, if any:
/// the fetch failed, or the file's digest is not the expected one.
pub open spec fn link_error(d: Declared, fetched: Result<String, String>) -> Option<ErrorView> {
    match fetched {
        Err(m) => Some(ErrorView::Fetch { url: d.url@, message: m@ }),
        Ok(body) => digest_error(d.url@, crate::stdx::opt_view(d.sha256), sha256_hex(body@)),
    }
}

/// The hash-mismatch failure for `url` where `expected` is given and the
/// actual digest differs from it.
pub open spec fn digest_error(url: Seq<char>, expected: Option<Seq<char>>, actual: Seq<char>) -> Option<
    ErrorView,
> {
    match expected {
        Some(e) => if e == actual {
            None
        } else {
            Some(ErrorView::HashMismatch { url, expected: e, actual })
        },
        None => None,
    }
}

/// The sequence holding `o`'s value, or empty.
pub open spec fn opt_seq<T>(o: Option<T>) -> Seq<T> {
    match o {
        Some(x) => seq![x],
        None => Seq::empty(),
    }
}

/// The failures of the first `n` links.
pub open spec fn link_errors(ds: Seq<Declared>, fs: Seq<Result<String, String>>, n: int) -> Seq<
    ErrorView,
>
    decreases n,
{
    if n <= 0 {
        Seq::empty()
    } else {
        link_errors(ds, fs, n - 1) + opt_seq(link_error(ds[n - 1], fs[n - 1]))
    }
}

/// The link declared as `d`, with the fetched body `body`.
pub open spec fn fetched_link(d: Declared, body: Seq<char>) -> LinkView {
    LinkView {
        url: d.url@,
        contents: body,
        path: d.path@,
        sha256: crate::stdx::opt_view(d.sha256),
        marker: crate::stdx::opt_view(d.marker),
    }
}

/// The first `n` links that were fetched and passed their digest check.
pub open spec fn fetched_links(ds: Seq<Declared>, fs: Seq<Result<String, String>>, n: int) -> Seq<
    LinkView,
>
    decreases n,
{
    if n <= 0 {
        Seq::empty()
    } else {
        fetched_links(ds, fs, n - 1) + match fs[n - 1] {
            Ok(b) => if link_error(ds[n - 1], fs[n - 1]) is None {
                seq![fetched_link(ds[n - 1], b@)]
            } else {
                Seq::empty()
            },
            Err(_) => Seq::empty(),
        }
    }
}

/// The failure that the visit `v` stands for, if any.
pub open spec fn visit_error(v: Visit) -> Option<ErrorView> {
    match v {
        Visit::File { .. } => None,
        Visit::WalkFailed { message } => Some(ErrorView::Walk { message: message@ }),
        Visit::ReadFailed { location, message } => Some(
            ErrorView::Read { path: location@, message: message@ },
        ),
    }
}

/// The file that the visit `v` of a walk of `d` found, if any.
pub open spec fn visit_file(d: Dir, v: Visit) -> Option<FileView> {
    match v {
        Visit::File { location, contents } => Some(
            FileView {
                old_location: location@,
                contents: contents@,
                output: d.output@,
                input: d.input@,
            },
        ),
        _ => None,
    }
}

/// The failures among the first `n` visits.
pub open spec fn visit_errors(vs: Seq<Visit>, n: int) -> Seq<ErrorView>
    decreases n,
{
    if n <= 0 {
        Seq::empty()
    } else {
        visit_errors(vs, n - 1) + opt_seq(visit_error(vs[n - 1]))
    }
}

/// The files among the first `n` visits of a walk of `d`.
pub open spec fn visit_files(d: Dir, vs: Seq<Visit>, n: int) -> Seq<FileView>
    decreases n,
{
    if n <= 0 {
        Seq::empty()
    } else {
        visit_files(d, vs, n - 1) + opt_seq(visit_file(d, vs[n - 1]))
    }
}

/// The failures of the walks of the first `n` directories.
pub open spec fn walk_errors(walked: Seq<Vec<Visit>>, n: int) -> Seq<ErrorView>
    decreases n,
{
    if n <= 0 {
        Seq::empty()
    } else {
        walk_errors(walked, n - 1) + visit_errors(walked[n - 1]@, walked[n - 1]@.len() as int)
    }
}

/// The files found by the walks of the first `n` directories.
pub open spec fn walk_files(ds: Seq<Dir>, walked: Seq<Vec<Visit>>, n: int) -> Seq<FileView>
    decreases n,
{
    if n <= 0 {
        Seq::empty()
    } else {
        walk_files(ds, walked, n - 1) + visit_files(
            ds[n - 1],
            walked[n - 1]@,
            walked[n - 1]@.len() as int,
        )
    }
}

/// Every failure of a gathering: those of the links, in order, then those of
/// the walks.
pub open spec fn gather_errors(
    c: Config,
    fetched: Seq<Result<String, String>>,
    walked: Seq<Vec<Visit>>,
) -> Seq<ErrorView> {
    link_errors(c.links@, fetched, c.links@.len() as int) + walk_errors(
        walked,
        walked.len() as int,
    )
}

/// Each failure of the first `n` links is among their failures.
proof fn lemma_link_errors_hold(ds: Seq<Declared>, fs: Seq<Result<String, String>>, n: int, j: int)
    requires
        0 <= j < n <= ds.len(),
        n <= fs.len(),
        link_error(ds[j], fs[j]) is Some,
    ensures
        link_errors(ds, fs, n).contains(link_error(ds[j], fs[j])->0),
    decreases n,
{
    let prev = link_errors(ds, fs, n - 1);
    let last = opt_seq(link_error(ds[n - 1], fs[n - 1]));
    if j < n - 1 {
        lemma_link_errors_hold(ds, fs, n - 1, j);
        let k = choose|k: int| 0 <= k < prev.len() && prev[k] == link_error(ds[j], fs[j])->0;
        assert((prev + last)[k] == prev[k]);
    } else {
        assert((prev + last)[prev.len() as int] == last[0]);
    }
}

/// Each failure of the first `n` visits is among their failures.
proof fn lemma_visit_errors_hold(vs: Seq<Visit>, n: int, k: int)
    requires
        0 <= k < n <= vs.len(),
        visit_error(vs[k]) is Some,
    ensures
        visit_errors(vs, n).contains(visit_error(vs[k])->0),
    decreases n,
{
    let prev = visit_errors(vs, n - 1);
    let last = opt_seq(visit_error(vs[n - 1]));
    if k < n - 1 {
        lemma_visit_errors_hold(vs, n - 1, k);
        let i = choose|i: int| 0 <= i < prev.len() && prev[i] == visit_error(vs[k])->0;
        assert((prev + last)[i] == prev[i]);
    } else {
        assert((prev + last)[prev.len() as int] == last[0]);
    }
}

/// Each failure met in the walks of the first `n` directories is among
/// their failures.
proof fn lemma_walk_errors_hold(walked: Seq<Vec<Visit>>, n: int, j: int, k: int)
    requires
        0 <= j < n <= walked.len(),
        0 <= k < walked[j]@.len(),
        visit_error(walked[j]@[k]) is Some,
    ensures
        walk_errors(walked, n).contains(visit_error(walked[j]@[k])->0),
    decreases n,
{
    let prev = walk_errors(walked, n - 1);
    let last = visit_errors(walked[n - 1]@, walked[n - 1]@.len() as int);
    let ev = visit_error(walked[j]@[k])->0;
    if j < n - 1 {
        lemma_walk_errors_hold(walked, n - 1, j, k);
        let i = choose|i: int| 0 <= i < prev.len() && prev[i] == ev;
        assert((prev + last)[i] == prev[i]);
    } else {
        lemma_visit_errors_hold(walked[j]@, walked[j]@.len() as int, k);
        let i = choose|i: int| 0 <= i < last.len() && last[i] == ev;
        assert((prev + last)[prev.len() + i] == last[i]);
    }
}

/// The number of the first `n` links that fail.
pub open spec fn failing_links(ds: Seq<Declared>, fs: Seq<Result<String, String>>, n: int) -> nat
    decreases n,
{
    if n <= 0 {
        0
    } else {
        failing_links(ds, fs, n - 1) + if link_error(ds[n - 1], fs[n - 1]) is Some {
            1nat
        } else {
            0nat
        }
    }
}

/// The number of the first `n` visits that fail.
pub open spec fn failing_visits(vs: Seq<Visit>, n: int) -> nat
    decreases n,
{
    if n <= 0 {
        0
    } else {
        failing_visits(vs, n - 1) + if visit_error(vs[n - 1]) is Some {
            1nat
        } else {
            0nat
        }
    }
}

/// The number of the visits of the walks of the first `n` directories that
/// fail.
pub open spec fn failing_walks(walked: Seq<Vec<Visit>>, n: int) -> nat
    decreases n,
{
    if n <= 0 {
        0
    } else {
        failing_walks(walked, n - 1) + failing_visits(walked[n - 1]@, walked[n - 1]@.len() as int)
    }
}

/// One failure per failing link.
proof fn lemma_link_errors_count(ds: Seq<Declared>, fs: Seq<Result<String, String>>, n: int)
    ensures
        link_errors(ds, fs, n).len() == failing_links(ds, fs, n),
    decreases n,
{
    if n > 0 {
        lemma_link_errors_count(ds, fs, n - 1);
    }
}

/// One failure per failing visit.
proof fn lemma_visit_errors_count(vs: Seq<Visit>, n: int)
    ensures
        visit_errors(vs, n).len() == failing_visits(vs, n),
    decreases n,
{
    if n > 0 {
        lemma_visit_errors_count(vs, n - 1);
    }
}

/// One failure per failing visit of any walk.
proof fn lemma_walk_errors_count(walked: Seq<Vec<Visit>>, n: int)
    ensures
        walk_errors(walked, n).len() == failing_walks(walked, n),
    decreases n,
{
    if n > 0 {
        lemma_walk_errors_count(walked, n - 1);
        lemma_visit_errors_count(walked[n - 1]@, walked[n - 1]@.len() as int);
    }
}

/// A fetched link that passes its checks is among the fetched links.
proof fn lemma_fetched_link_kept(ds: Seq<Declared>, fs: Seq<Result<String, String>>, n: int, i: int)
    requires
        0 <= i < n <= ds.len(),
        n <= fs.len(),
        fs[i] is Ok,
        link_error(ds[i], fs[i]) is None,
    ensures
        fetched_links(ds, fs, n).contains(fetched_link(ds[i], fs[i]->Ok_0@)),
    decreases n,
{
    let prev = fetched_links(ds, fs, n - 1);
    let x = fetched_link(ds[i], fs[i]->Ok_0@);
    if i < n - 1 {
        lemma_fetched_link_kept(ds, fs, n - 1, i);
        let k = choose|k: int| 0 <= k < prev.len() && prev[k] == x;
        assert(fetched_links(ds, fs, n)[k] == prev[k]);
    } else {
        assert(fetched_links(ds, fs, n)[prev.len() as int] == x);
    }
}

/// Hash verification: a fetched link whose expected digest is the digest of
/// what was fetched passes; with any other expected value it fails with a
/// mismatch that names the URL, the expected and the actual digest. A link
/// that passes is among the links of the world. However each link fares,
/// every failing link and every failure of a walk is reported, with exactly
/// one failure for each.
pub proof fn lemma_hash_verification(
    c: Config,
    fetched: Seq<Result<String, String>>,
    walked: Seq<Vec<Visit>>,
    i: int,
)
    requires
        fetched.len() == c.links.len(),
        0 <= i < c.links.len(),
        fetched[i] is Ok,
        c.links@[i].sha256 is Some,
    ensures
        c.links@[i].sha256->0@ == sha256_hex(fetched[i]->Ok_0@) ==> link_error(
            c.links@[i],
            fetched[i],
        ) is None && fetched_links(c.links@, fetched, fetched.len() as int).contains(
            fetched_link(c.links@[i], fetched[i]->Ok_0@),
        ),
        gather_errors(c, fetched, walked).len() == failing_links(
            c.links@,
            fetched,
            c.links@.len() as int,
        ) + failing_walks(walked, walked.len() as int),
        c.links@[i].sha256->0@ != sha256_hex(fetched[i]->Ok_0@) ==> link_error(
            c.links@[i],
            fetched[i],
        ) == Some(
            ErrorView::HashMismatch {
                url: c.links@[i].url@,
                expected: c.links@[i].sha256->0@,
                actual: sha256_hex(fetched[i]->Ok_0@),
            },
        ),
        forall|j: int|
            0 <= j < c.links.len() && #[trigger] link_error(c.links@[j], fetched[j]) is Some
                ==> gather_errors(c, fetched, walked).contains(link_error(c.links@[j], fetched[j])->0),
        forall|j: int, k: int|
            0 <= j < walked.len() && 0 <= k < walked[j]@.len() && #[trigger] visit_error(
                walked[j]@[k],
            ) is Some ==> gather_errors(c, fetched, walked).contains(visit_error(walked[j]@[k])->0),
{
    let le = link_errors(c.links@, fetched, c.links@.len() as int);
    let we = walk_errors(walked, walked.len() as int);
    lemma_link_errors_count(c.links@, fetched, c.links@.len() as int);
    lemma_walk_errors_count(walked, walked.len() as int);
    if c.links@[i].sha256->0@ == sha256_hex(fetched[i]->Ok_0@) {
        lemma_fetched_link_kept(c.links@, fetched, fetched.len() as int, i);
    }
    assert forall|j: int|
        0 <= j < c.links.len() && #[trigger] link_error(c.links@[j], fetched[j]) is Some implies gather_errors(
        c,
        fetched,
        walked,
    ).contains(link_error(c.links@[j], fetched[j])->0) by {
        lemma_link_errors_hold(c.links@, fetched, c.links@.len() as int, j);
        let x = choose|x: int| 0 <= x < le.len() && le[x] == link_error(c.links@[j], fetched[j])->0;
        assert((le + we)[x] == le[x]);
    }
    assert forall|j: int, k: int|
        0 <= j < walked.len() && 0 <= k < walked[j]@.len() && #[trigger] visit_error(
            walked[j]@[k],
        ) is Some implies gather_errors(c, fetched, walked).contains(
        visit_error(walked[j]@[k])->0,
    ) by {
        lemma_walk_errors_hold(walked, walked.len() as int, j, k);
        let x = choose|x: int| 0 <= x < we.len() && we[x] == visit_error(walked[j]@[k])->0;
        assert((le + we)[le.len() + x] == we[x]);
    }
}

/// The view of an optional error.
pub open spec fn opt_error_view(o: Option<Error>) -> Option<ErrorView> {
    match o {
        Some(e) => Some(e@),
        None => None,
    }
}

/// The views of a sequence of links.
pub open spec fn link_views(s: Seq<Link>) -> Seq<LinkView> {
    s.map_values(|l: Link| l@)
}

/// The views of a sequence of files.
pub open spec fn file_views(s: Seq<File>) -> Seq<FileView> {
    s.map_values(|f: File| f@)
}

/// Compares the digest `actual` of a file fetched from `url` with the expected
/// one, if any: a mismatch is a failure that names the URL and both digests.
pub fn check_digest(url: &String, expected: &Option<String>, actual: String) -> (r: Option<Error>)
    ensures
        opt_error_view(r) == digest_error(url@, crate::stdx::opt_view(*expected), actual@),
{
    match expected {
        Some(e) => if *e == actual {
            None
        } else {
            Some(Error::HashMismatch { url: url.clone(), expected: e.clone(), actual })
        },
        None => None,
    }
}

/// The link declared as `d`, fetched as `fetched`: the failure of its fetch,
/// a digest mismatch, or the link with its contents.
pub fn fetch_outcome(d: &Declared, fetched: &Result<String, String>) -> (r: Result<Link, Error>)
    ensures
        match link_error(*d, *fetched) {
            Some(ev) => r matches Err(e) && e@ == ev,
            None => fetched matches Ok(b) && r matches Ok(l) && l@ == fetched_link(*d, b@),
        },
{
    match fetched {
        Err(m) => Err(Error::Fetch { url: d.url.clone(), message: m.clone() }),
        Ok(body) => {
            let actual = digest_hex(body.as_str());
            match check_digest(&d.url, &d.sha256, actual) {
                Some(e) => Err(e),
                None => Ok(
                    Link {
                        url: d.url.clone(),
                        contents: body.clone(),
                        path: d.path.clone(),
                        sha256: d.sha256.clone(),
                        marker: d.marker.clone(),
                    },
                ),
            }
        },
    }
}

/// A failure that ends a run on its own, as the list of failures of that run.
pub fn single_err(err: Error) -> (r: Vec<Error>)
    ensures
        r@ == seq![err],
{
    let mut v: Vec<Error> = Vec::new();
    v.push(err);
    v
}

/// The path of the manifest in the directory `dir`.
pub fn manifest_path(dir: &str) -> (r: String)
    ensures
        r@ == joined_path(dir@, FILE_NAME@),
{
    join_path(dir, FILE_NAME)
}

/// Picks the directory of the manifest among `dirs`, the starting directory
/// `start` and its ancestors, closest first: the first one for which
/// `has_manifest` holds. Where none has it, the manifest is not found.
pub fn locate_root(start: &str, dirs: &Vec<String>, has_manifest: &Vec<bool>) -> (r: Result<
    String,
    Error,
>)
    requires
        dirs.len() == has_manifest.len(),
    ensures
        match r {
            Ok(d) => exists|i: int|
                0 <= i < dirs.len() && has_manifest@[i] && d@ == dirs@[i]@ && forall|j: int|
                    0 <= j < i ==> !has_manifest@[j],
            Err(e) => e@ == (ErrorView::ManifestNotFound { start: start@ }) && forall|j: int|
                0 <= j < dirs.len() ==> !has_manifest@[j],
        },
{
    let mut i: usize = 0;
    while i < dirs.len()
        invariant
            i <= dirs.len() == has_manifest.len(),
            forall|j: int| 0 <= j < i ==> !has_manifest@[j],
        decreases dirs.len() - i,
    {
        if has_manifest[i] {
            return Ok(dirs[i].clone());
        }
        i = i + 1;
    }
    Err(Error::ManifestNotFound { start: start.to_string() })
}

impl World {
    /// Assembles the gathered inputs of a run: `config` is the parsed manifest,
    /// `fetched` what each of its links gave (a body or a failure message), and
    /// `walked` what the walk of each of its directories met. Every failure is
    /// collected; where there is any, they are all returned, in order, and no
    /// `World` is built.
    pub fn new(config: &Config, fetched: &Vec<Result<String, String>>, walked: &Vec<Vec<Visit>>) -> (r:
        Result<World, Vec<Error>>)
        requires
            fetched.len() == config.links.len(),
            walked.len() == config.dirs.len(),
        ensures
            match r {
                Ok(w) => gather_errors(*config, fetched@, walked@).len() == 0 && w.root@
                    == config.root@ && link_views(w.links@) == fetched_links(
                    config.links@,
                    fetched@,
                    fetched.len() as int,
                ) && file_views(w.files@) == walk_files(
                    config.dirs@,
                    walked@,
                    walked.len() as int,
                ),
                Err(es) => gather_errors(*config, fetched@, walked@).len() > 0 && error_views(es@)
                    == gather_errors(*config, fetched@, walked@),
            },
    {
        let mut errors: Vec<Error> = Vec::new();
        let mut links: Vec<Link> = Vec::new();
        let mut i: usize = 0;
        while i < fetched.len()
            invariant
                i <= fetched.len() == config.links.len(),
                error_views(errors@) == link_errors(config.links@, fetched@, i as int),
                link_views(links@) == fetched_links(config.links@, fetched@, i as int),
            decreases fetched.len() - i,
        {
            let outcome = fetch_outcome(&config.links[i], &fetched[i]);
            match outcome {
                Ok(l) => {
                    assert(link_views(links@.push(l)) == link_views(links@).push(l@));
                    links.push(l);
                },
                Err(e) => {
                    assert(error_views(errors@.push(e)) == error_views(errors@).push(e@));
                    errors.push(e);
                },
            }
            i = i + 1;
        }
        let mut files: Vec<File> = Vec::new();
        let mut j: usize = 0;
        let ghost link_errs = error_views(errors@);
        while j < walked.len()
            invariant
                j <= walked.len() == config.dirs.len(),
                link_errs == link_errors(config.links@, fetched@, fetched.len() as int),
                error_views(errors@) == link_errs + walk_errors(walked@, j as int),
                link_views(links@) == fetched_links(config.links@, fetched@, fetched.len() as int),
                file_views(files@) == walk_files(config.dirs@, walked@, j as int),
            decreases walked.len() - j,
        {
            let visits = &walked[j];
            let dir = &config.dirs[j];
            let mut k: usize = 0;
            let ghost errs_before = error_views(errors@);
            let ghost files_before = file_views(files@);
            while k < visits.len()
                invariant
                    j < walked.len() == config.dirs.len(),
                    visits == walked@[j as int],
                    dir == config.dirs@[j as int],
                    k <= visits.len(),
                    errs_before == link_errs + walk_errors(walked@, j as int),
                    error_views(errors@) == errs_before + visit_errors(visits@, k as int),
                    files_before == walk_files(config.dirs@, walked@, j as int),
                    file_views(files@) == files_before + visit_files(*dir, visits@, k as int),
                decreases visits.len() - k,
            {
                match &visits[k] {
                    Visit::File { location, contents } => {
                        let f = File {
                            old_location: location.clone(),
                            contents: contents.clone(),
                            output: dir.output.duplicate(),
                            input: dir.input.clone(),
                        };
                        assert(file_views(files@.push(f)) == file_views(files@).push(f@));
                        files.push(f);
                    },
                    Visit::WalkFailed { message } => {
                        let e = Error::Walk { message: message.clone() };
                        assert(error_views(errors@.push(e)) == error_views(errors@).push(e@));
                        errors.push(e);
                    },
                    Visit::ReadFailed { location, message } => {
                        let e = Error::Read { path: location.clone(), message: message.clone() };
                        assert(error_views(errors@.push(e)) == error_views(errors@).push(e@));
                        errors.push(e);
                    },
                }
                k = k + 1;
            }
            j = j + 1;
        }
        if errors.len() > 0 {
            Err(errors)
        } else {
            Ok(World { root: config.root.clone(), links, files })
        }
    }
}

} // verus!

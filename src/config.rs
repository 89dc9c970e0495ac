//! The manifest: links to fetch and directories to mirror.

use vstd::prelude::*;

use crate::output_path::{interpolated, unresolved_names, Locations, OutputPath};
use crate::stdx::{starts_with, views};

verus! {

/// The manifest, once parsed.
#[derive(Debug)]
pub struct Config {
    /// Path to the directory that contains the manifest
    pub root: String,
    /// Files to fetch, each into its place under `root`
    pub links: Vec<Link>,
    /// Directories to mirror
    pub dirs: Vec<Dir>,
}

/// Home of the project, named in the banner of generated files.
pub const GITHUB: &'static str = "https://github.com/nik-rev/dots";

/// Name of the manifest file, searched for upwards from the working directory.
pub const FILE_NAME: &'static str = "dots.toml";

/// The token that starts a marker in the first line of a file.
pub const MARKER: &'static str = "@dots ";

/// One input directory and where its files go.
#[derive(Debug)]
pub struct Dir {
    /// Local path of the directory, relative to the manifest's directory
    pub input: String,
    /// Output directory
    pub output: OutputPath,
}

/// A file to be fetched.
#[derive(Debug)]
pub struct Link {
    /// URL of the file
    pub url: String,
    /// Where to write the file, relative to the manifest's directory
    pub path: String,
    /// Expected SHA-256 digest of the file, as lowercase hex
    pub sha256: Option<String>,
    /// Arguments of a marker to write on the file's first line, as they are
    pub marker: Option<String>,
}

/// The arguments that a marker takes.
///
/// A marker stands on the first line of a file, in this form:
///
/// ```text
/// @dots --path '{config}/gitui/theme.ron'
/// ```
#[derive(Debug)]
pub struct Marker {
    /// Write the file to this path
    pub path: Option<OutputPath>,
    /// Placeholders of the path's template that resolved to nothing, and were
    /// dropped
    pub dropped: Vec<String>,
}

/// Whether the word `v` reads as an option rather than as a value: a dash
/// followed by anything.
pub open spec fn is_option_like(v: Seq<char>) -> bool {
    v.len() > 1 && v[0] == '-'
}

/// The argument words of a marker before a final `--`, which ends the options
/// and is followed by nothing.
pub open spec fn marker_args(ws: Seq<Seq<char>>) -> Seq<Seq<char>> {
    if ws.len() > 0 && ws.last() == "--"@ {
        ws.drop_last()
    } else {
        ws
    }
}

/// What the argument words of a marker mean: `None` where they do not fit the
/// schema (`--path <template>`, where the template does not read as an
/// option, `--path=<template>`, or nothing, each perhaps followed by `--`),
/// otherwise the template given, if any.
pub open spec fn marker_template(ws: Seq<Seq<char>>) -> Option<Option<Seq<char>>> {
    let args = marker_args(ws);
    if args.len() == 0 {
        Some(None)
    } else if args.len() == 2 && args[0] == "--path"@ && !is_option_like(args[1]) {
        Some(Some(args[1]))
    } else if args.len() == 1 && args[0].len() >= 7 && args[0].take(7) == "--path="@ {
        Some(Some(args[0].skip(7)))
    } else {
        None
    }
}

/// What a marker with argument words `ws` holds: nothing where they do not fit
/// the schema; otherwise no path, or the expanded template and the names it
/// dropped.
pub open spec fn marker_from(m: Option<Marker>, ws: Seq<Seq<char>>, l: Locations) -> bool {
    match marker_template(ws) {
        None => m is None,
        Some(None) => m matches Some(m) && m.path is None && m.dropped@.len() == 0,
        Some(Some(t)) => m matches Some(m) && m.path matches Some(p) && p@ == interpolated(t, l)
            && views(m.dropped@) == unresolved_names(t, l),
    }
}

/// What `shellwords::split` gives for `s`: its words, or nothing where a quote
/// is left open.
pub uninterp spec fn shell_words(s: Seq<char>) -> Option<Seq<Seq<char>>>;

/// The view of optional words.
pub open spec fn opt_words(o: Option<Vec<String>>) -> Option<Seq<Seq<char>>> {
    match o {
        Some(w) => Some(views(w@)),
        None => None,
    }
}

/// Relies on `shellwords::split`: `s` cut into words as a Bourne shell would,
/// or nothing where quotes are mismatched.
#[verifier::external_body]
fn split_words(s: &str) -> (r: Option<Vec<String>>)
    ensures
        opt_words(r) == shell_words(s@),
{
    match shellwords::split(s) {
        Ok(w) => Some(w),
        Err(_) => None,
    }
}

/// Whether `s` starts with the characters of `lit`.
pub fn has_prefix(s: &String, lit: &str) -> (r: bool)
    ensures
        r == starts_with(s@, lit@),
{
    let p = crate::stdx::chars_of(lit);
    let v = crate::stdx::chars_of(s.as_str());
    if p.len() > v.len() {
        return false;
    }
    let mut i: usize = 0;
    while i < p.len()
        invariant
            i <= p.len() <= v.len(),
            p@ == lit@,
            v@ == s@,
            v@.take(i as int) == p@.take(i as int),
        decreases p.len() - i,
    {
        if v[i] != p[i] {
            assert(v@.take(p.len() as int)[i as int] != p@[i as int]);
            return false;
        }
        i = i + 1;
        assert(v@.take(i as int) == v@.take(i - 1 as int).push(v@[i - 1 as int]));
        assert(p@.take(i as int) == p@.take(i - 1 as int).push(p@[i - 1 as int]));
    }
    assert(p@.take(p.len() as int) == p@);
    true
}

impl Marker {
    /// Reads the argument words of a marker against its schema: `--path`
    /// followed by a template, `--path=<template>`, or no argument at all,
    /// perhaps followed by `--`. Any other words are refused, and so is a
    /// template that reads as an option.
    pub fn from_words(words: &Vec<String>, l: &Locations) -> (r: Option<Marker>)
        ensures
            marker_from(r, views(words@), *l),
    {
        proof {
            reveal_strlit("--path");
            reveal_strlit("--path=");
            reveal_strlit("--");
        }
        let ghost ws = views(words@);
        let mut n = words.len();
        if n > 0 && words[n - 1] == "--".to_string() {
            assert(ws.last() == words@[n - 1]@);
            n = n - 1;
        } else {
            assert(n > 0 ==> ws.last() == words@[n - 1]@);
        }
        let ghost args = marker_args(ws);
        assert(args.len() == n);
        assert(forall|i: int| 0 <= i < n ==> args[i] == words@[i]@);
        if n == 0 {
            Some(Marker { path: None, dropped: Vec::new() })
        } else if n == 2 && words[0] == "--path".to_string() && !is_option(&words[1]) {
            let (p, dropped) = OutputPath::expand(words[1].as_str(), l);
            Some(Marker { path: Some(p), dropped })
        } else if n == 1 && has_prefix(&words[0], "--path=") {
            let w = words[0].as_str();
            let len = w.unicode_len();
            let t = w.substring_char(7, len);
            let (p, dropped) = OutputPath::expand(t, l);
            Some(Marker { path: Some(p), dropped })
        } else {
            None
        }
    }

    /// Parses the arguments of a marker: `s` is cut into words as a shell
    /// would, then read against the schema. Mismatched quotes give nothing.
    pub fn parse(s: &str, l: &Locations) -> (r: Option<Marker>)
        ensures
            match shell_words(s@) {
                None => r is None,
                Some(ws) => marker_from(r, ws, *l),
            },
    {
        match split_words(s) {
            Some(words) => Marker::from_words(&words, l),
            None => None,
        }
    }
}

/// Whether the word `v` reads as an option.
fn is_option(v: &String) -> (r: bool)
    ensures
        r == is_option_like(v@),
{
    let s = v.as_str();
    s.unicode_len() > 1 && s.get_char(0) == '-'
}

} // verus!

//! The transformation of gathered inputs into planned writes: pure, and
//! collecting every failure.

use vstd::prelude::*;

use crate::error::{error_views, Error, ErrorView};
use crate::marker::{
    after_first_line, args_template, banner, banner_for, comment_delims, comment_delims_for,
    directive_template, extract, inject, lemma_marker_read_back, marker_line, readable_args,
};
use crate::output_path::{interpolated, unresolved_names, Locations};
use crate::stdx::{
    extension_of, join_path, joined_path, push_char, strip_path, stripped_path, views,
};
use crate::template::{render, rendered};
use crate::world::{file_views, link_views, File, FileView, Link, LinkView, World};

verus! {

/// A file to write: where, and what.
#[derive(Debug, Clone, PartialEq, Eq, Hash)]
pub struct WritePath {
    /// Path to write
    pub path: String,
    /// What to write
    pub contents: String,
}

/// What a [`WritePath`] holds, as text.
pub ghost struct WriteView {
    pub path: Seq<char>,
    pub contents: Seq<char>,
}

impl View for WritePath {
    type V = WriteView;

    open spec fn view(&self) -> WriteView {
        WriteView { path: self.path@, contents: self.contents@ }
    }
}

/// The finished computation: every write to perform.
#[derive(Debug)]
pub struct Analysis {
    /// A list of paths to write
    pub writes: Vec<WritePath>,
    /// Placeholders of marker paths that resolved to nothing and were dropped,
    /// to be warned about
    pub dropped: Vec<String>,
}

/// The views of a sequence of writes.
pub open spec fn write_views(s: Seq<WritePath>) -> Seq<WriteView> {
    s.map_values(|w: WritePath| w@)
}

/// The contents written for the fetched link `l`, with comment delimiters `d`:
/// its marker line if it has a marker, the banner, then what was fetched.
pub open spec fn link_text(l: LinkView, d: (Seq<char>, Seq<char>)) -> Seq<char> {
    let head = match l.marker {
        Some(m) => marker_line(m, d) + seq!['\n'],
        None => Seq::empty(),
    };
    head + banner(l.url, d) + l.contents
}

/// The write for the fetched link `l`: its path under `root`, and its text in
/// the comment syntax of that path.
pub open spec fn link_write(root: Seq<char>, l: LinkView) -> WriteView {
    let dest = joined_path(root, l.path);
    WriteView { path: dest, contents: link_text(l, comment_delims(extension_of(dest))) }
}

/// The write for the gathered file `f`: where its marker routes it, without the
/// marker line, or else its path relative to its input directory placed under
/// its output directory. Its contents are rendered with no variable bound.
pub open spec fn file_write(root: Seq<char>, f: FileView, l: Locations) -> Result<
    WriteView,
    ErrorView,
> {
    match directive_template(f.contents) {
        Some(t) => Ok(
            WriteView {
                path: interpolated(t, l),
                contents: rendered(after_first_line(f.contents), Seq::empty()),
            },
        ),
        None => match stripped_path(f.old_location, joined_path(root, f.input)) {
            Some(rel) => Ok(
                WriteView {
                    path: joined_path(f.output, rel),
                    contents: rendered(f.contents, Seq::empty()),
                },
            ),
            None => Err(
                ErrorView::NotUnderInput {
                    path: f.old_location,
                    input: joined_path(root, f.input),
                },
            ),
        },
    }
}

/// The writes for the first `n` files that transform without failure.
pub open spec fn file_writes(root: Seq<char>, fs: Seq<FileView>, l: Locations, n: int) -> Seq<
    WriteView,
>
    decreases n,
{
    if n <= 0 {
        Seq::empty()
    } else {
        let last = match file_write(root, fs[n - 1], l) {
            Ok(w) => seq![w],
            Err(_) => Seq::empty(),
        };
        file_writes(root, fs, l, n - 1) + last
    }
}

/// The failures of the first `n` files.
pub open spec fn file_errors(root: Seq<char>, fs: Seq<FileView>, l: Locations, n: int) -> Seq<
    ErrorView,
>
    decreases n,
{
    if n <= 0 {
        Seq::empty()
    } else {
        let last = match file_write(root, fs[n - 1], l) {
            Ok(_) => Seq::empty(),
            Err(e) => seq![e],
        };
        file_errors(root, fs, l, n - 1) + last
    }
}

/// The placeholders that the marker path of the file `f` dropped.
pub open spec fn file_dropped(f: FileView, l: Locations) -> Seq<Seq<char>> {
    match directive_template(f.contents) {
        Some(t) => unresolved_names(t, l),
        None => Seq::empty(),
    }
}

/// The placeholders that the marker paths of the first `n` files dropped.
pub open spec fn dropped_names(fs: Seq<FileView>, l: Locations, n: int) -> Seq<Seq<char>>
    decreases n,
{
    if n <= 0 {
        Seq::empty()
    } else {
        dropped_names(fs, l, n - 1) + file_dropped(fs[n - 1], l)
    }
}

/// The writes for the fetched links `ls`, in order.
pub open spec fn link_writes(root: Seq<char>, ls: Seq<LinkView>) -> Seq<WriteView> {
    ls.map_values(|l: LinkView| link_write(root, l))
}

/// The writes planned for the world `w`: those of its links, then those of
/// its files.
pub open spec fn planned_writes(w: World, l: Locations) -> Seq<WriteView> {
    link_writes(w.root@, link_views(w.links@)) + file_writes(
        w.root@,
        file_views(w.files@),
        l,
        w.files.len() as int,
    )
}

/// The placeholders dropped from the marker paths of the files of `w`.
pub open spec fn planned_dropped(w: World, l: Locations) -> Seq<Seq<char>> {
    dropped_names(file_views(w.files@), l, w.files.len() as int)
}

/// The failures met while planning the writes for the world `w`.
pub open spec fn planned_errors(w: World, l: Locations) -> Seq<ErrorView> {
    file_errors(w.root@, file_views(w.files@), l, w.files.len() as int)
}

/// The write for the fetched link `link`, under `root`.
pub fn link_output(root: &str, link: &Link) -> (r: WritePath)
    ensures
        r@ == link_write(root@, link@),
{
    let dest = join_path(root, link.path.as_str());
    let d = comment_delims_for(dest.as_str());
    let ghost delims = comment_delims(extension_of(dest@));
    let mut out = String::new();
    match &link.marker {
        Some(m) => {
            out.append(inject(dest.as_str(), m.as_str()).as_str());
            push_char(&mut out, '\n');
            assert(out@ == marker_line(m@, delims) + seq!['\n']);
        },
        None => {},
    }
    let ghost head = out@;
    let b = banner_for(link.url.as_str(), &d);
    assert(b@ == banner(link.url@, delims));
    out.append(b.as_str());
    out.append(link.contents.as_str());
    assert(out@ == head + banner(link.url@, delims) + link.contents@);
    WritePath { path: dest, contents: out }
}

/// The write for the gathered file `f`, under `root`, with the placeholders
/// that its marker path dropped, or why there is none.
pub fn file_output(root: &str, f: &File, l: &Locations) -> (r: Result<(WritePath, Vec<String>), Error>)
    ensures
        match file_write(root@, f@, *l) {
            Ok(w) => r matches Ok(x) && x.0@ == w && views(x.1@) == file_dropped(f@, *l),
            Err(e) => r matches Err(x) && x@ == e,
        },
{
    let no_vars: Vec<(String, String)> = Vec::new();
    let (directive, remaining, dropped) = extract(f.contents.as_str(), l);
    match directive {
        Some(p) => Ok(
            (WritePath { path: p.path, contents: render(remaining.as_str(), &no_vars) }, dropped),
        ),
        None => {
            let base = join_path(root, f.input.as_str());
            match strip_path(f.old_location.as_str(), base.as_str()) {
                Some(rel) => {
                    assert(views(dropped@) == Seq::<Seq<char>>::empty());
                    Ok(
                        (
                            WritePath {
                                path: join_path(f.output.as_str(), rel.as_str()),
                                contents: render(f.contents.as_str(), &no_vars),
                            },
                            dropped,
                        ),
                    )
                },
                None => Err(Error::NotUnderInput { path: f.old_location.clone(), input: base }),
            }
        },
    }
}

impl World {
    /// Transforms the gathered inputs into the writes to perform: one for each
    /// link, then one for each file, in order. A file whose destination cannot
    /// be computed is a failure; every failure is collected, and where there
    /// is any they are all returned and nothing is written.
    pub fn process(&self, l: &Locations) -> (r: Result<Analysis, Vec<Error>>)
        ensures
            match r {
                Ok(a) => planned_errors(*self, *l).len() == 0 && write_views(a.writes@)
                    == planned_writes(*self, *l) && views(a.dropped@) == planned_dropped(*self, *l),
                Err(es) => planned_errors(*self, *l).len() > 0 && error_views(es@) == planned_errors(
                    *self,
                    *l,
                ),
            },
    {
        let ghost root = self.root@;
        let ghost fs = file_views(self.files@);
        let mut writes: Vec<WritePath> = Vec::new();
        let mut i: usize = 0;
        while i < self.links.len()
            invariant
                i <= self.links.len(),
                root == self.root@,
                write_views(writes@) == link_writes(root, link_views(self.links@)).take(i as int),
            decreases self.links.len() - i,
        {
            let w = link_output(self.root.as_str(), &self.links[i]);
            assert(write_views(writes@.push(w)) == write_views(writes@).push(w@));
            assert(link_views(self.links@)[i as int] == self.links@[i as int]@);
            assert(link_writes(root, link_views(self.links@)).take(i + 1int) =~= link_writes(
                root,
                link_views(self.links@),
            ).take(i as int).push(w@));
            writes.push(w);
            i = i + 1;
        }
        assert(link_writes(root, link_views(self.links@)).take(i as int) =~= link_writes(
            root,
            link_views(self.links@),
        ));
        let ghost from_links = write_views(writes@);
        let mut errors: Vec<Error> = Vec::new();
        let mut dropped: Vec<String> = Vec::new();
        let mut j: usize = 0;
        while j < self.files.len()
            invariant
                j <= self.files.len(),
                root == self.root@,
                fs == file_views(self.files@),
                write_views(writes@) == from_links + file_writes(root, fs, *l, j as int),
                error_views(errors@) == file_errors(root, fs, *l, j as int),
                views(dropped@) == dropped_names(fs, *l, j as int),
            decreases self.files.len() - j,
        {
            assert(fs[j as int] == self.files@[j as int]@);
            match file_output(self.root.as_str(), &self.files[j], l) {
                Ok((w, mut names)) => {
                    assert(file_write(root, fs[j as int], *l) == Ok::<WriteView, ErrorView>(w@));
                    assert(write_views(writes@.push(w)) == write_views(writes@).push(w@));
                    let ghost wv = w@;
                    writes.push(w);
                    let ghost before = dropped@;
                    let ghost more = names@;
                    dropped.append(&mut names);
                    assert(views(dropped@) =~= views(before) + views(more));
                    assert(file_writes(root, fs, *l, j + 1) == file_writes(root, fs, *l, j as int)
                        + seq![wv]);
                    assert(file_errors(root, fs, *l, j + 1) == file_errors(root, fs, *l, j as int));
                },
                Err(e) => {
                    assert(file_write(root, fs[j as int], *l) == Err::<WriteView, ErrorView>(e@));
                    assert(file_dropped(fs[j as int], *l) == Seq::<Seq<char>>::empty());
                    assert(dropped_names(fs, *l, j + 1) =~= dropped_names(fs, *l, j as int));
                    assert(error_views(errors@.push(e)) == error_views(errors@).push(e@));
                    errors.push(e);
                    assert(file_writes(root, fs, *l, j + 1) == file_writes(root, fs, *l, j as int));
                    assert(file_errors(root, fs, *l, j + 1) == file_errors(root, fs, *l, j as int)
                        + seq![e@]);
                },
            }
            j = j + 1;
        }
        if errors.len() > 0 {
            Err(errors)
        } else {
            Ok(Analysis { writes, dropped })
        }
    }
}

/// Plain files: the writes for the first `n` files, where none carries a
/// marker and each lies under its input directory.
proof fn lemma_plain_files(root: Seq<char>, fs: Seq<FileView>, l: Locations, n: int)
    requires
        0 <= n <= fs.len(),
        forall|i: int|
            0 <= i < fs.len() ==> directive_template(#[trigger] fs[i].contents) is None
                && stripped_path(fs[i].old_location, joined_path(root, fs[i].input)) is Some,
    ensures
        file_errors(root, fs, l, n) == Seq::<ErrorView>::empty(),
        file_writes(root, fs, l, n).len() == n,
        forall|i: int|
            0 <= i < n ==> #[trigger] file_writes(root, fs, l, n)[i] == (WriteView {
                path: joined_path(
                    fs[i].output,
                    stripped_path(fs[i].old_location, joined_path(root, fs[i].input))->0,
                ),
                contents: fs[i].contents,
            }),
    decreases n,
{
    if n > 0 {
        lemma_plain_files(root, fs, l, n - 1);
        crate::template::lemma_rendered_unbound(fs[n - 1].contents);
        assert(file_errors(root, fs, l, n) == file_errors(root, fs, l, n - 1));
    }
}

/// Mirroring directories: where there is no link, and no file carries a
/// marker and each lies under its input directory, there is no failure and
/// exactly one write per file, in order, to the file's path relative to its
/// input directory placed under its output directory, with its contents
/// unchanged.
pub proof fn lemma_plain_dirs(w: World, l: Locations)
    requires
        w.links.len() == 0,
        forall|i: int|
            0 <= i < w.files.len() ==> directive_template(#[trigger] w.files@[i].contents@) is None
                && stripped_path(w.files@[i].old_location@, joined_path(w.root@, w.files@[i].input@))
                is Some,
    ensures
        planned_errors(w, l).len() == 0,
        planned_writes(w, l).len() == w.files.len(),
        forall|i: int|
            0 <= i < w.files.len() ==> #[trigger] planned_writes(w, l)[i] == (WriteView {
                path: joined_path(
                    w.files@[i].output@,
                    stripped_path(w.files@[i].old_location@, joined_path(w.root@, w.files@[i].input@))->0,
                ),
                contents: w.files@[i].contents@,
            }),
{
    let fs = file_views(w.files@);
    assert forall|i: int| 0 <= i < fs.len() implies directive_template(#[trigger] fs[i].contents)
        is None && stripped_path(fs[i].old_location, joined_path(w.root@, fs[i].input)) is Some by {
        assert(fs[i] == w.files@[i]@);
    }
    lemma_plain_files(w.root@, fs, l, fs.len() as int);
    assert(link_writes(w.root@, link_views(w.links@)) == Seq::<WriteView>::empty());
    assert(planned_writes(w, l) == file_writes(w.root@, fs, l, fs.len() as int));
    assert forall|i: int| 0 <= i < w.files.len() implies #[trigger] planned_writes(w, l)[i] == (
    WriteView {
        path: joined_path(
            w.files@[i].output@,
            stripped_path(w.files@[i].old_location@, joined_path(w.root@, w.files@[i].input@))->0,
        ),
        contents: w.files@[i].contents@,
    }) by {
        assert(fs[i] == w.files@[i]@);
    }
}

/// Round trip: the file written for a fetched link with marker arguments, when
/// gathered back as a plain file, carries a marker that the arguments' own
/// template reads; where they give a path, the file goes there, without its
/// marker line, and not to its place under an output directory.
pub proof fn lemma_link_marker_round_trip(
    root: Seq<char>,
    link: LinkView,
    froot: Seq<char>,
    f: FileView,
    l: Locations,
)
    requires
        link.marker is Some,
        readable_args(
            link.marker->0,
            comment_delims(extension_of(joined_path(root, link.path))),
        ),
        f.contents == link_write(root, link).contents,
    ensures
        directive_template(f.contents) == args_template(link.marker->0),
        args_template(link.marker->0) matches Some(t) ==> file_write(froot, f, l) == Ok::<
            WriteView,
            ErrorView,
        >(
            WriteView {
                path: interpolated(t, l),
                contents: rendered(
                    banner(link.url, comment_delims(extension_of(joined_path(root, link.path))))
                        + link.contents,
                    Seq::empty(),
                ),
            },
        ),
{
    let d = comment_delims(extension_of(joined_path(root, link.path)));
    let m = link.marker->0;
    let rest = banner(link.url, d) + link.contents;
    assert(f.contents == marker_line(m, d) + seq!['\n'] + rest);
    lemma_marker_read_back(m, extension_of(joined_path(root, link.path)), rest);
}

} // verus!

//! The steps that apply a planned write to the filesystem, and what they do
//! to the files.

use vstd::prelude::*;

use crate::analysis::{planned_errors, planned_writes, Analysis, WritePath, WriteView};
use crate::output_path::Locations;
use crate::world::{file_views, link_views, World};
use crate::stdx::{parent_of, parent_path};

verus! {

/// One filesystem operation of the application of a write.
#[derive(Debug, Clone, PartialEq, Eq)]
pub enum Step {
    /// Remove the file at `path`; a missing file is no failure
    Remove { path: String },
    /// Create the directory `path` and its ancestors, where missing
    CreateDir { path: String },
    /// Write `contents` to the file at `path`, replacing it
    Write { path: String, contents: String },
}

/// What a [`Step`] holds, as text.
pub ghost enum StepView {
    Remove { path: Seq<char> },
    CreateDir { path: Seq<char> },
    Write { path: Seq<char>, contents: Seq<char> },
}

impl View for Step {
    type V = StepView;

    open spec fn view(&self) -> StepView {
        match self {
            Step::Remove { path } => StepView::Remove { path: path@ },
            Step::CreateDir { path } => StepView::CreateDir { path: path@ },
            Step::Write { path, contents } => StepView::Write { path: path@, contents: contents@ },
        }
    }
}

/// The views of a sequence of steps.
pub open spec fn step_views(s: Seq<Step>) -> Seq<StepView> {
    s.map_values(|x: Step| x@)
}

/// The steps that apply the write `w`: remove what is at its path, create its
/// parent directory, write its contents. A path without a parent can hold no
/// file: it is only cleared.
pub open spec fn write_steps(w: WriteView) -> Seq<StepView> {
    match parent_of(w.path) {
        Some(dir) => seq![
            StepView::Remove { path: w.path },
            StepView::CreateDir { path: dir },
            StepView::Write { path: w.path, contents: w.contents },
        ],
        None => seq![StepView::Remove { path: w.path }],
    }
}

/// The files, path to contents, after the step `s` succeeds on `fs`.
/// Directories are not modelled.
pub open spec fn step_effect(fs: Map<Seq<char>, Seq<char>>, s: StepView) -> Map<
    Seq<char>,
    Seq<char>,
> {
    match s {
        StepView::Remove { path } => fs.remove(path),
        StepView::CreateDir { .. } => fs,
        StepView::Write { path, contents } => fs.insert(path, contents),
    }
}

/// The files after the steps `ss` succeed, in order, on `fs`.
pub open spec fn steps_effect(fs: Map<Seq<char>, Seq<char>>, ss: Seq<StepView>) -> Map<
    Seq<char>,
    Seq<char>,
>
    decreases ss.len(),
{
    if ss.len() == 0 {
        fs
    } else {
        step_effect(steps_effect(fs, ss.drop_last()), ss.last())
    }
}

/// The files after every write of `ws` is applied, in order, on `fs`.
pub open spec fn applied(fs: Map<Seq<char>, Seq<char>>, ws: Seq<WriteView>) -> Map<
    Seq<char>,
    Seq<char>,
>
    decreases ws.len(),
{
    if ws.len() == 0 {
        fs
    } else {
        steps_effect(applied(fs, ws.drop_last()), write_steps(ws.last()))
    }
}

impl WritePath {
    /// The steps that apply this write, in order.
    pub fn steps(&self) -> (r: Vec<Step>)
        ensures
            step_views(r@) == write_steps(self@),
    {
        let mut r: Vec<Step> = Vec::new();
        r.push(Step::Remove { path: self.path.clone() });
        match parent_path(self.path.as_str()) {
            Some(dir) => {
                r.push(Step::CreateDir { path: dir });
                r.push(Step::Write { path: self.path.clone(), contents: self.contents.clone() });
            },
            None => {},
        }
        assert(step_views(r@) =~= write_steps(self@));
        r
    }
}

impl Analysis {
    /// Finishes the analysis: the steps that apply each planned write, in the
    /// order of the writes. Performing them, and what to do when one fails, is
    /// up to the caller.
    pub fn finish(self) -> (r: Vec<Vec<Step>>)
        ensures
            r.len() == self.writes.len(),
            forall|i: int|
                0 <= i < r.len() ==> step_views(#[trigger] r@[i]@) == write_steps(
                    self.writes@[i]@,
                ),
    {
        let mut r: Vec<Vec<Step>> = Vec::new();
        let mut i: usize = 0;
        while i < self.writes.len()
            invariant
                i <= self.writes.len(),
                r.len() == i,
                forall|j: int|
                    0 <= j < i ==> step_views(#[trigger] r@[j]@) == write_steps(self.writes@[j]@),
            decreases self.writes.len() - i,
        {
            r.push(self.writes[i].steps());
            i = i + 1;
        }
        r
    }
}

/// What applying the write `w` does to the files: its path holds its
/// contents, or nothing where it has no parent.
proof fn lemma_write_effect(fs: Map<Seq<char>, Seq<char>>, w: WriteView)
    ensures
        steps_effect(fs, write_steps(w)) == match parent_of(w.path) {
            Some(_) => fs.insert(w.path, w.contents),
            None => fs.remove(w.path),
        },
{
    let ss = write_steps(w);
    match parent_of(w.path) {
        Some(dir) => {
            let s1 = ss.drop_last().drop_last();
            let s2 = ss.drop_last();
            assert(s1.drop_last() =~= Seq::<StepView>::empty());
            assert(s1.last() == StepView::Remove { path: w.path });
            assert(steps_effect(fs, s1.drop_last()) == fs);
            assert(steps_effect(fs, s1) == fs.remove(w.path));
            assert(s2.last() == StepView::CreateDir { path: dir });
            assert(s2.drop_last() == s1);
            assert(steps_effect(fs, s2) == fs.remove(w.path));
            assert(ss.drop_last() == s2);
            assert(fs.remove(w.path).insert(w.path, w.contents) =~= fs.insert(w.path, w.contents));
        },
        None => {
            assert(ss.drop_last() =~= Seq::<StepView>::empty());
            assert(steps_effect(fs, ss.drop_last()) == fs);
        },
    }
}

/// What the writes `ws` leave at the path `k`: nothing where none of them
/// touches it, otherwise what the last one that does leaves there.
pub open spec fn last_left(ws: Seq<WriteView>, k: Seq<char>) -> Option<Option<Seq<char>>>
    decreases ws.len(),
{
    if ws.len() == 0 {
        None
    } else if ws.last().path == k {
        match parent_of(k) {
            Some(_) => Some(Some(ws.last().contents)),
            None => Some(None),
        }
    } else {
        last_left(ws.drop_last(), k)
    }
}

/// After the writes `ws`, a path holds what the last write touching it left,
/// or what it held before where none touches it.
proof fn lemma_applied_at(fs: Map<Seq<char>, Seq<char>>, ws: Seq<WriteView>, k: Seq<char>)
    ensures
        match last_left(ws, k) {
            None => applied(fs, ws).contains_key(k) == fs.contains_key(k) && (fs.contains_key(k)
                ==> applied(fs, ws)[k] == fs[k]),
            Some(None) => !applied(fs, ws).contains_key(k),
            Some(Some(c)) => applied(fs, ws).contains_key(k) && applied(fs, ws)[k] == c,
        },
    decreases ws.len(),
{
    if ws.len() > 0 {
        lemma_applied_at(fs, ws.drop_last(), k);
        lemma_write_effect(applied(fs, ws.drop_last()), ws.last());
    }
}

/// Idempotence of application: applying the same writes a second time leaves
/// the files exactly as the first time did.
pub proof fn lemma_apply_twice(fs: Map<Seq<char>, Seq<char>>, ws: Seq<WriteView>)
    ensures
        applied(applied(fs, ws), ws) == applied(fs, ws),
{
    let once = applied(fs, ws);
    let twice = applied(once, ws);
    assert forall|k: Seq<char>| #[trigger] twice.contains_key(k) == once.contains_key(k) && (
    once.contains_key(k) ==> twice[k] == once[k]) by {
        lemma_applied_at(fs, ws, k);
        lemma_applied_at(once, ws, k);
    }
    assert(twice =~= once);
}

/// Whether no two writes of `ws` have the same path.
pub open spec fn distinct_paths(ws: Seq<WriteView>) -> bool {
    forall|i: int, j: int| 0 <= i < j < ws.len() ==> ws[i].path != ws[j].path
}

/// What the write `w` leaves at its path.
pub open spec fn left_by(w: WriteView) -> Option<Seq<char>> {
    match parent_of(w.path) {
        Some(_) => Some(w.contents),
        None => None,
    }
}

/// Where no two writes share a path, what is left at a path is what the one
/// write to it leaves, if any.
proof fn lemma_last_left_distinct(ws: Seq<WriteView>, k: Seq<char>)
    requires
        distinct_paths(ws),
    ensures
        (forall|i: int| 0 <= i < ws.len() ==> ws[i].path != k) ==> last_left(ws, k) is None,
        forall|i: int|
            0 <= i < ws.len() && #[trigger] ws[i].path == k ==> last_left(ws, k) == Some(
                left_by(ws[i]),
            ),
    decreases ws.len(),
{
    if ws.len() > 0 {
        let prefix = ws.drop_last();
        assert(distinct_paths(prefix));
        lemma_last_left_distinct(prefix, k);
        assert forall|i: int| 0 <= i < ws.len() && #[trigger] ws[i].path == k implies last_left(
            ws,
            k,
        ) == Some(left_by(ws[i])) by {
            if i < ws.len() - 1 {
                assert(prefix[i] == ws[i]);
                assert(ws.last().path != k);
            }
        }
        if forall|i: int| 0 <= i < ws.len() ==> ws[i].path != k {
            assert(ws.last().path != k);
            assert forall|i: int| 0 <= i < prefix.len() implies prefix[i].path != k by {
                assert(prefix[i] == ws[i]);
            }
        }
    }
}

/// The same writes in any order, no two to the same path, leave the files
/// alike.
proof fn lemma_applied_any_order(
    fs: Map<Seq<char>, Seq<char>>,
    ws1: Seq<WriteView>,
    ws2: Seq<WriteView>,
)
    requires
        ws1.to_multiset() == ws2.to_multiset(),
        distinct_paths(ws1),
        distinct_paths(ws2),
    ensures
        applied(fs, ws1) == applied(fs, ws2),
{
    ws1.to_multiset_ensures();
    ws2.to_multiset_ensures();
    let a1 = applied(fs, ws1);
    let a2 = applied(fs, ws2);
    assert forall|k: Seq<char>| #[trigger] a1.contains_key(k) == a2.contains_key(k) && (
    a1.contains_key(k) ==> a1[k] == a2[k]) by {
        lemma_applied_at(fs, ws1, k);
        lemma_applied_at(fs, ws2, k);
        lemma_last_left_distinct(ws1, k);
        lemma_last_left_distinct(ws2, k);
        if exists|i: int| 0 <= i < ws1.len() && ws1[i].path == k {
            let i = choose|i: int| 0 <= i < ws1.len() && ws1[i].path == k;
            assert(ws1.contains(ws1[i]));
            assert(ws1.to_multiset().count(ws1[i]) > 0);
            assert(ws2.to_multiset().count(ws1[i]) > 0);
            assert(ws2.contains(ws1[i]));
            let j = choose|j: int| 0 <= j < ws2.len() && ws2[j] == ws1[i];
            assert(ws2[j].path == k);
        } else if exists|j: int| 0 <= j < ws2.len() && ws2[j].path == k {
            let j = choose|j: int| 0 <= j < ws2.len() && ws2[j].path == k;
            assert(ws2.contains(ws2[j]));
            assert(ws2.to_multiset().count(ws2[j]) > 0);
            assert(ws1.to_multiset().count(ws2[j]) > 0);
            assert(ws1.contains(ws2[j]));
            let i = choose|i: int| 0 <= i < ws1.len() && ws1[i] == ws2[j];
            assert(ws1[i].path == k);
        }
    }
    assert(a1 =~= a2);
}

/// Idempotence of a write set: applying the same writes again, in any order,
/// where no two share a path, leaves the files as the first application
/// did.
pub proof fn lemma_apply_write_set_twice(
    fs: Map<Seq<char>, Seq<char>>,
    ws1: Seq<WriteView>,
    ws2: Seq<WriteView>,
)
    requires
        ws1.to_multiset() == ws2.to_multiset(),
        distinct_paths(ws1),
        distinct_paths(ws2),
    ensures
        applied(applied(fs, ws1), ws2) == applied(fs, ws1),
{
    lemma_applied_any_order(applied(fs, ws1), ws1, ws2);
    lemma_apply_twice(fs, ws1);
}

/// Idempotence: two runs on the same gathered inputs plan the same writes
/// and meet the same failures, and applying the writes of the second run
/// after those of the first leaves the files as the first left them.
pub proof fn lemma_run_twice(w1: World, w2: World, l: Locations, fs: Map<Seq<char>, Seq<char>>)
    requires
        w1.root@ == w2.root@,
        link_views(w1.links@) == link_views(w2.links@),
        file_views(w1.files@) == file_views(w2.files@),
    ensures
        planned_writes(w1, l) == planned_writes(w2, l),
        planned_errors(w1, l) == planned_errors(w2, l),
        applied(applied(fs, planned_writes(w1, l)), planned_writes(w2, l)) == applied(
            fs,
            planned_writes(w1, l),
        ),
{
    assert(w1.files.len() == file_views(w1.files@).len());
    assert(w2.files.len() == file_views(w2.files@).len());
    lemma_apply_twice(fs, planned_writes(w1, l));
}

} // verus!

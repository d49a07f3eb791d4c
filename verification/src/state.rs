//! What a release reads and writes: the tags of earlier releases as seen from a commit, and
//! the file writes and tag moves that a release stages and then performs in a fixed order.

use crate::error::{Error, ErrorKind};
use crate::mark::{rewritten_from, rewritten_is, MarkedData, NamedData};
use crate::picker::{file_pick, line_found};
use crate::picker::{Picker, Scanner};
use crate::table::{put_text, ProjectId};
use std::collections::{HashMap, HashSet};
use crate::tags::OldTags;
use vstd::prelude::*;

verus! {

broadcast use vstd::std_specs::hash::group_hash_axioms;

/// What can say which tag a project got last.
pub trait StateRead {
    /// The latest tag of the project, as contracts speak of it.
    spec fn spec_latest_tag(&self, proj: ProjectId) -> Option<String>;

    /// The latest tag of the project.
    fn latest_tag(&self, proj: &ProjectId) -> (r: Option<&String>)
        ensures
            r is Some == self.spec_latest_tag(*proj) is Some,
            r matches Some(t) ==> self.spec_latest_tag(*proj) == Some(*t),
    ;
}

/// The state of the working tree: its directory, and the tags of the earlier releases.
#[derive(Debug)]
pub struct CurrentState {
    root: String,
    tags: OldTags,
}

impl StateRead for CurrentState {
    closed spec fn spec_latest_tag(&self, proj: ProjectId) -> Option<String> {
        self.tags.spec_latest(proj)
    }

    fn latest_tag(&self, proj: &ProjectId) -> (r: Option<&String>) {
        self.tags.latest(proj)
    }
}

impl CurrentState {
    /// The directory of the working tree, as contracts speak of it.
    pub closed spec fn spec_root(&self) -> Seq<char> {
        self.root@
    }

    /// The tags of the earlier releases, as contracts speak of them.
    pub closed spec fn spec_tags(&self) -> OldTags {
        self.tags
    }

    /// The state of the working tree in `root`, with the tags of the earlier releases.
    pub fn new(root: String, tags: OldTags) -> (r: CurrentState)
        ensures
            r.spec_root() == root@,
            r.spec_tags() == tags,
    {
        CurrentState { root, tags }
    }

    /// The directory of the working tree.
    pub fn root(&self) -> (r: &str)
        ensures
            r@ == self.spec_root(),
    {
        self.root.as_str()
    }

    /// The tags as they are seen from an earlier commit. `found` is what the repository
    /// gave for the commit: its id, or the error with which it was looked for in vain. Where
    /// it was not found and `else_none` says that this is no fault, no tags are seen.
    pub fn slice(&self, found: Result<String, Error>, else_none: bool) -> (r: Result<
        PrevState,
        Error,
    >)
        ensures
            found matches Ok(oid) ==> r is Ok == (forall|p: ProjectId| #[trigger]
                self.spec_tags().can_slice_at(oid@, p)),
            found matches Ok(oid) ==> (r matches Ok(s) ==> forall|p: ProjectId| #[trigger]
                self.spec_tags().sliced_at(oid@, &s.spec_tags(), p)),
            found matches Ok(oid) ==> (r matches Err(e) ==> e.kind() == ErrorKind::RepoError),
            found is Err ==> r is Ok == else_none,
            found is Err ==> (r matches Ok(s) ==> forall|p: ProjectId| #[trigger]
                s.spec_tags().spec_latest(p) is None),
            found matches Err(e) ==> (r matches Err(e2) ==> e2 == e),
    {
        match found {
            Ok(oid) => match self.tags.slice_earlier(oid.as_str()) {
                Ok(tags) => {
                    let r = PrevState::new(tags);
                    proof {
                        assert forall|p: ProjectId| #[trigger]
                            self.spec_tags().can_slice_at(oid@, p) by {
                            assert(self.tags.can_slice_at(oid@, p));
                        }
                        assert forall|p: ProjectId| #[trigger]
                            self.spec_tags().sliced_at(oid@, &r.spec_tags(), p) by {
                            assert(self.tags.sliced_at(oid@, &tags, p));
                        }
                    }
                    Ok(r)
                },
                Err(e) => {
                    proof {
                        if forall|p: ProjectId| #[trigger] self.spec_tags().can_slice_at(oid@, p) {
                            assert forall|p: ProjectId| #[trigger]
                                self.tags.can_slice_at(oid@, p) by {
                                assert(self.spec_tags().can_slice_at(oid@, p));
                            }
                        }
                    }
                    Err(e)
                },
            },
            Err(e) => {
                if else_none {
                    Ok(PrevState::new(OldTags::empty()))
                } else {
                    Err(e)
                }
            },
        }
    }
}

/// The state at an earlier commit: the tags that are seen from it.
#[derive(Debug)]
pub struct PrevState {
    tags: OldTags,
}

impl StateRead for PrevState {
    closed spec fn spec_latest_tag(&self, proj: ProjectId) -> Option<String> {
        self.tags.spec_latest(proj)
    }

    fn latest_tag(&self, proj: &ProjectId) -> (r: Option<&String>) {
        self.tags.latest(proj)
    }
}

impl PrevState {
    /// The tags that are seen from the commit, as contracts speak of them.
    pub closed spec fn spec_tags(&self) -> OldTags {
        self.tags
    }

    /// The state at a commit from which `tags` are seen.
    pub fn new(tags: OldTags) -> (r: PrevState)
        ensures
            r.spec_tags() == tags,
    {
        PrevState { tags }
    }
}

/// A file and the picker that finds the version in it.
#[derive(Debug)]
pub struct PickPath {
    pub file: String,
    pub picker: Picker,
}

impl PickPath {
    /// The picker `picker` for the file `file`.
    pub fn new(file: String, picker: Picker) -> (r: PickPath)
        ensures
            r.file == file,
            r.picker == picker,
    {
        PickPath { file, picker }
    }

    /// The text `data` of the file with `val` in place of the version that the picker finds.
    /// The four kinds of scanner read the structured files.
    pub fn write_value<J: Scanner, Y: Scanner, T: Scanner, X: Scanner>(
        &self,
        data: String,
        val: &str,
    ) -> (r: Result<MarkedData, Error>)
        ensures
            exists|named: NamedData, scanned: Result<MarkedData, Error>|
                named.spec_data() == data@ && named.spec_path() == Some(self.file)
                    && #[trigger] self.picker.scans::<J, Y, T, X>(named, scanned)
                    && rewritten_from(r, scanned, val@),
            r matches Ok(m) ==> m.spec_value() == val@ && m.spec_path() is Some,
            self.picker matches Picker::Line(p) ==> exists|named: NamedData|
                named.spec_data() == data@ && named.spec_path() == Some(self.file)
                    && #[trigger] rewritten_is(r, named, line_found(p.pattern@, data@), val@),
            self.picker is File ==> exists|named: NamedData|
                named.spec_data() == data@ && named.spec_path() == Some(self.file)
                    && #[trigger] rewritten_is(r, named, file_pick(data@), val@),
    {
        let named = NamedData::new(Some(self.file.clone()), data);
        let ghost given = named;
        let scanned = self.picker.scan::<J, Y, T, X>(named);
        let ghost seen = scanned;
        let r = match scanned {
            Ok(mut mark) => match mark.write_new_value(val) {
                Ok(()) => Ok(mark),
                Err(e) => Err(e),
            },
            Err(e) => Err(e),
        };
        proof {
            assert(self.picker.scans::<J, Y, T, X>(given, seen) && rewritten_from(r, seen, val@));
            if self.picker is Line {
                let p = self.picker->Line_0;
                assert(rewritten_is(r, given, line_found(p.pattern@, data@), val@));
            }
            if self.picker is File {
                assert(rewritten_is(r, given, file_pick(data@), val@));
            }
        }
        r
    }
}

/// A write that a release stages.
#[derive(Debug)]
pub enum FileWrite {
    /// The whole of a file.
    Write { path: String, val: String },
    /// The version in a file.
    Update { pick: PickPath, val: String },
}

/// A step of a release, as contracts speak of it.
pub enum StepModel {
    Write { path: Seq<char>, val: Seq<char> },
    Update { pick: PickPath, val: Seq<char> },
    Commit,
    TagHead { tag: Seq<char> },
    Tag { tag: Seq<char>, oid: Seq<char> },
}

impl StepModel {
    /// Whether the step writes to a file.
    pub open spec fn is_write(self) -> bool {
        self is Write || self is Update
    }

    /// Whether the step moves a tag.
    pub open spec fn is_tag(self) -> bool {
        self is TagHead || self is Tag
    }
}

/// A step of a release.
#[derive(Debug)]
pub enum Step {
    /// Write the whole of a file.
    Write { path: String, val: String },
    /// Put a value in place of the version in a file.
    Update { pick: PickPath, val: String },
    /// Commit all changes.
    Commit,
    /// Move a tag to the head.
    TagHead { tag: String },
    /// Move a tag to a commit.
    Tag { tag: String, oid: String },
}

impl View for Step {
    type V = StepModel;

    open spec fn view(&self) -> StepModel {
        match self {
            Step::Write { path, val } => StepModel::Write { path: path@, val: val@ },
            Step::Update { pick, val } => StepModel::Update { pick: *pick, val: val@ },
            Step::Commit => StepModel::Commit,
            Step::TagHead { tag } => StepModel::TagHead { tag: tag@ },
            Step::Tag { tag, oid } => StepModel::Tag { tag: tag@, oid: oid@ },
        }
    }
}

/// Steps, as contracts speak of them.
pub open spec fn steps_view(v: Seq<Step>) -> Seq<StepModel> {
    Seq::new(v.len(), |i: int| v[i]@)
}

/// The step that performs a staged write.
pub open spec fn write_step(w: FileWrite) -> StepModel {
    match w {
        FileWrite::Write { path, val } => StepModel::Write { path: path@, val: val@ },
        FileWrite::Update { pick, val } => StepModel::Update { pick, val: val@ },
    }
}

/// The step that sets a tag for a project: on the head where the release wrote to the
/// project or the last commit of the project is not known, else on that commit.
pub open spec fn head_or_last_step(
    e: (String, ProjectId),
    written: Set<ProjectId>,
    lasts: Map<ProjectId, String>,
) -> StepModel {
    if written.contains(e.1) {
        StepModel::TagHead { tag: e.0@ }
    } else {
        match lasts.get(e.1) {
            Some(oid) => StepModel::Tag { tag: e.0@, oid: oid@ },
            None => StepModel::TagHead { tag: e.0@ },
        }
    }
}

/// The file writes and the tag moves that a release has staged.
#[derive(Debug)]
pub struct StateWrite {
    writes: Vec<FileWrite>,
    proj_writes: HashSet<ProjectId>,
    tag_head: Vec<String>,
    tag_commit: Vec<(String, String)>,
    tag_head_or_last: Vec<(String, ProjectId)>,
}

impl Default for StateWrite {
    fn default() -> (r: StateWrite)
        ensures
            r.is_drained(),
    {
        StateWrite::new()
    }
}

/// The steps of a release, in their order: the writes as they were staged; a commit, where
/// there is a write; the tags for the head; the tags of the projects; the tags for given
/// commits; and at last the tag of the release.
pub open spec fn script(
    writes: Seq<FileWrite>,
    written: Set<ProjectId>,
    head: Seq<String>,
    per_project: Seq<(String, ProjectId)>,
    fixed: Seq<(String, String)>,
    prev_tag: Seq<char>,
    lasts: Map<ProjectId, String>,
) -> Seq<StepModel> {
    Seq::new(writes.len(), |i: int| write_step(writes[i])) + (if writes.len() > 0 {
        seq![StepModel::Commit]
    } else {
        Seq::empty()
    }) + Seq::new(head.len(), |i: int| StepModel::TagHead { tag: head[i]@ }) + Seq::new(
        per_project.len(),
        |i: int| head_or_last_step(per_project[i], written, lasts),
    ) + Seq::new(fixed.len(), |i: int| StepModel::Tag { tag: fixed[i].0@, oid: fixed[i].1@ })
        + seq![StepModel::TagHead { tag: prev_tag }]
}

impl StateWrite {
    /// The staged writes, in the order in which they came.
    pub closed spec fn writes(&self) -> Seq<FileWrite> {
        self.writes@
    }

    /// The projects that a write was staged for.
    pub closed spec fn written(&self) -> Set<ProjectId> {
        self.proj_writes@
    }

    /// The tags that go on the commit of the release.
    pub closed spec fn head_tags(&self) -> Seq<String> {
        self.tag_head@
    }

    /// The tags that go on given commits. Of two entries under one tag the first counts.
    pub closed spec fn commit_tags(&self) -> Seq<(String, String)> {
        self.tag_commit@
    }

    /// The tags of projects, which go on the commit of the release or on the last commit of
    /// the project.
    pub closed spec fn project_tags(&self) -> Seq<(String, ProjectId)> {
        self.tag_head_or_last@
    }

    /// Whether nothing is staged.
    pub open spec fn is_drained(&self) -> bool {
        &&& self.writes().len() == 0
        &&& self.written() == Set::<ProjectId>::empty()
        &&& self.head_tags().len() == 0
        &&& self.commit_tags().len() == 0
        &&& self.project_tags().len() == 0
    }

    /// The steps that perform what is staged.
    pub open spec fn steps(&self, prev_tag: Seq<char>, lasts: Map<ProjectId, String>) -> Seq<
        StepModel,
    > {
        script(
            self.writes(),
            self.written(),
            self.head_tags(),
            self.project_tags(),
            self.commit_tags(),
            prev_tag,
            lasts,
        )
    }

    /// Nothing staged.
    pub fn new() -> (r: StateWrite)
        ensures
            r.is_drained(),
    {
        StateWrite {
            writes: Vec::new(),
            tag_head: Vec::new(),
            tag_commit: Vec::new(),
            tag_head_or_last: Vec::new(),
            proj_writes: HashSet::new(),
        }
    }

    /// Stages the writing of `content` as the whole of the file `file`, for the project.
    pub fn write_file(&mut self, file: String, content: String, proj_id: &ProjectId) -> (r: Result<
        (),
        Error,
    >)
        ensures
            r is Ok,
            final(self).writes() == old(self).writes().push(
                FileWrite::Write { path: file, val: content },
            ),
            final(self).written() == old(self).written().insert(*proj_id),
            final(self).head_tags() == old(self).head_tags(),
            final(self).commit_tags() == old(self).commit_tags(),
            final(self).project_tags() == old(self).project_tags(),
    {
        self.writes.push(FileWrite::Write { path: file, val: content });
        self.proj_writes.insert(*proj_id);
        Ok(())
    }

    /// Stages the writing of `content` in place of the version that `pick` finds, for the
    /// project.
    pub fn update_mark(&mut self, pick: PickPath, content: String, proj_id: &ProjectId) -> (r:
        Result<(), Error>)
        ensures
            r is Ok,
            final(self).writes() == old(self).writes().push(
                FileWrite::Update { pick, val: content },
            ),
            final(self).written() == old(self).written().insert(*proj_id),
            final(self).head_tags() == old(self).head_tags(),
            final(self).commit_tags() == old(self).commit_tags(),
            final(self).project_tags() == old(self).project_tags(),
    {
        self.writes.push(FileWrite::Update { pick, val: content });
        self.proj_writes.insert(*proj_id);
        Ok(())
    }

    /// Stages a tag for the commit of the release.
    pub fn tag_head(&mut self, tag: String) -> (r: Result<(), Error>)
        ensures
            r is Ok,
            final(self).head_tags() == old(self).head_tags().push(tag),
            final(self).writes() == old(self).writes(),
            final(self).written() == old(self).written(),
            final(self).commit_tags() == old(self).commit_tags(),
            final(self).project_tags() == old(self).project_tags(),
    {
        self.tag_head.push(tag);
        Ok(())
    }

    /// Stages a tag for the commit `oid`; an earlier commit for the same tag is given up.
    pub fn tag_commit(&mut self, tag: String, oid: String) -> (r: Result<(), Error>)
        ensures
            r is Ok,
            crate::table::lookup_text(final(self).commit_tags(), tag@) == Some(oid),
            forall|t: Seq<char>|
                t != tag@ ==> #[trigger] crate::table::lookup_text(final(self).commit_tags(), t)
                    == crate::table::lookup_text(old(self).commit_tags(), t),
            final(self).writes() == old(self).writes(),
            final(self).written() == old(self).written(),
            final(self).head_tags() == old(self).head_tags(),
            final(self).project_tags() == old(self).project_tags(),
    {
        put_text(&mut self.tag_commit, tag, oid);
        Ok(())
    }

    /// Stages a tag for the project: it goes on the commit of the release where the release
    /// writes to the project, else on the last commit that touched the project.
    pub fn tag_head_or_last(&mut self, tag: String, proj: &ProjectId) -> (r: Result<(), Error>)
        ensures
            r is Ok,
            final(self).project_tags() == old(self).project_tags().push((tag, *proj)),
            final(self).writes() == old(self).writes(),
            final(self).written() == old(self).written(),
            final(self).head_tags() == old(self).head_tags(),
            final(self).commit_tags() == old(self).commit_tags(),
    {
        self.tag_head_or_last.push((tag, *proj));
        Ok(())
    }

    /// The steps that perform what is staged, in the order in which they have to be taken:
    /// every write, one commit of all of them where there is any, then the tags, and the tag
    /// `prev_tag` of the release last. `last_commits` holds the last commit that touched each
    /// project. Nothing is staged afterwards.
    pub fn commit(&mut self, prev_tag: &str, last_commits: &HashMap<ProjectId, String>) -> (r: Vec<
        Step,
    >)
        ensures
            steps_view(r@) == old(self).steps(prev_tag@, last_commits@),
            final(self).is_drained(),
    {
        let ghost w = self.writes@;
        let ghost written = self.proj_writes@;
        let ghost head = self.tag_head@;
        let ghost per = self.tag_head_or_last@;
        let ghost fixed = self.tag_commit@;
        let ghost part1 = Seq::new(w.len(), |i: int| write_step(w[i]));
        let ghost part2 = part1 + (if w.len() > 0 {
            seq![StepModel::Commit]
        } else {
            Seq::empty()
        });
        let ghost part3 = part2 + Seq::new(head.len(), |i: int| StepModel::TagHead { tag: head[i]@ });
        let ghost part4 = part3 + Seq::new(
            per.len(),
            |i: int| head_or_last_step(per[i], written, last_commits@),
        );
        let ghost part5 = part4 + Seq::new(
            fixed.len(),
            |i: int| StepModel::Tag { tag: fixed[i].0@, oid: fixed[i].1@ },
        );
        let mut out: Vec<Step> = Vec::new();
        let mut src: Vec<FileWrite> = Vec::new();
        std::mem::swap(&mut src, &mut self.writes);
        let n = src.len();
        let mut i: usize = 0;
        while i < n
            invariant
                i <= n,
                n == w.len(),
                src.len() == n - i,
                src@ == w.skip(i as int),
                part1.len() == w.len(),
                forall|k: int| 0 <= k < w.len() ==> #[trigger] part1[k] == write_step(w[k]),
                steps_view(out@) == part1.take(i as int),
            decreases n - i,
        {
            let ghost old_src = src@;
            let ghost before = steps_view(out@);
            let e = src.remove(0);
            proof {
                assert(e == w[i as int]);
                assert(src@ =~= w.skip(i + 1));
            }
            let step = match e {
                FileWrite::Write { path, val } => Step::Write { path, val },
                FileWrite::Update { pick, val } => Step::Update { pick, val },
            };
            out.push(step);
            proof {
                assert(step@ == write_step(e));
                assert(part1[i as int] == write_step(w[i as int]));
                assert(steps_view(out@) =~= before.push(step@));
                assert(steps_view(out@) =~= part1.take(i + 1));
            }
            i = i + 1;
        }
        proof {
            assert(part1.take(n as int) =~= part1);
        }
        if n > 0 {
            let ghost before = steps_view(out@);
            out.push(Step::Commit);
            proof {
                assert(steps_view(out@) =~= before.push(StepModel::Commit));
            }
        }
        proof {
            assert(steps_view(out@) =~= part2);
        }
        let mut i: usize = 0;
        while i < self.tag_head.len()
            invariant
                i <= self.tag_head.len(),
                self.tag_head@ == head,
                self.proj_writes@ == written,
                self.tag_head_or_last@ == per,
                self.tag_commit@ == fixed,
                self.writes@.len() == 0,
                steps_view(out@) == part2 + Seq::new(
                    i as nat,
                    |k: int| StepModel::TagHead { tag: head[k]@ },
                ),
            decreases self.tag_head.len() - i,
        {
            let ghost before = steps_view(out@);
            let step = Step::TagHead { tag: self.tag_head[i].clone() };
            out.push(step);
            proof {
                assert(steps_view(out@) =~= before.push(step@));
                assert(steps_view(out@) =~= part2 + Seq::new(
                    (i + 1) as nat,
                    |k: int| StepModel::TagHead { tag: head[k]@ },
                ));
            }
            i = i + 1;
        }
        proof {
            assert(steps_view(out@) =~= part3);
        }
        let mut i: usize = 0;
        while i < self.tag_head_or_last.len()
            invariant
                i <= self.tag_head_or_last.len(),
                self.tag_head@ == head,
                self.proj_writes@ == written,
                self.tag_head_or_last@ == per,
                self.tag_commit@ == fixed,
                self.writes@.len() == 0,
                steps_view(out@) == part3 + Seq::new(
                    i as nat,
                    |k: int| head_or_last_step(per[k], written, last_commits@),
                ),
            decreases self.tag_head_or_last.len() - i,
        {
            let ghost before = steps_view(out@);
            let tag = self.tag_head_or_last[i].0.clone();
            let proj = self.tag_head_or_last[i].1;
            let step = if self.proj_writes.contains(&proj) {
                Step::TagHead { tag }
            } else {
                match last_commits.get(&proj) {
                    Some(oid) => Step::Tag { tag, oid: oid.clone() },
                    None => Step::TagHead { tag },
                }
            };
            out.push(step);
            proof {
                assert(step@ == head_or_last_step(per[i as int], written, last_commits@));
                assert(steps_view(out@) =~= before.push(step@));
                assert(steps_view(out@) =~= part3 + Seq::new(
                    (i + 1) as nat,
                    |k: int| head_or_last_step(per[k], written, last_commits@),
                ));
            }
            i = i + 1;
        }
        proof {
            assert(steps_view(out@) =~= part4);
        }
        let mut i: usize = 0;
        while i < self.tag_commit.len()
            invariant
                i <= self.tag_commit.len(),
                self.tag_head@ == head,
                self.proj_writes@ == written,
                self.tag_head_or_last@ == per,
                self.tag_commit@ == fixed,
                self.writes@.len() == 0,
                steps_view(out@) == part4 + Seq::new(
                    i as nat,
                    |k: int| StepModel::Tag { tag: fixed[k].0@, oid: fixed[k].1@ },
                ),
            decreases self.tag_commit.len() - i,
        {
            let ghost before = steps_view(out@);
            let step = Step::Tag {
                tag: self.tag_commit[i].0.clone(),
                oid: self.tag_commit[i].1.clone(),
            };
            out.push(step);
            proof {
                assert(steps_view(out@) =~= before.push(step@));
                assert(steps_view(out@) =~= part4 + Seq::new(
                    (i + 1) as nat,
                    |k: int| StepModel::Tag { tag: fixed[k].0@, oid: fixed[k].1@ },
                ));
            }
            i = i + 1;
        }
        proof {
            assert(steps_view(out@) =~= part5);
        }
        let ghost before = steps_view(out@);
        let last = Step::TagHead { tag: prev_tag.to_owned() };
        out.push(last);
        proof {
            assert(steps_view(out@) =~= before.push(last@));
            assert(steps_view(out@) =~= part5 + seq![StepModel::TagHead { tag: prev_tag@ }]);
        }
        self.tag_head.clear();
        self.tag_head_or_last.clear();
        self.proj_writes.clear();
        self.tag_commit.clear();
        out
    }
}

impl Step {
    /// Whether the step writes to a file.
    pub fn is_write(&self) -> (r: bool)
        ensures
            r == self@.is_write(),
    {
        match self {
            Step::Write { .. } => true,
            Step::Update { .. } => true,
            _ => false,
        }
    }
}

/// The steps of a release in two parts: those to take now, and those that wait. A release
/// that is not paused takes every step now. A paused release takes the writes with which the
/// steps begin, and the rest waits, from the first step that is no write on.
pub fn split_steps(steps: Vec<Step>, pause: bool) -> (r: (Vec<Step>, Vec<Step>))
    ensures
        steps_view(r.0@) + steps_view(r.1@) == steps_view(steps@),
        !pause ==> r.1@.len() == 0,
        pause ==> forall|i: int| 0 <= i < r.0@.len() ==> (#[trigger] r.0@[i])@.is_write(),
        pause && r.1@.len() > 0 ==> !r.1@[0]@.is_write(),
{
    let mut now = steps;
    if !pause {
        let later: Vec<Step> = Vec::new();
        proof {
            assert(steps_view(now@) + steps_view(later@) =~= steps_view(steps@));
        }
        return (now, later);
    }
    let mut k: usize = 0;
    while k < now.len() && now[k].is_write()
        invariant
            k <= now.len(),
            now@ == steps@,
            forall|i: int| 0 <= i < k ==> (#[trigger] now@[i])@.is_write(),
        decreases now.len() - k,
    {
        k = k + 1;
    }
    let later = now.split_off(k);
    proof {
        assert(steps_view(now@) + steps_view(later@) =~= steps_view(steps@));
    }
    (now, later)
}

/// The taking of steps one by one: the steps, how many of them were taken, and whether one
/// has failed. After a failure no further step is taken.
#[derive(Debug)]
pub struct StepRun {
    steps: Vec<Step>,
    at: usize,
    failed: bool,
}

impl StepRun {
    /// The steps, as contracts speak of them.
    pub closed spec fn steps(&self) -> Seq<Step> {
        self.steps@
    }

    /// How many steps were taken with success.
    pub closed spec fn taken(&self) -> nat {
        self.at as nat
    }

    /// Whether a step has failed.
    pub closed spec fn has_failed(&self) -> bool {
        self.failed
    }

    /// Whether a step is to be taken: none has failed, and not all are taken.
    pub open spec fn is_open(&self) -> bool {
        !self.has_failed() && self.taken() < self.steps().len()
    }

    /// The run of the steps `steps`, of which none is taken yet.
    pub fn new(steps: Vec<Step>) -> (r: StepRun)
        ensures
            r.steps() == steps@,
            r.taken() == 0,
            !r.has_failed(),
    {
        StepRun { steps, at: 0, failed: false }
    }

    /// The step to take next: the first that is not taken, unless a step has failed.
    pub fn next(&self) -> (r: Option<&Step>)
        ensures
            r is Some == self.is_open(),
            r matches Some(step) ==> *step == self.steps()[self.taken() as int],
    {
        if !self.failed && self.at < self.steps.len() {
            Some(&self.steps[self.at])
        } else {
            None
        }
    }

    /// Notes how the step that `next` gave went: with success it counts as taken, else the
    /// run has failed. Where no step was to be taken nothing changes.
    pub fn report(&mut self, ok: bool)
        ensures
            final(self).steps() == old(self).steps(),
            final(self).taken() == (if old(self).is_open() && ok {
                old(self).taken() + 1
            } else {
                old(self).taken()
            }),
            final(self).has_failed() == (old(self).has_failed() || (old(self).is_open() && !ok)),
    {
        if !self.failed && self.at < self.steps.len() {
            if ok {
                self.at = self.at + 1;
            } else {
                self.failed = true;
            }
        }
    }

    /// Whether every step was taken.
    pub fn is_done(&self) -> (r: bool)
        ensures
            r == (self.taken() == self.steps().len()),
    {
        self.at == self.steps.len()
    }
}

/// In the steps of a release, what comes before a write and the write itself are writes: so
/// where a write fails and the steps end there, nothing was committed and no tag has moved.
pub proof fn lemma_only_writes_before_a_write(
    writes: Seq<FileWrite>,
    written: Set<ProjectId>,
    head: Seq<String>,
    per_project: Seq<(String, ProjectId)>,
    fixed: Seq<(String, String)>,
    prev_tag: Seq<char>,
    lasts: Map<ProjectId, String>,
    at: int,
)
    requires
        0 <= at < script(writes, written, head, per_project, fixed, prev_tag, lasts).len(),
        script(writes, written, head, per_project, fixed, prev_tag, lasts)[at].is_write(),
    ensures
        forall|j: int|
            0 <= j <= at ==> {
                let step = #[trigger] script(
                    writes,
                    written,
                    head,
                    per_project,
                    fixed,
                    prev_tag,
                    lasts,
                )[j];
                step.is_write() && !(step is Commit) && !step.is_tag()
            },
{
    lemma_script_order(writes, written, head, per_project, fixed, prev_tag, lasts);
    let s = script(writes, written, head, per_project, fixed, prev_tag, lasts);
    assert forall|j: int| 0 <= j <= at implies {
        let step = #[trigger] s[j];
        step.is_write() && !(step is Commit) && !step.is_tag()
    } by {
        assert(at < writes.len());
        assert(s[j] == write_step(writes[j]));
    }
}

/// Of the steps of a paused release, the part that waits holds no write: it begins with
/// the commit, where there is a write, and holds the tag moves.
pub proof fn lemma_paused_steps_wait(
    writes: Seq<FileWrite>,
    written: Set<ProjectId>,
    head: Seq<String>,
    per_project: Seq<(String, ProjectId)>,
    fixed: Seq<(String, String)>,
    prev_tag: Seq<char>,
    lasts: Map<ProjectId, String>,
    now: Seq<StepModel>,
    later: Seq<StepModel>,
)
    requires
        now + later == script(writes, written, head, per_project, fixed, prev_tag, lasts),
        forall|i: int| 0 <= i < now.len() ==> (#[trigger] now[i]).is_write(),
        later.len() > 0 ==> !later[0].is_write(),
    ensures
        now.len() == writes.len(),
        forall|i: int| 0 <= i < later.len() ==> !(#[trigger] later[i]).is_write(),
        writes.len() > 0 ==> later.len() > 0 && later[0] is Commit,
{
    lemma_script_order(writes, written, head, per_project, fixed, prev_tag, lasts);
    let s = script(writes, written, head, per_project, fixed, prev_tag, lasts);
    let w = writes.len() as int;
    assert forall|i: int| 0 <= i < w implies (#[trigger] s[i]).is_write() by {
        assert(s[i] == write_step(writes[i]));
    }
    if now.len() > w {
        assert(now[w] == s[w]);
        assert(s[w].is_write());
    }
    if now.len() < w {
        assert(later[0] == s[now.len() as int]);
    }
    assert forall|i: int| 0 <= i < later.len() implies !(#[trigger] later[i]).is_write() by {
        assert(later[i] == s[w + i]);
    }
    if w > 0 {
        assert(s.len() > w);
        assert(later[0] == s[w]);
    }
}

/// In the steps of a release every write comes before the commit and every tag move after
/// it: once the commit or a tag move has been taken, only tag moves follow. So where a step
/// fails before the commit, nothing was committed and no tag has moved. There is a commit
/// exactly where there is a write, and the last step moves the tag of the release.
pub proof fn lemma_script_order(
    writes: Seq<FileWrite>,
    written: Set<ProjectId>,
    head: Seq<String>,
    per_project: Seq<(String, ProjectId)>,
    fixed: Seq<(String, String)>,
    prev_tag: Seq<char>,
    lasts: Map<ProjectId, String>,
)
    ensures
        ({
            let s = script(writes, written, head, per_project, fixed, prev_tag, lasts);
            &&& s.len() > 0
            &&& s.last() == (StepModel::TagHead { tag: prev_tag })
            &&& forall|i: int, j: int|
                0 <= i < j < s.len() && !s[i].is_write() ==> s[j].is_tag()
            &&& forall|i: int| 0 <= i < s.len() && s[i].is_write() ==> i < writes.len()
            &&& (exists|i: int| 0 <= i < s.len() && s[i] is Commit) <==> writes.len() > 0
            &&& forall|i: int| 0 <= i < s.len() && s[i] is Commit ==> i == writes.len()
        }),
{
    let s = script(writes, written, head, per_project, fixed, prev_tag, lasts);
    let w = writes.len() as int;
    let c: int = if writes.len() > 0 {
        1
    } else {
        0
    };
    assert forall|i: int| 0 <= i < w implies s[i] == write_step(writes[i]) by {}
    assert forall|i: int| w + c <= i < s.len() implies s[i].is_tag() by {}
    if w > 0 {
        assert(s[w] is Commit);
    }
}

} // verus!

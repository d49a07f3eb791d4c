//! The release plan: the size by which the version of each project moves, found from the pull
//! requests and commits since the last release.

use crate::changes::{
    applying, commits_view, deduped, greatest, max_size, sorted_log, ChangeLog, CommitData,
    CommitModel, FullPr, PrModel, SizedPr, SizedPrCommit, Timestamp,
};
use crate::config::{
    commit_size, find_project, index_of, is_id, kind_size, ConfigFile, Project,
};
use crate::error::{Error, ErrorKind};
use crate::size::Size;
use crate::table::{first_where, lemma_first_where, lemma_first_where_is, ProjectId};
use std::collections::HashMap;
use vstd::prelude::*;
use vstd::string::StringExecFns;

verus! {

broadcast use vstd::std_specs::hash::group_hash_axioms;

/// What a plan holds for a project: the size, the last commit that touched the project, and
/// the change log.
pub type Incr = (Size, Option<String>, ChangeLog);

/// What a plan holds for a project, as contracts speak of it.
pub struct IncrModel {
    pub size: Size,
    pub last_commit: Option<Seq<char>>,
    pub log: Seq<(PrModel, Size)>,
}

/// What a plan holds for a project before anything is known of the project.
pub open spec fn blank() -> IncrModel {
    IncrModel { size: Size::Empty, last_commit: None, log: Seq::empty() }
}

/// The text of a string that may be missing.
pub open spec fn text_of(s: Option<String>) -> Option<Seq<char>> {
    match s {
        Some(t) => Some(t@),
        None => None,
    }
}

/// The entry of a project, as contracts speak of it.
pub open spec fn incr_view(e: Incr) -> IncrModel {
    IncrModel { size: e.0, last_commit: text_of(e.1), log: e.2@ }
}

/// The entry of a project that may be missing, as contracts speak of it.
pub open spec fn slot_view(e: Option<Incr>) -> Option<IncrModel> {
    match e {
        Some(x) => Some(incr_view(x)),
        None => None,
    }
}

/// The numbers of the projects, each once, in the order in which they first stand.
pub open spec fn slot_ids(projects: Seq<Project>) -> Seq<ProjectId>
    decreases projects.len(),
{
    if projects.len() == 0 {
        Seq::empty()
    } else {
        let ids = slot_ids(projects.drop_last());
        if ids.contains(projects.last().id) {
            ids
        } else {
            ids.push(projects.last().id)
        }
    }
}

/// The test that accepts the commits with the id `oid`.
pub open spec fn has_oid(oid: Seq<char>) -> spec_fn(CommitModel) -> bool {
    |c: CommitModel| c.oid == oid
}

/// The commits with the first commit of the id `oid` marked as applying.
pub open spec fn mark_first(commits: Seq<CommitModel>, oid: Seq<char>) -> Seq<CommitModel> {
    let k = first_where(commits, has_oid(oid)) as int;
    if k < commits.len() {
        commits.update(k, CommitModel { applies: true, ..commits[k] })
    } else {
        commits
    }
}

/// Whether one of the projects with the number `id` covers `path`.
pub open spec fn covered_by(projects: Seq<Project>, id: ProjectId, path: Seq<char>) -> bool {
    exists|j: int|
        0 <= j < projects.len() && projects[j].id == id && #[trigger] projects[j].covers(path)
            == Some(true)
}

/// Whether one of the projects whose number is in `ids` has no answer for `path`.
pub open spec fn cover_fails(projects: Seq<Project>, ids: Seq<ProjectId>, path: Seq<char>) -> bool {
    exists|j: int|
        0 <= j < projects.len() && ids.contains(projects[j].id) && #[trigger] projects[j].covers(
            path,
        ) is None
}

/// The entry of a project after a pull request: where a commit of the pull request applies
/// to the project, the size rises to the greatest size of such commits and the pull request
/// joins the change log. An entry that was missing starts blank.
pub open spec fn merged(old: Option<IncrModel>, pr: PrModel) -> IncrModel {
    let base = match old {
        Some(b) => b,
        None => blank(),
    };
    match max_size(pr.commits, applying()) {
        Some(sz) => IncrModel {
            size: base.size.spec_max(sz),
            log: base.log.push((pr, sz)),
            ..base
        },
        None => base,
    }
}

/// The state of the planner, as contracts speak of it. The slots and the entries stand in the
/// order of `ids`.
pub struct PlanState {
    /// The numbers of the projects of the manifest, each once.
    pub ids: Seq<ProjectId>,
    /// The number and the closing time of the pull request that is being considered.
    pub pr: Option<(u32, Timestamp)>,
    /// For each project, the commits of that pull request.
    pub slots: Seq<Seq<CommitModel>>,
    /// The id of the commit that is being considered.
    pub on_commit: Option<Seq<char>>,
    /// For each project, what the plan holds for it so far.
    pub incrs: Seq<Option<IncrModel>>,
    /// The pull requests that applied to no project.
    pub ineffective: Seq<PrModel>,
}

impl PlanState {
    /// Whether there is a slot and an entry for each project.
    pub open spec fn wf(self) -> bool {
        self.slots.len() == self.ids.len() && self.incrs.len() == self.ids.len()
    }

    /// The state before anything is considered.
    pub open spec fn start(ids: Seq<ProjectId>) -> PlanState {
        PlanState {
            ids,
            pr: None,
            slots: Seq::new(ids.len(), |i: int| Seq::empty()),
            on_commit: None,
            incrs: Seq::new(ids.len(), |i: int| None),
            ineffective: Seq::empty(),
        }
    }

    /// The state once a pull request is taken up: every slot is empty.
    pub open spec fn with_pr(self, number: u32, closed_at: Timestamp) -> PlanState {
        PlanState {
            pr: Some((number, closed_at)),
            slots: Seq::new(self.ids.len(), |i: int| Seq::empty()),
            ..self
        }
    }

    /// Whether a commit cannot be taken up: a pull request is being considered, there are
    /// projects, and the kind of the commit has no size.
    pub open spec fn refuses_commit(self, size: Option<Size>) -> bool {
        self.pr is Some && self.ids.len() > 0 && size is None
    }

    /// The state once a commit is taken up: where a pull request is being considered and the
    /// commit has a size, the commit joins every slot.
    pub open spec fn with_commit(self, oid: Seq<char>, message: Seq<char>, size: Option<Size>)
        -> PlanState {
        PlanState {
            on_commit: Some(oid),
            slots: if self.pr is Some && size is Some {
                Seq::new(
                    self.ids.len(),
                    |i: int|
                        self.slots[i].push(
                            CommitModel {
                                oid,
                                message,
                                size: size.unwrap(),
                                applies: false,
                                duplicate: false,
                            },
                        ),
                )
            } else {
                self.slots
            },
            ..self
        }
    }

    /// The state once a file of the commit is taken up: in the slot of each project that `hit`
    /// accepts, the commit applies.
    pub open spec fn with_file(self, hit: spec_fn(ProjectId) -> bool) -> PlanState {
        PlanState {
            slots: Seq::new(
                self.ids.len(),
                |i: int|
                    if hit(self.ids[i]) {
                        mark_first(self.slots[i], self.on_commit.unwrap())
                    } else {
                        self.slots[i]
                    },
            ),
            ..self
        }
    }

    /// The pull request that is being considered, with the commits of the slot `i`.
    pub open spec fn pr_at(self, i: int) -> PrModel {
        PrModel { number: self.pr.unwrap().0, closed_at: self.pr.unwrap().1, commits: self.slots[i] }
    }

    /// Whether a commit of the pull request applies to a project.
    pub open spec fn effective(self) -> bool {
        exists|i: int|
            0 <= i < self.ids.len() && max_size(#[trigger] self.slots[i], applying()) is Some
    }

    /// The state once the pull request is finished: every entry takes in its slot, and a pull
    /// request that applied to no project joins the ineffective ones, without commits.
    pub open spec fn after_pr(self) -> PlanState {
        PlanState {
            pr: None,
            slots: Seq::new(self.ids.len(), |i: int| Seq::empty()),
            incrs: Seq::new(self.ids.len(), |i: int| Some(merged(self.incrs[i], self.pr_at(i)))),
            ineffective: if self.effective() {
                self.ineffective
            } else {
                self.ineffective.push(
                    PrModel {
                        number: self.pr.unwrap().0,
                        closed_at: self.pr.unwrap().1,
                        commits: Seq::empty(),
                    },
                )
            },
            ..self
        }
    }

    /// The state once the last commits are known: each entry that is there takes the commit
    /// that stands under its project.
    pub open spec fn with_last_commits(self, lasts: Map<ProjectId, String>) -> PlanState {
        PlanState {
            incrs: Seq::new(
                self.ids.len(),
                |i: int|
                    match (self.incrs[i], lasts.get(self.ids[i])) {
                        (Some(e), Some(c)) => Some(IncrModel { last_commit: Some(c@), ..e }),
                        (e, _) => e,
                    },
            ),
            ..self
        }
    }

    /// Whether `r` is this state with the sizes carried along the dependencies of the
    /// projects: every entry is there, blank but for its size where it was missing, and
    /// nothing else has changed.
    pub open spec fn deps_done(self, projects: Seq<Project>, r: PlanState) -> bool {
        &&& r.ids == self.ids
        &&& r.pr == self.pr
        &&& r.slots == self.slots
        &&& r.on_commit == self.on_commit
        &&& r.ineffective == self.ineffective
        &&& r.incrs.len() == self.incrs.len()
        &&& forall|i: int|
            0 <= i < self.incrs.len() ==> #[trigger] r.incrs[i] == Some(
                IncrModel {
                    size: sizes_of(r.incrs)[i],
                    ..match self.incrs[i] {
                        Some(e) => e,
                        None => blank(),
                    }
                },
            )
        &&& propagated(projects, self.ids, sizes_of(self.incrs), sizes_of(r.incrs))
    }

    /// The state once every change log is put in the order in which the pull requests were
    /// closed and its duplicates are marked.
    pub open spec fn after_dedup(self) -> PlanState {
        PlanState {
            incrs: Seq::new(
                self.ids.len(),
                |i: int|
                    match self.incrs[i] {
                        Some(e) => Some(IncrModel { log: deduped(sorted_log(e.log)), ..e }),
                        None => None,
                    },
            ),
            ..self
        }
    }

    /// The entries that are there, each with its project, in the order of the projects.
    pub open spec fn entries(self) -> Seq<(ProjectId, IncrModel)> {
        present(self.ids, self.incrs)
    }
}

/// The size of each entry; a missing entry counts as empty.
pub open spec fn sizes_of(incrs: Seq<Option<IncrModel>>) -> Seq<Size> {
    Seq::new(
        incrs.len(),
        |i: int|
            match incrs[i] {
                Some(e) => e.size,
                None => Size::Empty,
            },
    )
}

/// Whether the project of the slot `i` depends on the project of the slot `j`, as the first
/// project with the number of the slot `i` says.
pub open spec fn depends_on(projects: Seq<Project>, ids: Seq<ProjectId>, i: int, j: int) -> bool {
    projects[index_of(projects, ids[i]) as int].depends@.contains(ids[j])
}

/// Whether no project has a smaller size than a project that it depends on.
pub open spec fn closed(projects: Seq<Project>, ids: Seq<ProjectId>, sizes: Seq<Size>) -> bool {
    forall|i: int, j: int|
        0 <= i < ids.len() && 0 <= j < ids.len() && #[trigger] depends_on(projects, ids, i, j)
            ==> sizes[i].rank() >= sizes[j].rank()
}

/// Whether each size of `a` is at least the size of `b` in its place.
pub open spec fn above(a: Seq<Size>, b: Seq<Size>) -> bool {
    a.len() == b.len() && forall|i: int| 0 <= i < a.len() ==> a[i].rank() >= b[i].rank()
}

/// Whether `after` is what the sizes `before` become when they are carried along the
/// dependencies: no size falls, no project is left with a smaller size than a project that
/// it depends on, and no sizes of which this holds are smaller anywhere.
pub open spec fn propagated(
    projects: Seq<Project>,
    ids: Seq<ProjectId>,
    before: Seq<Size>,
    after: Seq<Size>,
) -> bool {
    &&& above(after, before)
    &&& closed(projects, ids, after)
    &&& forall|g: Seq<Size>|
        above(g, before) && closed(projects, ids, g) ==> #[trigger] above(g, after)
}

/// The sum of the places of the sizes in the order.
pub open spec fn total_rank(sizes: Seq<Size>) -> nat
    decreases sizes.len(),
{
    if sizes.len() == 0 {
        0
    } else {
        total_rank(sizes.drop_last()) + sizes.last().rank()
    }
}

/// The sum of the places is at most four for each size.
proof fn lemma_total_rank_bound(sizes: Seq<Size>)
    ensures
        total_rank(sizes) <= 4 * sizes.len(),
    decreases sizes.len(),
{
    if sizes.len() > 0 {
        lemma_total_rank_bound(sizes.drop_last());
    }
}

/// A size that rises raises the sum of the places.
proof fn lemma_total_rank_update(sizes: Seq<Size>, i: int, s: Size)
    requires
        0 <= i < sizes.len(),
    ensures
        total_rank(sizes.update(i, s)) == total_rank(sizes) - sizes[i].rank() + s.rank(),
    decreases sizes.len(),
{
    let after = sizes.update(i, s);
    if i == sizes.len() - 1 {
        assert(after.drop_last() =~= sizes.drop_last());
    } else {
        lemma_total_rank_update(sizes.drop_last(), i, s);
        assert(after.drop_last() =~= sizes.drop_last().update(i, s));
    }
}

/// After the sizes are carried along the dependencies, no project has a smaller size than a
/// project that it depends on.
pub proof fn lemma_dependent_not_smaller(
    projects: Seq<Project>,
    ids: Seq<ProjectId>,
    before: Seq<Size>,
    after: Seq<Size>,
    dependent: int,
    on: int,
)
    requires
        before.len() == ids.len(),
        propagated(projects, ids, before, after),
        0 <= dependent < ids.len(),
        0 <= on < ids.len(),
        depends_on(projects, ids, dependent, on),
    ensures
        after[dependent].rank() >= after[on].rank(),
        after[dependent].rank() >= before[dependent].rank(),
{
}

/// The sizes that are carried along the dependencies have one outcome only.
pub proof fn lemma_propagated_once(
    projects: Seq<Project>,
    ids: Seq<ProjectId>,
    before: Seq<Size>,
    a: Seq<Size>,
    b: Seq<Size>,
)
    requires
        propagated(projects, ids, before, a),
        propagated(projects, ids, before, b),
    ensures
        a == b,
{
    assert(above(a, b));
    assert(above(b, a));
    assert forall|i: int| 0 <= i < a.len() implies a[i] == b[i] by {
        assert(a[i].rank() == b[i].rank());
    }
    assert(a =~= b);
}

/// The entries of `incrs` that are there, each with its number from `ids`.
pub open spec fn present(ids: Seq<ProjectId>, incrs: Seq<Option<IncrModel>>) -> Seq<
    (ProjectId, IncrModel),
>
    decreases incrs.len(),
{
    if incrs.len() == 0 || ids.len() != incrs.len() {
        Seq::empty()
    } else {
        let rest = present(ids.drop_last(), incrs.drop_last());
        match incrs.last() {
            Some(e) => rest.push((ids.last(), e)),
            None => rest,
        }
    }
}

/// The entries of a plan, as contracts speak of them.
pub open spec fn incrs_view(v: Seq<(ProjectId, Incr)>) -> Seq<(ProjectId, IncrModel)> {
    Seq::new(v.len(), |i: int| (v[i].0, incr_view(v[i].1)))
}

/// Pull requests, as contracts speak of them.
pub open spec fn prs_view(v: Seq<SizedPr>) -> Seq<PrModel> {
    Seq::new(v.len(), |i: int| v[i]@)
}

/// A release plan: for each project the size by which its version moves, the last commit that
/// touched it and its change log; and the pull requests that applied to no project.
#[derive(Debug)]
pub struct Plan {
    incrs: Vec<(ProjectId, Incr)>,
    ineffective: Vec<SizedPr>,
}

impl Plan {
    /// The entries of the plan, as contracts speak of them.
    pub closed spec fn spec_incrs(&self) -> Seq<(ProjectId, IncrModel)> {
        incrs_view(self.incrs@)
    }

    /// The pull requests that applied to no project, as contracts speak of them.
    pub closed spec fn spec_ineffective(&self) -> Seq<PrModel> {
        prs_view(self.ineffective@)
    }

    /// The entries of the plan, in the order of the projects in the manifest.
    pub fn incrs(&self) -> (r: &Vec<(ProjectId, Incr)>)
        ensures
            incrs_view(r@) == self.spec_incrs(),
    {
        &self.incrs
    }

    /// The pull requests that applied to no project.
    pub fn ineffective(&self) -> (r: &Vec<SizedPr>)
        ensures
            prs_view(r@) == self.spec_ineffective(),
    {
        &self.ineffective
    }
}

/// Whether `id` is among `ids`.
fn holds_id(ids: &Vec<ProjectId>, id: ProjectId) -> (r: bool)
    ensures
        r == ids@.contains(id),
{
    let mut i: usize = 0;
    while i < ids.len()
        invariant
            i <= ids.len(),
            forall|j: int| 0 <= j < i ==> ids@[j] != id,
        decreases ids.len() - i,
    {
        if ids[i] == id {
            return true;
        }
        i = i + 1;
    }
    false
}

/// The index of `id` in `ids`, or the length of `ids` where it is not among them.
fn index_in(ids: &Vec<ProjectId>, id: ProjectId) -> (r: usize)
    ensures
        r <= ids.len(),
        r < ids.len() ==> ids@[r as int] == id,
        r == ids.len() ==> !ids@.contains(id),
        forall|j: int| 0 <= j < r ==> ids@[j] != id,
{
    let mut i: usize = 0;
    while i < ids.len() && ids[i] != id
        invariant
            i <= ids.len(),
            forall|j: int| 0 <= j < i ==> ids@[j] != id,
        decreases ids.len() - i,
    {
        i = i + 1;
    }
    i
}

/// No number stands twice among the numbers of the slots.
pub proof fn lemma_slot_ids_distinct(projects: Seq<Project>)
    ensures
        slot_ids(projects).no_duplicates(),
        forall|j: int|
            0 <= j < projects.len() ==> slot_ids(projects).contains(#[trigger] projects[j].id),
        forall|id: ProjectId|
            slot_ids(projects).contains(id) ==> exists|j: int|
                0 <= j < projects.len() && #[trigger] projects[j].id == id,
    decreases projects.len(),
{
    if projects.len() > 0 {
        let rest = projects.drop_last();
        lemma_slot_ids_distinct(rest);
        let ids = slot_ids(rest);
        let last = projects.last().id;
        let all = slot_ids(projects);
        if !ids.contains(last) {
            assert(all[ids.len() as int] == last);
        }
        assert forall|j: int| 0 <= j < projects.len() implies all.contains(
            #[trigger] projects[j].id,
        ) by {
            if j < rest.len() {
                assert(rest[j] == projects[j]);
                assert(ids.contains(rest[j].id));
                let k = choose|k: int| 0 <= k < ids.len() && ids[k] == rest[j].id;
                assert(all[k] == ids[k]);
            }
        }
        assert forall|id: ProjectId| all.contains(id) implies exists|j: int|
            0 <= j < projects.len() && #[trigger] projects[j].id == id by {
            let k = choose|k: int| 0 <= k < all.len() && all[k] == id;
            if k < ids.len() {
                assert(ids[k] == all[k]);
                assert(ids.contains(id));
                let j = choose|j: int| 0 <= j < rest.len() && #[trigger] rest[j].id == id;
                assert(projects[j].id == id);
            } else {
                assert(projects[projects.len() - 1].id == id);
            }
        }
    }
}

/// The test that accepts the numbers of the projects among `projects` that cover `path`.
pub open spec fn covering(projects: Seq<Project>, path: Seq<char>) -> spec_fn(ProjectId) -> bool {
    |id: ProjectId| covered_by(projects, id, path)
}

/// Marks the first commit of the id `oid` as applying.
fn mark_commit(commits: &mut Vec<SizedPrCommit>, oid: &str)
    ensures
        commits_view(final(commits)@) == mark_first(commits_view(old(commits)@), oid@),
{
    let ghost model = commits_view(commits@);
    let owned = oid.to_owned();
    let mut k: usize = 0;
    while k < commits.len() && !same_oid(&commits[k], &owned)
        invariant
            k <= commits.len(),
            owned@ == oid@,
            model == commits_view(commits@),
            commits == old(commits),
            forall|j: int| 0 <= j < k ==> !has_oid(oid@)(#[trigger] model[j]),
        decreases commits.len() - k,
    {
        k = k + 1;
    }
    proof {
        lemma_first_where_is(model, has_oid(oid@), k as int);
    }
    if k < commits.len() {
        commits[k].set_applies();
        proof {
            assert(commits_view(commits@) =~= mark_first(model, oid@));
        }
    }
}

/// Whether the commit has the id `oid`.
fn same_oid(c: &SizedPrCommit, oid: &String) -> (r: bool)
    ensures
        r == (c@.oid == oid@),
{
    let mine = c.oid().to_owned();
    mine == *oid
}

/// The planner: it takes up the pull requests since the last release one by one, each with
/// its commits and their files, and gathers what the plan holds for each project.
#[derive(Debug)]
pub struct PlanConsider<'s> {
    current: &'s ConfigFile,
    prev: ConfigFile,
    ids: Vec<ProjectId>,
    pr: Option<(u32, Timestamp)>,
    slots: Vec<Vec<SizedPrCommit>>,
    on_commit: Option<String>,
    incrs: Vec<Option<Incr>>,
    ineffective: Vec<SizedPr>,
}

impl<'s> View for PlanConsider<'s> {
    type V = PlanState;

    closed spec fn view(&self) -> PlanState {
        PlanState {
            ids: self.ids@,
            pr: self.pr,
            slots: Seq::new(self.slots@.len(), |i: int| commits_view(self.slots@[i]@)),
            on_commit: text_of(self.on_commit),
            incrs: Seq::new(self.incrs@.len(), |i: int| slot_view(self.incrs@[i])),
            ineffective: prs_view(self.ineffective@),
        }
    }
}

impl<'s> PlanConsider<'s> {
    /// The manifest of the working tree.
    pub closed spec fn manifest(&self) -> ConfigFile {
        *self.current
    }

    /// The manifest as it stood at the commit that is being considered.
    pub closed spec fn earlier(&self) -> ConfigFile {
        self.prev
    }

    /// Whether the planner is in order: its projects are those of the manifest, and there is a
    /// slot and an entry for each.
    pub open spec fn wf(&self) -> bool {
        self@.wf() && self@.ids == slot_ids(self.manifest().projects@)
    }

    /// A planner for the manifest `current`, with `prev` as the manifest of the last release.
    pub fn new(prev: ConfigFile, current: &'s ConfigFile) -> (r: PlanConsider<'s>)
        ensures
            r.wf(),
            r@ == PlanState::start(slot_ids(current.projects@)),
            r.manifest() == *current,
            r.earlier() == prev,
    {
        let mut ids: Vec<ProjectId> = Vec::new();
        let mut slots: Vec<Vec<SizedPrCommit>> = Vec::new();
        let mut incrs: Vec<Option<Incr>> = Vec::new();
        let mut i: usize = 0;
        while i < current.projects.len()
            invariant
                i <= current.projects.len(),
                ids@ == slot_ids(current.projects@.take(i as int)),
                slots.len() == ids.len(),
                incrs.len() == ids.len(),
                forall|k: int| 0 <= k < slots.len() ==> (#[trigger] slots@[k])@.len() == 0,
                forall|k: int| 0 <= k < incrs.len() ==> #[trigger] incrs@[k] is None,
            decreases current.projects.len() - i,
        {
            proof {
                let t = current.projects@.take(i + 1);
                assert(t.drop_last() =~= current.projects@.take(i as int));
                assert(t.last() == current.projects@[i as int]);
            }
            let id = current.projects[i].id;
            if !holds_id(&ids, id) {
                ids.push(id);
                slots.push(Vec::new());
                incrs.push(None);
            }
            i = i + 1;
        }
        proof {
            assert(current.projects@.take(current.projects.len() as int) =~= current.projects@);
        }
        let r = PlanConsider {
            current,
            prev,
            ids,
            pr: None,
            slots,
            on_commit: None,
            incrs,
            ineffective: Vec::new(),
        };
        proof {
            let m = PlanState::start(slot_ids(current.projects@));
            assert(r@.slots =~= m.slots) by {
                assert forall|k: int| 0 <= k < r@.slots.len() implies r@.slots[k] == m.slots[k] by {
                    assert(r@.slots[k] =~= Seq::<CommitModel>::empty());
                }
            }
            assert(r@.incrs =~= m.incrs);
            assert(r@.ineffective =~= m.ineffective);
        }
        r
    }

    /// Takes up the pull request `pr`: every project gets an empty slot for its commits.
    pub fn consider_pr(&mut self, pr: &FullPr) -> (r: Result<(), Error>)
        requires
            old(self).wf(),
        ensures
            r is Ok,
            final(self).wf(),
            final(self)@ == old(self)@.with_pr(pr.number, pr.closed_at),
            final(self).manifest() == old(self).manifest(),
            final(self).earlier() == old(self).earlier(),
    {
        self.pr = Some((pr.number(), *pr.closed_at()));
        let n = self.slots.len();
        let mut i: usize = 0;
        while i < n
            invariant
                i <= n,
                n == self.slots.len(),
                self.ids == old(self).ids,
                self.incrs == old(self).incrs,
                self.ineffective == old(self).ineffective,
                self.on_commit == old(self).on_commit,
                self.current == old(self).current,
                self.prev == old(self).prev,
                self.pr == Some((pr.number, pr.closed_at)),
                forall|k: int| 0 <= k < i ==> (#[trigger] self.slots@[k])@.len() == 0,
            decreases n - i,
        {
            self.slots[i] = Vec::new();
            i = i + 1;
        }
        proof {
            let m = old(self)@.with_pr(pr.number, pr.closed_at);
            assert(self@.slots =~= m.slots) by {
                assert forall|k: int| 0 <= k < self@.slots.len() implies self@.slots[k]
                    == m.slots[k] by {
                    assert(self@.slots[k] =~= Seq::<CommitModel>::empty());
                }
            }
            assert(self@.incrs =~= m.incrs);
        }
        Ok(())
    }

    /// Takes up a commit of the pull request, with the manifest `prev` as it stood at that
    /// commit. The commit joins the slot of every project, with the size that the manifest of
    /// the working tree gives its kind. Where its kind has no size the commit is refused and
    /// joins no slot.
    pub fn consider_commit(&mut self, commit: &CommitData, prev: ConfigFile) -> (r: Result<
        (),
        Error,
    >)
        requires
            old(self).wf(),
        ensures
            final(self).wf(),
            r is Err == old(self)@.refuses_commit(
                kind_size(old(self).manifest().sizes@, commit.kind@),
            ),
            r is Ok ==> final(self)@ == old(self)@.with_commit(
                commit.id@,
                commit.summary@,
                kind_size(old(self).manifest().sizes@, commit.kind@),
            ),
            r is Err ==> final(self)@ == old(self)@.with_commit(commit.id@, commit.summary@, None),
            r matches Err(e) ==> e.kind() == ErrorKind::UnknownCommitKind,
            final(self).manifest() == old(self).manifest(),
            final(self).earlier() == prev,
    {
        self.on_commit = Some(commit.id.clone());
        self.prev = prev;
        let n = self.slots.len();
        if self.pr.is_none() || n == 0 {
            proof {
                let size = kind_size(old(self).manifest().sizes@, commit.kind@);
                let m = old(self)@.with_commit(commit.id@, commit.summary@, size);
                assert(self@.slots =~= old(self)@.slots);
                assert(m.slots =~= old(self)@.slots);
                assert(self@.incrs =~= m.incrs);
            }
            return Ok(());
        }
        let size = match commit_size(&self.current.sizes, commit.kind()) {
            Ok(size) => size,
            Err(e) => {
                proof {
                    assert(self@.slots =~= old(self)@.slots);
                    assert(self@.incrs =~= old(self)@.incrs);
                }
                return Err(e);
            },
        };
        let mut i: usize = 0;
        while i < n
            invariant
                i <= n,
                n == self.slots.len(),
                n == old(self).slots.len(),
                self.ids == old(self).ids,
                self.incrs == old(self).incrs,
                self.ineffective == old(self).ineffective,
                self.on_commit == Some(commit.id),
                self.current == old(self).current,
                self.prev == prev,
                self.pr == old(self).pr,
                forall|k: int|
                    0 <= k < i ==> commits_view((#[trigger] self.slots@[k])@) == commits_view(
                        old(self).slots@[k]@,
                    ).push(
                        CommitModel {
                            oid: commit.id@,
                            message: commit.summary@,
                            size,
                            applies: false,
                            duplicate: false,
                        },
                    ),
                forall|k: int| i <= k < n ==> #[trigger] self.slots@[k] == old(self).slots@[k],
            decreases n - i,
        {
            let c = SizedPrCommit::new(commit.id.clone(), commit.summary.clone(), size);
            let ghost before = self.slots@[i as int]@;
            self.slots[i].push(c);
            proof {
                assert(commits_view(self.slots@[i as int]@) =~= commits_view(before).push(c@));
            }
            i = i + 1;
        }
        proof {
            let m = old(self)@.with_commit(commit.id@, commit.summary@, Some(size));
            assert(self@.slots =~= m.slots);
            assert(self@.incrs =~= m.incrs);
        }
        Ok(())
    }

    /// Ends the work on a commit.
    pub fn finish_commit(&mut self) -> (r: Result<(), Error>)
        ensures
            r is Ok,
            *final(self) == *old(self),
    {
        Ok(())
    }

    /// Takes up a file that the commit touches: the commit applies to each project that
    /// covered the file at that commit. Without a commit there is nothing to take the file up
    /// for; where a pull request is being considered, a project of the earlier manifest that
    /// has no answer for the file is an error of the manifest. Nothing changes where the file
    /// is refused.
    pub fn consider_file(&mut self, path: &str) -> (r: Result<(), Error>)
        requires
            old(self).wf(),
        ensures
            final(self).wf(),
            final(self).manifest() == old(self).manifest(),
            final(self).earlier() == old(self).earlier(),
            r is Err == (old(self)@.on_commit is None || (old(self)@.pr is Some && cover_fails(
                old(self).earlier().projects@,
                old(self)@.ids,
                path@,
            ))),
            r is Err ==> final(self)@ == old(self)@,
            r matches Err(e) ==> e.kind() == (if old(self)@.on_commit is None {
                ErrorKind::RepoError
            } else {
                ErrorKind::ManifestInvalid
            }),
            r is Ok ==> final(self)@ == (if old(self)@.pr is Some {
                old(self)@.with_file(covering(old(self).earlier().projects@, path@))
            } else {
                old(self)@
            }),
    {
        let oid = match &self.on_commit {
            Some(oid) => oid.clone(),
            None => {
                return Err(Error::new(ErrorKind::RepoError, String::from_str("Not on a commit")));
            },
        };
        if self.pr.is_none() {
            return Ok(());
        }
        let n = self.ids.len();
        let ghost projects = self.prev.projects@;
        let mut hits: Vec<bool> = Vec::new();
        let mut c: usize = 0;
        while c < n
            invariant
                c <= n,
                hits.len() == c,
                forall|i: int| 0 <= i < c ==> !hits@[i],
            decreases n - c,
        {
            hits.push(false);
            c = c + 1;
        }
        proof {
            lemma_slot_ids_distinct(self.manifest().projects@);
        }
        let mut j: usize = 0;
        while j < self.prev.projects.len()
            invariant
                j <= self.prev.projects.len(),
                *self == *old(self),
                old(self).wf(),
                self.on_commit is Some,
                self.pr is Some,
                projects == self.prev.projects@,
                n == self.ids.len(),
                hits.len() == n,
                self.ids@.no_duplicates(),
                forall|i: int|
                    0 <= i < n ==> (#[trigger] hits@[i] <==> exists|m: int|
                        0 <= m < j && projects[m].id == self.ids@[i] && #[trigger] projects[m].covers(
                            path@,
                        ) == Some(true)),
                forall|m: int|
                    0 <= m < j && self.ids@.contains(projects[m].id) ==> #[trigger] projects[m].covers(
                        path@,
                    ) is Some,
            decreases self.prev.projects.len() - j,
        {
            let project = &self.prev.projects[j];
            let at = index_in(&self.ids, project.id);
            if at < n {
                match project.does_cover(path) {
                    Err(e) => {
                        proof {
                            assert(self.ids@.contains(projects[j as int].id));
                            assert(projects[j as int].covers(path@) is None);
                        }
                        return Err(e);
                    },
                    Ok(covers) => {
                        if covers {
                            let ghost before = hits@;
                            hits.set(at, true);
                            proof {
                                assert forall|i: int| 0 <= i < n implies (#[trigger] hits@[i]
                                    <==> exists|m: int|
                                    0 <= m < j + 1 && projects[m].id == self.ids@[i]
                                        && #[trigger] projects[m].covers(path@) == Some(true)) by {
                                    if i == at {
                                        assert(projects[j as int].covers(path@) == Some(true));
                                    } else {
                                        assert(hits@[i] == before[i]);
                                        assert(self.ids@[i] != self.ids@[at as int]);
                                    }
                                }
                            }
                        }
                    },
                }
            }
            j = j + 1;
        }
        let ghost hit = covering(projects, path@);
        proof {
            assert forall|i: int| 0 <= i < n implies #[trigger] hits@[i] == hit(self.ids@[i]) by {}
            assert(!cover_fails(projects, self.ids@, path@));
        }
        let mut i: usize = 0;
        while i < n
            invariant
                i <= n,
                n == self.ids.len(),
                n == self.slots.len(),
                hits.len() == n,
                self.ids == old(self).ids,
                self.incrs == old(self).incrs,
                self.ineffective == old(self).ineffective,
                self.on_commit == old(self).on_commit,
                self.on_commit == Some(oid),
                self.current == old(self).current,
                self.prev == old(self).prev,
                self.pr == old(self).pr,
                old(self).slots.len() == n,
                forall|k: int| 0 <= k < n ==> #[trigger] hits@[k] == hit(self.ids@[k]),
                forall|k: int|
                    0 <= k < i ==> commits_view((#[trigger] self.slots@[k])@) == (if hits@[k] {
                        mark_first(commits_view(old(self).slots@[k]@), oid@)
                    } else {
                        commits_view(old(self).slots@[k]@)
                    }),
                forall|k: int| i <= k < n ==> #[trigger] self.slots@[k] == old(self).slots@[k],
            decreases n - i,
        {
            if hits[i] {
                mark_commit(&mut self.slots[i], oid.as_str());
            }
            i = i + 1;
        }
        proof {
            let m = old(self)@.with_file(hit);
            assert(self@.slots =~= m.slots);
            assert(self@.incrs =~= m.incrs);
        }
        Ok(())
    }

    /// Ends the work on the pull request: the entry of each project takes in the commits of
    /// its slot, and a pull request that applied to no project joins the ineffective ones.
    /// Without a pull request there is nothing to end, and nothing changes.
    pub fn finish_pr(&mut self) -> (r: Result<(), Error>)
        requires
            old(self).wf(),
        ensures
            final(self).wf(),
            final(self).manifest() == old(self).manifest(),
            final(self).earlier() == old(self).earlier(),
            r is Ok == old(self)@.pr is Some,
            r is Ok ==> final(self)@ == old(self)@.after_pr(),
            r is Err ==> final(self)@ == old(self)@,
            r matches Err(e) ==> e.kind() == ErrorKind::RepoError,
    {
        let (number, closed_at) = match self.pr {
            Some(p) => p,
            None => {
                return Err(Error::new(ErrorKind::RepoError, String::from_str("Not on a PR")));
            },
        };
        let n = self.ids.len();
        let mut found = false;
        let mut i: usize = 0;
        while i < n
            invariant
                i <= n,
                n == self.ids.len(),
                n == self.slots.len(),
                n == self.incrs.len(),
                old(self).wf(),
                old(self).pr == Some((number, closed_at)),
                self.ids == old(self).ids,
                self.ineffective == old(self).ineffective,
                self.on_commit == old(self).on_commit,
                self.current == old(self).current,
                self.prev == old(self).prev,
                self.pr == old(self).pr,
                found == (exists|k: int|
                    0 <= k < i && max_size(#[trigger] old(self)@.slots[k], applying()) is Some),
                forall|k: int| 0 <= k < i ==> (#[trigger] self.slots@[k])@.len() == 0,
                forall|k: int| i <= k < n ==> #[trigger] self.slots@[k] == old(self).slots@[k],
                forall|k: int|
                    0 <= k < i ==> slot_view(#[trigger] self.incrs@[k]) == Some(
                        merged(old(self)@.incrs[k], old(self)@.pr_at(k)),
                    ),
                forall|k: int| i <= k < n ==> #[trigger] self.incrs@[k] == old(self).incrs@[k],
            decreases n - i,
        {
            let mut commits: Vec<SizedPrCommit> = Vec::new();
            std::mem::swap(&mut commits, &mut self.slots[i]);
            let mut entry: Option<Incr> = None;
            std::mem::swap(&mut entry, &mut self.incrs[i]);
            let pr_size = greatest(&commits, false);
            let mut e: Incr = match entry {
                Some(e) => e,
                None => (Size::Empty, None, ChangeLog::empty()),
            };
            proof {
                assert(commits_view(commits@) == old(self)@.slots[i as int]);
                assert(slot_view(entry) == old(self)@.incrs[i as int]);
            }
            match pr_size {
                Some(sz) => {
                    found = true;
                    e.0 = e.0.max(sz);
                    let pr = SizedPr { number, closed_at, commits };
                    e.2.add_entry(pr, sz);
                },
                None => {},
            }
            self.incrs[i] = Some(e);
            i = i + 1;
        }
        self.pr = None;
        if !found {
            let pr = SizedPr::empty(number, closed_at);
            let ghost before = self.ineffective@;
            self.ineffective.push(pr);
            proof {
                assert(prs_view(self.ineffective@) =~= prs_view(before).push(pr@));
            }
        }
        proof {
            let m = old(self)@.after_pr();
            assert(found == old(self)@.effective());
            assert(self@.slots =~= m.slots) by {
                assert forall|k: int| 0 <= k < self@.slots.len() implies self@.slots[k]
                    == m.slots[k] by {
                    assert(self@.slots[k] =~= Seq::<CommitModel>::empty());
                }
            }
            assert(self@.incrs =~= m.incrs);
        }
        Ok(())
    }

    /// Takes up the last commit that touched each project: every entry that is there takes
    /// the commit that stands under its project in `lasts`.
    pub fn consider_last_commits(&mut self, lasts: &HashMap<ProjectId, String>) -> (r: Result<
        (),
        Error,
    >)
        requires
            old(self).wf(),
        ensures
            r is Ok,
            final(self).wf(),
            final(self).manifest() == old(self).manifest(),
            final(self).earlier() == old(self).earlier(),
            final(self)@ == old(self)@.with_last_commits(lasts@),
    {
        let n = self.ids.len();
        let mut i: usize = 0;
        while i < n
            invariant
                i <= n,
                n == self.ids.len(),
                n == self.incrs.len(),
                old(self).wf(),
                self.ids == old(self).ids,
                self.slots == old(self).slots,
                self.ineffective == old(self).ineffective,
                self.on_commit == old(self).on_commit,
                self.current == old(self).current,
                self.prev == old(self).prev,
                self.pr == old(self).pr,
                forall|k: int|
                    0 <= k < i ==> slot_view(#[trigger] self.incrs@[k]) == old(
                        self,
                    )@.with_last_commits(lasts@).incrs[k],
                forall|k: int| i <= k < n ==> #[trigger] self.incrs@[k] == old(self).incrs@[k],
            decreases n - i,
        {
            match lasts.get(&self.ids[i]) {
                Some(commit) => {
                    let mut entry: Option<Incr> = None;
                    std::mem::swap(&mut entry, &mut self.incrs[i]);
                    proof {
                        assert(slot_view(entry) == old(self)@.incrs[i as int]);
                    }
                    let updated: Option<Incr> = match entry {
                        Some(e) => Some((e.0, Some(commit.clone()), e.2)),
                        None => None,
                    };
                    self.incrs[i] = updated;
                },
                None => {
                    proof {
                        assert(slot_view(self.incrs@[i as int]) == old(self)@.incrs[i as int]);
                    }
                },
            }
            i = i + 1;
        }
        proof {
            let m = old(self)@.with_last_commits(lasts@);
            assert(self@.slots =~= m.slots);
            assert(self@.incrs =~= m.incrs);
        }
        Ok(())
    }

    /// The plan: the entries that are there, in the order of the projects in the manifest,
    /// and the pull requests that applied to no project.
    pub fn finish_plan(self) -> (r: Result<Plan, Error>)
        requires
            self.wf(),
        ensures
            r is Ok,
            r.unwrap().spec_incrs() == self@.entries(),
            r.unwrap().spec_ineffective() == self@.ineffective,
    {
        let mut me = self;
        let n = me.ids.len();
        let mut incrs: Vec<(ProjectId, Incr)> = Vec::new();
        let ghost all = self@.incrs;
        let mut i: usize = 0;
        while i < n
            invariant
                i <= n,
                n == me.ids.len(),
                n == me.incrs.len(),
                me.ids == self.ids,
                me.ineffective == self.ineffective,
                all == self@.incrs,
                all.len() == n,
                incrs_view(incrs@) == present(self.ids@.take(i as int), all.take(i as int)),
                forall|k: int| i <= k < n ==> #[trigger] me.incrs@[k] == self.incrs@[k],
            decreases n - i,
        {
            proof {
                let a = all.take(i + 1);
                let b = self.ids@.take(i + 1);
                assert(a.drop_last() =~= all.take(i as int));
                assert(b.drop_last() =~= self.ids@.take(i as int));
                assert(a.last() == slot_view(self.incrs@[i as int]));
                assert(b.last() == self.ids@[i as int]);
            }
            let mut entry: Option<Incr> = None;
            std::mem::swap(&mut entry, &mut me.incrs[i]);
            match entry {
                Some(e) => {
                    let ghost before = incrs@;
                    let id = me.ids[i];
                    incrs.push((id, e));
                    proof {
                        assert(incrs_view(incrs@) =~= incrs_view(before).push((id, incr_view(e))));
                    }
                },
                None => {},
            }
            i = i + 1;
        }
        proof {
            assert(all.take(n as int) =~= all);
            assert(self.ids@.take(n as int) =~= self.ids@);
        }
        Ok(Plan { incrs, ineffective: me.ineffective })
    }

    /// Carries the sizes along the dependencies: a project gets at least the size of each
    /// project that it depends on, and no more than that asks for. Every project has an entry
    /// afterwards.
    pub fn consider_deps(&mut self) -> (r: Result<(), Error>)
        requires
            old(self).wf(),
        ensures
            r is Ok,
            final(self).wf(),
            final(self).manifest() == old(self).manifest(),
            final(self).earlier() == old(self).earlier(),
            old(self)@.deps_done(old(self).manifest().projects@, final(self)@),
    {
        let n = self.ids.len();
        let ghost projects = self.current.projects@;
        let ghost ids = self.ids@;
        let ghost before = sizes_of(self@.incrs);
        let mut sizes: Vec<Size> = Vec::new();
        let mut c: usize = 0;
        while c < n
            invariant
                c <= n,
                n == self.incrs.len(),
                *self == *old(self),
                before == sizes_of(self@.incrs),
                sizes.len() == c,
                forall|k: int| 0 <= k < c ==> #[trigger] sizes@[k] == before[k],
            decreases n - c,
        {
            let s = match &self.incrs[c] {
                Some(e) => e.0,
                None => Size::Empty,
            };
            sizes.push(s);
            c = c + 1;
        }
        proof {
            assert(sizes@ =~= before);
            lemma_slot_ids_distinct(projects);
            lemma_total_rank_bound(sizes@);
        }
        let mut changed = true;
        while changed
            invariant
                *self == *old(self),
                old(self).wf(),
                n == self.ids.len(),
                projects == self.current.projects@,
                ids == self.ids@,
                ids == slot_ids(projects),
                sizes.len() == n,
                before.len() == n,
                above(sizes@, before),
                forall|g: Seq<Size>|
                    above(g, before) && closed(projects, ids, g) ==> #[trigger] above(g, sizes@),
                !changed ==> closed(projects, ids, sizes@),
                total_rank(sizes@) <= 4 * n,
            decreases 4 * n - total_rank(sizes@) + if changed { 1nat } else { 0nat },
        {
            changed = false;
            let ghost start = sizes@;
            let mut i: usize = 0;
            while i < n
                invariant
                    i <= n,
                    *self == *old(self),
                    old(self).wf(),
                    n == self.ids.len(),
                    projects == self.current.projects@,
                    ids == self.ids@,
                    ids == slot_ids(projects),
                    sizes.len() == n,
                    before.len() == n,
                    start.len() == n,
                    above(sizes@, before),
                    forall|g: Seq<Size>|
                        above(g, before) && closed(projects, ids, g) ==> #[trigger] above(
                            g,
                            sizes@,
                        ),
                    total_rank(sizes@) <= 4 * n,
                    !changed ==> sizes@ == start,
                    changed ==> total_rank(sizes@) > total_rank(start),
                    !changed ==> forall|a: int, b: int|
                        0 <= a < i && 0 <= b < n && #[trigger] depends_on(projects, ids, a, b)
                            ==> sizes@[a].rank() >= sizes@[b].rank(),
                decreases n - i,
            {
                let at = find_project(&self.current.projects, self.ids[i]);
                proof {
                    lemma_slot_ids_distinct(projects);
                    assert(ids.contains(ids[i as int]));
                    lemma_first_where(projects, is_id(ids[i as int]));
                    if at == projects.len() {
                        let j = choose|j: int|
                            0 <= j < projects.len() && #[trigger] projects[j].id == ids[i as int];
                        assert(is_id(ids[i as int])(projects[j]));
                    }
                }
                let deps = &self.current.projects[at].depends;
                let mut k: usize = 0;
                while k < deps.len()
                    invariant
                        k <= deps.len(),
                        i < n,
                        *self == *old(self),
                        n == self.ids.len(),
                        projects == self.current.projects@,
                        ids == self.ids@,
                        ids.no_duplicates(),
                        at == index_of(projects, ids[i as int]),
                        at < projects.len(),
                        *deps == projects[at as int].depends,
                        sizes.len() == n,
                        before.len() == n,
                        start.len() == n,
                        above(sizes@, before),
                        forall|g: Seq<Size>|
                            above(g, before) && closed(projects, ids, g) ==> #[trigger] above(
                                g,
                                sizes@,
                            ),
                        total_rank(sizes@) <= 4 * n,
                        !changed ==> sizes@ == start,
                        changed ==> total_rank(sizes@) > total_rank(start),
                        !changed ==> forall|a: int, b: int|
                            0 <= a < i && 0 <= b < n && #[trigger] depends_on(projects, ids, a, b)
                                ==> sizes@[a].rank() >= sizes@[b].rank(),
                        !changed ==> forall|m: int, b: int|
                            #![trigger deps@[m], ids[b]]
                            0 <= m < k && 0 <= b < n && ids[b] == deps@[m] ==> sizes@[i as int].rank()
                                >= sizes@[b].rank(),
                    decreases deps.len() - k,
                {
                    let j = index_in(&self.ids, deps[k]);
                    if j < n && sizes[j].level() > sizes[i].level() {
                        let ghost old_sizes = sizes@;
                        let s = sizes[j];
                        proof {
                            lemma_total_rank_update(old_sizes, i as int, s);
                            lemma_total_rank_bound(old_sizes.update(i as int, s));
                            assert(deps@.contains(deps@[k as int]));
                            assert(depends_on(projects, ids, i as int, j as int));
                        }
                        sizes.set(i, s);
                        proof {
                            assert forall|g: Seq<Size>|
                                above(g, before) && closed(projects, ids, g) implies #[trigger] above(
                                g,
                                sizes@,
                            ) by {
                                assert(above(g, old_sizes));
                                assert(g[i as int].rank() >= g[j as int].rank());
                            }
                        }
                        changed = true;
                    }
                    k = k + 1;
                }
                proof {
                    if !changed {
                        assert forall|a: int, b: int|
                            0 <= a < i + 1 && 0 <= b < n && #[trigger] depends_on(
                                projects,
                                ids,
                                a,
                                b,
                            ) implies sizes@[a].rank() >= sizes@[b].rank() by {
                            if a == i {
                                let m = choose|m: int| 0 <= m < deps@.len() && deps@[m] == ids[b];
                                assert(ids[b] == deps@[m]);
                            }
                        }
                    }
                }
                i = i + 1;
            }
        }
        let mut i: usize = 0;
        while i < n
            invariant
                i <= n,
                n == self.ids.len(),
                n == self.incrs.len(),
                sizes.len() == n,
                old(self).wf(),
                self.ids == old(self).ids,
                self.slots == old(self).slots,
                self.ineffective == old(self).ineffective,
                self.on_commit == old(self).on_commit,
                self.current == old(self).current,
                self.prev == old(self).prev,
                self.pr == old(self).pr,
                forall|k: int|
                    0 <= k < i ==> slot_view(#[trigger] self.incrs@[k]) == Some(
                        IncrModel {
                            size: sizes@[k],
                            ..match old(self)@.incrs[k] {
                                Some(e) => e,
                                None => blank(),
                            }
                        },
                    ),
                forall|k: int| i <= k < n ==> #[trigger] self.incrs@[k] == old(self).incrs@[k],
            decreases n - i,
        {
            let mut entry: Option<Incr> = None;
            std::mem::swap(&mut entry, &mut self.incrs[i]);
            proof {
                assert(slot_view(entry) == old(self)@.incrs[i as int]);
            }
            let e: Incr = match entry {
                Some(e) => (sizes[i], e.1, e.2),
                None => (sizes[i], None, ChangeLog::empty()),
            };
            self.incrs[i] = Some(e);
            i = i + 1;
        }
        proof {
            assert(self@.slots =~= old(self)@.slots);
            assert(sizes_of(self@.incrs) =~= sizes@);
        }
        Ok(())
    }

    /// Puts every change log in the order in which its pull requests were closed, and marks
    /// each commit that an earlier pull request of the change log holds as a duplicate; the
    /// size of each pull request is then the greatest size of its commits that still count.
    pub fn sort_and_dedup(&mut self) -> (r: Result<(), Error>)
        requires
            old(self).wf(),
        ensures
            r is Ok,
            final(self).wf(),
            final(self).manifest() == old(self).manifest(),
            final(self).earlier() == old(self).earlier(),
            final(self)@ == old(self)@.after_dedup(),
    {
        let n = self.ids.len();
        let mut i: usize = 0;
        while i < n
            invariant
                i <= n,
                n == self.ids.len(),
                n == self.incrs.len(),
                old(self).wf(),
                self.ids == old(self).ids,
                self.slots == old(self).slots,
                self.ineffective == old(self).ineffective,
                self.on_commit == old(self).on_commit,
                self.current == old(self).current,
                self.prev == old(self).prev,
                self.pr == old(self).pr,
                forall|k: int|
                    0 <= k < i ==> slot_view(#[trigger] self.incrs@[k]) == old(
                        self,
                    )@.after_dedup().incrs[k],
                forall|k: int| i <= k < n ==> #[trigger] self.incrs@[k] == old(self).incrs@[k],
            decreases n - i,
        {
            let mut entry: Option<Incr> = None;
            std::mem::swap(&mut entry, &mut self.incrs[i]);
            proof {
                assert(slot_view(entry) == old(self)@.incrs[i as int]);
            }
            let updated: Option<Incr> = match entry {
                Some(e) => {
                    let mut log = e.2;
                    log.sort_and_dedup();
                    Some((e.0, e.1, log))
                },
                None => None,
            };
            self.incrs[i] = updated;
            i = i + 1;
        }
        proof {
            let m = old(self)@.after_dedup();
            assert(self@.slots =~= m.slots);
            assert(self@.incrs =~= m.incrs);
        }
        Ok(())
    }

    /// Ends the work on a file.
    pub fn finish_file(&mut self) -> (r: Result<(), Error>)
        ensures
            r is Ok,
            *final(self) == *old(self),
    {
        Ok(())
    }
}

/// A pull request together with the manifest as it stood at each of its commits, in the
/// order of the commits.
#[derive(Debug)]
pub struct PrGroup {
    pub pr: FullPr,
    pub manifests: Vec<ConfigFile>,
}

/// The state after a file of the commit is taken up, or the kind of the error.
pub open spec fn file_step(s: PlanState, earlier: Seq<Project>, path: Seq<char>) -> Result<
    PlanState,
    ErrorKind,
> {
    if s.on_commit is None {
        Err(ErrorKind::RepoError)
    } else if s.pr is Some && cover_fails(earlier, s.ids, path) {
        Err(ErrorKind::ManifestInvalid)
    } else if s.pr is Some {
        Ok(s.with_file(covering(earlier, path)))
    } else {
        Ok(s)
    }
}

/// The state after the files are taken up in their order, or the kind of the first error.
pub open spec fn files_run(s: PlanState, earlier: Seq<Project>, files: Seq<String>) -> Result<
    PlanState,
    ErrorKind,
>
    decreases files.len(),
{
    if files.len() == 0 {
        Ok(s)
    } else {
        match files_run(s, earlier, files.drop_last()) {
            Ok(t) => file_step(t, earlier, files.last()@),
            Err(k) => Err(k),
        }
    }
}

/// The state after a commit and its files are taken up, or the kind of the first error.
pub open spec fn commit_step(
    s: PlanState,
    sizes: Seq<(String, Size)>,
    commit: CommitData,
    manifest: ConfigFile,
) -> Result<PlanState, ErrorKind> {
    let size = kind_size(sizes, commit.kind@);
    if s.refuses_commit(size) {
        Err(ErrorKind::UnknownCommitKind)
    } else {
        files_run(s.with_commit(commit.id@, commit.summary@, size), manifest.projects@, commit.files@)
    }
}

/// The state after the first `n` commits are taken up, each with its manifest, or the kind
/// of the first error.
pub open spec fn commits_run(
    s: PlanState,
    sizes: Seq<(String, Size)>,
    commits: Seq<CommitData>,
    manifests: Seq<ConfigFile>,
    n: int,
) -> Result<PlanState, ErrorKind>
    decreases n,
{
    if n <= 0 {
        Ok(s)
    } else {
        match commits_run(s, sizes, commits, manifests, n - 1) {
            Ok(t) => commit_step(t, sizes, commits[n - 1], manifests[n - 1]),
            Err(k) => Err(k),
        }
    }
}

/// The state after a pull request is taken up and finished, or the kind of the first error.
/// A pull request that does not come with one manifest for each commit is refused.
pub open spec fn pr_step(s: PlanState, sizes: Seq<(String, Size)>, group: PrGroup) -> Result<
    PlanState,
    ErrorKind,
> {
    if group.manifests@.len() != group.pr.commits@.len() {
        Err(ErrorKind::RepoError)
    } else {
        match commits_run(
            s.with_pr(group.pr.number, group.pr.closed_at),
            sizes,
            group.pr.commits@,
            group.manifests@,
            group.pr.commits@.len() as int,
        ) {
            Ok(t) => Ok(t.after_pr()),
            Err(k) => Err(k),
        }
    }
}

/// The state after the pull requests are taken up in their order, or the kind of the first
/// error.
pub open spec fn prs_run(s: PlanState, sizes: Seq<(String, Size)>, groups: Seq<PrGroup>) -> Result<
    PlanState,
    ErrorKind,
>
    decreases groups.len(),
{
    if groups.len() == 0 {
        Ok(s)
    } else {
        match prs_run(s, sizes, groups.drop_last()) {
            Ok(t) => pr_step(t, sizes, groups.last()),
            Err(k) => Err(k),
        }
    }
}

/// Whether `plan` is the plan that the state `s` leads to: the last commits are taken up,
/// the sizes are carried along the dependencies, and the change logs are sorted and without
/// duplicates.
pub open spec fn plan_of(
    s: PlanState,
    projects: Seq<Project>,
    lasts: Map<ProjectId, String>,
    plan: Plan,
) -> bool {
    exists|u: PlanState|
        {
            &&& #[trigger] s.with_last_commits(lasts).deps_done(projects, u)
            &&& plan.spec_incrs() == u.after_dedup().entries()
            &&& plan.spec_ineffective() == u.ineffective
        }
}

/// Takes up the files of a commit in their order.
fn run_files(planner: &mut PlanConsider, files: &Vec<String>) -> (r: Result<(), Error>)
    requires
        old(planner).wf(),
    ensures
        final(planner).wf(),
        final(planner).manifest() == old(planner).manifest(),
        final(planner).earlier() == old(planner).earlier(),
        r is Ok ==> final(planner)@.pr == old(planner)@.pr,
        match files_run(old(planner)@, old(planner).earlier().projects@, files@) {
            Ok(t) => r is Ok && final(planner)@ == t,
            Err(k) => r is Err && r.unwrap_err().kind() == k,
        },
{
    let ghost start = planner@;
    let ghost earlier = planner.earlier().projects@;
    let mut f: usize = 0;
    while f < files.len()
        invariant
            f <= files.len(),
            planner.wf(),
            planner.manifest() == old(planner).manifest(),
            planner.earlier() == old(planner).earlier(),
            start == old(planner)@,
            planner@.pr == start.pr,
            earlier == old(planner).earlier().projects@,
            files_run(start, earlier, files@.take(f as int)) == Ok::<PlanState, ErrorKind>(
                planner@,
            ),
        decreases files.len() - f,
    {
        proof {
            let t = files@.take(f + 1);
            assert(t.drop_last() =~= files@.take(f as int));
            assert(t.last() == files@[f as int]);
        }
        match planner.consider_file(files[f].as_str()) {
            Ok(()) => {},
            Err(e) => {
                proof {
                    lemma_files_run_fails(start, earlier, files@, f + 1);
                }
                return Err(e);
            },
        }
        let _ = planner.finish_file();
        f = f + 1;
    }
    proof {
        assert(files@.take(files.len() as int) =~= files@);
    }
    Ok(())
}

/// Once the files fail, they fail with the same error however many follow.
proof fn lemma_files_run_fails(s: PlanState, earlier: Seq<Project>, files: Seq<String>, n: int)
    requires
        0 <= n <= files.len(),
        files_run(s, earlier, files.take(n)) is Err,
    ensures
        files_run(s, earlier, files) == files_run(s, earlier, files.take(n)),
    decreases files.len(),
{
    if n == files.len() {
        assert(files.take(n) =~= files);
    } else {
        assert(files.drop_last().take(n) =~= files.take(n));
        lemma_files_run_fails(s, earlier, files.drop_last(), n);
    }
}

/// Once the commits fail, they fail with the same error however many follow.
proof fn lemma_commits_run_fails(
    s: PlanState,
    sizes: Seq<(String, Size)>,
    commits: Seq<CommitData>,
    manifests: Seq<ConfigFile>,
    n: int,
    m: int,
)
    requires
        0 <= n <= m,
        commits_run(s, sizes, commits, manifests, n) is Err,
    ensures
        commits_run(s, sizes, commits, manifests, m) == commits_run(s, sizes, commits, manifests, n),
    decreases m,
{
    if n < m {
        lemma_commits_run_fails(s, sizes, commits, manifests, n, m - 1);
    }
}

/// Once the pull requests fail, they fail with the same error however many follow.
proof fn lemma_prs_run_fails(s: PlanState, sizes: Seq<(String, Size)>, groups: Seq<PrGroup>, n: int)
    requires
        0 <= n <= groups.len(),
        prs_run(s, sizes, groups.take(n)) is Err,
    ensures
        prs_run(s, sizes, groups) == prs_run(s, sizes, groups.take(n)),
    decreases groups.len(),
{
    if n == groups.len() {
        assert(groups.take(n) =~= groups);
    } else {
        assert(groups.drop_last().take(n) =~= groups.take(n));
        lemma_prs_run_fails(s, sizes, groups.drop_last(), n);
    }
}

/// Takes up a pull request with its commits and their files, and finishes it.
#[verifier::loop_isolation(false)]
fn run_pr(planner: &mut PlanConsider, group: PrGroup) -> (r: Result<(), Error>)
    requires
        old(planner).wf(),
    ensures
        final(planner).wf(),
        final(planner).manifest() == old(planner).manifest(),
        match pr_step(old(planner)@, old(planner).manifest().sizes@, group) {
            Ok(t) => r is Ok && final(planner)@ == t,
            Err(k) => r is Err && r.unwrap_err().kind() == k,
        },
{
    let ghost sizes = planner.manifest().sizes@;
    let pr = group.pr;
    let mut manifests = group.manifests;
    let ghost all = manifests@;
    if manifests.len() != pr.commits.len() {
        return Err(
            Error::new(
                ErrorKind::RepoError,
                String::from_str("A pull request needs a manifest for each commit."),
            ),
        );
    }
    let _ = planner.consider_pr(&pr);
    let ghost start = planner@;
    let total = pr.commits.len();
    let mut n: usize = 0;
    while n < total
        invariant
            n <= total,
            total == pr.commits.len(),
            total == all.len(),
            manifests@ == all.skip(n as int),
            planner.wf(),
            planner.manifest() == old(planner).manifest(),
            sizes == planner.manifest().sizes@,
            planner@.pr is Some,
            commits_run(start, sizes, pr.commits@, all, n as int) == Ok::<PlanState, ErrorKind>(
                planner@,
            ),
        decreases total - n,
    {
        let manifest = manifests.remove(0);
        proof {
            assert(manifest == all[n as int]);
            assert(manifests@ =~= all.skip(n + 1));
        }
        let commit = &pr.commits[n];
        match planner.consider_commit(commit, manifest) {
            Ok(()) => {},
            Err(e) => {
                proof {
                    lemma_commits_run_fails(start, sizes, pr.commits@, all, n + 1, total as int);
                }
                return Err(e);
            },
        }
        match run_files(planner, commit.files()) {
            Ok(()) => {},
            Err(e) => {
                proof {
                    lemma_commits_run_fails(start, sizes, pr.commits@, all, n + 1, total as int);
                }
                return Err(e);
            },
        }
        let _ = planner.finish_commit();
        n = n + 1;
    }
    let _ = planner.finish_pr();
    Ok(())
}

/// The release plan for the manifest `current`. `prev` is the manifest of the last release,
/// `groups` holds the pull requests since then in the order of the change source, and
/// `last_commits` the last commit that touched each project. The pull requests are taken up
/// one by one; then the last commits are taken up, the sizes are carried along the
/// dependencies, and the change logs are sorted and freed of duplicates. The first error
/// ends the planning.
pub fn configure_plan(
    current: &ConfigFile,
    prev: ConfigFile,
    groups: Vec<PrGroup>,
    last_commits: &HashMap<ProjectId, String>,
) -> (r: Result<Plan, Error>)
    ensures
        match prs_run(PlanState::start(slot_ids(current.projects@)), current.sizes@, groups@) {
            Ok(t) => r is Ok && plan_of(t, current.projects@, last_commits@, r.unwrap()),
            Err(k) => r is Err && r.unwrap_err().kind() == k,
        },
{
    let ghost all = groups@;
    let ghost start = PlanState::start(slot_ids(current.projects@));
    let ghost sizes = current.sizes@;
    let mut rest = groups;
    let total = rest.len();
    let mut planner = PlanConsider::new(prev, current);
    let mut n: usize = 0;
    while n < total
        invariant
            n <= total,
            total == all.len(),
            all == groups@,
            rest@ == all.skip(n as int),
            planner.wf(),
            planner.manifest() == *current,
            sizes == current.sizes@,
            start == PlanState::start(slot_ids(current.projects@)),
            prs_run(start, sizes, all.take(n as int)) == Ok::<PlanState, ErrorKind>(planner@),
        decreases total - n,
    {
        let group = rest.remove(0);
        proof {
            assert(group == all[n as int]);
            assert(rest@ =~= all.skip(n + 1));
            let t = all.take(n + 1);
            assert(t.drop_last() =~= all.take(n as int));
            assert(t.last() == all[n as int]);
        }
        match run_pr(&mut planner, group) {
            Ok(()) => {},
            Err(e) => {
                proof {
                    lemma_prs_run_fails(start, sizes, all, n + 1);
                }
                return Err(e);
            },
        }
        n = n + 1;
    }
    proof {
        assert(all.take(total as int) =~= all);
    }
    let ghost reached = planner@;
    let _ = planner.consider_last_commits(last_commits);
    let _ = planner.consider_deps();
    let ghost carried = planner@;
    let _ = planner.sort_and_dedup();
    let r = planner.finish_plan();
    proof {
        assert(reached.with_last_commits(last_commits@).deps_done(current.projects@, carried));
    }
    r
}

} // verus!

//! What the commands decide: which projects a command is about, and what a release does to
//! the version of each project.

use crate::config::{
    index_of, is_named, make_tag, named_count, tag_name, ConfigFile, Location, Project,
};
use crate::state::{FileWrite, PickPath, StateWrite};
use crate::error::{Error, ErrorKind};
use crate::plan::{IncrModel, Plan};
use crate::size::{lemma_parts_of_render, parts_of, triple_less, Size};
use crate::table::{first_where, ProjectId};
use std::collections::HashMap;
use crate::text::{chars_of, parse_number, parse_range};
use vstd::prelude::*;
use vstd::string::StringExecFns;

verus! {

broadcast use vstd::std_specs::hash::group_hash_axioms;

/// What is known of the repository before the options of the command line are read.
#[derive(Debug)]
pub struct EarlyInfo {
    project_count: usize,
    working_dir: String,
}

impl EarlyInfo {
    /// The number of projects, as contracts speak of it.
    pub closed spec fn spec_project_count(&self) -> usize {
        self.project_count
    }

    /// The working directory, as contracts speak of it.
    pub closed spec fn spec_working_dir(&self) -> Seq<char> {
        self.working_dir@
    }

    /// The early information: so many projects, in this working directory.
    pub fn new(project_count: usize, working_dir: String) -> (r: EarlyInfo)
        ensures
            r.spec_project_count() == project_count,
            r.spec_working_dir() == working_dir@,
    {
        EarlyInfo { project_count, working_dir }
    }

    /// The number of projects in the manifest.
    pub fn project_count(&self) -> (r: usize)
        ensures
            r == self.spec_project_count(),
    {
        self.project_count
    }

    /// The working directory of the repository.
    pub fn working_dir(&self) -> (r: &str)
        ensures
            r@ == self.spec_working_dir(),
    {
        self.working_dir.as_str()
    }
}

/// The early information for the manifest `file`, found in the working directory `root`.
pub fn early_info(file: &ConfigFile, root: String) -> (r: EarlyInfo)
    ensures
        r.spec_project_count() == file.projects@.len(),
        r.spec_working_dir() == root@,
{
    EarlyInfo::new(file.projects().len(), root)
}

/// How versions are shown.
#[derive(Clone, Copy, Debug)]
pub struct ShowFormat {
    pub wide: bool,
    pub version_only: bool,
}

impl ShowFormat {
    /// A way to show versions: with the numbers of the projects, or the version alone.
    pub fn new(wide: bool, version_only: bool) -> (r: ShowFormat)
        ensures
            r.wide == wide,
            r.version_only == version_only,
    {
        ShowFormat { wide, version_only }
    }
}

/// The project that a command is about: the one with the number written in `id`; else the
/// one that has `name` in its name; else the only project of the manifest.
pub open spec fn chosen(projects: Seq<Project>, id: Option<Seq<char>>, name: Option<Seq<char>>)
    -> Result<ProjectId, ErrorKind> {
    match id {
        Some(text) => match parse_number(text) {
            Some(n) => if index_of(projects, n as u32) < projects.len() {
                Ok(n as u32)
            } else {
                Err(ErrorKind::NoSuchProject)
            },
            None => Err(ErrorKind::NoSuchProject),
        },
        None => match name {
            Some(n) => if named_count(projects, n) == 1 {
                Ok(projects[first_where(projects, is_named(n)) as int].id)
            } else if named_count(projects, n) == 0 {
                Err(ErrorKind::NoSuchProject)
            } else {
                Err(ErrorKind::AmbiguousProjectName)
            },
            None => if projects.len() == 1 {
                Ok(projects[0].id)
            } else {
                Err(ErrorKind::NoSuchProject)
            },
        },
    }
}

/// Whether a result holds the number or the kind of error that `expected` says.
pub open spec fn id_is(r: Result<ProjectId, Error>, expected: Result<ProjectId, ErrorKind>) -> bool {
    match (r, expected) {
        (Ok(a), Ok(b)) => a == b,
        (Err(e), Err(k)) => e.kind() == k,
        _ => false,
    }
}

/// The number that the text `id` writes.
fn parse_id(id: &str) -> (r: Option<u32>)
    ensures
        r is Some == parse_number(id@) is Some,
        r matches Some(n) ==> parse_number(id@) == Some(n as nat),
{
    let c = chars_of(id);
    proof {
        assert(c@.subrange(0, c.len() as int) =~= id@);
    }
    parse_range(&c, 0, c.len())
}

/// The project whose version is to be shown: by its number, by its name, or the only one.
pub fn get(cfg: &ConfigFile, id: Option<&str>, name: Option<&str>) -> (r: Result<ProjectId, Error>)
    ensures
        id_is(
            r,
            chosen(
                cfg.projects@,
                match id {
                    Some(t) => Some(t@),
                    None => None,
                },
                match name {
                    Some(t) => Some(t@),
                    None => None,
                },
            ),
        ),
{
    match id {
        Some(text) => {
            match parse_id(text) {
                Some(n) => match cfg.get_project(n) {
                    Some(_) => Ok(n),
                    None => Err(no_project("No such project.")),
                },
                None => Err(no_project("No such project.")),
            }
        },
        None => match name {
            Some(n) => cfg.find_unique(n),
            None => {
                if cfg.projects.len() != 1 {
                    return Err(no_project("No solo project."));
                }
                Ok(cfg.projects[0].id)
            },
        },
    }
}

/// The project whose version is to be set: by its number, by its name, or the only one.
pub fn set(cfg: &ConfigFile, id: Option<&str>, name: Option<&str>) -> (r: Result<ProjectId, Error>)
    ensures
        id_is(
            r,
            chosen(
                cfg.projects@,
                match id {
                    Some(t) => Some(t@),
                    None => None,
                },
                match name {
                    Some(t) => Some(t@),
                    None => None,
                },
            ),
        ),
{
    get(cfg, id, name)
}

/// The error for a project that is not there.
fn no_project(what: &str) -> (e: Error)
    ensures
        e.kind() == ErrorKind::NoSuchProject,
{
    Error::new(ErrorKind::NoSuchProject, String::from_str(what))
}

/// Refuses a command while a release is paused.
pub fn sanity_check(paused: bool) -> (r: Result<(), Error>)
    ensures
        r is Err == paused,
        r matches Err(e) ==> e.kind() == ErrorKind::PauseFileExists,
{
    if paused {
        Err(
            Error::new(
                ErrorKind::PauseFileExists,
                String::from_str("versio is paused: use `release --resume` or `--abort`."),
            ),
        )
    } else {
        Ok(())
    }
}

/// Refuses to resume where no release is paused.
pub fn resume(paused: bool) -> (r: Result<(), Error>)
    ensures
        r is Err == !paused,
        r matches Err(e) ==> e.kind() == ErrorKind::PauseFileMissing,
{
    if paused {
        Ok(())
    } else {
        Err(Error::new(ErrorKind::PauseFileMissing, String::from_str("No release is paused.")))
    }
}

/// Refuses a release on a branch other than the one that it has to be made on.
pub fn check_branch(should: &str, is: &str) -> (r: Result<(), Error>)
    ensures
        r is Err == (should@ != is@),
        r matches Err(e) ==> e.kind() == ErrorKind::BranchMismatch,
{
    let a = should.to_owned();
    let b = is.to_owned();
    if a == b {
        Ok(())
    } else {
        let mut d = String::from_str("Branch name doesn't match: ");
        d.append(is);
        Err(Error::new(ErrorKind::BranchMismatch, d))
    }
}

/// What a release does to the version of a project, as contracts speak of it.
pub enum DecisionModel {
    NoChange,
    Changed { target: Seq<char> },
    Forward { target: Seq<char> },
    Fresh,
}

/// What a release does to the version of a project.
#[derive(Debug)]
pub enum Decision {
    /// The size is empty: the version stays.
    NoChange,
    /// The version is set to `target`.
    Changed { target: String },
    /// The version in the working tree is `target` already or beyond it: it stays, and is
    /// tagged.
    Forward { target: String },
    /// The project has no earlier version: the version in the working tree stays, and is
    /// tagged.
    Fresh,
}

impl View for Decision {
    type V = DecisionModel;

    open spec fn view(&self) -> DecisionModel {
        match self {
            Decision::NoChange => DecisionModel::NoChange,
            Decision::Changed { target } => DecisionModel::Changed { target: target@ },
            Decision::Forward { target } => DecisionModel::Forward { target: target@ },
            Decision::Fresh => DecisionModel::Fresh,
        }
    }
}

/// What a release of the size `size` does to a project whose version was `prev` at the last
/// release and is `current` in the working tree. The target is `prev` raised by `size`; the
/// version is set to the target where it is before the target. The size `Fail` is refused,
/// also for a project that has no earlier version.
#[verifier::opaque]
pub open spec fn decided(size: Size, prev: Option<Seq<char>>, current: Seq<char>) -> Result<
    DecisionModel,
    ErrorKind,
> {
    if size == Size::Empty {
        Ok(DecisionModel::NoChange)
    } else {
        match prev {
            None => if size == Size::Fail {
                Err(ErrorKind::SizeFail)
            } else {
                Ok(DecisionModel::Fresh)
            },
            Some(p) => match size.spec_apply(p) {
                Err(k) => Err(k),
                Ok(target) => match parts_of(current) {
                    None => Err(ErrorKind::VersionParse),
                    Some(c) => if triple_less(c, parts_of(target).unwrap()) {
                        Ok(DecisionModel::Changed { target })
                    } else {
                        Ok(DecisionModel::Forward { target })
                    },
                },
            },
        }
    }
}

/// Whether a result holds the decision or the kind of error that `expected` says.
pub open spec fn decision_is(r: Result<Decision, Error>, expected: Result<DecisionModel, ErrorKind>)
    -> bool {
    match (r, expected) {
        (Ok(a), Ok(b)) => a@ == b,
        (Err(e), Err(k)) => e.kind() == k,
        _ => false,
    }
}

/// What a release of the size `size` does to a project whose version was `prev` at the last
/// release and is `current` in the working tree.
pub fn decide(size: Size, prev: Option<&str>, current: &str) -> (r: Result<Decision, Error>)
    ensures
        decision_is(
            r,
            decided(
                size,
                match prev {
                    Some(t) => Some(t@),
                    None => None,
                },
                current@,
            ),
        ),
{
    reveal(decided);
    if size == Size::Empty {
        return Ok(Decision::NoChange);
    }
    match prev {
        None => {
            if size == Size::Fail {
                return Err(
                    Error::new(ErrorKind::SizeFail, String::from_str("'fail' size encountered.")),
                );
            }
            Ok(Decision::Fresh)
        },
        Some(p) => {
            let target = match size.apply(p) {
                Ok(t) => t,
                Err(e) => {
                    return Err(e);
                },
            };
            proof {
                lemma_parts_of_render(size.bump(parts_of(p@).unwrap()));
            }
            match Size::less_than(current, target.as_str()) {
                Ok(true) => Ok(Decision::Changed { target }),
                Ok(false) => Ok(Decision::Forward { target }),
                Err(e) => Err(e),
            }
        },
    }
}

/// The version that a decision leaves a project with, which its tag names: the target where
/// the version is set, the version `current` of the working tree where it stays and is
/// tagged, none where nothing changes.
pub open spec fn tagged_version(decision: DecisionModel, current: Seq<char>) -> Option<Seq<char>> {
    match decision {
        DecisionModel::NoChange => None,
        DecisionModel::Changed { target } => Some(target),
        DecisionModel::Forward { target } => Some(current),
        DecisionModel::Fresh => Some(current),
    }
}

/// Whether `after` is `before` with the writing of `val` into `file` staged for the project:
/// one write more, which puts `val` in place of what the picker of the project finds in
/// `file`, and the project among those written to.
pub open spec fn update_staged(
    before: StateWrite,
    after: StateWrite,
    project: Project,
    file: String,
    val: Seq<char>,
) -> bool {
    &&& after.writes().len() == before.writes().len() + 1
    &&& after.writes().drop_last() == before.writes()
    &&& after.writes().last() matches FileWrite::Update { pick, val: written }
    &&& after.writes().last()->Update_pick.file == file
    &&& project.located->File_0.picker.same(&after.writes().last()->Update_pick.picker)
    &&& after.writes().last()->Update_val@ == val
    &&& after.written() == before.written().insert(project.id)
}

/// Whether `after` is `before` with the tag of the version `version` staged for the project:
/// one tag more, for the project, named by the prefix of the project and the version.
pub open spec fn tag_staged(
    before: StateWrite,
    after: StateWrite,
    project: Project,
    version: Seq<char>,
) -> bool {
    &&& after.project_tags().len() == before.project_tags().len() + 1
    &&& after.project_tags().drop_last() == before.project_tags()
    &&& after.project_tags().last().1 == project.id
    &&& after.project_tags().last().0@ == tag_name(project.tag_prefix.unwrap()@, version)
}

/// Stages what a decision asks for. Only where the version is set, and stands in a file, the
/// writing of the target into `file` is staged. Wherever the version is set or stays to be
/// tagged, and the project has a tag prefix, the tag of that version is staged for the
/// project: it will go on the commit of the release where the project is written to, else
/// on the last commit that touched the project. Where nothing changes nothing is staged.
pub fn stage(
    state: &mut StateWrite,
    project: &Project,
    decision: &Decision,
    current: &str,
    file: String,
) -> (r: Result<(), Error>)
    ensures
        r is Ok,
        final(state).head_tags() == old(state).head_tags(),
        final(state).commit_tags() == old(state).commit_tags(),
        if decision is Changed && project.located is File {
            update_staged(*old(state), *final(state), *project, file, decision->Changed_target@)
        } else {
            final(state).writes() == old(state).writes() && final(state).written() == old(
                state,
            ).written()
        },
        match tagged_version(decision@, current@) {
            Some(version) => if project.tag_prefix is Some {
                tag_staged(*old(state), *final(state), *project, version)
            } else {
                final(state).project_tags() == old(state).project_tags()
            },
            None => final(state).project_tags() == old(state).project_tags(),
        },
{
    let version: &str = match decision {
        Decision::NoChange => {
            return Ok(());
        },
        Decision::Changed { target } => {
            match &project.located {
                Location::File(l) => {
                    let pick = PickPath::new(file, l.picker.copy());
                    let _ = state.update_mark(pick, target.clone(), &project.id);
                    proof {
                        assert(state.writes().drop_last() =~= old(state).writes());
                    }
                },
                Location::Tag(_) => {},
            }
            target.as_str()
        },
        Decision::Forward { .. } => current,
        Decision::Fresh => current,
    };
    let ghost before = state.project_tags();
    match &project.tag_prefix {
        Some(prefix) => {
            let _ = state.tag_head_or_last(make_tag(prefix.as_str(), version), &project.id);
            proof {
                assert(state.project_tags().drop_last() =~= before);
            }
        },
        None => {},
    }
    Ok(())
}

/// The versions of a project: at the last release, if it was there, and in the working tree.
pub type Versions = (Option<String>, String);

/// What a release does to the project of the entry `i` of a plan, given the versions of the
/// projects. A project without versions is not there.
pub open spec fn release_at(
    incrs: Seq<(ProjectId, IncrModel)>,
    versions: Map<ProjectId, Versions>,
    i: int,
) -> Result<DecisionModel, ErrorKind> {
    match versions.get(incrs[i].0) {
        None => Err(ErrorKind::NoSuchProject),
        Some(v) => decided(
            incrs[i].1.size,
            match v.0 {
                Some(t) => Some(t@),
                None => None,
            },
            v.1@,
        ),
    }
}

/// What a release does to the project with the number `id` and the size `size`.
fn release_one(id: ProjectId, size: Size, versions: &HashMap<ProjectId, Versions>) -> (r: Result<
    Decision,
    Error,
>)
    ensures
        decision_is(
            r,
            match versions@.get(id) {
                None => Err(ErrorKind::NoSuchProject),
                Some(v) => decided(
                    size,
                    match v.0 {
                        Some(t) => Some(t@),
                        None => None,
                    },
                    v.1@,
                ),
            },
        ),
{
    match versions.get(&id) {
        Some(v) => {
            let prev: Option<&str> = match &v.0 {
                Some(p) => Some(p.as_str()),
                None => None,
            };
            decide(size, prev, v.1.as_str())
        },
        None => Err(no_project("No such project.")),
    }
}

/// Whether the first `n` projects of the plan all have a decision.
pub open spec fn all_decided(
    incrs: Seq<(ProjectId, IncrModel)>,
    versions: Map<ProjectId, Versions>,
    n: int,
) -> bool {
    forall|i: int| 0 <= i < n ==> #[trigger] release_at(incrs, versions, i) is Ok
}

/// What a release does to each project of the plan, in the order of the plan. The release is
/// refused as a whole with the first error that a project gives: a size that is `Fail`, a
/// version that is no version, a project whose versions are not known.
pub fn release(plan: &Plan, versions: &HashMap<ProjectId, Versions>) -> (r: Result<
    Vec<(ProjectId, Decision)>,
    Error,
>)
    ensures
        r is Ok == all_decided(plan.spec_incrs(), versions@, plan.spec_incrs().len() as int),
        r matches Ok(v) ==> v@.len() == plan.spec_incrs().len() && forall|i: int|
            0 <= i < v@.len() ==> (#[trigger] v@[i]).0 == plan.spec_incrs()[i].0 && Ok::<
                DecisionModel,
                ErrorKind,
            >(v@[i].1@) == release_at(plan.spec_incrs(), versions@, i),
        r matches Err(e) ==> exists|i: int|
            0 <= i < plan.spec_incrs().len() && #[trigger] release_at(
                plan.spec_incrs(),
                versions@,
                i,
            ) == Err::<DecisionModel, ErrorKind>(e.kind()) && all_decided(
                plan.spec_incrs(),
                versions@,
                i,
            ),
{
    let incrs = plan.incrs();
    let ghost model = plan.spec_incrs();
    let mut out: Vec<(ProjectId, Decision)> = Vec::new();
    let mut i: usize = 0;
    while i < incrs.len()
        invariant
            i <= incrs.len(),
            model == plan.spec_incrs(),
            crate::plan::incrs_view(incrs@) == model,
            out.len() == i,
            all_decided(model, versions@, i as int),
            forall|k: int|
                0 <= k < i ==> (#[trigger] out@[k]).0 == model[k].0 && Ok::<
                    DecisionModel,
                    ErrorKind,
                >(out@[k].1@) == release_at(model, versions@, k),
        decreases incrs.len() - i,
    {
        let id = incrs[i].0;
        let size = incrs[i].1.0;
        proof {
            assert(model[i as int] == (incrs@[i as int].0, crate::plan::incr_view(incrs@[i as int].1)));
        }
        match release_one(id, size, versions) {
            Ok(d) => {
                proof {
                    assert(release_at(model, versions@, i as int) == Ok::<DecisionModel, ErrorKind>(
                        d@,
                    ));
                }
                out.push((id, d));
            },
            Err(e) => {
                proof {
                    assert(release_at(model, versions@, i as int) == Err::<DecisionModel, ErrorKind>(
                        e.kind(),
                    ));
                }
                return Err(e);
            },
        }
        i = i + 1;
    }
    Ok(out)
}

/// The kind of the error for a name that does not find one project: no project has it in
/// its name, or more than one has.
pub open spec fn unnamed_kind(projects: Seq<Project>, name: Seq<char>) -> ErrorKind {
    if named_count(projects, name) == 0 {
        ErrorKind::NoSuchProject
    } else {
        ErrorKind::AmbiguousProjectName
    }
}

/// The projects that a command is about: all of them; else those with the given numbers;
/// else those that the given names find, each name one project; else none.
#[verifier::loop_isolation(false)]
pub fn info(
    cfg: &ConfigFile,
    ids: Option<&Vec<ProjectId>>,
    names: Option<&Vec<String>>,
    all: bool,
) -> (r: Result<Vec<ProjectId>, Error>)
    ensures
        all ==> r is Ok && r.unwrap()@.len() == cfg.projects@.len() && forall|i: int|
            0 <= i < cfg.projects@.len() ==> #[trigger] r.unwrap()@[i] == cfg.projects@[i].id,
        !all && ids is Some ==> {
            &&& r is Ok == (forall|i: int|
                0 <= i < ids.unwrap()@.len() ==> index_of(
                    cfg.projects@,
                    #[trigger] ids.unwrap()@[i],
                ) < cfg.projects@.len())
            &&& r matches Ok(v) ==> v@ == ids.unwrap()@
            &&& r matches Err(e) ==> e.kind() == ErrorKind::NoSuchProject
        },
        !all && ids is None && names is Some ==> {
            &&& r is Ok == (forall|i: int|
                0 <= i < names.unwrap()@.len() ==> named_count(
                    cfg.projects@,
                    (#[trigger] names.unwrap()@[i])@,
                ) == 1)
            &&& r matches Ok(v) ==> v@.len() == names.unwrap()@.len() && forall|i: int|
                0 <= i < v@.len() ==> #[trigger] v@[i] == cfg.projects@[first_where(
                    cfg.projects@,
                    is_named(names.unwrap()@[i]@),
                ) as int].id
            &&& r matches Err(e) ==> exists|i: int|
                0 <= i < names.unwrap()@.len() && named_count(
                    cfg.projects@,
                    (#[trigger] names.unwrap()@[i])@,
                ) != 1 && e.kind() == unnamed_kind(cfg.projects@, names.unwrap()@[i]@) && forall|
                    j: int,
                |
                    0 <= j < i ==> named_count(cfg.projects@, (#[trigger] names.unwrap()@[j])@)
                        == 1
        },
        !all && ids is None && names is None ==> r is Ok && r.unwrap()@.len() == 0,
{
    let mut out: Vec<ProjectId> = Vec::new();
    if all {
        let mut i: usize = 0;
        while i < cfg.projects.len()
            invariant
                i <= cfg.projects.len(),
                out.len() == i,
                forall|k: int| 0 <= k < i ==> #[trigger] out@[k] == cfg.projects@[k].id,
            decreases cfg.projects.len() - i,
        {
            out.push(cfg.projects[i].id);
            i = i + 1;
        }
        return Ok(out);
    }
    match ids {
        Some(ids) => {
            let mut i: usize = 0;
            while i < ids.len()
                invariant
                    i <= ids.len(),
                    out@ == ids@.take(i as int),
                    forall|k: int|
                        0 <= k < i ==> index_of(cfg.projects@, #[trigger] ids@[k])
                            < cfg.projects@.len(),
                decreases ids.len() - i,
            {
                if cfg.get_project(ids[i]).is_none() {
                    return Err(no_project("No such project."));
                }
                out.push(ids[i]);
                proof {
                    assert(out@ =~= ids@.take(i + 1));
                }
                i = i + 1;
            }
            proof {
                assert(ids@.take(ids.len() as int) =~= ids@);
            }
            Ok(out)
        },
        None => match names {
            Some(names) => {
                let mut i: usize = 0;
                while i < names.len()
                    invariant
                        i <= names.len(),
                        out.len() == i,
                        forall|k: int|
                            0 <= k < i ==> named_count(cfg.projects@, (#[trigger] names@[k])@) == 1,
                        forall|k: int|
                            0 <= k < i ==> #[trigger] out@[k] == cfg.projects@[first_where(
                                cfg.projects@,
                                is_named(names@[k]@),
                            ) as int].id,
                    decreases names.len() - i,
                {
                    match cfg.find_unique(names[i].as_str()) {
                        Ok(id) => {
                            out.push(id);
                        },
                        Err(e) => {
                            proof {
                                assert(named_count(cfg.projects@, names@[i as int]@) != 1);
                            }
                            return Err(e);
                        },
                    }
                    i = i + 1;
                }
                Ok(out)
            },
            None => Ok(out),
        },
    }
}

} // verus!

//! A repository of several projects: its manifest and the tags of its earlier releases.

use crate::analyze::{analyze, paired, without, Analysis, AnnotatedMark};
use crate::changes::{prs_keyed, CommitData, FullPr};
use crate::config::{index_of, is_id, is_named, ConfigFile, Project};
use crate::plan::text_of;
use crate::table::{first_where, lemma_first_where};
use crate::finder::{first_touch, walk_fails, LineCommit};
use crate::plan::{plan_of, prs_run, slot_ids, Plan, PlanState, PrGroup};
use crate::error::{Error, ErrorKind};
use crate::mark::{MarkedData, NamedData};
use crate::picker::Scanner;
use crate::table::ProjectId;
use std::collections::HashMap;
use crate::tags::{NewTags, OldTags};
use vstd::prelude::*;
use vstd::string::StringExecFns;

verus! {

broadcast use vstd::std_specs::hash::group_hash_axioms;

/// The manifest of the working tree together with the tags of the earlier releases.
#[derive(Debug)]
pub struct Mono {
    current: ConfigFile,
    old_tags: OldTags,
}

impl Mono {
    /// The manifest, as contracts speak of it.
    pub closed spec fn spec_config(&self) -> ConfigFile {
        self.current
    }

    /// The tags of the earlier releases, as contracts speak of them.
    pub closed spec fn spec_old_tags(&self) -> OldTags {
        self.old_tags
    }

    /// The first project with the number `id`.
    pub open spec fn project(&self, id: ProjectId) -> Project {
        self.spec_config().projects@[index_of(self.spec_config().projects@, id) as int]
    }

    /// The number of the first project that has `name` in its name.
    pub open spec fn named(&self, name: Seq<char>) -> ProjectId {
        self.spec_config().projects@[first_where(self.spec_config().projects@, is_named(name)) as int].id
    }

    /// The repository with the manifest `current` and the tags `old_tags`.
    pub fn new(current: ConfigFile, old_tags: OldTags) -> (r: Mono)
        ensures
            r.spec_config() == current,
            r.spec_old_tags() == old_tags,
    {
        Mono { current, old_tags }
    }

    /// The manifest of the working tree.
    pub fn current_config(&self) -> (r: &ConfigFile)
        ensures
            *r == self.spec_config(),
    {
        &self.current
    }

    /// The tags of the earlier releases.
    pub fn old_tags(&self) -> (r: &OldTags)
        ensures
            *r == self.spec_old_tags(),
    {
        &self.old_tags
    }

    /// What has changed from the versions `prev` of the last release to the versions `current`
    /// of the working tree.
    pub fn diff(&self, prev: &Vec<AnnotatedMark>, current: &Vec<AnnotatedMark>) -> (r: Analysis)
        ensures
            r.older@ == without(prev@, current@),
            r.newer@ == without(current@, prev@),
            r.changes@ == paired(prev@, current@),
    {
        analyze(prev, current)
    }

    /// The kind and the path of every file that the pull requests touch, without the pull
    /// requests that were found by guessing.
    pub fn keyed_files(&self, prs: &Vec<(FullPr, Vec<CommitData>)>) -> (r: Vec<(String, String)>)
        ensures
            r@ == prs_keyed(prs@),
    {
        crate::changes::keyed_files(prs)
    }

    /// The release plan of the repository, for the pull requests `groups` since the last
    /// release, whose manifest was `prev`.
    pub fn configure_plan(
        &self,
        prev: ConfigFile,
        groups: Vec<PrGroup>,
        last_commits: &HashMap<ProjectId, String>,
    ) -> (r: Result<Plan, Error>)
        ensures
            match prs_run(
                PlanState::start(slot_ids(self.spec_config().projects@)),
                self.spec_config().sizes@,
                groups@,
            ) {
                Ok(t) => r is Ok && plan_of(
                    t,
                    self.spec_config().projects@,
                    last_commits@,
                    r.unwrap(),
                ),
                Err(k) => r is Err && r.unwrap_err().kind() == k,
            },
    {
        crate::plan::configure_plan(&self.current, prev, groups, last_commits)
    }

    /// The last commit that touched each project, for the commits `walk` since the last
    /// release, newest first.
    pub fn find_last_commits(&self, prev: ConfigFile, walk: Vec<LineCommit>) -> (r: Result<
        HashMap<ProjectId, String>,
        Error,
    >)
        ensures
            r is Err == walk_fails(self.spec_config().projects@, walk@),
            r matches Err(e) ==> e.kind() == ErrorKind::ManifestInvalid,
            r matches Ok(v) ==> forall|id: ProjectId| #[trigger]
                v@.get(id) == first_touch(self.spec_config().projects@, walk@, id),
    {
        crate::finder::find_last_commits(&self.current, prev, walk)
    }

    /// The last commit that touched the project, if it is known.
    fn last_of(last_commits: &HashMap<ProjectId, String>, id: ProjectId) -> (r: Option<&String>)
        ensures
            r is Some == last_commits@.get(id) is Some,
            r matches Some(c) ==> last_commits@.get(id) == Some(*c),
    {
        last_commits.get(&id)
    }

    /// Sets the version of the project with the number `id` to `val`. `data` is the text of
    /// the file of the project, and `last_commits` holds the last commit that touched each
    /// project. The text to write is given back, and the tag of the version is staged. A
    /// project whose version stands in the tags is always set; one whose version stands in a
    /// file is set where the text is there and the value that its picker finds lies in it.
    pub fn set_by_id<J: Scanner, Y: Scanner, T: Scanner, X: Scanner>(
        &self,
        id: ProjectId,
        val: &str,
        data: Option<NamedData>,
        last_commits: &HashMap<ProjectId, String>,
        new_tags: &mut NewTags,
        wrote: bool,
    ) -> (r: Result<Option<MarkedData>, Error>)
        ensures
            index_of(self.spec_config().projects@, id) >= self.spec_config().projects@.len() ==> r
                is Err && r.unwrap_err().kind() == ErrorKind::NoSuchProject,
            index_of(self.spec_config().projects@, id) < self.spec_config().projects@.len()
                ==> self.project(id).located.writes::<J, Y, T, X>(data, val@, r),
            r is Err ==> *final(new_tags) == *old(new_tags),
            r matches Ok(m) ==> self.project(id).staged(
                *old(new_tags),
                *final(new_tags),
                val@,
                text_of(last_commits@.get(id)),
                wrote || m is Some,
            ) && m is Some == self.project(id).located is File,
    {
        let proj = match self.current.get_project(id) {
            Some(p) => p,
            None => {
                return Err(
                    Error::new(ErrorKind::NoSuchProject, String::from_str("No such project")),
                );
            },
        };
        proj.set_value::<J, Y, T, X>(data, val, Mono::last_of(last_commits, id), new_tags, wrote)
    }

    /// Stages the tag of the version `val` of the project with the number `id`, which is not
    /// written.
    pub fn forward_by_id(
        &self,
        id: ProjectId,
        val: &str,
        last_commits: &HashMap<ProjectId, String>,
        new_tags: &mut NewTags,
        wrote_something: bool,
    ) -> (r: Result<(), Error>)
        ensures
            r is Ok == (index_of(self.spec_config().projects@, id)
                < self.spec_config().projects@.len()),
            r is Err ==> *final(new_tags) == *old(new_tags),
            r matches Err(e) ==> e.kind() == ErrorKind::NoSuchProject,
            r is Ok ==> self.project(id).staged(
                *old(new_tags),
                *final(new_tags),
                val@,
                text_of(last_commits@.get(id)),
                wrote_something,
            ),
    {
        let proj = match self.current.get_project(id) {
            Some(p) => p,
            None => {
                return Err(
                    Error::new(ErrorKind::NoSuchProject, String::from_str("No such project")),
                );
            },
        };
        proj.forward_value(val, Mono::last_of(last_commits, id), new_tags, wrote_something)
    }

    /// Sets the version of the one project that has `name` in its name to `val`, as
    /// `set_by_id` sets it for the number of that project.
    pub fn set_by_name<J: Scanner, Y: Scanner, T: Scanner, X: Scanner>(
        &self,
        name: &str,
        val: &str,
        data: Option<NamedData>,
        last_commits: &HashMap<ProjectId, String>,
        new_tags: &mut NewTags,
        wrote: bool,
    ) -> (r: Result<Option<MarkedData>, Error>)
        ensures
            crate::config::named_count(self.spec_config().projects@, name@) != 1 ==> r is Err
                && r.unwrap_err().kind() == crate::commands::unnamed_kind(
                self.spec_config().projects@,
                name@,
            ),
            crate::config::named_count(self.spec_config().projects@, name@) == 1
                ==> self.project(self.named(name@)).located.writes::<J, Y, T, X>(data, val@, r),
            r is Err ==> *final(new_tags) == *old(new_tags),
            r matches Ok(m) ==> {
                let id = self.named(name@);
                self.project(id).staged(
                    *old(new_tags),
                    *final(new_tags),
                    val@,
                    text_of(last_commits@.get(id)),
                    wrote || m is Some,
                ) && m is Some == self.project(id).located is File
            },
    {
        let id = match self.current.find_unique(name) {
            Ok(id) => id,
            Err(e) => {
                return Err(e);
            },
        };
        proof {
            let projects = self.spec_config().projects@;
            let at = first_where(projects, is_named(name@)) as int;
            lemma_first_where(projects, is_id(id));
            if index_of(projects, id) > at {
                assert(!is_id(id)(projects[at]));
            }
        }
        self.set_by_id::<J, Y, T, X>(id, val, data, last_commits, new_tags, wrote)
    }
}

} // verus!

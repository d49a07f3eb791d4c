//! The last commit that touched each project.

use crate::changes::CommitData;
use crate::config::{find_project, index_of, ConfigFile, Project};
use crate::error::{Error, ErrorKind};
use crate::table::{first_where, lemma_first_where, lemma_first_where_push, ProjectId};
use std::collections::HashMap;
use vstd::prelude::*;
use vstd::string::StringExecFns;

verus! {

broadcast use vstd::std_specs::hash::group_hash_axioms;

/// Whether one of the projects `earlier` with the number `id` covers `path`, and `id` is the
/// number of a project of `current`.
pub open spec fn touches(
    current: Seq<Project>,
    earlier: Seq<Project>,
    id: ProjectId,
    path: Seq<char>,
) -> bool {
    index_of(current, id) < current.len() && exists|j: int|
        0 <= j < earlier.len() && earlier[j].id == id && #[trigger] earlier[j].covers(path) == Some(
            true,
        )
}

/// Whether one of the projects `earlier` whose number is the number of a project of
/// `current` has no answer for `path`.
pub open spec fn touch_fails(current: Seq<Project>, earlier: Seq<Project>, path: Seq<char>) -> bool {
    exists|j: int|
        0 <= j < earlier.len() && index_of(current, earlier[j].id) < current.len()
            && #[trigger] earlier[j].covers(path) is None
}

/// Walks the commits since the last release, newest first, and notes for each project the
/// first commit that touches a file which the project covered at that commit.
#[derive(Debug)]
pub struct LastCommitFinder<'s> {
    on_line_commit: Option<String>,
    last_commits: HashMap<ProjectId, String>,
    prev: ConfigFile,
    current: &'s ConfigFile,
}

impl<'s> LastCommitFinder<'s> {
    /// The id of the commit that is being considered.
    pub closed spec fn on_commit(&self) -> Option<String> {
        self.on_line_commit
    }

    /// The commits noted so far, each under its project.
    pub closed spec fn found(&self) -> Map<ProjectId, String> {
        self.last_commits@
    }

    /// The manifest of the working tree.
    pub closed spec fn manifest(&self) -> ConfigFile {
        *self.current
    }

    /// The manifest as it stood at the commit that is being considered.
    pub closed spec fn earlier(&self) -> ConfigFile {
        self.prev
    }

    /// A finder for the manifest `current`, with `prev` as the manifest of the last release.
    pub fn new(prev: ConfigFile, current: &'s ConfigFile) -> (r: LastCommitFinder<'s>)
        ensures
            r.on_commit() is None,
            r.found() == Map::<ProjectId, String>::empty(),
            r.manifest() == *current,
            r.earlier() == prev,
    {
        LastCommitFinder { on_line_commit: None, last_commits: HashMap::new(), prev, current }
    }

    /// Takes up a commit, with the manifest `prev` as it stood at that commit.
    pub fn consider_line_commit(&mut self, commit: &CommitData, prev: ConfigFile) -> (r: Result<
        (),
        Error,
    >)
        ensures
            r is Ok,
            final(self).on_commit() == Some(commit.id),
            final(self).earlier() == prev,
            final(self).found() == old(self).found(),
            final(self).manifest() == old(self).manifest(),
    {
        self.on_line_commit = Some(commit.id.clone());
        self.prev = prev;
        Ok(())
    }

    /// Ends the work on a commit.
    pub fn finish_line_commit(&mut self) -> (r: Result<(), Error>)
        ensures
            r is Ok,
            *final(self) == *old(self),
    {
        Ok(())
    }

    /// Takes up a file that the commit touches: each project of the working tree that has no
    /// commit yet and covered the file at that commit gets the commit. Without a commit there
    /// is nothing to take the file up for, and a project that has no answer for the file is an
    /// error of the manifest; nothing changes then.
    pub fn consider_line_file(&mut self, path: &str) -> (r: Result<(), Error>)
        ensures
            final(self).on_commit() == old(self).on_commit(),
            final(self).earlier() == old(self).earlier(),
            final(self).manifest() == old(self).manifest(),
            r is Err == (old(self).on_commit() is None || touch_fails(
                old(self).manifest().projects@,
                old(self).earlier().projects@,
                path@,
            )),
            r is Err ==> final(self).found() == old(self).found(),
            r matches Err(e) ==> e.kind() == (if old(self).on_commit() is None {
                ErrorKind::RepoError
            } else {
                ErrorKind::ManifestInvalid
            }),
            r is Ok ==> forall|id: ProjectId| #[trigger]
                final(self).found().get(id) == (if old(self).found().get(id) is Some {
                    old(self).found().get(id)
                } else if touches(
                    old(self).manifest().projects@,
                    old(self).earlier().projects@,
                    id,
                    path@,
                ) {
                    old(self).on_commit()
                } else {
                    None
                }),
    {
        let oid = match &self.on_line_commit {
            Some(oid) => oid.clone(),
            None => {
                return Err(
                    Error::new(ErrorKind::RepoError, String::from_str("Not on a line commit")),
                );
            },
        };
        let ghost current = self.current.projects@;
        let ghost earlier = self.prev.projects@;
        let mut hits: Vec<ProjectId> = Vec::new();
        let mut j: usize = 0;
        while j < self.prev.projects.len()
            invariant
                j <= self.prev.projects.len(),
                *self == *old(self),
                self.on_line_commit is Some,
                current == self.current.projects@,
                earlier == self.prev.projects@,
                forall|id: ProjectId|
                    hits@.contains(id) <==> (index_of(current, id) < current.len() && exists|m: int|
                        0 <= m < j && earlier[m].id == id && #[trigger] earlier[m].covers(path@)
                            == Some(true)),
                forall|m: int|
                    0 <= m < j && index_of(current, earlier[m].id) < current.len()
                        ==> #[trigger] earlier[m].covers(path@) is Some,
            decreases self.prev.projects.len() - j,
        {
            let project = &self.prev.projects[j];
            if find_project(&self.current.projects, project.id) < self.current.projects.len() {
                match project.does_cover(path) {
                    Err(e) => {
                        proof {
                            assert(earlier[j as int].covers(path@) is None);
                        }
                        return Err(e);
                    },
                    Ok(covers) => {
                        if covers {
                            let ghost before = hits@;
                            hits.push(project.id);
                            proof {
                                let pid = earlier[j as int].id;
                                assert(hits@[before.len() as int] == pid);
                                assert(earlier[j as int].covers(path@) == Some(true));
                                assert forall|id: ProjectId|
                                    hits@.contains(id) <==> (index_of(current, id) < current.len()
                                        && exists|m: int|
                                        0 <= m < j + 1 && earlier[m].id == id
                                            && #[trigger] earlier[m].covers(path@) == Some(true)) by {
                                    if hits@.contains(id) {
                                        let i = choose|i: int| 0 <= i < hits@.len() && hits@[i] == id;
                                        if i < before.len() {
                                            assert(before[i] == id);
                                            assert(before.contains(id));
                                        }
                                    }
                                    if before.contains(id) {
                                        let i = choose|i: int| 0 <= i < before.len() && before[i] == id;
                                        assert(hits@[i] == id);
                                    }
                                }
                            }
                        }
                    },
                }
            }
            j = j + 1;
        }
        proof {
            assert(!touch_fails(current, earlier, path@));
            assert forall|id: ProjectId| hits@.contains(id) <==> touches(
                current,
                earlier,
                id,
                path@,
            ) by {}
        }
        let ghost start = self.last_commits@;
        let mut i: usize = 0;
        while i < hits.len()
            invariant
                i <= hits.len(),
                self.on_line_commit == old(self).on_line_commit,
                self.on_line_commit == Some(oid),
                self.prev == old(self).prev,
                self.current == old(self).current,
                start == old(self).last_commits@,
                forall|id: ProjectId| #[trigger]
                    self.last_commits@.get(id) == (if start.get(id) is Some {
                        start.get(id)
                    } else if hits@.take(i as int).contains(id) {
                        Some(oid)
                    } else {
                        None
                    }),
            decreases hits.len() - i,
        {
            let id = hits[i];
            let ghost seen = hits@.take(i as int);
            let ghost before = self.last_commits@;
            if !self.last_commits.contains_key(&id) {
                self.last_commits.insert(id, oid.clone());
            }
            proof {
                let now = hits@.take(i + 1);
                assert(now =~= seen.push(id));
                assert(self.last_commits@ == if before.contains_key(id) {
                    before
                } else {
                    before.insert(id, oid)
                });
                assert forall|x: ProjectId| #[trigger]
                    self.last_commits@.get(x) == (if start.get(x) is Some {
                        start.get(x)
                    } else if now.contains(x) {
                        Some(oid)
                    } else {
                        None
                    }) by {
                    assert(before.get(x) == (if start.get(x) is Some {
                        start.get(x)
                    } else if seen.contains(x) {
                        Some(oid)
                    } else {
                        None
                    }));
                    if now.contains(x) {
                        let k = choose|k: int| 0 <= k < now.len() && now[k] == x;
                        if k < seen.len() {
                            assert(seen[k] == x);
                            assert(seen.contains(x));
                        }
                    }
                    if seen.contains(x) {
                        let k = choose|k: int| 0 <= k < seen.len() && seen[k] == x;
                        assert(now[k] == x);
                    }
                    if x == id {
                        assert(now[seen.len() as int] == x);
                    }
                }
            }
            i = i + 1;
        }
        proof {
            assert(hits@.take(hits.len() as int) =~= hits@);
        }
        Ok(())
    }

    /// Ends the work on a file.
    pub fn finish_line_file(&mut self) -> (r: Result<(), Error>)
        ensures
            r is Ok,
            *final(self) == *old(self),
    {
        Ok(())
    }

    /// The commits that were noted, each under its project.
    pub fn finish_finder(self) -> (r: Result<HashMap<ProjectId, String>, Error>)
        ensures
            r is Ok,
            r.unwrap()@ == self.found(),
    {
        Ok(self.last_commits)
    }
}

/// A commit of the walk together with the manifest as it stood at the commit.
pub type LineCommit = (CommitData, ConfigFile);

/// Whether the commit touches a file that the project with the number `id` covered at the
/// commit, where `id` is the number of a project of `current`.
pub open spec fn commit_touches(current: Seq<Project>, line: LineCommit, id: ProjectId) -> bool {
    exists|f: int|
        0 <= f < line.0.files@.len() && touches(
            current,
            line.1.projects@,
            id,
            (#[trigger] line.0.files@[f])@,
        )
}

/// The test that accepts the commits that touch the project with the number `id`.
pub open spec fn touching(current: Seq<Project>, id: ProjectId) -> spec_fn(LineCommit) -> bool {
    |line: LineCommit| commit_touches(current, line, id)
}

/// Whether a project has no answer for a file of a commit of the walk.
pub open spec fn walk_fails(current: Seq<Project>, walk: Seq<LineCommit>) -> bool {
    exists|k: int, f: int|
        0 <= k < walk.len() && 0 <= f < walk[k].0.files@.len() && touch_fails(
            current,
            walk[k].1.projects@,
            (#[trigger] walk[k].0.files@[f])@,
        )
}

/// The id of the first commit of the walk that touches the project with the number `id`.
pub open spec fn first_touch(current: Seq<Project>, walk: Seq<LineCommit>, id: ProjectId) -> Option<
    String,
> {
    let k = first_where(walk, touching(current, id)) as int;
    if k < walk.len() {
        Some(walk[k].0.id)
    } else {
        None
    }
}

/// The last commit that touched each project of `current`: `walk` holds the commits since
/// the last release, newest first, each with the manifest as it stood at the commit, and a
/// project gets the first commit of the walk that touches a file which it covered then. A
/// project that has no answer for a file is an error of the manifest.
pub fn find_last_commits(current: &ConfigFile, prev: ConfigFile, walk: Vec<LineCommit>) -> (r:
    Result<HashMap<ProjectId, String>, Error>)
    ensures
        r is Err == walk_fails(current.projects@, walk@),
        r matches Err(e) ==> e.kind() == ErrorKind::ManifestInvalid,
        r matches Ok(v) ==> forall|id: ProjectId| #[trigger]
            v@.get(id) == first_touch(current.projects@, walk@, id),
{
    let ghost all = walk@;
    let ghost projects = current.projects@;
    let mut rest = walk;
    let mut finder = LastCommitFinder::new(prev, current);
    let total = rest.len();
    let mut n: usize = 0;
    proof {
        assert forall|id: ProjectId| #[trigger]
            finder.found().get(id) == first_touch(projects, all.take(0), id) by {
            lemma_first_where(all.take(0), touching(projects, id));
        }
    }
    while n < total
        invariant
            n <= total,
            total == all.len(),
            all == walk@,
            rest@ == all.skip(n as int),
            projects == current.projects@,
            finder.manifest() == *current,
            forall|id: ProjectId| #[trigger]
                finder.found().get(id) == first_touch(projects, all.take(n as int), id),
            forall|k: int, f: int|
                0 <= k < n && 0 <= f < all[k].0.files@.len() ==> !touch_fails(
                    projects,
                    all[k].1.projects@,
                    (#[trigger] all[k].0.files@[f])@,
                ),
        decreases total - n,
    {
        let line = rest.remove(0);
        proof {
            assert(line == all[n as int]);
            assert(rest@ =~= all.skip(n + 1));
        }
        let commit = line.0;
        let ghost start = finder.found();
        let _ = finder.consider_line_commit(&commit, line.1);
        let files = commit.files();
        let mut f: usize = 0;
        while f < files.len()
            invariant
                f <= files.len(),
                n < total,
                total == all.len(),
                all == walk@,
                projects == current.projects@,
                *files == commit.files,
                commit == all[n as int].0,
                finder.manifest() == *current,
                finder.earlier() == all[n as int].1,
                finder.on_commit() == Some(commit.id),
                forall|id: ProjectId| #[trigger]
                    finder.found().get(id) == (if start.get(id) is Some {
                        start.get(id)
                    } else if exists|g: int|
                        0 <= g < f && touches(
                            projects,
                            all[n as int].1.projects@,
                            id,
                            (#[trigger] files@[g])@,
                        ) {
                        Some(commit.id)
                    } else {
                        None
                    }),
                forall|g: int|
                    0 <= g < f ==> !touch_fails(
                        projects,
                        all[n as int].1.projects@,
                        (#[trigger] files@[g])@,
                    ),
            decreases files.len() - f,
        {
            match finder.consider_line_file(files[f].as_str()) {
                Ok(()) => {},
                Err(e) => {
                    proof {
                        assert(touch_fails(
                            projects,
                            all[n as int].1.projects@,
                            all[n as int].0.files@[f as int]@,
                        ));
                    }
                    return Err(e);
                },
            }
            let _ = finder.finish_line_file();
            f = f + 1;
        }
        let _ = finder.finish_line_commit();
        proof {
            let now = all.take(n + 1);
            let was = all.take(n as int);
            assert(now =~= was.push(all[n as int]));
            assert forall|id: ProjectId| #[trigger]
                finder.found().get(id) == first_touch(projects, now, id) by {
                let p = touching(projects, id);
                lemma_first_where_push(was, p, all[n as int]);
                lemma_first_where(was, p);
                let k = first_where(was, p) as int;
                if k < was.len() {
                    assert(now[k] == was[k]);
                }
                if commit_touches(projects, all[n as int], id) {
                    let g = choose|g: int|
                        0 <= g < all[n as int].0.files@.len() && touches(
                            projects,
                            all[n as int].1.projects@,
                            id,
                            (#[trigger] all[n as int].0.files@[g])@,
                        );
                    assert(touches(projects, all[n as int].1.projects@, id, files@[g]@));
                }
            }
        }
        n = n + 1;
    }
    proof {
        assert(all.take(total as int) =~= all);
    }
    finder.finish_finder()
}

} // verus!

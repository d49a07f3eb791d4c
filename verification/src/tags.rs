//! The version tags of earlier releases, and the tags that a release is about to set.

use crate::error::{Error, ErrorKind};
use crate::table::{
    find_text, has_text, lemma_first_where, lemma_lookup_text_push, lookup_text, position_text,
    put_text, ProjectId,
};
use std::collections::HashMap;
use vstd::prelude::*;
use vstd::string::StringExecFns;

verus! {

broadcast use vstd::std_specs::hash::group_hash_axioms;

/// An index counted from `ind`: the index `i` less `ind`, where `i` is not before `ind`.
pub open spec fn rebased(i: Option<usize>, ind: usize) -> Option<usize> {
    match i {
        Some(i) => if i >= ind {
            Some((i - ind) as usize)
        } else {
            None
        },
        None => None,
    }
}

/// The version tags that earlier releases gave each project, latest first, and for each commit
/// the index of the latest tag of the project that is not after that commit.
#[derive(Debug)]
pub struct OldTags {
    by_proj: HashMap<ProjectId, Vec<String>>,
    not_after: HashMap<ProjectId, Vec<(String, usize)>>,
}

impl OldTags {
    /// The tag lists, each under its project.
    pub closed spec fn by_proj(&self) -> Map<ProjectId, Vec<String>> {
        self.by_proj@
    }

    /// The index tables, each under its project. In a table the first of two entries under
    /// one commit counts.
    pub closed spec fn marks(&self) -> Map<ProjectId, Vec<(String, usize)>> {
        self.not_after@
    }

    /// The tags of a project, latest first.
    pub open spec fn tags_of(&self, proj: ProjectId) -> Option<Seq<String>> {
        match self.by_proj().get(proj) {
            Some(v) => Some(v@),
            None => None,
        }
    }

    /// The index that the table of a project holds for a commit.
    pub open spec fn index_at(&self, proj: ProjectId, oid: Seq<char>) -> Option<usize> {
        match self.marks().get(proj) {
            Some(m) => lookup_text(m@, oid),
            None => None,
        }
    }

    /// The latest tag of a project.
    pub open spec fn spec_latest(&self, proj: ProjectId) -> Option<String> {
        match self.tags_of(proj) {
            Some(t) => if t.len() > 0 {
                Some(t[0])
            } else {
                None
            },
            None => None,
        }
    }

    /// The latest tag of a project that is not after the commit `oid`.
    pub open spec fn spec_not_after(&self, proj: ProjectId, oid: Seq<char>) -> Option<String> {
        match (self.index_at(proj, oid), self.tags_of(proj)) {
            (Some(i), Some(t)) => if i < t.len() {
                Some(t[i as int])
            } else {
                None
            },
            _ => None,
        }
    }

    /// Whether the index seen from the commit `oid` can be made for a project: where the
    /// table of the project knows the commit, the project has tags, and the index does not
    /// point past them.
    pub open spec fn can_slice_at(&self, oid: Seq<char>, proj: ProjectId) -> bool {
        match self.index_at(proj, oid) {
            Some(ind) => self.tags_of(proj) is Some && ind <= self.tags_of(proj).unwrap().len(),
            None => true,
        }
    }

    /// Whether `r` holds for a project what is seen from the commit `oid`: nothing where the
    /// table of the project does not know the commit; else the tags from the commit's index
    /// on, and the indices that are not before it, counted from it.
    pub open spec fn sliced_at(&self, oid: Seq<char>, r: &OldTags, proj: ProjectId) -> bool {
        match self.index_at(proj, oid) {
            Some(ind) => {
                &&& r.tags_of(proj) == Some(self.tags_of(proj).unwrap().skip(ind as int))
                &&& forall|o: Seq<char>| #[trigger]
                    r.index_at(proj, o) == rebased(self.index_at(proj, o), ind)
            },
            None => {
                &&& r.tags_of(proj) is None
                &&& forall|o: Seq<char>| #[trigger] r.index_at(proj, o) is None
            },
        }
    }

    /// Whether the lists `by` and the tables `na` hold for a project what is seen from the
    /// commit `oid`.
    spec fn built_at(
        &self,
        oid: Seq<char>,
        by: Map<ProjectId, Vec<String>>,
        na: Map<ProjectId, Vec<(String, usize)>>,
        proj: ProjectId,
    ) -> bool {
        match self.index_at(proj, oid) {
            Some(ind) => {
                &&& self.tags_of(proj) is Some
                &&& ind <= self.tags_of(proj).unwrap().len()
                &&& by.contains_key(proj)
                &&& by[proj]@ == self.tags_of(proj).unwrap().skip(ind as int)
                &&& na.contains_key(proj)
                &&& forall|o: Seq<char>| #[trigger]
                    lookup_text(na[proj]@, o) == rebased(self.index_at(proj, o), ind)
            },
            None => !by.contains_key(proj) && !na.contains_key(proj),
        }
    }

    /// An index of the given tag lists and index tables.
    pub fn new(
        by_proj: HashMap<ProjectId, Vec<String>>,
        not_after: HashMap<ProjectId, Vec<(String, usize)>>,
    ) -> (r: OldTags)
        ensures
            r.by_proj() == by_proj@,
            r.marks() == not_after@,
    {
        OldTags { by_proj, not_after }
    }

    /// The index that knows no tags.
    pub fn empty() -> (r: OldTags)
        ensures
            r.by_proj() == Map::<ProjectId, Vec<String>>::empty(),
            r.marks() == Map::<ProjectId, Vec<(String, usize)>>::empty(),
            forall|p: ProjectId| #[trigger] r.spec_latest(p) is None,
    {
        OldTags { by_proj: HashMap::new(), not_after: HashMap::new() }
    }

    /// The latest tag of a project.
    pub fn latest(&self, proj: &ProjectId) -> (r: Option<&String>)
        ensures
            r is Some == self.spec_latest(*proj) is Some,
            r matches Some(t) ==> self.spec_latest(*proj) == Some(*t),
    {
        match self.by_proj.get(proj) {
            Some(list) => {
                if list.len() > 0 {
                    Some(&list[0])
                } else {
                    None
                }
            },
            None => None,
        }
    }

    /// The latest tag of a project that is not after the commit `boundary`.
    pub fn not_after(&self, proj: &ProjectId, boundary: &str) -> (r: Option<&String>)
        ensures
            r is Some == self.spec_not_after(*proj, boundary@) is Some,
            r matches Some(t) ==> self.spec_not_after(*proj, boundary@) == Some(*t),
    {
        let table = match self.not_after.get(proj) {
            Some(table) => table,
            None => {
                return None;
            },
        };
        let a = find_text(table, boundary);
        if a == table.len() {
            return None;
        }
        let ind = table[a].1;
        match self.by_proj.get(proj) {
            Some(list) => {
                if ind < list.len() {
                    Some(&list[ind])
                } else {
                    None
                }
            },
            None => None,
        }
    }

    /// The index as it is seen from the earlier commit `new_oid`: for each project whose table
    /// knows the commit, the tags later than the commit's are dropped, and the indices are
    /// counted from the commit's. It is refused where an index of `new_oid` points past the
    /// tags of its project, or the project has no tags.
    pub fn slice_earlier(&self, new_oid: &str) -> (r: Result<OldTags, Error>)
        ensures
            r is Ok == (forall|p: ProjectId| #[trigger] self.can_slice_at(new_oid@, p)),
            r matches Ok(t) ==> forall|p: ProjectId| #[trigger] self.sliced_at(new_oid@, &t, p),
            r matches Err(e) ==> e.kind() == ErrorKind::RepoError,
    {
        let mut by_proj: HashMap<ProjectId, Vec<String>> = HashMap::new();
        let mut not_after: HashMap<ProjectId, Vec<(String, usize)>> = HashMap::new();
        let ghost mut done: Set<ProjectId> = Set::empty();
        for pid in keys: self.not_after.keys()
            invariant
                keys.seq().unref().to_set() == self.marks().dom(),
                forall|p: ProjectId|
                    done.contains(p) <==> exists|j: int|
                        0 <= j < keys.index() && #[trigger] keys.seq().unref()[j] == p,
                forall|p: ProjectId|
                    done.contains(p) ==> self.marks().contains_key(p) && #[trigger] self.built_at(
                        new_oid@,
                        by_proj@,
                        not_after@,
                        p,
                    ),
                forall|p: ProjectId|
                    #![trigger by_proj@.contains_key(p)]
                    #![trigger not_after@.contains_key(p)]
                    by_proj@.contains_key(p) || not_after@.contains_key(p) ==> done.contains(p),
                keys.index() == keys.seq().len() ==> done == self.marks().dom(),
        {
            let ghost old_by = by_proj@;
            let ghost old_na = not_after@;
            let ghost old_done = done;
            let ghost at = keys.index();
            proof {
                assert(keys.seq().unref()[at] == *pid);
                assert(keys.seq().unref().to_set().contains(*pid));
            }
            let afts = match self.not_after.get(pid) {
                Some(afts) => afts,
                None => {
                    return Err(OldTags::bad_index(new_oid));
                },
            };
            let a = find_text(afts, new_oid);
            if a < afts.len() {
                let ind = afts[a].1;
                let list = match self.by_proj.get(pid) {
                    Some(tags) => {
                        if ind > tags.len() {
                            proof {
                                assert(!self.can_slice_at(new_oid@, *pid));
                            }
                            return Err(OldTags::bad_index(new_oid));
                        }
                        tail_of(tags, ind)
                    },
                    None => {
                        proof {
                            assert(!self.can_slice_at(new_oid@, *pid));
                        }
                        return Err(OldTags::bad_index(new_oid));
                    },
                };
                let table = rebase(afts, ind);
                by_proj.insert(*pid, list);
                not_after.insert(*pid, table);
            }
            proof {
                done = done.insert(*pid);
            }
            proof {
                assert forall|p: ProjectId|
                    done.contains(p) <==> exists|j: int|
                        0 <= j < at + 1 && #[trigger] keys.seq().unref()[j] == p by {
                    if old_done.contains(p) {
                        let j = choose|j: int| 0 <= j < at && #[trigger] keys.seq().unref()[j] == p;
                        assert(keys.seq().unref()[j] == p);
                    }
                    if exists|j: int| 0 <= j < at + 1 && #[trigger] keys.seq().unref()[j] == p {
                        let j = choose|j: int|
                            0 <= j < at + 1 && #[trigger] keys.seq().unref()[j] == p;
                        if j < at {
                            assert(old_done.contains(p));
                        }
                    }
                }
                assert forall|p: ProjectId| done.contains(p) implies self.marks().contains_key(p)
                    && #[trigger] self.built_at(new_oid@, by_proj@, not_after@, p) by {
                    if p != *pid {
                        assert(self.built_at(new_oid@, old_by, old_na, p));
                    }
                }
                assert forall|p: ProjectId|
                    at + 1 == keys.seq().len() && self.marks().contains_key(
                        p,
                    ) implies done.contains(p) by {
                    assert(keys.seq().unref().to_set().contains(p));
                    let j = choose|j: int|
                        0 <= j < keys.seq().unref().len() && keys.seq().unref()[j] == p;
                    assert(keys.seq().unref()[j] == p);
                }
                assert(at + 1 == keys.seq().len() ==> done =~= self.marks().dom());
            }
        }
        let r = OldTags { by_proj, not_after };
        proof {
            assert forall|p: ProjectId| #[trigger] self.can_slice_at(new_oid@, p) by {
                if self.marks().contains_key(p) {
                    assert(self.built_at(new_oid@, by_proj@, not_after@, p));
                }
            }
            assert forall|p: ProjectId| #[trigger] self.sliced_at(new_oid@, &r, p) by {
                if self.marks().contains_key(p) {
                    assert(self.built_at(new_oid@, by_proj@, not_after@, p));
                }
            }
        }
        Ok(r)
    }

    fn bad_index(oid: &str) -> (e: Error)
        ensures
            e.kind() == ErrorKind::RepoError,
    {
        let mut d = String::from_str("Illegal tag index for ");
        d.append(oid);
        Error::new(ErrorKind::RepoError, d)
    }
}

/// The tags that a release is about to set: those for the commit that it will make, and those
/// that move to a commit that exists.
#[derive(Debug)]
pub struct NewTags {
    pending_commit: bool,
    tags_for_new_commit: Vec<String>,
    changed_tags: Vec<(String, String)>,
}

impl Default for NewTags {
    fn default() -> (r: NewTags)
        ensures
            !r.spec_should_commit(),
            r.new_commit_tags().len() == 0,
            r.changed().len() == 0,
    {
        NewTags::new()
    }
}

impl NewTags {
    /// Whether a commit has been asked for.
    pub closed spec fn spec_should_commit(&self) -> bool {
        self.pending_commit
    }

    /// The tags for the commit that the release will make, in the order in which they came.
    pub closed spec fn new_commit_tags(&self) -> Seq<String> {
        self.tags_for_new_commit@
    }

    /// The tags that move to a commit that exists, each with that commit. Of two entries under
    /// one tag the first counts.
    pub closed spec fn changed(&self) -> Seq<(String, String)> {
        self.changed_tags@
    }

    /// No tags, and no commit asked for.
    pub fn new() -> (r: NewTags)
        ensures
            !r.spec_should_commit(),
            r.new_commit_tags().len() == 0,
            r.changed().len() == 0,
    {
        NewTags { tags_for_new_commit: Vec::new(), changed_tags: Vec::new(), pending_commit: false }
    }

    /// Whether a commit has been asked for.
    pub fn should_commit(&self) -> (r: bool)
        ensures
            r == self.spec_should_commit(),
    {
        self.pending_commit
    }

    /// The tags for the commit that the release will make.
    pub fn tags_for_new_commit(&self) -> (r: &Vec<String>)
        ensures
            r@ == self.new_commit_tags(),
    {
        &self.tags_for_new_commit
    }

    /// The tags that move to a commit that exists, each with that commit.
    pub fn changed_tags(&self) -> (r: &Vec<(String, String)>)
        ensures
            r@ == self.changed(),
    {
        &self.changed_tags
    }

    /// Asks for a commit.
    pub fn flag_commit(&mut self)
        ensures
            final(self).spec_should_commit(),
            final(self).new_commit_tags() == old(self).new_commit_tags(),
            final(self).changed() == old(self).changed(),
    {
        self.pending_commit = true;
    }

    /// Adds a tag for the commit that the release will make.
    pub fn add_tag(&mut self, tag: String)
        ensures
            final(self).new_commit_tags() == old(self).new_commit_tags().push(tag),
            final(self).spec_should_commit() == old(self).spec_should_commit(),
            final(self).changed() == old(self).changed(),
    {
        self.tags_for_new_commit.push(tag);
    }

    /// Moves a tag to the commit `commit`; an earlier move of the same tag is given up.
    pub fn change_tag(&mut self, tag: String, commit: &str)
        ensures
            forall|t: Seq<char>| #[trigger]
                lookup_text(final(self).changed(), t) is Some == (t == tag@ || lookup_text(
                    old(self).changed(),
                    t,
                ) is Some),
            lookup_text(final(self).changed(), tag@).unwrap()@ == commit@,
            forall|t: Seq<char>|
                t != tag@ ==> #[trigger] lookup_text(final(self).changed(), t) == lookup_text(
                    old(self).changed(),
                    t,
                ),
            final(self).spec_should_commit() == old(self).spec_should_commit(),
            final(self).new_commit_tags() == old(self).new_commit_tags(),
    {
        put_text(&mut self.changed_tags, tag, commit.to_owned());
    }
}

/// The entries of `list` from the index `from` on.
fn tail_of(list: &Vec<String>, from: usize) -> (r: Vec<String>)
    requires
        from <= list.len(),
    ensures
        r@ == list@.skip(from as int),
{
    let mut r: Vec<String> = Vec::new();
    let mut i: usize = from;
    while i < list.len()
        invariant
            from <= i <= list.len(),
            r@ == list@.subrange(from as int, i as int),
        decreases list.len() - i,
    {
        r.push(list[i].clone());
        proof {
            assert(r@ =~= list@.subrange(from as int, i + 1));
        }
        i = i + 1;
    }
    proof {
        assert(list@.subrange(from as int, list.len() as int) =~= list@.skip(from as int));
    }
    r
}

/// The table `afts` counted from `ind`: the entries that are not before `ind`, each less `ind`.
fn rebase(afts: &Vec<(String, usize)>, ind: usize) -> (r: Vec<(String, usize)>)
    ensures
        forall|o: Seq<char>| #[trigger] lookup_text(r@, o) == rebased(lookup_text(afts@, o), ind),
{
    let mut r: Vec<(String, usize)> = Vec::new();
    let mut j: usize = 0;
    while j < afts.len()
        invariant
            j <= afts.len(),
            forall|o: Seq<char>| #[trigger]
                lookup_text(r@, o) == (if position_text(afts@, o) < j {
                    rebased(lookup_text(afts@, o), ind)
                } else {
                    None
                }),
        decreases afts.len() - j,
    {
        let ghost old_r = r@;
        let ghost key = afts@[j as int].0@;
        proof {
            lemma_first_where(afts@, has_text(key));
        }
        if find_text(afts, afts[j].0.as_str()) == j && afts[j].1 >= ind {
            let e = (afts[j].0.clone(), afts[j].1 - ind);
            r.push(e);
            proof {
                assert forall|o: Seq<char>| #[trigger]
                    lookup_text(r@, o) == (if position_text(afts@, o) < j + 1 {
                        rebased(lookup_text(afts@, o), ind)
                    } else {
                        None
                    }) by {
                    lemma_lookup_text_push(old_r, e, o);
                    lemma_first_where(afts@, has_text(o));
                }
            }
        } else {
            proof {
                assert forall|o: Seq<char>| #[trigger]
                    lookup_text(r@, o) == (if position_text(afts@, o) < j + 1 {
                        rebased(lookup_text(afts@, o), ind)
                    } else {
                        None
                    }) by {
                    lemma_first_where(afts@, has_text(o));
                }
            }
        }
        j = j + 1;
    }
    proof {
        assert forall|o: Seq<char>| #[trigger]
            lookup_text(r@, o) == rebased(lookup_text(afts@, o), ind) by {
            lemma_first_where(afts@, has_text(o));
        }
    }
    r
}

/// The latest tag of a project in the index seen from a commit is the latest tag of the project
/// that is not after that commit.
pub proof fn lemma_slice_latest(tags: &OldTags, oid: Seq<char>, sliced: &OldTags, proj: ProjectId)
    requires
        tags.can_slice_at(oid, proj),
        tags.sliced_at(oid, sliced, proj),
    ensures
        sliced.spec_latest(proj) == tags.spec_not_after(proj, oid),
{
}

} // verus!

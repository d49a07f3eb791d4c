//! What has changed between the versions of the last release and those of the working tree.

use crate::table::{first_where, lemma_first_where, lemma_first_where_is, ProjectId};
use vstd::prelude::*;

verus! {

/// A project with its version: the number and the name of the project, and the version.
#[derive(Debug, PartialEq, Eq)]
pub struct AnnotatedMark {
    pub id: ProjectId,
    pub name: String,
    pub mark: String,
}

impl AnnotatedMark {
    /// The version `mark` of the project with the number `id` and the name `name`.
    pub fn new(id: ProjectId, name: String, mark: String) -> (r: AnnotatedMark)
        ensures
            r.id == id,
            r.name == name,
            r.mark == mark,
    {
        AnnotatedMark { id, name, mark }
    }

    /// The number of the project.
    pub fn id(&self) -> (r: ProjectId)
        ensures
            r == self.id,
    {
        self.id
    }

    /// The name of the project.
    pub fn name(&self) -> (r: &str)
        ensures
            r@ == self.name@,
    {
        self.name.as_str()
    }

    /// The version of the project.
    pub fn mark(&self) -> (r: &str)
        ensures
            r@ == self.mark@,
    {
        self.mark.as_str()
    }

    /// The same project with the same version.
    fn again(&self) -> (r: AnnotatedMark)
        ensures
            r == *self,
    {
        AnnotatedMark { id: self.id, name: self.name.clone(), mark: self.mark.clone() }
    }
}

/// A project that both sides hold: how it stood, how it stands, and what differs.
#[derive(Debug, PartialEq, Eq)]
pub struct Change {
    pub old_mark: AnnotatedMark,
    pub new_mark: AnnotatedMark,
    pub name: Option<(String, String)>,
    pub value: Option<(String, String)>,
}

/// The old and the new text where they differ.
pub open spec fn differing(old: String, new: String) -> Option<(String, String)> {
    if old@ == new@ {
        None
    } else {
        Some((old, new))
    }
}

/// The change from `old` to `new`: the names where they differ, and the versions where they
/// differ.
pub open spec fn change_of(old: AnnotatedMark, new: AnnotatedMark) -> Change {
    Change {
        old_mark: old,
        new_mark: new,
        name: differing(old.name, new.name),
        value: differing(old.mark, new.mark),
    }
}

impl Change {
    /// The change from `old_mark` to `new_mark`.
    pub fn calc(old_mark: &AnnotatedMark, new_mark: &AnnotatedMark) -> (r: Change)
        ensures
            r == change_of(*old_mark, *new_mark),
    {
        let name = if old_mark.name == new_mark.name {
            None
        } else {
            Some((old_mark.name.clone(), new_mark.name.clone()))
        };
        let value = if old_mark.mark == new_mark.mark {
            None
        } else {
            Some((old_mark.mark.clone(), new_mark.mark.clone()))
        };
        Change { old_mark: old_mark.again(), new_mark: new_mark.again(), name, value }
    }

    /// The project as it stood.
    pub fn old_mark(&self) -> (r: &AnnotatedMark)
        ensures
            *r == self.old_mark,
    {
        &self.old_mark
    }

    /// The project as it stands.
    pub fn new_mark(&self) -> (r: &AnnotatedMark)
        ensures
            *r == self.new_mark,
    {
        &self.new_mark
    }

    /// The old and the new name, where the name has changed.
    pub fn name(&self) -> (r: &Option<(String, String)>)
        ensures
            *r == self.name,
    {
        &self.name
    }

    /// The old and the new version, where the version has changed.
    pub fn value(&self) -> (r: &Option<(String, String)>)
        ensures
            *r == self.value,
    {
        &self.value
    }
}

/// What has changed between two sides: the projects that only the new side holds, those that
/// only the old side holds, and those that both hold.
#[derive(Debug, PartialEq, Eq)]
pub struct Analysis {
    pub newer: Vec<AnnotatedMark>,
    pub older: Vec<AnnotatedMark>,
    pub changes: Vec<Change>,
}

impl Analysis {
    /// The projects that only the new side holds.
    pub fn newer(&self) -> (r: &Vec<AnnotatedMark>)
        ensures
            *r == self.newer,
    {
        &self.newer
    }

    /// The projects that only the old side holds.
    pub fn older(&self) -> (r: &Vec<AnnotatedMark>)
        ensures
            *r == self.older,
    {
        &self.older
    }

    /// The projects that both sides hold.
    pub fn changes(&self) -> (r: &Vec<Change>)
        ensures
            *r == self.changes,
    {
        &self.changes
    }
}

/// The test that accepts the marks of the project with the number `id`.
pub open spec fn marks_id(id: ProjectId) -> spec_fn(AnnotatedMark) -> bool {
    |m: AnnotatedMark| m.id == id
}

/// The marks of `a` whose project has no mark in `b`, in their order.
pub open spec fn without(a: Seq<AnnotatedMark>, b: Seq<AnnotatedMark>) -> Seq<AnnotatedMark>
    decreases a.len(),
{
    if a.len() == 0 {
        Seq::empty()
    } else {
        let rest = without(a.drop_last(), b);
        if first_where(b, marks_id(a.last().id)) < b.len() {
            rest
        } else {
            rest.push(a.last())
        }
    }
}

/// For each mark of `newer` whose project has a mark in `older`, the change from the first
/// such mark, in the order of `newer`.
pub open spec fn paired(older: Seq<AnnotatedMark>, newer: Seq<AnnotatedMark>) -> Seq<Change>
    decreases newer.len(),
{
    if newer.len() == 0 {
        Seq::empty()
    } else {
        let rest = paired(older, newer.drop_last());
        let at = first_where(older, marks_id(newer.last().id)) as int;
        if at < older.len() {
            rest.push(change_of(older[at], newer.last()))
        } else {
            rest
        }
    }
}

/// The index of the first mark of the project with the number `id`, or the number of marks.
fn find_mark(marks: &Vec<AnnotatedMark>, id: ProjectId) -> (at: usize)
    ensures
        at == first_where(marks@, marks_id(id)),
        at <= marks.len(),
{
    let mut at: usize = 0;
    while at < marks.len() && marks[at].id != id
        invariant
            at <= marks.len(),
            forall|j: int| 0 <= j < at ==> marks@[j].id != id,
        decreases marks.len() - at,
    {
        at = at + 1;
    }
    proof {
        let p = marks_id(id);
        assert forall|j: int| 0 <= j < at implies !p(#[trigger] marks@[j]) by {}
        lemma_first_where_is(marks@, p, at as int);
    }
    at
}

/// The marks of `a` whose project has no mark in `b`.
fn only_in(a: &Vec<AnnotatedMark>, b: &Vec<AnnotatedMark>) -> (r: Vec<AnnotatedMark>)
    ensures
        r@ == without(a@, b@),
{
    let mut r: Vec<AnnotatedMark> = Vec::new();
    let mut i: usize = 0;
    while i < a.len()
        invariant
            i <= a.len(),
            r@ == without(a@.take(i as int), b@),
        decreases a.len() - i,
    {
        proof {
            let t = a@.take(i + 1);
            assert(t.drop_last() =~= a@.take(i as int));
            assert(t.last() == a@[i as int]);
        }
        if find_mark(b, a[i].id) == b.len() {
            r.push(a[i].again());
        }
        i = i + 1;
    }
    proof {
        assert(a@.take(a.len() as int) =~= a@);
    }
    r
}

/// What has changed from the marks `older` to the marks `newer`: the projects are told apart
/// by their numbers.
pub fn analyze(older: &Vec<AnnotatedMark>, newer: &Vec<AnnotatedMark>) -> (r: Analysis)
    ensures
        r.older@ == without(older@, newer@),
        r.newer@ == without(newer@, older@),
        r.changes@ == paired(older@, newer@),
{
    let gone = only_in(older, newer);
    let fresh = only_in(newer, older);
    let mut changes: Vec<Change> = Vec::new();
    let mut i: usize = 0;
    while i < newer.len()
        invariant
            i <= newer.len(),
            changes@ == paired(older@, newer@.take(i as int)),
        decreases newer.len() - i,
    {
        proof {
            let t = newer@.take(i + 1);
            assert(t.drop_last() =~= newer@.take(i as int));
            assert(t.last() == newer@[i as int]);
            lemma_first_where(older@, marks_id(newer@[i as int].id));
        }
        let at = find_mark(older, newer[i].id);
        if at < older.len() {
            changes.push(Change::calc(&older[at], &newer[i]));
        }
        i = i + 1;
    }
    proof {
        assert(newer@.take(newer.len() as int) =~= newer@);
    }
    Analysis { newer: fresh, older: gone, changes }
}

} // verus!

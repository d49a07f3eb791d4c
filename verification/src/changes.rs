//! Commits and pull requests as the planner sees them, sized and gathered in change logs.

use crate::size::Size;
use crate::table::{first_where, lemma_first_where, lemma_first_where_is};
use vstd::prelude::*;

verus! {

/// A point in time: the seconds since the start of 1970, and the nanoseconds past the second.
#[derive(Clone, Copy, Debug, PartialEq, Eq, Structural)]
pub struct Timestamp {
    pub secs: i64,
    pub nanos: u32,
}

impl Timestamp {
    /// Whether this point in time is before `other`.
    pub open spec fn spec_before(self, other: Timestamp) -> bool {
        self.secs < other.secs || (self.secs == other.secs && self.nanos < other.nanos)
    }

    /// A point in time.
    pub fn new(secs: i64, nanos: u32) -> (r: Timestamp)
        ensures
            r.secs == secs,
            r.nanos == nanos,
    {
        Timestamp { secs, nanos }
    }

    /// Whether this point in time is before `other`.
    #[verifier::when_used_as_spec(spec_before)]
    pub fn before(self, other: Timestamp) -> (r: bool)
        ensures
            r == self.spec_before(other),
    {
        self.secs < other.secs || (self.secs == other.secs && self.nanos < other.nanos)
    }
}

/// A commit as the repository gives it: its id, the kind and the summary that its message
/// states, and the paths of the files that it touches.
#[derive(Debug)]
pub struct CommitData {
    pub id: String,
    pub kind: String,
    pub summary: String,
    pub files: Vec<String>,
}

impl CommitData {
    /// A commit of the given parts.
    pub fn new(id: String, kind: String, summary: String, files: Vec<String>) -> (r: CommitData)
        ensures
            r.id == id,
            r.kind == kind,
            r.summary == summary,
            r.files == files,
    {
        CommitData { id, kind, summary, files }
    }

    /// The id of the commit.
    pub fn id(&self) -> (r: &str)
        ensures
            r@ == self.id@,
    {
        self.id.as_str()
    }

    /// The kind of the commit.
    pub fn kind(&self) -> (r: &str)
        ensures
            r@ == self.kind@,
    {
        self.kind.as_str()
    }

    /// The summary of the commit.
    pub fn summary(&self) -> (r: &str)
        ensures
            r@ == self.summary@,
    {
        self.summary.as_str()
    }

    /// The paths of the files that the commit touches.
    pub fn files(&self) -> (r: &Vec<String>)
        ensures
            *r == self.files,
    {
        &self.files
    }
}

/// A commit of a pull request, as contracts speak of it.
pub struct CommitModel {
    pub oid: Seq<char>,
    pub message: Seq<char>,
    pub size: Size,
    pub applies: bool,
    pub duplicate: bool,
}

impl CommitModel {
    /// Whether the commit counts for its pull request: it applies to the project, and no
    /// earlier pull request holds it.
    pub open spec fn included(self) -> bool {
        self.applies && !self.duplicate
    }
}

/// A commit of a pull request, with its size for one project.
#[derive(Debug)]
pub struct SizedPrCommit {
    oid: String,
    message: String,
    size: Size,
    applies: bool,
    duplicate: bool,
}

impl View for SizedPrCommit {
    type V = CommitModel;

    closed spec fn view(&self) -> CommitModel {
        CommitModel {
            oid: self.oid@,
            message: self.message@,
            size: self.size,
            applies: self.applies,
            duplicate: self.duplicate,
        }
    }
}

impl SizedPrCommit {
    /// A commit that neither applies nor is a duplicate yet.
    pub fn new(oid: String, message: String, size: Size) -> (r: SizedPrCommit)
        ensures
            r@ == (CommitModel {
                oid: oid@,
                message: message@,
                size,
                applies: false,
                duplicate: false,
            }),
    {
        SizedPrCommit { oid, message, size, applies: false, duplicate: false }
    }

    /// Whether the commit touches a file that the project covers.
    pub fn applies(&self) -> (r: bool)
        ensures
            r == self@.applies,
    {
        self.applies
    }

    /// Whether an earlier pull request of the change log holds the commit.
    pub fn duplicate(&self) -> (r: bool)
        ensures
            r == self@.duplicate,
    {
        self.duplicate
    }

    /// Whether the commit counts for its pull request.
    pub fn included(&self) -> (r: bool)
        ensures
            r == self@.included(),
    {
        self.applies && !self.duplicate
    }

    /// The id of the commit.
    pub fn oid(&self) -> (r: &str)
        ensures
            r@ == self@.oid,
    {
        self.oid.as_str()
    }

    /// The summary of the commit.
    pub fn message(&self) -> (r: &str)
        ensures
            r@ == self@.message,
    {
        self.message.as_str()
    }

    /// The size of the commit.
    pub fn size(&self) -> (r: Size)
        ensures
            r == self@.size,
    {
        self.size
    }

    /// Marks the commit as touching a file that the project covers.
    pub fn set_applies(&mut self)
        ensures
            final(self)@ == (CommitModel { applies: true, ..old(self)@ }),
    {
        self.applies = true;
    }

    /// Marks the commit as held by an earlier pull request.
    pub fn set_duplicate(&mut self)
        ensures
            final(self)@ == (CommitModel { duplicate: true, ..old(self)@ }),
    {
        self.duplicate = true;
    }
}

/// The commits of `v`, as contracts speak of them.
pub open spec fn commits_view(v: Seq<SizedPrCommit>) -> Seq<CommitModel> {
    Seq::new(v.len(), |i: int| v[i]@)
}

/// The greatest size among the commits that `keep` accepts, if it accepts any.
pub open spec fn max_size(commits: Seq<CommitModel>, keep: spec_fn(CommitModel) -> bool) -> Option<
    Size,
>
    decreases commits.len(),
{
    if commits.len() == 0 {
        None
    } else {
        let rest = max_size(commits.drop_last(), keep);
        if keep(commits.last()) {
            match rest {
                Some(s) => Some(s.spec_max(commits.last().size)),
                None => Some(commits.last().size),
            }
        } else {
            rest
        }
    }
}

/// The test that accepts the commits that apply.
pub open spec fn applying() -> spec_fn(CommitModel) -> bool {
    |c: CommitModel| c.applies
}

/// The test that accepts the commits that count.
pub open spec fn counting() -> spec_fn(CommitModel) -> bool {
    |c: CommitModel| c.included()
}

/// The greatest size among the commits that apply, or among those that count.
pub fn greatest(commits: &Vec<SizedPrCommit>, counted_only: bool) -> (r: Option<Size>)
    ensures
        r == max_size(
            commits_view(commits@),
            if counted_only {
                counting()
            } else {
                applying()
            },
        ),
{
    let ghost keep = if counted_only {
        counting()
    } else {
        applying()
    };
    let ghost all = commits_view(commits@);
    let mut r: Option<Size> = None;
    let mut i: usize = 0;
    while i < commits.len()
        invariant
            i <= commits.len(),
            all == commits_view(commits@),
            keep == (if counted_only {
                counting()
            } else {
                applying()
            }),
            r == max_size(all.take(i as int), keep),
        decreases commits.len() - i,
    {
        proof {
            let t = all.take(i + 1);
            assert(t.drop_last() =~= all.take(i as int));
            assert(t.last() == commits@[i as int]@);
        }
        let c = &commits[i];
        let kept = if counted_only {
            c.included()
        } else {
            c.applies()
        };
        if kept {
            r = match r {
                Some(s) => Some(s.max(c.size())),
                None => Some(c.size()),
            };
        }
        i = i + 1;
    }
    proof {
        assert(all.take(commits.len() as int) =~= all);
    }
    r
}

/// A pull request, as contracts speak of it.
pub struct PrModel {
    pub number: u32,
    pub closed_at: Timestamp,
    pub commits: Seq<CommitModel>,
}

/// A pull request with its commits, sized for one project.
#[derive(Debug)]
pub struct SizedPr {
    pub number: u32,
    pub closed_at: Timestamp,
    pub commits: Vec<SizedPrCommit>,
}

impl View for SizedPr {
    type V = PrModel;

    open spec fn view(&self) -> PrModel {
        PrModel {
            number: self.number,
            closed_at: self.closed_at,
            commits: commits_view(self.commits@),
        }
    }
}

/// A pull request as the change source gives it.
#[derive(Debug)]
pub struct FullPr {
    pub number: u32,
    pub closed_at: Timestamp,
    pub base_oid: String,
    pub head_oid: Option<String>,
    pub excludes: Vec<String>,
    pub commits: Vec<CommitData>,
    pub best_guess: bool,
}

impl FullPr {
    /// The number of the pull request; zero stands for the commits outside any pull request.
    pub fn number(&self) -> (r: u32)
        ensures
            r == self.number,
    {
        self.number
    }

    /// When the pull request was closed.
    pub fn closed_at(&self) -> (r: &Timestamp)
        ensures
            *r == self.closed_at,
    {
        &self.closed_at
    }

    /// The commits of the pull request that count for it.
    pub fn included_commits(&self) -> (r: &Vec<CommitData>)
        ensures
            *r == self.commits,
    {
        &self.commits
    }

    /// The id of the commit that the pull request starts from.
    pub fn base_oid(&self) -> (r: &str)
        ensures
            r@ == self.base_oid@,
    {
        self.base_oid.as_str()
    }

    /// The id of the last commit of the pull request, if it is known.
    pub fn head_oid(&self) -> (r: &Option<String>)
        ensures
            *r == self.head_oid,
    {
        &self.head_oid
    }

    /// Whether the pull request leaves out the commit with the id `oid`.
    pub fn has_exclude(&self, oid: &str) -> (r: bool)
        ensures
            r == text_in(self.excludes@, oid@),
    {
        let owned = oid.to_owned();
        holds_text(&self.excludes, &owned)
    }

    /// Whether the pull request was found by guessing.
    pub fn best_guess(&self) -> (r: bool)
        ensures
            r == self.best_guess,
    {
        self.best_guess
    }
}

impl SizedPr {
    /// A pull request without commits.
    pub fn empty(number: u32, closed_at: Timestamp) -> (r: SizedPr)
        ensures
            r@ == (PrModel { number, closed_at, commits: Seq::empty() }),
    {
        let r = SizedPr { number, commits: Vec::new(), closed_at };
        proof {
            assert(r@.commits =~= Seq::empty());
        }
        r
    }

    /// The pull request `pr` without its commits.
    pub fn capture(pr: &FullPr) -> (r: SizedPr)
        ensures
            r@ == (PrModel { number: pr.number, closed_at: pr.closed_at, commits: Seq::empty() }),
    {
        SizedPr::empty(pr.number(), *pr.closed_at())
    }

    /// The number of the pull request.
    pub fn number(&self) -> (r: u32)
        ensures
            r == self@.number,
    {
        self.number
    }

    /// When the pull request was closed.
    pub fn closed_at(&self) -> (r: &Timestamp)
        ensures
            *r == self@.closed_at,
    {
        &self.closed_at
    }

    /// The commits of the pull request.
    pub fn commits(&self) -> (r: &Vec<SizedPrCommit>)
        ensures
            commits_view(r@) == self@.commits,
    {
        &self.commits
    }
}

/// The entries of a change log, as contracts speak of them.
pub open spec fn entries_view(v: Seq<(SizedPr, Size)>) -> Seq<(PrModel, Size)> {
    Seq::new(v.len(), |i: int| (v[i].0@, v[i].1))
}

/// The pull requests that changed a project, each with its size for the project.
#[derive(Debug)]
pub struct ChangeLog {
    pub entries: Vec<(SizedPr, Size)>,
}

impl View for ChangeLog {
    type V = Seq<(PrModel, Size)>;

    open spec fn view(&self) -> Seq<(PrModel, Size)> {
        entries_view(self.entries@)
    }
}

impl ChangeLog {
    /// The change log without entries.
    pub fn empty() -> (r: ChangeLog)
        ensures
            r@ == Seq::<(PrModel, Size)>::empty(),
    {
        let r = ChangeLog { entries: Vec::new() };
        proof {
            assert(r@ =~= Seq::empty());
        }
        r
    }

    /// The entries, in order.
    pub fn entries(&self) -> (r: &Vec<(SizedPr, Size)>)
        ensures
            entries_view(r@) == self@,
    {
        &self.entries
    }

    /// Adds a pull request with its size as the last entry.
    pub fn add_entry(&mut self, pr: SizedPr, size: Size)
        ensures
            final(self)@ == old(self)@.push((pr@, size)),
    {
        self.entries.push((pr, size));
        proof {
            assert(self@ =~= old(self)@.push((pr@, size)));
        }
    }
}

/// The test that accepts the entries whose pull request was closed after `t`.
pub open spec fn later_than(t: Timestamp) -> spec_fn((PrModel, Size)) -> bool {
    |e: (PrModel, Size)| t.spec_before(e.0.closed_at)
}

/// The sorted entries `sorted` with `e` among them: before the first entry that was closed
/// later, and so after the entries that were closed at the same time.
pub open spec fn insert_entry(sorted: Seq<(PrModel, Size)>, e: (PrModel, Size)) -> Seq<
    (PrModel, Size),
> {
    sorted.insert(first_where(sorted, later_than(e.0.closed_at)) as int, e)
}

/// The entries in the order in which their pull requests were closed; entries that were
/// closed at the same time keep their order.
pub open spec fn sorted_log(log: Seq<(PrModel, Size)>) -> Seq<(PrModel, Size)>
    decreases log.len(),
{
    if log.len() == 0 {
        Seq::empty()
    } else {
        insert_entry(sorted_log(log.drop_last()), log.last())
    }
}

/// Whether no entry was closed before an entry that stands before it.
pub open spec fn ordered(log: Seq<(PrModel, Size)>) -> bool {
    forall|i: int, j: int|
        0 <= i < j < log.len() ==> !log[j].0.closed_at.spec_before(log[i].0.closed_at)
}

/// Whether a commit with the id `oid` stands in the change log before the commit `k` of the
/// entry `a`: in an earlier entry, or earlier in the same entry.
pub open spec fn occurs_before(log: Seq<(PrModel, Size)>, a: int, k: int, oid: Seq<char>) -> bool {
    exists|b: int, l: int|
        0 <= b <= a && b < log.len() && 0 <= l < log[b].0.commits.len() && (b < a || l < k)
            && (#[trigger] log[b].0.commits[l]).oid == oid
}

/// The commit `k` of the entry `a`, marked as a duplicate where a commit with its id stands
/// before it.
pub open spec fn deduped_commit(log: Seq<(PrModel, Size)>, a: int, k: int) -> CommitModel {
    let c = log[a].0.commits[k];
    CommitModel { duplicate: c.duplicate || occurs_before(log, a, k, c.oid), ..c }
}

/// The commits of the entry `a`, each marked as a duplicate where a commit with its id
/// stands before it.
pub open spec fn deduped_commits(log: Seq<(PrModel, Size)>, a: int) -> Seq<CommitModel> {
    Seq::new(log[a].0.commits.len(), |k: int| deduped_commit(log, a, k))
}

/// The size of an entry: the greatest size of its commits that count, or empty.
pub open spec fn counted_size(commits: Seq<CommitModel>) -> Size {
    match max_size(commits, counting()) {
        Some(s) => s,
        None => Size::Empty,
    }
}

/// The change log with every commit marked as a duplicate where a commit with its id stands
/// before it, and with the size of each entry taken from the commits that still count.
pub open spec fn deduped(log: Seq<(PrModel, Size)>) -> Seq<(PrModel, Size)> {
    Seq::new(
        log.len(),
        |a: int|
            (
                PrModel { commits: deduped_commits(log, a), ..log[a].0 },
                counted_size(deduped_commits(log, a)),
            ),
    )
}

/// The sorted entries are in order, and they are the entries that were sorted.
pub proof fn lemma_sorted_log(log: Seq<(PrModel, Size)>)
    ensures
        ordered(sorted_log(log)),
        sorted_log(log).to_multiset() == log.to_multiset(),
        sorted_log(log).len() == log.len(),
    decreases log.len(),
{
    if log.len() == 0 {
        assert(log =~= sorted_log(log));
    } else {
        let rest = log.drop_last();
        let e = log.last();
        lemma_sorted_log(rest);
        let prev = sorted_log(rest);
        let p = later_than(e.0.closed_at);
        lemma_first_where(prev, p);
        let k = first_where(prev, p) as int;
        let out = prev.insert(k, e);
        assert(log =~= rest.push(e));
        prev.insert_ensures(k, e);
        vstd::seq_lib::to_multiset_insert(prev, k, e);
        vstd::seq_lib::to_multiset_build(rest, e);
        assert(out.to_multiset() == prev.to_multiset().insert(e));
        assert(log.to_multiset() =~= rest.to_multiset().insert(e));
        assert forall|i: int, j: int| 0 <= i < j < out.len() implies !out[j].0.closed_at.spec_before(
            out[i].0.closed_at,
        ) by {
            if j < k {
                assert(out[i] == prev[i] && out[j] == prev[j]);
            } else if j == k {
                assert(out[i] == prev[i]);
                assert(out[j] == e);
                assert(!p(prev[i]));
            } else if i < k {
                assert(out[i] == prev[i] && out[j] == prev[j - 1]);
            } else if i == k {
                assert(out[j] == prev[j - 1]);
                assert(out[i] == e);
                assert(p(prev[k]));
                if j - 1 > k {
                    assert(!prev[j - 1].0.closed_at.spec_before(prev[k].0.closed_at));
                }
            } else {
                assert(out[i] == prev[i - 1] && out[j] == prev[j - 1]);
            }
        }
    }
}

/// In a change log without duplicates, of two commits with one id the later one is marked
/// as a duplicate, so that it counts for no pull request.
pub proof fn lemma_later_is_duplicate(log: Seq<(PrModel, Size)>, a: int, k: int, b: int, l: int)
    requires
        0 <= a <= b < log.len(),
        0 <= k < log[a].0.commits.len(),
        0 <= l < log[b].0.commits.len(),
        a < b || k < l,
        log[a].0.commits[k].oid == log[b].0.commits[l].oid,
    ensures
        deduped(log)[b].0.commits[l].duplicate,
        !deduped(log)[b].0.commits[l].included(),
        deduped(log)[a].0.commits[k].oid == deduped(log)[b].0.commits[l].oid,
{
    assert(occurs_before(log, b, l, log[b].0.commits[l].oid));
}

/// In a change log without duplicates, the first commit with an id is the one that may
/// count: it is kept as it was.
pub proof fn lemma_first_is_kept(log: Seq<(PrModel, Size)>, a: int, k: int)
    requires
        0 <= a < log.len(),
        0 <= k < log[a].0.commits.len(),
        !occurs_before(log, a, k, log[a].0.commits[k].oid),
    ensures
        deduped(log)[a].0.commits[k] == log[a].0.commits[k],
{
}

/// Whether a text stands among `seen`.
pub open spec fn text_in(seen: Seq<String>, t: Seq<char>) -> bool {
    exists|i: int| 0 <= i < seen.len() && (#[trigger] seen[i])@ == t
}

/// Whether `t` stands among `seen`.
fn holds_text(seen: &Vec<String>, t: &String) -> (r: bool)
    ensures
        r == text_in(seen@, t@),
{
    let mut i: usize = 0;
    while i < seen.len()
        invariant
            i <= seen.len(),
            forall|j: int| 0 <= j < i ==> (#[trigger] seen@[j])@ != t@,
        decreases seen.len() - i,
    {
        if seen[i] == *t {
            return true;
        }
        i = i + 1;
    }
    false
}

/// The kind of a commit with each of its files.
pub open spec fn commit_keyed(commit: CommitData) -> Seq<(String, String)> {
    Seq::new(commit.files@.len(), |f: int| (commit.kind, commit.files@[f]))
}

/// The kind and the path of every file that the commits touch, in the order of the commits,
/// without the commits that `excludes` names.
pub open spec fn commits_keyed(excludes: Seq<String>, commits: Seq<CommitData>) -> Seq<
    (String, String),
>
    decreases commits.len(),
{
    if commits.len() == 0 {
        Seq::empty()
    } else {
        commits_keyed(excludes, commits.drop_last()) + (if text_in(excludes, commits.last().id@) {
            Seq::empty()
        } else {
            commit_keyed(commits.last())
        })
    }
}

/// The kind and the path of every file that a pull request touches; none where the last
/// commit of the pull request is not known.
pub open spec fn pr_keyed(pr: FullPr, commits: Seq<CommitData>) -> Seq<(String, String)> {
    if pr.head_oid is None {
        Seq::empty()
    } else {
        commits_keyed(pr.excludes@, commits)
    }
}

/// The kind and the path of every file that the pull request touches. `commits` holds the
/// commits between the base and the head of the pull request; those that the pull request
/// leaves out are passed over.
pub fn pr_keyed_files(pr: &FullPr, commits: &Vec<CommitData>) -> (r: Vec<(String, String)>)
    ensures
        r@ == pr_keyed(*pr, commits@),
{
    let mut out: Vec<(String, String)> = Vec::new();
    if pr.head_oid().is_none() {
        return out;
    }
    let mut i: usize = 0;
    while i < commits.len()
        invariant
            i <= commits.len(),
            out@ == commits_keyed(pr.excludes@, commits@.take(i as int)),
        decreases commits.len() - i,
    {
        proof {
            let t = commits@.take(i + 1);
            assert(t.drop_last() =~= commits@.take(i as int));
            assert(t.last() == commits@[i as int]);
        }
        let commit = &commits[i];
        if !pr.has_exclude(commit.id()) {
            let ghost before = out@;
            let mut f: usize = 0;
            while f < commit.files.len()
                invariant
                    f <= commit.files.len(),
                    out@ == before + commit_keyed(*commit).take(f as int),
                decreases commit.files.len() - f,
            {
                out.push((commit.kind.clone(), commit.files[f].clone()));
                proof {
                    assert(out@ =~= before + commit_keyed(*commit).take(f + 1));
                }
                f = f + 1;
            }
            proof {
                assert(commit_keyed(*commit).take(commit.files.len() as int) =~= commit_keyed(
                    *commit,
                ));
            }
        } else {
            proof {
                assert(out@ + Seq::<(String, String)>::empty() =~= out@);
            }
        }
        i = i + 1;
    }
    proof {
        assert(commits@.take(commits.len() as int) =~= commits@);
    }
    out
}

/// The kind and the path of every file that the pull requests touch, without the pull
/// requests that were found by guessing.
pub open spec fn prs_keyed(prs: Seq<(FullPr, Vec<CommitData>)>) -> Seq<(String, String)>
    decreases prs.len(),
{
    if prs.len() == 0 {
        Seq::empty()
    } else {
        prs_keyed(prs.drop_last()) + (if prs.last().0.best_guess {
            Seq::empty()
        } else {
            pr_keyed(prs.last().0, prs.last().1@)
        })
    }
}

/// The kind and the path of every file that the pull requests touch, in their order. Each
/// pull request comes with the commits between its base and its head; the pull requests
/// that were found by guessing are passed over.
pub fn keyed_files(prs: &Vec<(FullPr, Vec<CommitData>)>) -> (r: Vec<(String, String)>)
    ensures
        r@ == prs_keyed(prs@),
{
    let mut out: Vec<(String, String)> = Vec::new();
    let mut i: usize = 0;
    while i < prs.len()
        invariant
            i <= prs.len(),
            out@ == prs_keyed(prs@.take(i as int)),
        decreases prs.len() - i,
    {
        proof {
            let t = prs@.take(i + 1);
            assert(t.drop_last() =~= prs@.take(i as int));
            assert(t.last() == prs@[i as int]);
        }
        if !prs[i].0.best_guess() {
            let mut more = pr_keyed_files(&prs[i].0, &prs[i].1);
            out.append(&mut more);
        } else {
            proof {
                assert(out@ + Seq::<(String, String)>::empty() =~= out@);
            }
        }
        i = i + 1;
    }
    proof {
        assert(prs@.take(prs.len() as int) =~= prs@);
    }
    out
}

impl ChangeLog {
    /// Puts the entries in the order in which their pull requests were closed; entries that
    /// were closed at the same time keep their order.
    pub fn sort(&mut self)
        ensures
            final(self)@ == sorted_log(old(self)@),
    {
        let ghost all = self@;
        let mut src: Vec<(SizedPr, Size)> = Vec::new();
        std::mem::swap(&mut src, &mut self.entries);
        let n = src.len();
        let mut out: Vec<(SizedPr, Size)> = Vec::new();
        let mut i: usize = 0;
        while i < n
            invariant
                i <= n,
                n == all.len(),
                src.len() == n - i,
                entries_view(src@) == all.skip(i as int),
                entries_view(out@) == sorted_log(all.take(i as int)),
            decreases n - i,
        {
            let ghost src_before = entries_view(src@);
            let ghost old_src = src@;
            let e = src.remove(0);
            let ghost em = (e.0@, e.1);
            proof {
                assert(em == src_before[0]);
                assert(em == all[i as int]);
                assert(src@ =~= old_src.remove(0));
                assert forall|j: int| 0 <= j < src@.len() implies entries_view(src@)[j]
                    == all.skip(i + 1)[j] by {
                    assert(src@[j] == old_src[j + 1]);
                    assert(src_before[j + 1] == all.skip(i as int)[j + 1]);
                }
                assert(entries_view(src@) =~= all.skip(i + 1));
                let t = all.take(i + 1);
                assert(t.drop_last() =~= all.take(i as int));
                assert(t.last() == em);
            }
            let ghost sorted = entries_view(out@);
            let mut k: usize = 0;
            while k < out.len() && !e.0.closed_at.before(out[k].0.closed_at)
                invariant
                    k <= out.len(),
                    sorted == entries_view(out@),
                    em == (e.0@, e.1),
                    forall|j: int| 0 <= j < k ==> !later_than(em.0.closed_at)(#[trigger] sorted[j]),
                decreases out.len() - k,
            {
                k = k + 1;
            }
            proof {
                lemma_first_where_is(sorted, later_than(em.0.closed_at), k as int);
            }
            out.insert(k, e);
            proof {
                assert(entries_view(out@) =~= sorted.insert(k as int, em));
            }
            i = i + 1;
        }
        proof {
            assert(all.take(n as int) =~= all);
        }
        self.entries = out;
    }

    /// Marks every commit as a duplicate where a commit with its id stands before it in the
    /// change log, and takes the size of each entry from the commits that still count.
    pub fn dedup(&mut self)
        ensures
            final(self)@ == deduped(old(self)@),
    {
        let ghost m = self@;
        let mut src: Vec<(SizedPr, Size)> = Vec::new();
        std::mem::swap(&mut src, &mut self.entries);
        let n = src.len();
        let mut out: Vec<(SizedPr, Size)> = Vec::new();
        let mut seen: Vec<String> = Vec::new();
        let mut a: usize = 0;
        while a < n
            invariant
                a <= n,
                m.len() == n,
                src.len() == n - a,
                entries_view(src@) == m.skip(a as int),
                entries_view(out@) == deduped(m).take(a as int),
                forall|o: Seq<char>| #[trigger] text_in(seen@, o) <==> occurs_before(m, a as int, 0, o),
            decreases n - a,
        {
            let ghost src_before = entries_view(src@);
            let ghost old_src = src@;
            let entry = src.remove(0);
            proof {
                assert((entry.0@, entry.1) == src_before[0]);
                assert(src@ =~= old_src.remove(0));
                assert forall|j: int| 0 <= j < src@.len() implies entries_view(src@)[j] == m.skip(
                    a + 1,
                )[j] by {
                    assert(src@[j] == old_src[j + 1]);
                    assert(src_before[j + 1] == m.skip(a as int)[j + 1]);
                }
                assert(entries_view(src@) =~= m.skip(a + 1));
            }
            let number = entry.0.number;
            let closed_at = entry.0.closed_at;
            let mut commits = entry.0.commits;
            let ghost cm = m[a as int].0.commits;
            let mut k: usize = 0;
            while k < commits.len()
                invariant
                    k <= commits.len(),
                    a < n,
                    m.len() == n,
                    cm == m[a as int].0.commits,
                    commits.len() == cm.len(),
                    forall|l: int|
                        0 <= l < k ==> (#[trigger] commits@[l])@ == deduped_commit(m, a as int, l),
                    forall|l: int| k <= l < commits.len() ==> (#[trigger] commits@[l])@ == cm[l],
                    forall|o: Seq<char>| #[trigger]
                        text_in(seen@, o) <==> occurs_before(m, a as int, k as int, o),
                decreases commits.len() - k,
            {
                let oid = commits[k].oid().to_owned();
                proof {
                    assert(oid@ == cm[k as int].oid);
                }
                if holds_text(&seen, &oid) {
                    commits[k].set_duplicate();
                }
                let ghost before = seen@;
                seen.push(oid);
                proof {
                    assert forall|o: Seq<char>| #[trigger]
                        text_in(seen@, o) <==> occurs_before(m, a as int, k + 1, o) by {
                        if text_in(seen@, o) {
                            let i = choose|i: int| 0 <= i < seen@.len() && (#[trigger] seen@[i])@ == o;
                            if i < before.len() {
                                assert(before[i] == seen@[i]);
                                assert(text_in(before, o));
                                assert(occurs_before(m, a as int, k as int, o));
                                let (b, l) = choose|b: int, l: int|
                                    0 <= b <= a && b < m.len() && 0 <= l < m[b].0.commits.len()
                                        && (b < a || l < k) && (#[trigger] m[b].0.commits[l]).oid
                                        == o;
                                assert(m[b].0.commits[l].oid == o);
                                assert(occurs_before(m, a as int, k + 1, o));
                            } else {
                                assert(m[a as int].0.commits[k as int].oid == o);
                                assert(occurs_before(m, a as int, k + 1, o));
                            }
                        }
                        if occurs_before(m, a as int, k + 1, o) {
                            let (b, l) = choose|b: int, l: int|
                                0 <= b <= a && b < m.len() && 0 <= l < m[b].0.commits.len() && (b
                                    < a || l < k + 1) && (#[trigger] m[b].0.commits[l]).oid == o;
                            if b == a && l == k {
                                assert(seen@[before.len() as int]@ == o);
                            } else {
                                assert(m[b].0.commits[l].oid == o);
                                assert(occurs_before(m, a as int, k as int, o));
                                assert(text_in(before, o));
                                let i = choose|i: int|
                                    0 <= i < before.len() && (#[trigger] before[i])@ == o;
                                assert(seen@[i] == before[i]);
                            }
                        }
                    }
                }
                k = k + 1;
            }
            let size = match greatest(&commits, true) {
                Some(s) => s,
                None => Size::Empty,
            };
            proof {
                assert(commits_view(commits@) =~= deduped_commits(m, a as int));
            }
            let ghost out_before = entries_view(out@);
            let done = (SizedPr { number, closed_at, commits }, size);
            out.push(done);
            proof {
                assert((done.0@, done.1) == deduped(m)[a as int]);
                assert(entries_view(out@) =~= out_before.push((done.0@, done.1)));
                assert(entries_view(out@) =~= deduped(m).take(a + 1));
                assert forall|o: Seq<char>| #[trigger]
                    text_in(seen@, o) <==> occurs_before(m, a + 1, 0, o) by {
                    if occurs_before(m, a as int, cm.len() as int, o) {
                        let (b, l) = choose|b: int, l: int|
                            0 <= b <= a && b < m.len() && 0 <= l < m[b].0.commits.len() && (b < a
                                || l < cm.len()) && (#[trigger] m[b].0.commits[l]).oid == o;
                        assert(m[b].0.commits[l].oid == o);
                        assert(occurs_before(m, a + 1, 0, o));
                    }
                    if occurs_before(m, a + 1, 0, o) {
                        let (b, l) = choose|b: int, l: int|
                            0 <= b <= a + 1 && b < m.len() && 0 <= l < m[b].0.commits.len() && (b
                                < a + 1 || l < 0) && (#[trigger] m[b].0.commits[l]).oid == o;
                        assert(m[b].0.commits[l].oid == o);
                        assert(occurs_before(m, a as int, cm.len() as int, o));
                    }
                }
            }
            a = a + 1;
        }
        proof {
            assert(deduped(m).take(n as int) =~= deduped(m));
        }
        self.entries = out;
    }

    /// Sorts the entries by the time at which their pull requests were closed, and marks the
    /// commits that an earlier entry holds as duplicates.
    pub fn sort_and_dedup(&mut self)
        ensures
            final(self)@ == deduped(sorted_log(old(self)@)),
    {
        self.sort();
        self.dedup();
    }
}

} // verus!

//! The manifest: the projects of a repository and the sizes of the kinds of commit.

use crate::analyze::AnnotatedMark;
use crate::changes::ChangeLog;
use crate::error::{Error, ErrorKind};
use crate::html::{change_log_html, construct_change_log_html};
use crate::mark::{
    is_version, is_version_text, rewritten_from, rewritten_is, value_from, Mark, MarkedData,
    NamedData,
};
use crate::picker::{file_pick, line_found, Picker, Scanner};
use crate::size::Size;
use crate::table::{
    find_text, first_where, lemma_first_where, lemma_first_where_is, lemma_first_where_push,
    lookup_text, ProjectId,
};
use std::collections::HashMap;
use crate::tags::{NewTags, OldTags};
use crate::text::{chars_of, contains, contains_text, push_all, string_of, trim, trimmed};
use vstd::prelude::*;
use vstd::string::StringExecFns;

verus! {

broadcast use vstd::std_specs::hash::group_hash_axioms;

/// `glob::MatchOptions`: the three options under which a pattern is matched, each a truth
/// value that can be read and set.
#[verifier::external_type_specification]
pub struct ExMatchOptions(glob::MatchOptions);

/// Whether the text `pattern` is a glob pattern.
pub uninterp spec fn glob_compiles(pattern: Seq<char>) -> bool;

/// Whether the glob pattern `pattern` matches the whole of `path` under the given options.
pub uninterp spec fn glob_matches(
    pattern: Seq<char>,
    path: Seq<char>,
    case_sensitive: bool,
    literal_separator: bool,
    literal_leading_dot: bool,
) -> bool;

/// Whether the glob pattern `pattern` matches the whole of `path`.
///
/// Trusted: `glob::Pattern::new` compiles the pattern or refuses it, and
/// `Pattern::matches_with` says whether the compiled pattern matches the text under the
/// options. Both depend on their arguments alone.
#[verifier::external_body]
fn pattern_matches(pattern: &str, path: &str, options: glob::MatchOptions) -> (r: Result<
    bool,
    glob::PatternError,
>)
    ensures
        r is Ok == glob_compiles(pattern@),
        r matches Ok(b) ==> b == glob_matches(
            pattern@,
            path@,
            options.case_sensitive,
            options.require_literal_separator,
            options.require_literal_leading_dot,
        ),
{
    match glob::Pattern::new(pattern) {
        Ok(p) => Ok(p.matches_with(path, options)),
        Err(e) => Err(e),
    }
}

/// The options under which the patterns of a project are matched: letters match without
/// regard to case, a separator is matched by a separator only, and a leading full stop needs
/// no special care.
pub fn match_opts() -> (r: glob::MatchOptions)
    ensures
        !r.case_sensitive,
        r.require_literal_separator,
        !r.require_literal_leading_dot,
{
    glob::MatchOptions {
        case_sensitive: false,
        require_literal_separator: true,
        require_literal_leading_dot: false,
    }
}

/// Whether the pattern `pattern` matches `path` as the patterns of a project are matched.
pub open spec fn pattern_hits(pattern: Seq<char>, path: Seq<char>) -> bool {
    glob_matches(pattern, path, false, true, false)
}

/// The path `rel` below the directory `base`: `rel` itself where it starts at the root, else
/// `base`, a slash unless `base` is empty or ends in one, and `rel`.
pub open spec fn joined(base: Seq<char>, rel: Seq<char>) -> Seq<char> {
    if rel.len() > 0 && rel[0] == '/' {
        rel
    } else if base.len() == 0 || base.last() == '/' {
        base + rel
    } else {
        base + seq!['/'] + rel
    }
}

/// The path `rel` below the directory `base`.
pub fn join_path(base: &str, rel: &str) -> (r: String)
    ensures
        r@ == joined(base@, rel@),
{
    let b = chars_of(base);
    let p = chars_of(rel);
    if p.len() > 0 && p[0] == '/' {
        return string_of(&p);
    }
    let mut out: Vec<char> = Vec::new();
    push_all(&mut out, &b);
    if b.len() > 0 && b[b.len() - 1] != '/' {
        out.push('/');
    }
    push_all(&mut out, &p);
    proof {
        assert(Seq::<char>::empty() + b@ =~= b@);
        assert(out@ =~= joined(base@, rel@));
    }
    string_of(&out)
}

/// The pattern `cover` as it stands in the file system: below the directory `root_dir`, unless
/// it starts at the root.
pub fn absolutize_pattern(cover: &str, root_dir: &str) -> (r: String)
    ensures
        r@ == joined(root_dir@, cover@),
{
    join_path(root_dir, cover)
}

/// The name of the tag for a version: `v` and the version, behind the prefix and a hyphen
/// where the prefix is not empty.
pub open spec fn tag_name(prefix: Seq<char>, version: Seq<char>) -> Seq<char> {
    if prefix.len() == 0 {
        seq!['v'] + version
    } else {
        prefix + seq!['-', 'v'] + version
    }
}

/// The name of the tag for a version under a prefix.
pub fn make_tag(prefix: &str, version: &str) -> (r: String)
    ensures
        r@ == tag_name(prefix@, version@),
{
    let p = chars_of(prefix);
    let v = chars_of(version);
    let mut out: Vec<char> = Vec::new();
    if p.len() > 0 {
        push_all(&mut out, &p);
        out.push('-');
    }
    out.push('v');
    push_all(&mut out, &v);
    proof {
        assert(Seq::<char>::empty() + p@ =~= p@);
        assert(out@ =~= tag_name(prefix@, version@));
    }
    string_of(&out)
}

/// The version that the tag `tag` names under the prefix `prefix`: what follows the start of
/// the tag name, where that is written as a version.
pub open spec fn tag_version(prefix: Seq<char>, tag: Seq<char>) -> Option<Seq<char>> {
    let head = tag_name(prefix, Seq::empty());
    if tag.len() >= head.len() && tag.take(head.len() as int) == head && is_version_text(
        tag.skip(head.len() as int),
    ) {
        Some(tag.skip(head.len() as int))
    } else {
        None
    }
}

/// The version that the tag `tag` names under the prefix `prefix`.
pub fn version_of_tag(prefix: &str, tag: &str) -> (r: Option<String>)
    ensures
        r is Some == tag_version(prefix@, tag@) is Some,
        r matches Some(v) ==> tag_version(prefix@, tag@) == Some(v@),
{
    let head = chars_of(make_tag(prefix, "").as_str());
    proof {
        reveal_strlit("");
        assert(""@ =~= Seq::<char>::empty());
    }
    let t = chars_of(tag);
    if t.len() < head.len() {
        return None;
    }
    let mut i: usize = 0;
    while i < head.len()
        invariant
            i <= head.len() <= t.len(),
            head@ == tag_name(prefix@, Seq::empty()),
            t@ == tag@,
            forall|j: int| 0 <= j < i ==> t@[j] == head@[j],
        decreases head.len() - i,
    {
        if t[i] != head[i] {
            proof {
                assert(t@.take(head.len() as int)[i as int] == t@[i as int]);
            }
            return None;
        }
        i = i + 1;
    }
    proof {
        assert(t@.take(head.len() as int) =~= head@);
    }
    let mut rest: Vec<char> = Vec::new();
    let mut k: usize = head.len();
    while k < t.len()
        invariant
            head.len() <= k <= t.len(),
            rest@ == t@.subrange(head.len() as int, k as int),
        decreases t.len() - k,
    {
        rest.push(t[k]);
        proof {
            assert(rest@ =~= t@.subrange(head.len() as int, k + 1));
        }
        k = k + 1;
    }
    proof {
        assert(rest@ =~= t@.skip(head.len() as int));
    }
    let v = string_of(&rest);
    if is_version(v.as_str()) {
        Some(v)
    } else {
        None
    }
}

/// The tags among `tags` that stand on the commit `oid` and name a version under `prefix`,
/// in their order. Each entry of `tags` is the name of a tag and the id of its commit.
pub open spec fn tags_at(tags: Seq<(String, String)>, prefix: Seq<char>, oid: Seq<char>) -> Seq<
    String,
>
    decreases tags.len(),
{
    if tags.len() == 0 {
        Seq::empty()
    } else {
        let rest = tags_at(tags.drop_last(), prefix, oid);
        if tags.last().1@ == oid && tag_version(prefix, tags.last().0@) is Some {
            rest.push(tags.last().0)
        } else {
            rest
        }
    }
}

/// The tags of a prefix on the commits of `walk`, in the order of the walk.
pub open spec fn gathered(tags: Seq<(String, String)>, prefix: Seq<char>, walk: Seq<String>) -> Seq<
    String,
>
    decreases walk.len(),
{
    if walk.len() == 0 {
        Seq::empty()
    } else {
        gathered(tags, prefix, walk.drop_last()) + tags_at(tags, prefix, walk.last()@)
    }
}

/// For each commit of the first `k` of `walk` that is not past the last tag, the number of
/// tags on the commits before it: the index of the latest tag that is not after the commit.
pub open spec fn indexed(
    tags: Seq<(String, String)>,
    prefix: Seq<char>,
    walk: Seq<String>,
    k: int,
) -> Seq<(String, usize)>
    decreases k,
{
    if k <= 0 {
        Seq::empty()
    } else {
        let rest = indexed(tags, prefix, walk, k - 1);
        let before = gathered(tags, prefix, walk.take(k - 1)).len();
        if before < gathered(tags, prefix, walk).len() {
            rest.push((walk[k - 1], before as usize))
        } else {
            rest
        }
    }
}

/// The tags among `tags` that stand on the commit `oid` and name a version under `prefix`.
fn collect_tags(tags: &Vec<(String, String)>, prefix: &str, oid: &str) -> (r: Vec<String>)
    ensures
        r@ == tags_at(tags@, prefix@, oid@),
{
    let mut r: Vec<String> = Vec::new();
    let owned = oid.to_owned();
    let mut i: usize = 0;
    while i < tags.len()
        invariant
            i <= tags.len(),
            owned@ == oid@,
            r@ == tags_at(tags@.take(i as int), prefix@, oid@),
        decreases tags.len() - i,
    {
        proof {
            let t = tags@.take(i + 1);
            assert(t.drop_last() =~= tags@.take(i as int));
            assert(t.last() == tags@[i as int]);
        }
        if tags[i].1 == owned && version_of_tag(prefix, tags[i].0.as_str()).is_some() {
            r.push(tags[i].0.clone());
        }
        i = i + 1;
    }
    proof {
        assert(tags@.take(tags.len() as int) =~= tags@);
    }
    r
}

/// The tags of a prefix on the commits of `walk`, and the index table of the walk.
fn index_tags(tags: &Vec<(String, String)>, prefix: &str, walk: &Vec<String>) -> (r: (
    Vec<String>,
    Vec<(String, usize)>,
))
    ensures
        r.0@ == gathered(tags@, prefix@, walk@),
        r.1@ == indexed(tags@, prefix@, walk@, walk@.len() as int),
{
    let mut list: Vec<String> = Vec::new();
    let mut counts: Vec<usize> = Vec::new();
    let mut k: usize = 0;
    while k < walk.len()
        invariant
            k <= walk.len(),
            counts.len() == k,
            list@ == gathered(tags@, prefix@, walk@.take(k as int)),
            forall|j: int|
                0 <= j < k ==> #[trigger] counts@[j] == gathered(
                    tags@,
                    prefix@,
                    walk@.take(j),
                ).len(),
        decreases walk.len() - k,
    {
        proof {
            let t = walk@.take(k + 1);
            assert(t.drop_last() =~= walk@.take(k as int));
            assert(t.last() == walk@[k as int]);
        }
        counts.push(list.len());
        let mut here = collect_tags(tags, prefix, walk[k].as_str());
        list.append(&mut here);
        k = k + 1;
    }
    proof {
        assert(walk@.take(walk.len() as int) =~= walk@);
    }
    let total = list.len();
    let mut table: Vec<(String, usize)> = Vec::new();
    let mut k: usize = 0;
    while k < walk.len()
        invariant
            k <= walk.len(),
            counts.len() == walk.len(),
            total == gathered(tags@, prefix@, walk@).len(),
            forall|j: int|
                0 <= j < walk.len() ==> #[trigger] counts@[j] == gathered(
                    tags@,
                    prefix@,
                    walk@.take(j),
                ).len(),
            table@ == indexed(tags@, prefix@, walk@, k as int),
        decreases walk.len() - k,
    {
        if counts[k] < total {
            table.push((walk[k].clone(), counts[k]));
        }
        k = k + 1;
    }
    (list, table)
}

/// The test that accepts the projects with the number `id` that have a tag prefix.
pub open spec fn tagged_as(id: ProjectId) -> spec_fn(Project) -> bool {
    |p: Project| p.id == id && p.tag_prefix is Some
}

/// The tag prefix of the first project with the number `id` that has one.
pub open spec fn prefix_of(projects: Seq<Project>, id: ProjectId) -> Option<Seq<char>> {
    let at = first_where(projects, tagged_as(id)) as int;
    if at < projects.len() {
        Some(projects[at].tag_prefix.unwrap()@)
    } else {
        None
    }
}

/// Whether the index `r` holds for the project with the number `id` what the tags `tags` and
/// the walk `walk` give under its prefix: nothing where the project has no prefix; else the
/// tags that name a version under the prefix and stand on a commit of the walk, and the
/// index table of the walk.
pub open spec fn indexes(
    r: OldTags,
    prefix: Option<Seq<char>>,
    tags: Seq<(String, String)>,
    walk: Seq<String>,
    id: ProjectId,
) -> bool {
    match prefix {
        Some(x) => {
            &&& r.by_proj().contains_key(id)
            &&& r.by_proj()[id]@ == gathered(tags, x, walk)
            &&& r.marks().contains_key(id)
            &&& r.marks()[id]@ == indexed(tags, x, walk, walk.len() as int)
        },
        None => !r.by_proj().contains_key(id) && !r.marks().contains_key(id),
    }
}

impl ConfigFile {
    /// The tags of the earlier releases. `tags` holds the tags of the repository, each with
    /// the id of its commit, and `walk` the commits from the head back to the last release,
    /// newest first. For each project with a tag prefix the index holds the tags that name a
    /// version under the prefix and stand on a commit of the walk, in the order of the walk;
    /// and for each commit of the walk that is not past the last of these tags, the index of
    /// the latest tag that is not after the commit. Of two projects with one number the first
    /// that has a prefix counts.
    pub fn find_old_tags(&self, tags: &Vec<(String, String)>, walk: &Vec<String>) -> (r: OldTags)
        ensures
            forall|id: ProjectId| #[trigger]
                indexes(r, prefix_of(self.projects@, id), tags@, walk@, id),
    {
        let mut by_proj: HashMap<ProjectId, Vec<String>> = HashMap::new();
        let mut not_after: HashMap<ProjectId, Vec<(String, usize)>> = HashMap::new();
        let mut n: usize = 0;
        proof {
            assert forall|id: ProjectId| prefix_of(self.projects@.take(0), id) is None by {
                lemma_first_where(self.projects@.take(0), tagged_as(id));
            }
        }
        while n < self.projects.len()
            invariant
                n <= self.projects.len(),
                forall|id: ProjectId|
                    match #[trigger] prefix_of(self.projects@.take(n as int), id) {
                        Some(x) => {
                            &&& by_proj@.contains_key(id)
                            &&& by_proj@[id]@ == gathered(tags@, x, walk@)
                            &&& not_after@.contains_key(id)
                            &&& not_after@[id]@ == indexed(tags@, x, walk@, walk@.len() as int)
                        },
                        None => !by_proj@.contains_key(id) && !not_after@.contains_key(id),
                    },
            decreases self.projects.len() - n,
        {
            let project = &self.projects[n];
            let ghost old_by = by_proj@;
            let ghost old_na = not_after@;
            let ghost was = self.projects@.take(n as int);
            let ghost now = self.projects@.take(n + 1);
            proof {
                assert(now =~= was.push(self.projects@[n as int]));
                assert(prefix_of(was, project.id) is Some == old_by.contains_key(project.id));
            }
            match &project.tag_prefix {
                Some(prefix) => {
                    if !by_proj.contains_key(&project.id) {
                        let (list, table) = index_tags(tags, prefix.as_str(), walk);
                        by_proj.insert(project.id, list);
                        not_after.insert(project.id, table);
                    }
                },
                None => {},
            }
            proof {
                assert forall|id: ProjectId|
                    match #[trigger] prefix_of(now, id) {
                        Some(x) => {
                            &&& by_proj@.contains_key(id)
                            &&& by_proj@[id]@ == gathered(tags@, x, walk@)
                            &&& not_after@.contains_key(id)
                            &&& not_after@[id]@ == indexed(tags@, x, walk@, walk@.len() as int)
                        },
                        None => !by_proj@.contains_key(id) && !not_after@.contains_key(id),
                    } by {
                    lemma_first_where_push(was, tagged_as(id), self.projects@[n as int]);
                    lemma_first_where(was, tagged_as(id));
                    let at = first_where(was, tagged_as(id)) as int;
                    let _ = prefix_of(was, id);
                    if at < was.len() {
                        assert(now[at] == was[at]);
                    }
                }
            }
            n = n + 1;
        }
        proof {
            assert(self.projects@.take(self.projects.len() as int) =~= self.projects@);
        }
        OldTags::new(by_proj, not_after)
    }
}

/// Whether `c` may start a tag prefix: an ASCII letter or a low line.
pub open spec fn is_prefix_start(c: char) -> bool {
    ('a' <= c && c <= 'z') || ('A' <= c && c <= 'Z') || c == '_'
}

/// Whether `c` may stand in a tag prefix: an ASCII letter or digit, a low line or a hyphen.
pub open spec fn is_prefix_char(c: char) -> bool {
    is_prefix_start(c) || ('0' <= c && c <= '9') || c == '-'
}

/// Whether `prefix` may be a tag prefix: empty, or a start character and then prefix
/// characters only.
pub open spec fn is_legal_tag(prefix: Seq<char>) -> bool {
    prefix.len() == 0 || (is_prefix_start(prefix[0]) && forall|i: int|
        0 <= i < prefix.len() ==> is_prefix_char(#[trigger] prefix[i]))
}

/// Whether `prefix` may be a tag prefix.
pub fn legal_tag(prefix: &str) -> (r: bool)
    ensures
        r == is_legal_tag(prefix@),
{
    let c = chars_of(prefix);
    if c.len() == 0 {
        return true;
    }
    let f = c[0];
    if !(('a' <= f && f <= 'z') || ('A' <= f && f <= 'Z') || f == '_') {
        return false;
    }
    let mut i: usize = 0;
    while i < c.len()
        invariant
            i <= c.len(),
            c@ == prefix@,
            forall|j: int| 0 <= j < i ==> is_prefix_char(#[trigger] c@[j]),
        decreases c.len() - i,
    {
        let x = c[i];
        if !(('a' <= x && x <= 'z') || ('A' <= x && x <= 'Z') || x == '_' || ('0' <= x && x
            <= '9') || x == '-') {
            return false;
        }
        i = i + 1;
    }
    true
}

/// The size that the manifest gives a kind of commit: `Major` where the kind, without the
/// white space around it, ends in an exclamation mark; else what stands under the kind; else
/// what stands under the asterisk.
pub open spec fn kind_size(sizes: Seq<(String, Size)>, kind: Seq<char>) -> Option<Size> {
    let k = trimmed(kind);
    if k.len() > 0 && k.last() == '!' {
        Some(Size::Major)
    } else if lookup_text(sizes, k) is Some {
        lookup_text(sizes, k)
    } else {
        lookup_text(sizes, seq!['*'])
    }
}

/// The size of a commit of the kind `kind` under the sizes `sizes`.
pub fn commit_size(sizes: &Vec<(String, Size)>, kind: &str) -> (r: Result<Size, Error>)
    ensures
        r is Ok == kind_size(sizes@, kind@) is Some,
        r matches Ok(s) ==> kind_size(sizes@, kind@) == Some(s),
        r matches Err(e) ==> e.kind() == ErrorKind::UnknownCommitKind,
{
    let k = trim(kind);
    if k.len() > 0 && k[k.len() - 1] == '!' {
        return Ok(Size::Major);
    }
    let word = string_of(&k);
    let at = find_text(sizes, word.as_str());
    if at < sizes.len() {
        return Ok(sizes[at].1);
    }
    proof {
        reveal_strlit("*");
        assert("*"@ =~= seq!['*']);
    }
    let star = find_text(sizes, "*");
    if star < sizes.len() {
        return Ok(sizes[star].1);
    }
    let mut d = String::from_str("Unknown kind: ");
    d.append(word.as_str());
    Err(Error::new(ErrorKind::UnknownCommitKind, d))
}

/// A tag of a fixed name.
#[derive(Debug)]
pub struct DefaultTagSpec {
    pub default: String,
}

/// The tags of one major version.
#[derive(Debug)]
pub struct MajorTagSpec {
    pub major: u32,
}

/// Which tags hold the version of a project.
#[derive(Debug)]
pub enum TagSpec {
    DefaultTag(DefaultTagSpec),
    MajorTag(MajorTagSpec),
}

/// A version that stands in the tags of the repository.
#[derive(Debug)]
pub struct TagLocation {
    pub tags: TagSpec,
}

/// A version that stands in a file.
#[derive(Debug)]
pub struct FileLocation {
    pub file: String,
    pub picker: Picker,
}

/// Where the version of a project stands.
#[derive(Debug)]
pub enum Location {
    File(FileLocation),
    Tag(TagLocation),
}

impl TagLocation {
    /// Writes nothing: the tag of the project moves with its prefix.
    pub fn write_value(&self, old_tags: &OldTags, val: &str) -> (r: Result<bool, Error>)
        ensures
            r == Ok::<bool, Error>(false),
    {
        Ok(false)
    }

    /// The version that the latest tag `latest` of the project names under `prefix`. No tag,
    /// and a tag that names no version, give no value.
    pub fn get_mark_value(&self, prefix: &str, latest: Option<&String>) -> (r: Result<
        String,
        Error,
    >)
        ensures
            r is Ok == (latest is Some && tag_version(prefix@, latest.unwrap()@) is Some),
            r matches Ok(v) ==> tag_version(prefix@, latest.unwrap()@) == Some(v@),
            r matches Err(e) ==> e.kind() == ErrorKind::PickerNotFound,
    {
        match latest {
            Some(tag) => match version_of_tag(prefix, tag.as_str()) {
                Some(v) => Ok(v),
                None => Err(
                    Error::new(ErrorKind::PickerNotFound, String::from_str("No version in tag.")),
                ),
            },
            None => Err(Error::new(ErrorKind::PickerNotFound, String::from_str("No tag."))),
        }
    }
}

impl FileLocation {
    /// The path of the file, below the directory `root` where there is one.
    pub fn path(&self, root: &Option<String>) -> (r: String)
        ensures
            r@ == (match root {
                Some(d) => joined(d@, self.file@),
                None => self.file@,
            }),
    {
        match root {
            Some(d) => join_path(d.as_str(), self.file.as_str()),
            None => self.file.clone(),
        }
    }

    /// Whether `r` may be the version that the picker finds in `data`: the value of the mark
    /// that it finds, or its error.
    pub open spec fn reads<J: Scanner, Y: Scanner, T: Scanner, X: Scanner>(
        &self,
        data: &str,
        r: Result<String, Error>,
    ) -> bool {
        exists|found: Result<Mark, Error>| #[trigger]
            self.picker.finds::<J, Y, T, X>(data, found) && value_from(r, found)
    }

    /// Whether `r` may be `data` with `val` in place of the version that the picker finds:
    /// what the picker makes of `data`, with `val` written into it.
    pub open spec fn rewrites<J: Scanner, Y: Scanner, T: Scanner, X: Scanner>(
        &self,
        data: NamedData,
        val: Seq<char>,
        r: Result<MarkedData, Error>,
    ) -> bool {
        exists|scanned: Result<MarkedData, Error>| #[trigger]
            self.picker.scans::<J, Y, T, X>(data, scanned) && rewritten_from(r, scanned, val)
    }

    /// The text `data` of the file with `val` in place of the version that the picker finds.
    /// The four kinds of scanner read the structured files.
    pub fn write_value<J: Scanner, Y: Scanner, T: Scanner, X: Scanner>(
        &self,
        data: NamedData,
        val: &str,
    ) -> (r: Result<MarkedData, Error>)
        ensures
            self.rewrites::<J, Y, T, X>(data, val@, r),
            r matches Ok(m) ==> m.spec_value() == val@ && m.spec_path() is Some,
            self.picker matches Picker::Line(p) ==> rewritten_is(
                r,
                data,
                line_found(p.pattern@, data.spec_data()),
                val@,
            ),
            self.picker is File ==> rewritten_is(r, data, file_pick(data.spec_data()), val@),
    {
        let scanned = self.picker.scan::<J, Y, T, X>(data);
        let ghost given = scanned;
        let r = match scanned {
            Ok(mut mark) => match mark.write_new_value(val) {
                Ok(()) => Ok(mark),
                Err(e) => Err(e),
            },
            Err(e) => Err(e),
        };
        proof {
            assert(self.picker.scans::<J, Y, T, X>(data, given) && rewritten_from(r, given, val@));
        }
        r
    }

    /// The version that the picker finds in the text `data` of the file.
    pub fn get_mark_value<J: Scanner, Y: Scanner, T: Scanner, X: Scanner>(&self, data: &str) -> (r:
        Result<String, Error>)
        ensures
            self.reads::<J, Y, T, X>(data, r),
            self.picker matches Picker::Line(p) ==> value_is(r, line_found(p.pattern@, data@)),
            self.picker is File ==> value_is(r, file_pick(data@)),
    {
        let found = self.picker.find::<J, Y, T, X>(data);
        let ghost given = found;
        let r = match found {
            Ok(m) => Ok(m.value().to_owned()),
            Err(e) => Err(e),
        };
        proof {
            assert(self.picker.finds::<J, Y, T, X>(data, given) && value_from(r, given));
        }
        r
    }
}

/// Whether a result holds the value or the kind of error that `expected` says.
pub open spec fn value_is(r: Result<String, Error>, expected: Result<(Seq<char>, nat), ErrorKind>)
    -> bool {
    match (r, expected) {
        (Ok(v), Ok((w, at))) => v@ == w,
        (Err(e), Err(k)) => e.kind() == k,
        _ => false,
    }
}

impl Location {
    /// Whether `r` may be what the writing of `val` at the location gives. Nothing is
    /// written for a version that stands in the tags. For a version that stands in a file, a
    /// missing text is an error of reading; else `r` is the text `data` with `val` written
    /// in place of what the picker finds, which is stated in full for a pattern and for a
    /// whole file.
    pub open spec fn writes<J: Scanner, Y: Scanner, T: Scanner, X: Scanner>(
        &self,
        data: Option<NamedData>,
        val: Seq<char>,
        r: Result<Option<MarkedData>, Error>,
    ) -> bool {
        match self {
            Location::Tag(_) => r is Ok && r.unwrap() is None,
            Location::File(l) => match data {
                None => r is Err && r.unwrap_err().kind() == ErrorKind::IoError,
                Some(d) => {
                    let one = match r {
                        Ok(m) => Ok::<MarkedData, Error>(m.unwrap()),
                        Err(e) => Err(e),
                    };
                    &&& r matches Ok(m) ==> m is Some
                    &&& l.rewrites::<J, Y, T, X>(d, val, one)
                    &&& l.picker matches Picker::Line(p) ==> rewritten_is(
                        one,
                        d,
                        line_found(p.pattern@, d.spec_data()),
                        val,
                    )
                    &&& l.picker is File ==> rewritten_is(one, d, file_pick(d.spec_data()), val)
                },
            },
        }
    }

    /// Whether `r` may be the version at the location. For a version that stands in a file,
    /// a missing text is an error of reading; else `r` is what the picker finds in `data`,
    /// which is stated in full for a pattern and for a whole file. For a version that stands
    /// in the tags, `r` is the version that the latest tag names under `prefix`.
    pub open spec fn reads<J: Scanner, Y: Scanner, T: Scanner, X: Scanner>(
        &self,
        data: Option<&str>,
        prefix: Seq<char>,
        latest: Option<Seq<char>>,
        r: Result<String, Error>,
    ) -> bool {
        match self {
            Location::File(l) => match data {
                None => r is Err && r.unwrap_err().kind() == ErrorKind::IoError,
                Some(d) => {
                    &&& l.reads::<J, Y, T, X>(d, r)
                    &&& l.picker matches Picker::Line(p) ==> value_is(
                        r,
                        line_found(p.pattern@, d@),
                    )
                    &&& l.picker is File ==> value_is(r, file_pick(d@))
                },
            },
            Location::Tag(_) => {
                &&& r is Ok == (latest is Some && tag_version(prefix, latest.unwrap()) is Some)
                &&& r matches Ok(v) ==> tag_version(prefix, latest.unwrap()) == Some(v@)
                &&& r matches Err(e) ==> e.kind() == ErrorKind::PickerNotFound
            },
        }
    }

    /// The text of the file with `val` in place of the version, for a version that stands in
    /// a file whose text is `data`; nothing for a version that stands in the tags. A file
    /// that is not there is an error.
    pub fn write_value<J: Scanner, Y: Scanner, T: Scanner, X: Scanner>(
        &self,
        data: Option<NamedData>,
        val: &str,
    ) -> (r: Result<Option<MarkedData>, Error>)
        ensures
            self.writes::<J, Y, T, X>(data, val@, r),
            self is File ==> (r matches Ok(m) ==> m is Some && m.unwrap().spec_value() == val@),
    {
        match self {
            Location::File(l) => match data {
                Some(d) => match l.write_value::<J, Y, T, X>(d, val) {
                    Ok(m) => Ok(Some(m)),
                    Err(e) => Err(e),
                },
                None => {
                    let mut d = String::from_str("No file at ");
                    d.append(l.file.as_str());
                    Err(Error::new(ErrorKind::IoError, d))
                },
            },
            Location::Tag(_) => Ok(None),
        }
    }

    /// The version at the location: what the picker finds in the text `data` of the file, or
    /// what the latest tag `latest` names under `prefix`.
    pub fn get_mark_value<J: Scanner, Y: Scanner, T: Scanner, X: Scanner>(
        &self,
        data: Option<&str>,
        prefix: &str,
        latest: Option<&String>,
    ) -> (r: Result<String, Error>)
        ensures
            self.reads::<J, Y, T, X>(
                data,
                prefix@,
                match latest {
                    Some(t) => Some(t@),
                    None => None,
                },
                r,
            ),
    {
        match self {
            Location::File(l) => match data {
                Some(d) => l.get_mark_value::<J, Y, T, X>(d),
                None => {
                    let mut d = String::from_str("No file at ");
                    d.append(l.file.as_str());
                    Err(Error::new(ErrorKind::IoError, d))
                },
            },
            Location::Tag(l) => l.get_mark_value(prefix, latest),
        }
    }

    /// The picker of a version that stands in a file.
    pub fn picker(&self) -> (r: &Picker)
        requires
            self is File,
        ensures
            *r == self->File_0.picker,
    {
        match self {
            Location::File(l) => &l.picker,
            Location::Tag(_) => unreached(),
        }
    }
}

/// A versioned unit of the repository.
#[derive(Debug)]
pub struct Project {
    pub name: String,
    pub id: ProjectId,
    pub root: Option<String>,
    pub includes: Vec<String>,
    pub excludes: Vec<String>,
    pub depends: Vec<ProjectId>,
    pub change_log: Option<String>,
    pub located: Location,
    pub tag_prefix: Option<String>,
}

/// What a list of patterns says of a path: the patterns are tried in order up to the first
/// that is no pattern or that matches.
pub enum Verdict {
    /// A pattern that was tried is no pattern.
    Broken,
    /// A pattern matches.
    Hit,
    /// No pattern matches.
    Miss,
}

impl Project {
    /// The pattern `pat` below the root of the project.
    pub open spec fn rooted(&self, pat: Seq<char>) -> Seq<char> {
        match self.root {
            Some(root) => joined(root@, pat),
            None => pat,
        }
    }

    /// The test that stops the trial of a list of patterns: the pattern, below the root, is
    /// no pattern, or it matches `path`.
    pub open spec fn stops(&self, path: Seq<char>) -> spec_fn(String) -> bool {
        |pat: String|
            !glob_compiles(self.rooted(pat@)) || pattern_hits(self.rooted(pat@), path)
    }

    /// What the patterns `pats` say of `path`.
    pub open spec fn verdict(&self, pats: Seq<String>, path: Seq<char>) -> Verdict {
        let i = first_where(pats, self.stops(path)) as int;
        if i >= pats.len() {
            Verdict::Miss
        } else if !glob_compiles(self.rooted(pats[i]@)) {
            Verdict::Broken
        } else {
            Verdict::Hit
        }
    }

    /// Whether the project covers `path`: no exclude matches it and an include does. There
    /// is no answer where a pattern that had to be tried is no pattern.
    pub open spec fn covers(&self, path: Seq<char>) -> Option<bool> {
        match self.verdict(self.excludes@, path) {
            Verdict::Broken => None,
            Verdict::Hit => Some(false),
            Verdict::Miss => match self.verdict(self.includes@, path) {
                Verdict::Broken => None,
                Verdict::Hit => Some(true),
                Verdict::Miss => Some(false),
            },
        }
    }

    /// The directory of the project, if it has one.
    pub fn root(&self) -> (r: &Option<String>)
        ensures
            *r == self.root,
    {
        &self.root
    }

    /// The name of the project.
    pub fn name(&self) -> (r: &str)
        ensures
            r@ == self.name@,
    {
        self.name.as_str()
    }

    /// The number of the project.
    pub fn id(&self) -> (r: ProjectId)
        ensures
            r == self.id,
    {
        self.id
    }

    /// The projects that this project depends on.
    pub fn depends(&self) -> (r: &Vec<ProjectId>)
        ensures
            *r == self.depends,
    {
        &self.depends
    }

    /// The prefix of the tags of the project, if it is tagged.
    pub fn tag_prefix(&self) -> (r: &Option<String>)
        ensures
            *r == self.tag_prefix,
    {
        &self.tag_prefix
    }

    /// The path of the change log of the project, below its root.
    pub fn change_log(&self) -> (r: Option<String>)
        ensures
            r is Some == self.change_log is Some,
            r matches Some(p) ==> p@ == self.rooted(self.change_log.unwrap()@),
    {
        match &self.change_log {
            Some(log) => Some(self.rooted_pattern(log.as_str())),
            None => None,
        }
    }

    /// The pattern `pat` below the root of the project.
    pub fn rooted_pattern(&self, pat: &str) -> (r: String)
        ensures
            r@ == self.rooted(pat@),
    {
        match &self.root {
            Some(root) => join_path(root.as_str(), pat),
            None => pat.to_owned(),
        }
    }

    /// What the patterns `pats` say of `path`.
    fn try_patterns(&self, pats: &Vec<String>, path: &str) -> (r: Result<bool, Error>)
        ensures
            r is Err == self.verdict(pats@, path@) is Broken,
            r matches Ok(b) ==> b == self.verdict(pats@, path@) is Hit,
            r matches Err(e) ==> e.kind() == ErrorKind::ManifestInvalid,
    {
        let mut i: usize = 0;
        while i < pats.len()
            invariant
                i <= pats.len(),
                forall|j: int| 0 <= j < i ==> !self.stops(path@)(#[trigger] pats@[j]),
            decreases pats.len() - i,
        {
            let pattern = self.rooted_pattern(pats[i].as_str());
            match pattern_matches(pattern.as_str(), path, match_opts()) {
                Err(_) => {
                    proof {
                        lemma_first_where_is(pats@, self.stops(path@), i as int);
                    }
                    let mut d = String::from_str("Bad pattern: ");
                    d.append(pattern.as_str());
                    return Err(Error::new(ErrorKind::ManifestInvalid, d));
                },
                Ok(true) => {
                    proof {
                        lemma_first_where_is(pats@, self.stops(path@), i as int);
                    }
                    return Ok(true);
                },
                Ok(false) => {},
            }
            i = i + 1;
        }
        proof {
            lemma_first_where_is(pats@, self.stops(path@), i as int);
        }
        Ok(false)
    }

    /// Whether the project covers `path`. The excludes are tried first, then the includes; a
    /// pattern that has to be tried and is no pattern is an error of the manifest.
    pub fn does_cover(&self, path: &str) -> (r: Result<bool, Error>)
        ensures
            r is Ok == self.covers(path@) is Some,
            r matches Ok(b) ==> self.covers(path@) == Some(b),
            r matches Err(e) ==> e.kind() == ErrorKind::ManifestInvalid,
    {
        if self.try_patterns(&self.excludes, path)? {
            return Ok(false);
        }
        self.try_patterns(&self.includes, path)
    }

    /// The size of a commit of the kind `kind` under the sizes of the manifest. A kind that
    /// the manifest gives no size, where it has no fallback either, is an unknown kind.
    pub fn size(&self, parent_sizes: &Vec<(String, Size)>, kind: &str) -> (r: Result<Size, Error>)
        ensures
            r is Ok == kind_size(parent_sizes@, kind@) is Some,
            r matches Ok(s) ==> kind_size(parent_sizes@, kind@) == Some(s),
            r matches Err(e) ==> e.kind() == ErrorKind::UnknownCommitKind,
    {
        commit_size(parent_sizes, kind)
    }

    /// Stages the tag of the version `val` where the release makes a commit: a commit is
    /// asked for, and the tag of the project, if it has a prefix, goes on that commit.
    pub fn will_commit(&self, val: &str, new_tags: &mut NewTags, wrote: bool) -> (r: Result<
        (),
        Error,
    >)
        ensures
            r is Ok,
            final(new_tags).spec_should_commit(),
            final(new_tags).changed() == old(new_tags).changed(),
            self.tag_prefix is None ==> final(new_tags).new_commit_tags() == old(
                new_tags,
            ).new_commit_tags(),
            self.tag_prefix matches Some(prefix) ==> {
                &&& final(new_tags).new_commit_tags().len() == old(new_tags).new_commit_tags().len()
                    + 1
                &&& final(new_tags).new_commit_tags().drop_last() == old(
                    new_tags,
                ).new_commit_tags()
                &&& final(new_tags).new_commit_tags().last()@ == tag_name(prefix@, val@)
            },
    {
        new_tags.flag_commit();
        match &self.tag_prefix {
            Some(prefix) => {
                let tag = make_tag(prefix.as_str(), val);
                new_tags.add_tag(tag);
                proof {
                    assert(new_tags.new_commit_tags().drop_last() =~= old(
                        new_tags,
                    ).new_commit_tags());
                }
            },
            None => {},
        }
        Ok(())
    }

    /// Whether `after` is `before` with the tag of the version `val` staged. Where something
    /// was written, a commit is asked for and the tag, if the project has a prefix, goes on
    /// that commit. Else, where the project has a prefix and the last commit that touched it
    /// is known, the tag moves to that commit. Else nothing is staged.
    pub open spec fn staged(
        &self,
        before: NewTags,
        after: NewTags,
        val: Seq<char>,
        last_commit: Option<Seq<char>>,
        wrote: bool,
    ) -> bool {
        if wrote {
            &&& after.spec_should_commit()
            &&& after.changed() == before.changed()
            &&& match self.tag_prefix {
                None => after.new_commit_tags() == before.new_commit_tags(),
                Some(prefix) => {
                    &&& after.new_commit_tags().len() == before.new_commit_tags().len() + 1
                    &&& after.new_commit_tags().drop_last() == before.new_commit_tags()
                    &&& after.new_commit_tags().last()@ == tag_name(prefix@, val)
                },
            }
        } else {
            &&& after.spec_should_commit() == before.spec_should_commit()
            &&& after.new_commit_tags() == before.new_commit_tags()
            &&& match (self.tag_prefix, last_commit) {
                (Some(prefix), Some(oid)) => {
                    &&& lookup_text(after.changed(), tag_name(prefix@, val)) is Some
                    &&& lookup_text(after.changed(), tag_name(prefix@, val)).unwrap()@ == oid
                    &&& forall|t: Seq<char>|
                        t != tag_name(prefix@, val) ==> #[trigger] lookup_text(after.changed(), t)
                            == lookup_text(before.changed(), t)
                },
                _ => after.changed() == before.changed(),
            }
        }
    }

    /// Stages the tag of the version `val`. Where something was written the tag goes on the
    /// commit that the release makes. Else, where the project has a prefix and the last
    /// commit that touched it is known, the tag moves to that commit. Else nothing is staged.
    pub fn forward_value(
        &self,
        val: &str,
        last_commit: Option<&String>,
        new_tags: &mut NewTags,
        wrote_something: bool,
    ) -> (r: Result<(), Error>)
        ensures
            r is Ok,
            self.staged(
                *old(new_tags),
                *final(new_tags),
                val@,
                match last_commit {
                    Some(c) => Some(c@),
                    None => None,
                },
                wrote_something,
            ),
    {
        if wrote_something {
            return self.will_commit(val, new_tags, wrote_something);
        }
        match (&self.tag_prefix, last_commit) {
            (Some(prefix), Some(oid)) => {
                let tag = make_tag(prefix.as_str(), val);
                new_tags.change_tag(tag, oid.as_str());
            },
            _ => {},
        }
        Ok(())
    }

    /// The prefix of the tags of the project; empty where it has none.
    pub open spec fn prefix_text(&self) -> Seq<char> {
        match self.tag_prefix {
            Some(p) => p@,
            None => Seq::empty(),
        }
    }

    /// The text of the file of the project with `val` in place of the version; nothing for a
    /// project whose version stands in the tags.
    pub fn write_value<J: Scanner, Y: Scanner, T: Scanner, X: Scanner>(
        &self,
        data: Option<NamedData>,
        val: &str,
    ) -> (r: Result<Option<MarkedData>, Error>)
        ensures
            self.located.writes::<J, Y, T, X>(data, val@, r),
            self.located is File ==> (r matches Ok(m) ==> m is Some && m.unwrap().spec_value()
                == val@),
    {
        self.located.write_value::<J, Y, T, X>(data, val)
    }

    /// The version of the project: what its picker finds in the text `data` of its file, or
    /// what its latest tag `latest` names.
    pub fn get_mark_value<J: Scanner, Y: Scanner, T: Scanner, X: Scanner>(
        &self,
        data: Option<&str>,
        latest: Option<&String>,
    ) -> (r: Result<String, Error>)
        ensures
            self.located.reads::<J, Y, T, X>(
                data,
                self.prefix_text(),
                match latest {
                    Some(t) => Some(t@),
                    None => None,
                },
                r,
            ),
    {
        match &self.tag_prefix {
            Some(prefix) => self.located.get_mark_value::<J, Y, T, X>(data, prefix.as_str(), latest),
            None => {
                proof {
                    reveal_strlit("");
                    assert(""@ =~= Seq::<char>::empty());
                }
                self.located.get_mark_value::<J, Y, T, X>(data, "", latest)
            },
        }
    }

    /// Sets the version of the project to `val`: the text of its file with `val` in place of
    /// the version is given back for writing, and the tag of the version is staged. Where the
    /// writing fails nothing is staged.
    pub fn set_value<J: Scanner, Y: Scanner, T: Scanner, X: Scanner>(
        &self,
        data: Option<NamedData>,
        val: &str,
        last_commit: Option<&String>,
        new_tags: &mut NewTags,
        wrote: bool,
    ) -> (r: Result<Option<MarkedData>, Error>)
        ensures
            self.located.writes::<J, Y, T, X>(data, val@, r),
            r is Err ==> *final(new_tags) == *old(new_tags),
            r matches Ok(m) ==> m is Some == self.located is File,
            r matches Ok(m) ==> self.staged(
                *old(new_tags),
                *final(new_tags),
                val@,
                match last_commit {
                    Some(c) => Some(c@),
                    None => None,
                },
                wrote || m is Some,
            ),
    {
        let written = match self.write_value::<J, Y, T, X>(data, val) {
            Ok(m) => m,
            Err(e) => {
                return Err(e);
            },
        };
        let wrote_val = written.is_some();
        let _ = self.forward_value(val, last_commit, new_tags, wrote || wrote_val);
        Ok(written)
    }

    /// The project with its version `value`.
    pub fn annotate(&self, value: String) -> (r: AnnotatedMark)
        ensures
            r.id == self.id,
            r.name == self.name,
            r.mark == value,
    {
        AnnotatedMark::new(self.id, self.name.clone(), value)
    }

    /// The path of the change log of the project and the page to write there, if the project
    /// has a change log.
    pub fn write_change_log(&self, cl: &ChangeLog) -> (r: Result<Option<(String, String)>, Error>)
        ensures
            r is Ok,
            r.unwrap() is Some == self.change_log is Some,
            r.unwrap() matches Some(w) ==> w.0@ == self.rooted(self.change_log.unwrap()@) && w.1@
                == change_log_html(cl@),
    {
        match self.change_log() {
            Some(path) => match construct_change_log_html(cl) {
                Ok(page) => Ok(Some((path, page))),
                Err(e) => Err(e),
            },
            None => Ok(None),
        }
    }

    /// Checks the patterns of the project. `covered` says of each include whether it matches
    /// a file of the working tree. A project that has excludes and no includes is refused, and
    /// so is one with an include that matches no file, or without an answer for an include.
    pub fn check(&self, covered: &Vec<bool>) -> (r: Result<(), Error>)
        ensures
            r is Ok == (!(self.excludes@.len() > 0 && self.includes@.len() == 0) && covered@.len()
                == self.includes@.len() && forall|i: int|
                0 <= i < covered@.len() ==> covered@[i]),
            r matches Err(e) ==> e.kind() == (if self.excludes@.len() > 0 && self.includes@.len()
                == 0 {
                ErrorKind::ManifestInvalid
            } else {
                ErrorKind::CoverageEmpty
            }),
    {
        match self.check_excludes() {
            Ok(()) => {},
            Err(e) => {
                return Err(e);
            },
        }
        if covered.len() != self.includes.len() {
            return Err(
                Error::new(
                    ErrorKind::CoverageEmpty,
                    String::from_str("Not every include pattern was tried."),
                ),
            );
        }
        let mut i: usize = 0;
        while i < covered.len()
            invariant
                i <= covered.len(),
                covered.len() == self.includes.len(),
                !(self.excludes@.len() > 0 && self.includes@.len() == 0),
                forall|j: int| 0 <= j < i ==> covered@[j],
            decreases covered.len() - i,
        {
            if !covered[i] {
                let mut d = String::from_str("No files covered by ");
                d.append(self.includes[i].as_str());
                return Err(Error::new(ErrorKind::CoverageEmpty, d));
            }
            i = i + 1;
        }
        Ok(())
    }

    /// Refuses a project that has excludes and no includes.
    pub fn check_excludes(&self) -> (r: Result<(), Error>)
        ensures
            r is Err == (self.excludes@.len() > 0 && self.includes@.len() == 0),
            r matches Err(e) ==> e.kind() == ErrorKind::ManifestInvalid,
    {
        if !self.excludes.is_empty() && self.includes.is_empty() {
            return Err(
                Error::new(
                    ErrorKind::ManifestInvalid,
                    String::from_str("A project has excludes, but no includes."),
                ),
            );
        }
        Ok(())
    }
}

/// The test that accepts the project with the number `id`.
pub open spec fn is_id(id: ProjectId) -> spec_fn(Project) -> bool {
    |p: Project| p.id == id
}

/// The index of the first project with the number `id`, or the number of projects where none
/// has it.
pub open spec fn index_of(projects: Seq<Project>, id: ProjectId) -> nat {
    first_where(projects, is_id(id))
}

/// Whether two projects may not stand in one manifest: they share their number, their name or
/// their tag prefix.
pub open spec fn clash(a: Project, b: Project) -> bool {
    ||| a.id == b.id
    ||| a.name@ == b.name@
    ||| (a.tag_prefix is Some && b.tag_prefix is Some && a.tag_prefix.unwrap()@
        == b.tag_prefix.unwrap()@)
}

/// Whether a project is sound by itself: its tag prefix, if it has one, is legal, and it has no
/// excludes without includes.
pub open spec fn sound(p: Project) -> bool {
    &&& p.tag_prefix is Some ==> is_legal_tag(p.tag_prefix.unwrap()@)
    &&& p.excludes@.len() > 0 ==> p.includes@.len() > 0
}

/// Whether `rank` puts every project above the projects that it depends on.
pub open spec fn ranked(projects: Seq<Project>, rank: spec_fn(ProjectId) -> nat) -> bool {
    forall|i: int, k: int|
        0 <= i < projects.len() && 0 <= k < projects[i].depends@.len() ==> rank(
            #[trigger] projects[i].depends@[k],
        ) < rank(projects[i].id)
}

/// Whether no project depends on itself, directly or through others: the projects can be put
/// in ranks so that each stands above what it depends on.
pub open spec fn acyclic(projects: Seq<Project>) -> bool {
    exists|rank: spec_fn(ProjectId) -> nat| ranked(projects, rank)
}

/// Whether no two of the projects clash.
pub open spec fn no_clashes(projects: Seq<Project>) -> bool {
    forall|i: int, j: int| 0 <= i < j < projects.len() ==> !clash(projects[i], projects[j])
}

/// Whether the projects may stand in one manifest.
pub open spec fn valid_projects(projects: Seq<Project>) -> bool {
    &&& no_clashes(projects)
    &&& forall|i: int| 0 <= i < projects.len() ==> sound(#[trigger] projects[i])
    &&& acyclic(projects)
}

/// How many of the flags are not set.
pub open spec fn unset(flags: Seq<bool>) -> nat
    decreases flags.len(),
{
    if flags.len() == 0 {
        0
    } else {
        unset(flags.drop_last()) + if flags.last() {
            0nat
        } else {
            1nat
        }
    }
}

/// Setting a flag that was not set leaves one fewer unset.
proof fn lemma_unset_update(flags: Seq<bool>, i: int)
    requires
        0 <= i < flags.len(),
        !flags[i],
    ensures
        unset(flags.update(i, true)) + 1 == unset(flags),
    decreases flags.len(),
{
    let after = flags.update(i, true);
    if i == flags.len() - 1 {
        assert(after.drop_last() =~= flags.drop_last());
    } else {
        lemma_unset_update(flags.drop_last(), i);
        assert(after.drop_last() =~= flags.drop_last().update(i, true));
    }
}

/// Whether the project with the number `d` is there and its flag is not set.
spec fn blocks(projects: Seq<Project>, done: Seq<bool>, d: ProjectId) -> bool {
    index_of(projects, d) < projects.len() && !done[index_of(projects, d) as int]
}

/// Whether every project whose flag is not set depends on such a project.
spec fn stuck(projects: Seq<Project>, done: Seq<bool>) -> bool {
    forall|i: int|
        0 <= i < projects.len() && !#[trigger] done[i] ==> exists|k: int|
            0 <= k < projects[i].depends@.len() && blocks(
                projects,
                done,
                #[trigger] projects[i].depends@[k],
            )
}

/// Where every unset project depends on an unset project, no ranks put each project above
/// what it depends on.
proof fn lemma_stuck(
    projects: Seq<Project>,
    done: Seq<bool>,
    rank: spec_fn(ProjectId) -> nat,
    i: int,
)
    requires
        done.len() == projects.len(),
        stuck(projects, done),
        0 <= i < projects.len(),
        !done[i],
    ensures
        !ranked(projects, rank),
    decreases rank(projects[i].id),
{
    if ranked(projects, rank) {
        let k = choose|k: int|
            0 <= k < projects[i].depends@.len() && blocks(
                projects,
                done,
                #[trigger] projects[i].depends@[k],
            );
        let d = projects[i].depends@[k];
        let j = index_of(projects, d) as int;
        lemma_first_where(projects, is_id(d));
        assert(is_id(d)(projects[j]));
        assert(rank(d) < rank(projects[i].id));
        lemma_stuck(projects, done, rank, j);
    }
}

/// Whether the ranks `rank` are sound for the projects whose flag is set: each has a rank of
/// one or more, below `next`, and all that it depends on is set and ranked lower, or is no
/// project.
spec fn ranks_sound(
    projects: Seq<Project>,
    done: Seq<bool>,
    rank: Map<ProjectId, nat>,
    next: nat,
) -> bool {
    &&& next >= 1
    &&& forall|id: ProjectId| #[trigger]
        rank.dom().contains(id) ==> index_of(projects, id) < projects.len() && done[index_of(
            projects,
            id,
        ) as int] && 1 <= rank[id] < next
    &&& forall|i: int|
        0 <= i < projects.len() && #[trigger] done[i] ==> rank.dom().contains(projects[i].id)
    &&& forall|i: int, k: int|
        0 <= i < projects.len() && done[i] && 0 <= k < projects[i].depends@.len() ==> {
            let d = #[trigger] projects[i].depends@[k];
            index_of(projects, d) < projects.len() ==> rank.dom().contains(d) && rank[d]
                < rank[projects[i].id]
        }
}

/// The index of the first project with the number `id`, or the number of projects.
pub fn find_project(projects: &Vec<Project>, id: ProjectId) -> (at: usize)
    ensures
        at == index_of(projects@, id),
        at <= projects.len(),
        at < projects.len() ==> projects[at as int].id == id,
{
    let mut at: usize = 0;
    while at < projects.len() && projects[at].id != id
        invariant
            at <= projects.len(),
            forall|j: int| 0 <= j < at ==> projects@[j].id != id,
        decreases projects.len() - at,
    {
        at = at + 1;
    }
    proof {
        let p = is_id(id);
        assert forall|j: int| 0 <= j < at implies !p(#[trigger] projects@[j]) by {}
        lemma_first_where_is(projects@, p, at as int);
    }
    at
}

/// The index of a dependency of the project `i` that is a project whose flag is not set.
fn blocking(projects: &Vec<Project>, done: &Vec<bool>, i: usize) -> (r: Option<usize>)
    requires
        done.len() == projects.len(),
        i < projects.len(),
    ensures
        r matches Some(k) ==> k < projects[i as int].depends@.len() && blocks(
            projects@,
            done@,
            projects[i as int].depends@[k as int],
        ),
        r is None ==> forall|k: int|
            0 <= k < projects[i as int].depends@.len() ==> !blocks(
                projects@,
                done@,
                #[trigger] projects[i as int].depends@[k],
            ),
{
    let deps = &projects[i].depends;
    let mut k: usize = 0;
    while k < deps.len()
        invariant
            k <= deps.len(),
            done.len() == projects.len(),
            i < projects.len(),
            *deps == projects[i as int].depends,
            forall|m: int| 0 <= m < k ==> !blocks(projects@, done@, #[trigger] deps@[m]),
        decreases deps.len() - k,
    {
        let j = find_project(projects, deps[k]);
        if j < projects.len() && !done[j] {
            return Some(k);
        }
        k = k + 1;
    }
    None
}

/// Whether no project depends on itself, directly or through others.
fn check_acyclic(projects: &Vec<Project>) -> (r: bool)
    requires
        no_clashes(projects@),
    ensures
        r == acyclic(projects@),
{
    let n = projects.len();
    let mut done: Vec<bool> = Vec::new();
    let mut c: usize = 0;
    while c < n
        invariant
            c <= n,
            done.len() == c,
            forall|i: int| 0 <= i < c ==> !done@[i],
        decreases n - c,
    {
        done.push(false);
        c = c + 1;
    }
    let ghost mut rank: Map<ProjectId, nat> = Map::empty();
    let ghost mut next: nat = 1;
    let mut changed = true;
    while changed
        invariant
            n == projects.len(),
            done.len() == n,
            no_clashes(projects@),
            ranks_sound(projects@, done@, rank, next),
            !changed ==> stuck(projects@, done@),
        decreases unset(done@) + if changed { 1nat } else { 0nat },
    {
        changed = false;
        let ghost start = done@;
        let mut i: usize = 0;
        while i < n
            invariant
                i <= n,
                n == projects.len(),
                done.len() == n,
                no_clashes(projects@),
                ranks_sound(projects@, done@, rank, next),
                !changed ==> done@ == start,
                changed ==> unset(done@) < unset(start),
                unset(done@) <= unset(start),
                !changed ==> forall|m: int|
                    0 <= m < i && !#[trigger] done@[m] ==> exists|k: int|
                        0 <= k < projects@[m].depends@.len() && blocks(
                            projects@,
                            done@,
                            #[trigger] projects@[m].depends@[k],
                        ),
            decreases n - i,
        {
            if !done[i] {
                match blocking(projects, &done, i) {
                    None => {
                        let ghost before = done@;
                        let ghost id = projects@[i as int].id;
                        proof {
                            lemma_unset_update(before, i as int);
                            lemma_first_where(projects@, is_id(id));
                            let f = index_of(projects@, id) as int;
                            if f < i {
                                assert(clash(projects@[f], projects@[i as int]));
                            }
                            assert(f == i);
                            assert(!rank.dom().contains(id));
                        }
                        done.set(i, true);
                        proof {
                            let old_rank = rank;
                            rank = rank.insert(id, next);
                            next = next + 1;
                            assert forall|x: ProjectId| #[trigger]
                                rank.dom().contains(x) implies index_of(projects@, x)
                                < projects@.len() && done@[index_of(projects@, x) as int] && 1
                                <= rank[x] < next by {
                                if x != id {
                                    assert(old_rank.dom().contains(x));
                                }
                            }
                            assert forall|a: int, k: int|
                                0 <= a < projects@.len() && done@[a] && 0 <= k
                                    < projects@[a].depends@.len() implies {
                                let d = #[trigger] projects@[a].depends@[k];
                                index_of(projects@, d) < projects@.len() ==> rank.dom().contains(d)
                                    && rank[d] < rank[projects@[a].id]
                            } by {
                                let d = projects@[a].depends@[k];
                                let j = index_of(projects@, d) as int;
                                lemma_first_where(projects@, is_id(d));
                                if j < projects@.len() {
                                    if a == i {
                                        assert(!blocks(projects@, before, d));
                                        assert(before[j]);
                                        assert(j != i);
                                        assert(old_rank.dom().contains(projects@[j].id));
                                    } else {
                                        assert(before[a]);
                                        assert(old_rank.dom().contains(projects@[a].id));
                                        assert(projects@[a].id != id) by {
                                            if a < i {
                                                assert(!clash(projects@[a], projects@[i as int]));
                                            } else {
                                                assert(!clash(projects@[i as int], projects@[a]));
                                            }
                                        }
                                        assert(old_rank.dom().contains(d));
                                        assert(d != id);
                                    }
                                }
                            }
                        }
                        changed = true;
                    },
                    Some(k) => {},
                }
            }
            i = i + 1;
        }
    }
    let mut all = true;
    let mut i: usize = 0;
    while i < n
        invariant
            i <= n,
            done.len() == n,
            all == (forall|m: int| 0 <= m < i ==> done@[m]),
        decreases n - i,
    {
        if !done[i] {
            all = false;
        }
        i = i + 1;
    }
    proof {
        if all {
            let r = |id: ProjectId|
                if rank.dom().contains(id) {
                    rank[id]
                } else {
                    0nat
                };
            assert forall|a: int, k: int|
                0 <= a < projects@.len() && 0 <= k < projects@[a].depends@.len() implies r(
                #[trigger] projects@[a].depends@[k],
            ) < r(projects@[a].id) by {
                let d = projects@[a].depends@[k];
                assert(done@[a]);
                assert(rank.dom().contains(projects@[a].id));
                if index_of(projects@, d) < projects@.len() {
                } else {
                    assert(!rank.dom().contains(d));
                }
            }
            assert(ranked(projects@, r));
        } else {
            let u = choose|m: int| 0 <= m < n && !done@[m];
            if acyclic(projects@) {
                let r = choose|rank: spec_fn(ProjectId) -> nat| ranked(projects@, rank);
                lemma_stuck(projects@, done@, r, u);
            }
        }
    }
    all
}

/// The options of a manifest.
#[derive(Debug)]
pub struct Options {
    pub prev_tag: String,
}

impl Default for Options {
    /// The options of a manifest that sets none: the tag of the last release is
    /// `versio-prev`.
    fn default() -> (r: Options)
        ensures
            r.prev_tag@ == "versio-prev"@,
    {
        Options { prev_tag: String::from_str("versio-prev") }
    }
}

impl Options {
    /// The name of the tag that marks the last release.
    pub fn prev_tag(&self) -> (r: &str)
        ensures
            r@ == self.prev_tag@,
    {
        self.prev_tag.as_str()
    }
}

/// A manifest: options, projects, and the size of each kind of commit. Of two sizes under one
/// kind the first counts.
#[derive(Debug)]
pub struct ConfigFile {
    pub options: Options,
    pub projects: Vec<Project>,
    pub sizes: Vec<(String, Size)>,
}

impl ConfigFile {
    /// The name of the tag that marks the last release.
    pub fn prev_tag(&self) -> (r: &str)
        ensures
            r@ == self.options.prev_tag@,
    {
        self.options.prev_tag()
    }

    /// The projects, in the order of the manifest.
    pub fn projects(&self) -> (r: &Vec<Project>)
        ensures
            *r == self.projects,
    {
        &self.projects
    }

    /// The manifest without projects and sizes, with the options that `Options::default`
    /// gives.
    pub fn empty() -> (r: ConfigFile)
        ensures
            r.projects@.len() == 0,
            r.sizes@.len() == 0,
            r.options.prev_tag@ == "versio-prev"@,
    {
        ConfigFile { options: Options::default(), projects: Vec::new(), sizes: Vec::new() }
    }

    /// A manifest of the given parts, which must be valid.
    pub fn new(options: Options, projects: Vec<Project>, sizes: Vec<(String, Size)>) -> (r: Result<
        ConfigFile,
        Error,
    >)
        ensures
            r is Ok == valid_projects(projects@),
            r matches Ok(f) ==> f.options == options && f.projects == projects && f.sizes == sizes,
            r matches Err(e) ==> e.kind() == ErrorKind::ManifestInvalid,
    {
        let file = ConfigFile { options, projects, sizes };
        match file.validate() {
            Ok(()) => Ok(file),
            Err(e) => Err(e),
        }
    }

    /// Refuses a manifest in which two projects share a number, a name or a tag prefix, a tag
    /// prefix is illegal, a project has excludes and no includes, or a project depends on
    /// itself, directly or through others.
    pub fn validate(&self) -> (r: Result<(), Error>)
        ensures
            r is Ok == valid_projects(self.projects@),
            r matches Err(e) ==> e.kind() == ErrorKind::ManifestInvalid,
    {
        let n = self.projects.len();
        let mut i: usize = 0;
        while i < n
            invariant
                i <= n,
                n == self.projects.len(),
                forall|a: int, b: int|
                    0 <= a < b < i ==> !clash(self.projects@[a], self.projects@[b]),
                forall|a: int| 0 <= a < i ==> sound(#[trigger] self.projects@[a]),
            decreases n - i,
        {
            let p = &self.projects[i];
            let mut j: usize = 0;
            while j < i
                invariant
                    j <= i < n,
                    n == self.projects.len(),
                    *p == self.projects@[i as int],
                    forall|a: int| 0 <= a < j ==> !clash(self.projects@[a], self.projects@[i as int]),
                decreases i - j,
            {
                let q = &self.projects[j];
                if q.id == p.id {
                    proof {
                        assert(clash(self.projects@[j as int], self.projects@[i as int]));
                    }
                    return Err(invalid("A project id is duplicated: ", p.name.as_str()));
                }
                if q.name == p.name {
                    proof {
                        assert(clash(self.projects@[j as int], self.projects@[i as int]));
                    }
                    return Err(invalid("A project name is duplicated: ", p.name.as_str()));
                }
                match (&q.tag_prefix, &p.tag_prefix) {
                    (Some(a), Some(b)) => {
                        if *a == *b {
                            proof {
                                assert(clash(self.projects@[j as int], self.projects@[i as int]));
                            }
                            return Err(invalid("A tag_prefix is duplicated: ", b.as_str()));
                        }
                    },
                    _ => {},
                }
                j = j + 1;
            }
            match &p.tag_prefix {
                Some(pref) => {
                    if !legal_tag(pref.as_str()) {
                        return Err(invalid("Illegal tag_prefix: ", pref.as_str()));
                    }
                },
                None => {},
            }
            match p.check_excludes() {
                Err(e) => {
                    return Err(e);
                },
                Ok(()) => {},
            }
            i = i + 1;
        }
        if !check_acyclic(&self.projects) {
            return Err(invalid("Projects depend on each other in a circle", ""));
        }
        Ok(())
    }

    /// The project with the number `id`.
    pub fn get_project(&self, id: ProjectId) -> (r: Option<&Project>)
        ensures
            r is Some == (index_of(self.projects@, id) < self.projects@.len()),
            r matches Some(p) ==> *p == self.projects@[index_of(self.projects@, id) as int] && p.id
                == id,
    {
        let at = find_project(&self.projects, id);
        if at < self.projects.len() {
            Some(&self.projects[at])
        } else {
            None
        }
    }
}

/// How many of the projects have `name` in their name.
pub open spec fn named_count(projects: Seq<Project>, name: Seq<char>) -> nat
    decreases projects.len(),
{
    if projects.len() == 0 {
        0
    } else {
        named_count(projects.drop_last(), name) + if contains_text(projects.last().name@, name) {
            1nat
        } else {
            0nat
        }
    }
}

/// The test that accepts the projects that have `name` in their name.
pub open spec fn is_named(name: Seq<char>) -> spec_fn(Project) -> bool {
    |p: Project| contains_text(p.name@, name)
}

impl ConfigFile {
    /// The number of the one project that has `name` in its name. No such project, and more
    /// than one, are refused.
    pub fn find_unique(&self, name: &str) -> (r: Result<ProjectId, Error>)
        ensures
            named_count(self.projects@, name@) == 1 <==> r is Ok,
            r matches Ok(id) ==> id == self.projects@[first_where(
                self.projects@,
                is_named(name@),
            ) as int].id && first_where(self.projects@, is_named(name@)) < self.projects@.len(),
            r matches Err(e) ==> e.kind() == (if named_count(self.projects@, name@) == 0 {
                ErrorKind::NoSuchProject
            } else {
                ErrorKind::AmbiguousProjectName
            }),
    {
        let mut count: usize = 0;
        let mut first: usize = self.projects.len();
        let mut i: usize = 0;
        while i < self.projects.len()
            invariant
                i <= self.projects.len(),
                count == named_count(self.projects@.take(i as int), name@),
                count <= i,
                count == 0 ==> first == self.projects.len(),
                count == 0 ==> forall|j: int|
                    0 <= j < i ==> !is_named(name@)(#[trigger] self.projects@[j]),
                count > 0 ==> first < i && first == first_where(self.projects@, is_named(name@)),
            decreases self.projects.len() - i,
        {
            proof {
                let t = self.projects@.take(i + 1);
                assert(t.drop_last() =~= self.projects@.take(i as int));
                assert(t.last() == self.projects@[i as int]);
            }
            if contains(self.projects[i].name.as_str(), name) {
                if count == 0 {
                    first = i;
                    proof {
                        lemma_first_where_is(self.projects@, is_named(name@), i as int);
                    }
                }
                count = count + 1;
            }
            i = i + 1;
        }
        proof {
            assert(self.projects@.take(self.projects.len() as int) =~= self.projects@);
        }
        if count == 0 {
            let mut d = String::from_str("No project named ");
            d.append(name);
            return Err(Error::new(ErrorKind::NoSuchProject, d));
        }
        if count > 1 {
            let mut d = String::from_str("Multiple projects with name ");
            d.append(name);
            return Err(Error::new(ErrorKind::AmbiguousProjectName, d));
        }
        Ok(self.projects[first].id)
    }
}

impl ConfigFile {
    /// The projects with their versions: `values` holds the version of each project, in the
    /// order of the projects. It is refused where it does not hold one version for each.
    pub fn annotate(&self, values: Vec<String>) -> (r: Result<Vec<AnnotatedMark>, Error>)
        ensures
            r is Ok == (values@.len() == self.projects@.len()),
            r matches Ok(v) ==> v@.len() == values@.len() && forall|i: int|
                0 <= i < v@.len() ==> (#[trigger] v@[i]).id == self.projects@[i].id && v@[i].name
                    == self.projects@[i].name && v@[i].mark == values@[i],
            r matches Err(e) ==> e.kind() == ErrorKind::NoSuchProject,
    {
        if values.len() != self.projects.len() {
            return Err(
                Error::new(
                    ErrorKind::NoSuchProject,
                    String::from_str("There must be one version for each project."),
                ),
            );
        }
        let mut out: Vec<AnnotatedMark> = Vec::new();
        let mut i: usize = 0;
        while i < self.projects.len()
            invariant
                i <= self.projects.len(),
                values.len() == self.projects.len(),
                out.len() == i,
                forall|k: int|
                    0 <= k < i ==> (#[trigger] out@[k]).id == self.projects@[k].id && out@[k].name
                        == self.projects@[k].name && out@[k].mark == values@[k],
            decreases self.projects.len() - i,
        {
            out.push(self.projects[i].annotate(values[i].clone()));
            i = i + 1;
        }
        Ok(out)
    }
}

/// A manifest together with the source that it was read from.
#[derive(Debug)]
pub struct Config<S> {
    source: S,
    file: ConfigFile,
}

impl<S> Config<S> {
    /// The source, as contracts speak of it.
    pub closed spec fn spec_source(&self) -> S {
        self.source
    }

    /// The manifest, as contracts speak of it.
    pub closed spec fn spec_file(&self) -> ConfigFile {
        self.file
    }

    /// The manifest `file`, read from `source`.
    pub fn new(source: S, file: ConfigFile) -> (r: Config<S>)
        ensures
            r.spec_source() == source,
            r.spec_file() == file,
    {
        Config { source, file }
    }

    /// The name of the tag that marks the last release.
    pub fn prev_tag(&self) -> (r: &str)
        ensures
            r@ == self.spec_file().options.prev_tag@,
    {
        self.file.prev_tag()
    }

    /// The source that the manifest was read from.
    pub fn source(&self) -> (r: &S)
        ensures
            *r == self.spec_source(),
    {
        &self.source
    }

    /// The manifest.
    pub fn file(&self) -> (r: &ConfigFile)
        ensures
            *r == self.spec_file(),
    {
        &self.file
    }

    /// The project with the number `id`.
    pub fn get_project(&self, id: ProjectId) -> (r: Option<&Project>)
        ensures
            r is Some == (index_of(self.spec_file().projects@, id) < self.spec_file().projects@.len()),
            r matches Some(p) ==> *p == self.spec_file().projects@[index_of(
                self.spec_file().projects@,
                id,
            ) as int] && p.id == id,
    {
        self.file.get_project(id)
    }

    /// The projects with their versions, which `values` holds in the order of the projects.
    pub fn annotate(&self, values: Vec<String>) -> (r: Result<Vec<AnnotatedMark>, Error>)
        ensures
            r is Ok == (values@.len() == self.spec_file().projects@.len()),
            r matches Ok(v) ==> v@.len() == values@.len() && forall|i: int|
                0 <= i < v@.len() ==> (#[trigger] v@[i]).id == self.spec_file().projects@[i].id
                    && v@[i].name == self.spec_file().projects@[i].name && v@[i].mark == values@[i],
            r matches Err(e) ==> e.kind() == ErrorKind::NoSuchProject,
    {
        self.file.annotate(values)
    }

    /// The number of the one project that has `name` in its name.
    pub fn find_unique(&self, name: &str) -> (r: Result<ProjectId, Error>)
        ensures
            named_count(self.spec_file().projects@, name@) == 1 <==> r is Ok,
            r matches Ok(id) ==> id == self.spec_file().projects@[first_where(
                self.spec_file().projects@,
                is_named(name@),
            ) as int].id,
            r matches Err(e) ==> e.kind() == (if named_count(self.spec_file().projects@, name@)
                == 0 {
                ErrorKind::NoSuchProject
            } else {
                ErrorKind::AmbiguousProjectName
            }),
    {
        self.file.find_unique(name)
    }
}

/// An error of the manifest, described by `what` and `which`.
fn invalid(what: &str, which: &str) -> (e: Error)
    ensures
        e.kind() == ErrorKind::ManifestInvalid,
{
    let mut d = String::from_str(what);
    d.append(which);
    Error::new(ErrorKind::ManifestInvalid, d)
}

/// A project does not cover a path that one of its excludes matches.
pub proof fn lemma_exclude_wins(project: &Project, path: Seq<char>, i: int)
    requires
        0 <= i < project.excludes@.len(),
        pattern_hits(project.rooted(project.excludes@[i]@), path),
    ensures
        project.covers(path) != Some(true),
{
    let stops = project.stops(path);
    lemma_first_where(project.excludes@, stops);
    let f = first_where(project.excludes@, stops) as int;
    if f > i {
        assert(!stops(project.excludes@[i]));
    }
}

/// Two projects that differ in the order of their includes only, all of which are patterns,
/// cover the same paths.
pub proof fn lemma_includes_permuted(a: &Project, b: &Project, path: Seq<char>)
    requires
        a.root == b.root,
        a.excludes@ == b.excludes@,
        a.includes@.to_multiset() == b.includes@.to_multiset(),
        forall|i: int|
            0 <= i < a.includes@.len() ==> glob_compiles(a.rooted(#[trigger] a.includes@[i]@)),
    ensures
        a.covers(path) == b.covers(path),
{
    let sa = a.stops(path);
    let sb = b.stops(path);
    let ia = a.includes@;
    let ib = b.includes@;
    ia.to_multiset_ensures();
    ib.to_multiset_ensures();
    lemma_first_where(ia, sa);
    lemma_first_where(ib, sb);
    lemma_first_where(a.excludes@, sa);
    lemma_first_where(b.excludes@, sb);
    let ea = first_where(a.excludes@, sa) as int;
    assert forall|j: int| 0 <= j < ea implies !sb(#[trigger] b.excludes@[j]) by {
        assert(!sa(a.excludes@[j]));
        assert(sb(b.excludes@[j]) == sa(a.excludes@[j]));
    }
    if ea < a.excludes@.len() {
        assert(sb(b.excludes@[ea]) == sa(a.excludes@[ea]));
    }
    lemma_first_where_is(b.excludes@, sb, ea);
    let fa = first_where(ia, sa) as int;
    let fb = first_where(ib, sb) as int;
    assert forall|j: int| 0 <= j < ib.len() implies glob_compiles(b.rooted(#[trigger] ib[j]@)) by {
        assert(ib.contains(ib[j]));
        assert(ib.to_multiset().count(ib[j]) > 0);
        assert(ia.to_multiset().count(ib[j]) > 0);
        assert(ia.contains(ib[j]));
        let i = choose|i: int| 0 <= i < ia.len() && ia[i] == ib[j];
        assert(glob_compiles(a.rooted(ia[i]@)));
    }
    if fa < ia.len() {
        assert(ia.contains(ia[fa]));
        assert(ia.to_multiset().count(ia[fa]) > 0);
        assert(ib.to_multiset().count(ia[fa]) > 0);
        assert(ib.contains(ia[fa]));
        let j = choose|j: int| 0 <= j < ib.len() && ib[j] == ia[fa];
        assert(sb(ib[j]) == sa(ia[fa]));
        if fb > j {
            assert(!sb(ib[j]));
        }
    }
    if fb < ib.len() {
        assert(ib.contains(ib[fb]));
        assert(ib.to_multiset().count(ib[fb]) > 0);
        assert(ia.to_multiset().count(ib[fb]) > 0);
        assert(ia.contains(ib[fb]));
        let i = choose|i: int| 0 <= i < ia.len() && ia[i] == ib[fb];
        assert(sa(ia[i]) == sb(ib[fb]));
        if fa > i {
            assert(!sa(ia[i]));
        }
    }
}

} // verus!

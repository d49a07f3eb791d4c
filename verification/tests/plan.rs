use std::collections::HashMap;
use versio::changes::{
    greatest, keyed_files, pr_keyed_files, ChangeLog, CommitData, FullPr, SizedPr, SizedPrCommit,
    Timestamp,
};
use versio::config::{ConfigFile, FileLocation, Location, Options, Project};
use versio::error::ErrorKind;
use versio::finder::{find_last_commits, LastCommitFinder};
use versio::html::construct_change_log_html;
use versio::picker::{FilePicker, Picker};
use versio::plan::{configure_plan, Plan, PlanConsider, PrGroup};
use versio::size::Size;

fn s(v: &str) -> String {
    v.to_string()
}

fn lasts(pairs: &[(u32, &str)]) -> HashMap<u32, String> {
    pairs.iter().map(|p| (p.0, p.1.to_string())).collect()
}

fn project(id: u32, name: &str, includes: Vec<&str>, depends: Vec<u32>) -> Project {
    Project {
        name: s(name),
        id,
        root: None,
        includes: includes.into_iter().map(s).collect(),
        excludes: Vec::new(),
        depends,
        change_log: None,
        located: Location::File(FileLocation { file: s("VERSION"), picker: Picker::File(FilePicker {}) }),
        tag_prefix: None,
    }
}

fn sizes() -> Vec<(String, Size)> {
    vec![(s("feat"), Size::Minor), (s("fix"), Size::Patch), (s("chore"), Size::Empty), (s("bad"), Size::Fail)]
}

fn manifest(projects: Vec<Project>) -> ConfigFile {
    ConfigFile::new(Options::default(), projects, sizes()).unwrap()
}

fn app() -> Vec<Project> {
    vec![project(1, "app", vec!["**/*"], vec![])]
}

fn two() -> Vec<Project> {
    vec![project(1, "core", vec!["core/**/*"], vec![]), project(2, "tool", vec!["tool/**/*"], vec![1])]
}

fn commit(id: &str, kind: &str, files: Vec<&str>) -> CommitData {
    CommitData::new(s(id), s(kind), format!("{}: {}", kind, id), files.into_iter().map(s).collect())
}

fn pr(number: u32, closed: i64, commits: Vec<CommitData>) -> FullPr {
    FullPr {
        number,
        closed_at: Timestamp::new(closed, 0),
        base_oid: s("base"),
        head_oid: Some(s("head")),
        excludes: Vec::new(),
        commits,
        best_guess: false,
    }
}

fn group(pr: FullPr, projects: fn() -> Vec<Project>) -> PrGroup {
    let manifests = pr.commits.iter().map(|_| manifest(projects())).collect();
    PrGroup { pr, manifests }
}

fn entry(plan: &Plan, id: u32) -> &(Size, Option<String>, ChangeLog) {
    &plan.incrs().iter().find(|e| e.0 == id).unwrap().1
}

#[test]
fn one_feat_pr_raises_the_minor_number() {
    let current = manifest(app());
    let groups = vec![group(pr(5, 1704067200, vec![commit("c1", "feat", vec!["src/a"])]), app)];
    let plan = configure_plan(&current, manifest(app()), groups, &lasts(&[(1, "c1")])).unwrap();

    assert_eq!(plan.incrs().len(), 1);
    let (size, last, log) = entry(&plan, 1);
    assert_eq!(*size, Size::Minor);
    assert_eq!(last, &Some(s("c1")));
    assert_eq!(log.entries().len(), 1);
    assert_eq!(log.entries()[0].1, Size::Minor);
    assert_eq!(log.entries()[0].0.number(), 5);
    assert_eq!(log.entries()[0].0.closed_at(), &Timestamp::new(1704067200, 0));
    let c = &log.entries()[0].0.commits()[0];
    assert_eq!(c.oid(), "c1");
    assert_eq!(c.message(), "feat: c1");
    assert_eq!(c.size(), Size::Minor);
    assert!(c.applies() && !c.duplicate() && c.included());
    assert!(plan.ineffective().is_empty());
    assert_eq!(size.apply("1.2.3").unwrap(), "1.3.0");
}

#[test]
fn a_breaking_fix_raises_the_major_number() {
    let current = manifest(app());
    let groups = vec![group(pr(5, 10, vec![commit("c1", "fix!", vec!["src/a"])]), app)];
    let plan = configure_plan(&current, manifest(app()), groups, &HashMap::new()).unwrap();
    let (size, last, _) = entry(&plan, 1);
    assert_eq!(*size, Size::Major);
    assert_eq!(last, &None);
    assert_eq!(size.apply("1.2.3").unwrap(), "2.0.0");
}

#[test]
fn a_size_is_carried_to_the_dependent() {
    let current = manifest(two());
    let groups = vec![group(pr(1, 10, vec![commit("c1", "fix", vec!["core/lib.rs"])]), two)];
    let plan = configure_plan(&current, manifest(two()), groups, &HashMap::new()).unwrap();
    assert_eq!(entry(&plan, 1).0, Size::Patch);
    assert_eq!(entry(&plan, 2).0, Size::Patch);
    assert_eq!(entry(&plan, 1).2.entries().len(), 1);
    assert!(entry(&plan, 2).2.entries().is_empty());
}

#[test]
fn sizes_run_along_a_chain_and_never_fall() {
    let projects = || {
        vec![
            project(4, "d", vec!["d/*"], vec![3]),
            project(3, "c", vec!["c/*"], vec![2, 9]),
            project(2, "b", vec!["b/*"], vec![1]),
            project(1, "a", vec!["a/*"], vec![]),
            project(5, "e", vec!["e/*"], vec![]),
        ]
    };
    let current = manifest(projects());
    let groups = vec![PrGroup {
        pr: pr(1, 10, vec![commit("c1", "fix", vec!["a/x"]), commit("c2", "feat", vec!["c/x"]), commit("c3", "chore", vec!["e/x"])]),
        manifests: vec![manifest(projects()), manifest(projects()), manifest(projects())],
    }];
    let plan = configure_plan(&current, manifest(projects()), groups, &HashMap::new()).unwrap();
    let ids: Vec<u32> = plan.incrs().iter().map(|e| e.0).collect();
    assert_eq!(ids, vec![4, 3, 2, 1, 5]);
    assert_eq!(entry(&plan, 1).0, Size::Patch);
    assert_eq!(entry(&plan, 2).0, Size::Patch);
    assert_eq!(entry(&plan, 3).0, Size::Minor);
    assert_eq!(entry(&plan, 4).0, Size::Minor);
    assert_eq!(entry(&plan, 5).0, Size::Empty);
}

#[test]
fn a_commit_counts_for_the_pull_request_that_was_closed_first() {
    let current = manifest(app());
    let groups = vec![
        group(pr(9, 200, vec![commit("o", "feat", vec!["a"]), commit("p", "fix", vec!["b"])]), app),
        group(pr(7, 100, vec![commit("o", "feat", vec!["a"])]), app),
    ];
    let plan = configure_plan(&current, manifest(app()), groups, &HashMap::new()).unwrap();
    let (size, _, log) = entry(&plan, 1);
    assert_eq!(*size, Size::Minor);
    let entries = log.entries();
    assert_eq!(entries.len(), 2);
    assert_eq!(entries[0].0.number(), 7);
    assert_eq!(entries[0].1, Size::Minor);
    assert!(entries[0].0.commits()[0].included());
    assert_eq!(entries[1].0.number(), 9);
    assert!(entries[1].0.commits()[0].duplicate());
    assert!(!entries[1].0.commits()[0].included());
    assert!(entries[1].0.commits()[1].included());
    assert_eq!(entries[1].1, Size::Patch);
}

#[test]
fn a_pull_request_of_duplicates_only_is_left_without_size() {
    let mut log = ChangeLog::empty();
    let mut first = SizedPr::empty(2, Timestamp::new(5, 0));
    let mut a = SizedPrCommit::new(s("x"), s("m"), Size::Major);
    a.set_applies();
    first.commits.push(a);
    let mut second = SizedPr::empty(1, Timestamp::new(5, 0));
    let mut b = SizedPrCommit::new(s("x"), s("m"), Size::Major);
    b.set_applies();
    let mut c = SizedPrCommit::new(s("x"), s("m"), Size::Major);
    c.set_applies();
    second.commits.push(b);
    second.commits.push(c);
    let mut third = SizedPr::empty(3, Timestamp::new(4, 999_999_999));
    third.commits.push(SizedPrCommit::new(s("y"), s("m"), Size::Fail));
    log.add_entry(first, Size::Major);
    log.add_entry(second, Size::Major);
    log.add_entry(third, Size::Fail);
    log.sort_and_dedup();

    let entries = log.entries();
    let numbers: Vec<u32> = entries.iter().map(|e| e.0.number()).collect();
    assert_eq!(numbers, vec![3, 2, 1]);
    assert_eq!(entries[0].1, Size::Empty);
    assert_eq!(entries[1].1, Size::Major);
    assert_eq!(entries[2].1, Size::Empty);
    assert!(entries[2].0.commits().iter().all(|c| c.duplicate()));
    assert!(!entries[1].0.commits()[0].duplicate());
}

#[test]
fn an_oid_counts_in_one_pull_request_at_most() {
    let mut log = ChangeLog::empty();
    for (number, closed, oids) in [(1u32, 30i64, vec!["a", "b"]), (2, 10, vec!["b", "c", "b"]), (3, 20, vec!["c", "a", "d"])] {
        let mut pr = SizedPr::empty(number, Timestamp::new(closed, 0));
        for oid in oids {
            let mut c = SizedPrCommit::new(s(oid), s("m"), Size::Patch);
            c.set_applies();
            pr.commits.push(c);
        }
        log.add_entry(pr, Size::Patch);
    }
    log.sort_and_dedup();
    let mut kept: Vec<(u32, String)> = Vec::new();
    for (pr, _) in log.entries() {
        for c in pr.commits() {
            if c.included() {
                kept.push((pr.number(), s(c.oid())));
            }
        }
    }
    assert_eq!(kept, vec![(2, s("b")), (2, s("c")), (3, s("a")), (3, s("d"))]);
}

#[test]
fn a_pull_request_outside_every_project_is_ineffective() {
    let current = manifest(two());
    let groups = vec![group(pr(3, 10, vec![commit("c1", "feat", vec!["README.md"])]), two)];
    let plan = configure_plan(&current, manifest(two()), groups, &HashMap::new()).unwrap();
    assert_eq!(plan.ineffective().len(), 1);
    assert_eq!(plan.ineffective()[0].number(), 3);
    assert!(plan.ineffective()[0].commits().is_empty());
    assert_eq!(entry(&plan, 1).0, Size::Empty);
    assert_eq!(entry(&plan, 2).0, Size::Empty);
    assert!(entry(&plan, 1).2.entries().is_empty());
}

#[test]
fn coverage_is_read_from_the_manifest_of_the_commit() {
    let current = manifest(vec![project(1, "app", vec!["new/*"], vec![])]);
    let then = || vec![project(1, "app", vec!["old/*"], vec![]), project(8, "gone", vec!["**/*"], vec![])];
    let groups = vec![PrGroup { pr: pr(1, 10, vec![commit("c1", "fix", vec!["old/a"])]), manifests: vec![manifest(then())] }];
    let plan = configure_plan(&current, manifest(then()), groups, &HashMap::new()).unwrap();
    assert_eq!(plan.incrs().len(), 1);
    assert_eq!(entry(&plan, 1).0, Size::Patch);

    let groups = vec![PrGroup { pr: pr(1, 10, vec![commit("c1", "fix", vec!["new/a"])]), manifests: vec![manifest(then())] }];
    let plan = configure_plan(&current, manifest(then()), groups, &HashMap::new()).unwrap();
    assert_eq!(entry(&plan, 1).0, Size::Empty);
    assert_eq!(plan.ineffective().len(), 1);
}

#[test]
fn planning_ends_with_the_first_error() {
    let current = manifest(app());
    let unknown = vec![group(pr(1, 10, vec![commit("c1", "docs", vec!["a"])]), app)];
    assert_eq!(configure_plan(&current, manifest(app()), unknown, &HashMap::new()).unwrap_err().kind(), ErrorKind::UnknownCommitKind);

    let short = vec![PrGroup { pr: pr(1, 10, vec![commit("c1", "fix", vec!["a"])]), manifests: Vec::new() }];
    assert_eq!(configure_plan(&current, manifest(app()), short, &HashMap::new()).unwrap_err().kind(), ErrorKind::RepoError);

    let broken = || vec![project(1, "app", vec!["a/**b"], vec![])];
    let bad = vec![PrGroup { pr: pr(1, 10, vec![commit("c1", "fix", vec!["a"])]), manifests: vec![manifest(broken())] }];
    assert_eq!(configure_plan(&current, manifest(app()), bad, &HashMap::new()).unwrap_err().kind(), ErrorKind::ManifestInvalid);
}

#[test]
fn a_plan_without_projects_is_empty() {
    let current = ConfigFile::empty();
    let plan = configure_plan(&current, ConfigFile::empty(), vec![PrGroup { pr: pr(1, 10, vec![commit("c1", "whatever", vec!["a"])]), manifests: vec![ConfigFile::empty()] }], &HashMap::new()).unwrap();
    assert!(plan.incrs().is_empty());
    assert_eq!(plan.ineffective().len(), 1);
}

#[test]
fn a_fail_size_reaches_the_plan() {
    let current = manifest(two());
    let groups = vec![group(pr(1, 10, vec![commit("c1", "bad", vec!["core/x"])]), two)];
    let plan = configure_plan(&current, manifest(two()), groups, &HashMap::new()).unwrap();
    assert_eq!(entry(&plan, 1).0, Size::Fail);
    assert_eq!(entry(&plan, 2).0, Size::Fail);
    assert_eq!(entry(&plan, 1).0.apply("1.2.3").unwrap_err().kind(), ErrorKind::SizeFail);
}

#[test]
fn the_planner_goes_step_by_step() {
    let current = manifest(two());
    let mut planner = PlanConsider::new(manifest(two()), &current);
    assert_eq!(planner.consider_file("core/a").unwrap_err().kind(), ErrorKind::RepoError);
    assert_eq!(planner.finish_pr().unwrap_err().kind(), ErrorKind::RepoError);

    planner.consider_pr(&pr(4, 50, Vec::new())).unwrap();
    assert_eq!(planner.consider_commit(&commit("c1", "docs", vec![]), manifest(two())).unwrap_err().kind(), ErrorKind::UnknownCommitKind);
    planner.consider_commit(&commit("c2", "feat", vec![]), manifest(two())).unwrap();
    planner.consider_file("tool/main.rs").unwrap();
    planner.finish_file().unwrap();
    planner.consider_file("elsewhere").unwrap();
    planner.finish_commit().unwrap();
    planner.finish_pr().unwrap();
    planner.consider_last_commits(&lasts(&[(2, "c2"), (7, "c7")])).unwrap();
    let plan = planner.finish_plan().unwrap();

    let ids: Vec<u32> = plan.incrs().iter().map(|e| e.0).collect();
    assert_eq!(ids, vec![1, 2]);
    assert_eq!(entry(&plan, 1).0, Size::Empty);
    assert_eq!(entry(&plan, 1).1, None);
    assert_eq!(entry(&plan, 2).0, Size::Minor);
    assert_eq!(entry(&plan, 2).1, Some(s("c2")));
    assert_eq!(entry(&plan, 2).2.entries()[0].0.commits().len(), 1);
    assert!(plan.ineffective().is_empty());
}

#[test]
fn a_planner_without_steps_plans_nothing() {
    let current = manifest(two());
    let plan = PlanConsider::new(manifest(two()), &current).finish_plan().unwrap();
    assert!(plan.incrs().is_empty());
    let mut planner = PlanConsider::new(manifest(two()), &current);
    planner.consider_deps().unwrap();
    planner.sort_and_dedup().unwrap();
    assert_eq!(planner.finish_plan().unwrap().incrs().len(), 2);
}

#[test]
fn greatest_takes_applying_or_counting_commits() {
    let mut a = SizedPrCommit::new(s("a"), s("m"), Size::Major);
    a.set_applies();
    a.set_duplicate();
    let mut b = SizedPrCommit::new(s("b"), s("m"), Size::Patch);
    b.set_applies();
    let c = SizedPrCommit::new(s("c"), s("m"), Size::Fail);
    let commits = vec![a, b, c];
    assert_eq!(greatest(&commits, false), Some(Size::Major));
    assert_eq!(greatest(&commits, true), Some(Size::Patch));
    assert_eq!(greatest(&Vec::new(), false), None);
}

#[test]
fn timestamps_go_by_seconds_then_nanoseconds() {
    assert!(Timestamp::new(1, 5).before(Timestamp::new(2, 0)));
    assert!(Timestamp::new(1, 5).before(Timestamp::new(1, 6)));
    assert!(!Timestamp::new(1, 5).before(Timestamp::new(1, 5)));
    assert!(Timestamp::new(-3, 0).before(Timestamp::new(-2, 0)));
    assert!(!Timestamp::new(2, 0).before(Timestamp::new(1, 999)));
}

#[test]
fn keyed_files_leave_out_what_the_pull_request_leaves_out() {
    let mut one = pr(1, 10, Vec::new());
    one.excludes = vec![s("c2")];
    assert!(one.has_exclude("c2"));
    assert!(!one.has_exclude("c1"));
    assert_eq!(one.base_oid(), "base");
    assert_eq!(one.head_oid(), &Some(s("head")));
    assert!(!one.best_guess());
    let commits = vec![commit("c1", "feat", vec!["a", "b"]), commit("c2", "fix", vec!["c"]), commit("c3", "fix", vec![]), commit("c4", "docs", vec!["d"])];
    let keyed = pr_keyed_files(&one, &commits);
    assert_eq!(keyed, vec![(s("feat"), s("a")), (s("feat"), s("b")), (s("docs"), s("d"))]);

    let mut headless = pr(2, 10, Vec::new());
    headless.head_oid = None;
    assert!(pr_keyed_files(&headless, &commits).is_empty());

    let mut guessed = pr(3, 10, Vec::new());
    guessed.best_guess = true;
    let all = keyed_files(&vec![
        (guessed, vec![commit("g", "feat", vec!["g"])]),
        (pr(4, 10, Vec::new()), vec![commit("h", "fix", vec!["h"])]),
        (pr(5, 10, Vec::new()), vec![commit("i", "fix", vec!["i", "j"])]),
    ]);
    assert_eq!(all, vec![(s("fix"), s("h")), (s("fix"), s("i")), (s("fix"), s("j"))]);
}

#[test]
fn the_first_commit_of_the_walk_that_touches_a_project_is_its_last() {
    let current = manifest(two());
    let walk = vec![
        (commit("c3", "fix", vec!["README", "tool/a"]), manifest(two())),
        (commit("c2", "fix", vec!["core/a", "tool/b"]), manifest(two())),
        (commit("c1", "fix", vec!["core/b"]), manifest(two())),
    ];
    let found = find_last_commits(&current, manifest(two()), walk).unwrap();
    assert_eq!(found, lasts(&[(2, "c3"), (1, "c2")]));
    assert!(find_last_commits(&current, manifest(two()), Vec::new()).unwrap().is_empty());
}

#[test]
fn the_finder_passes_over_projects_that_are_gone() {
    let current = manifest(app());
    let then = || vec![project(1, "app", vec!["a/*"], vec![]), project(6, "gone", vec!["a/**b"], vec![])];
    let mut finder = LastCommitFinder::new(manifest(then()), &current);
    assert_eq!(finder.consider_line_file("a/x").unwrap_err().kind(), ErrorKind::RepoError);
    finder.consider_line_commit(&commit("c9", "fix", vec![]), manifest(then())).unwrap();
    finder.consider_line_file("a/x").unwrap();
    finder.finish_line_file().unwrap();
    finder.finish_line_commit().unwrap();
    finder.consider_line_commit(&commit("c8", "fix", vec![]), manifest(then())).unwrap();
    finder.consider_line_file("a/y").unwrap();
    assert_eq!(finder.finish_finder().unwrap(), lasts(&[(1, "c9")]));

    let broken = || vec![project(1, "app", vec!["a/**b"], vec![])];
    let walk = vec![(commit("c1", "fix", vec!["x"]), manifest(broken()))];
    assert_eq!(find_last_commits(&current, manifest(app()), walk).unwrap_err().kind(), ErrorKind::ManifestInvalid);
}

#[test]
fn the_change_log_page_lists_what_counts() {
    let mut log = ChangeLog::empty();
    let mut one = SizedPr::empty(12, Timestamp::new(1, 0));
    let mut a = SizedPrCommit::new(s("0123456789abcdef"), s("add <x>"), Size::Minor);
    a.set_applies();
    let b = SizedPrCommit::new(s("fedcba9876543210"), s("elsewhere"), Size::Major);
    let mut c = SizedPrCommit::new(s("abc"), s("short"), Size::Patch);
    c.set_applies();
    one.commits = vec![a, b, c];
    let mut other = SizedPr::empty(0, Timestamp::new(2, 0));
    let mut d = SizedPrCommit::new(s("7777777"), s("direct"), Size::Empty);
    d.set_applies();
    other.commits = vec![d];
    let mut unseen = SizedPr::empty(13, Timestamp::new(3, 0));
    unseen.commits = vec![SizedPrCommit::new(s("8888888888"), s("no"), Size::Fail)];
    log.add_entry(one, Size::Minor);
    log.add_entry(other, Size::Empty);
    log.add_entry(unseen, Size::Empty);

    let page = construct_change_log_html(&log).unwrap();
    let expected = vec![
        "<html>",
        "<body>",
        "<ul>",
        "  <li>PR 12 : minor </li>",
        "  <ul>",
        "    <li>commit 0123456 (minor) : add <x></li>",
        "    <li>commit abc (patch) : short</li>",
        "  </ul>",
        "  <li>Other commits : none </li>",
        "  <ul>",
        "    <li>commit 7777777 (none) : direct</li>",
        "  </ul>",
        "</ul>",
        "</body>",
        "</html>",
        "",
    ]
    .join("\n");
    assert_eq!(page, expected);
    assert_eq!(construct_change_log_html(&ChangeLog::empty()).unwrap(), "<html>\n<body>\n<ul>\n</ul>\n</body>\n</html>\n");
}

use std::collections::HashMap;
use versio::analyze::{analyze, AnnotatedMark, Change};
use versio::commands::{
    check_branch, decide, early_info, get, info, release, resume, sanity_check, stage, Decision,
    EarlyInfo, ShowFormat,
};
use versio::config::{Config, ConfigFile, FileLocation, Location, Options, Project, TagLocation, TagSpec, MajorTagSpec};
use versio::error::ErrorKind;
use versio::mark::{Mark, NamedData};
use versio::mono::Mono;
use versio::picker::{FilePicker, Part, Picker, Scanner};
use versio::plan::{configure_plan, PrGroup};
use versio::changes::{CommitData, FullPr, Timestamp};
use versio::size::Size;
use versio::state::{split_steps, PickPath, StateWrite, Step, StepRun};
use versio::tags::{NewTags, OldTags};

struct Never {}

impl Scanner for Never {
    fn build(_parts: Vec<Part>) -> Never {
        Never {}
    }

    fn find(&self, _data: &str) -> Result<Mark, versio::error::Error> {
        Err(versio::error::Error::new(ErrorKind::PickerNotFound, "never".to_string()))
    }
}

fn s(v: &str) -> String {
    v.to_string()
}

fn lasts(pairs: &[(u32, &str)]) -> HashMap<u32, String> {
    pairs.iter().map(|p| (p.0, p.1.to_string())).collect()
}

fn versions(list: Vec<(u32, (Option<&str>, &str))>) -> HashMap<u32, (Option<String>, String)> {
    list.into_iter().map(|v| (v.0, ((v.1).0.map(s), s((v.1).1)))).collect()
}

fn project(id: u32, name: &str, prefix: Option<&str>) -> Project {
    Project {
        name: s(name),
        id,
        root: None,
        includes: vec![s("**/*")],
        excludes: Vec::new(),
        depends: Vec::new(),
        change_log: None,
        located: Location::File(FileLocation { file: format!("{}/VERSION", name), picker: Picker::File(FilePicker {}) }),
        tag_prefix: prefix.map(s),
    }
}

fn manifest(projects: Vec<Project>) -> ConfigFile {
    ConfigFile::new(Options::default(), projects, vec![(s("feat"), Size::Minor), (s("bad"), Size::Fail)]).unwrap()
}

fn shape(step: &Step) -> String {
    match step {
        Step::Write { path, val } => format!("write {} {}", path, val),
        Step::Update { pick, val } => format!("update {} {}", pick.file, val),
        Step::Commit => s("commit"),
        Step::TagHead { tag } => format!("head {}", tag),
        Step::Tag { tag, oid } => format!("tag {} {}", tag, oid),
    }
}

fn shapes(steps: &[Step]) -> Vec<String> {
    steps.iter().map(shape).collect()
}

#[test]
fn the_steps_of_a_release_come_in_order() {
    let mut state = StateWrite::new();
    state.tag_head_or_last(s("app-v1.3.0"), &1).unwrap();
    state.tag_commit(s("old"), s("c1")).unwrap();
    state.write_file(s("CHANGES.html"), s("<html>"), &1).unwrap();
    state.tag_head(s("release-7")).unwrap();
    state.tag_head_or_last(s("lib-v2.0.0"), &2).unwrap();
    state.update_mark(PickPath::new(s("VERSION"), Picker::File(FilePicker {})), s("1.3.0"), &1).unwrap();
    state.tag_head_or_last(s("new-v0.1.0"), &3).unwrap();
    state.tag_commit(s("old"), s("c2")).unwrap();

    let steps = state.commit("versio-prev", &lasts(&[(2, "c5"), (1, "c6")]));
    assert_eq!(
        shapes(&steps),
        vec![
            "write CHANGES.html <html>",
            "update VERSION 1.3.0",
            "commit",
            "head release-7",
            "head app-v1.3.0",
            "tag lib-v2.0.0 c5",
            "head new-v0.1.0",
            "tag old c2",
            "head versio-prev",
        ]
    );
    assert_eq!(shapes(&state.commit("versio-prev", &HashMap::new())), vec!["head versio-prev"]);
}

#[test]
fn no_tag_moves_before_the_commit_and_no_write_comes_after_it() {
    let mut state = StateWrite::default();
    for i in 0..4u32 {
        state.tag_head_or_last(format!("t{}", i), &i).unwrap();
        state.write_file(format!("f{}", i), s("x"), &(i % 2)).unwrap();
        state.tag_head(format!("h{}", i)).unwrap();
        state.tag_commit(format!("k{}", i), s("c")).unwrap();
    }
    let steps = state.commit("prev", &lasts(&[(3, "c3")]));
    let commit_at = steps.iter().position(|x| matches!(x, Step::Commit)).unwrap();
    assert_eq!(commit_at, 4);
    assert_eq!(steps.iter().filter(|x| matches!(x, Step::Commit)).count(), 1);
    for (i, step) in steps.iter().enumerate() {
        let writes = matches!(step, Step::Write { .. } | Step::Update { .. });
        let tags = matches!(step, Step::TagHead { .. } | Step::Tag { .. });
        assert_eq!(writes, i < commit_at);
        assert_eq!(tags, i > commit_at);
    }
    assert_eq!(shape(steps.last().unwrap()), "head prev");
    assert_eq!(shape(&steps[5 + 4 + 2]), "head t2");
    assert_eq!(shape(&steps[5 + 4 + 3]), "tag t3 c3");
}

#[test]
fn without_writes_there_is_no_commit() {
    let mut state = StateWrite::new();
    state.tag_head_or_last(s("app-v2.0.0"), &1).unwrap();
    let steps = state.commit("versio-prev", &lasts(&[(1, "c4")]));
    assert_eq!(shapes(&steps), vec!["tag app-v2.0.0 c4", "head versio-prev"]);
}

#[test]
fn a_version_beyond_the_target_is_forwarded() {
    match decide(Size::Minor, Some("1.2.3"), "2.0.0").unwrap() {
        Decision::Forward { target } => assert_eq!(target, "1.3.0"),
        other => panic!("{:?}", other),
    }
    let current = manifest(vec![project(1, "app", Some(""))]);
    let mono = Mono::new(manifest(vec![project(1, "app", Some(""))]), OldTags::empty());
    let lasts = lasts(&[(1, "c7")]);
    let mut tags = NewTags::new();
    mono.forward_by_id(1, "2.0.0", &lasts, &mut tags, false).unwrap();
    assert!(!tags.should_commit());
    assert_eq!(tags.changed_tags(), &vec![(s("v2.0.0"), s("c7"))]);

    let mut state = StateWrite::new();
    state.tag_head_or_last(s("v2.0.0"), &1).unwrap();
    assert_eq!(shapes(&state.commit(current.prev_tag(), &lasts)), vec!["tag v2.0.0 c7", "head versio-prev"]);

    let mut written = StateWrite::new();
    written.write_file(s("app/CHANGES.html"), s("log"), &1).unwrap();
    written.tag_head_or_last(s("v2.0.0"), &1).unwrap();
    assert_eq!(
        shapes(&written.commit(current.prev_tag(), &lasts)),
        vec!["write app/CHANGES.html log", "commit", "head v2.0.0", "head versio-prev"]
    );
}

#[test]
fn decisions_follow_size_and_versions() {
    assert!(matches!(decide(Size::Empty, Some("1.2.3"), "1.2.3").unwrap(), Decision::NoChange));
    assert!(matches!(decide(Size::Empty, None, "not a version").unwrap(), Decision::NoChange));
    assert!(matches!(decide(Size::Major, None, "0.1.0").unwrap(), Decision::Fresh));
    match decide(Size::Minor, Some("1.2.3"), "1.2.3").unwrap() {
        Decision::Changed { target } => assert_eq!(target, "1.3.0"),
        other => panic!("{:?}", other),
    }
    match decide(Size::Patch, Some("1.2.3"), "1.2.4").unwrap() {
        Decision::Forward { target } => assert_eq!(target, "1.2.4"),
        other => panic!("{:?}", other),
    }
    match decide(Size::Major, Some("1.2.3"), "1.9.9").unwrap() {
        Decision::Changed { target } => assert_eq!(target, "2.0.0"),
        other => panic!("{:?}", other),
    }
    assert_eq!(decide(Size::Fail, Some("1.2.3"), "1.2.3").unwrap_err().kind(), ErrorKind::SizeFail);
    assert_eq!(decide(Size::Fail, None, "1.2.3").unwrap_err().kind(), ErrorKind::SizeFail);
    assert_eq!(decide(Size::Patch, Some("1.2"), "1.2.3").unwrap_err().kind(), ErrorKind::VersionParse);
    assert_eq!(decide(Size::Patch, Some("1.2.3"), "one").unwrap_err().kind(), ErrorKind::VersionParse);
}

fn plan_for(kind: &str) -> versio::plan::Plan {
    let projects = || vec![project(1, "app", None), project(2, "lib", None)];
    let current = manifest(projects());
    let mut lib = project(2, "lib", None);
    lib.includes = vec![s("lib/*")];
    let mut app = project(1, "app", None);
    app.includes = vec![s("app/*")];
    let pr = FullPr {
        number: 1,
        closed_at: Timestamp::new(0, 0),
        base_oid: s("b"),
        head_oid: None,
        excludes: Vec::new(),
        commits: vec![CommitData::new(s("c1"), s(kind), s("x"), vec![s("app/a")])],
        best_guess: false,
    };
    let groups = vec![PrGroup { pr, manifests: vec![manifest(vec![app, lib])] }];
    configure_plan(&current, manifest(projects()), groups, &HashMap::new()).unwrap()
}

#[test]
fn a_release_decides_for_every_project_of_the_plan() {
    let plan = plan_for("feat");
    let known = versions(vec![(2, (None, "0.1.0")), (1, (Some("1.2.3"), "1.2.3"))]);
    let decisions = release(&plan, &known).unwrap();
    assert_eq!(decisions.len(), 2);
    assert_eq!(decisions[0].0, 1);
    assert!(matches!(&decisions[0].1, Decision::Changed { target } if target == "1.3.0"));
    assert_eq!(decisions[1].0, 2);
    assert!(matches!(decisions[1].1, Decision::NoChange));
}

#[test]
fn a_release_is_refused_as_a_whole() {
    let known = versions(vec![(1, (Some("1.2.3"), "1.2.3")), (2, (None, "0.1.0"))]);
    assert_eq!(release(&plan_for("bad"), &known).unwrap_err().kind(), ErrorKind::SizeFail);
    let partly = versions(vec![(1, (Some("1.2.3"), "1.2.3"))]);
    assert_eq!(release(&plan_for("feat"), &partly).unwrap_err().kind(), ErrorKind::NoSuchProject);
    let wrong = versions(vec![(1, (Some("1.2.3"), "x")), (2, (None, "0.1.0"))]);
    assert_eq!(release(&plan_for("feat"), &wrong).unwrap_err().kind(), ErrorKind::VersionParse);
}

#[test]
fn commands_choose_their_project() {
    let config = manifest(vec![project(1, "alpha", None), project(20, "beta", None)]);
    assert_eq!(get(&config, Some("20"), None).unwrap(), 20);
    assert_eq!(get(&config, Some("+1"), Some("beta")).unwrap(), 1);
    assert_eq!(get(&config, Some("2"), None).unwrap_err().kind(), ErrorKind::NoSuchProject);
    assert_eq!(get(&config, Some("one"), None).unwrap_err().kind(), ErrorKind::NoSuchProject);
    assert_eq!(get(&config, None, Some("bet")).unwrap(), 20);
    assert_eq!(get(&config, None, Some("a")).unwrap_err().kind(), ErrorKind::AmbiguousProjectName);
    assert_eq!(get(&config, None, Some("z")).unwrap_err().kind(), ErrorKind::NoSuchProject);
    assert_eq!(get(&config, None, None).unwrap_err().kind(), ErrorKind::NoSuchProject);
    assert_eq!(versio::commands::set(&config, None, Some("alp")).unwrap(), 1);
    let solo = manifest(vec![project(9, "only", None)]);
    assert_eq!(get(&solo, None, None).unwrap(), 9);
    assert_eq!(versio::commands::set(&solo, None, None).unwrap(), 9);
    assert_eq!(get(&ConfigFile::empty(), None, None).unwrap_err().kind(), ErrorKind::NoSuchProject);
}

#[test]
fn info_lists_its_projects() {
    let config = manifest(vec![project(3, "alpha", None), project(1, "beta", None), project(2, "gamma", None)]);
    assert_eq!(info(&config, Some(&vec![2]), None, true).unwrap(), vec![3, 1, 2]);
    assert_eq!(info(&config, Some(&vec![2, 3, 2]), Some(&vec![s("beta")]), false).unwrap(), vec![2, 3, 2]);
    assert_eq!(info(&config, Some(&vec![2, 4]), None, false).unwrap_err().kind(), ErrorKind::NoSuchProject);
    assert_eq!(info(&config, None, Some(&vec![s("gam"), s("bet")]), false).unwrap(), vec![2, 1]);
    assert_eq!(info(&config, None, Some(&vec![s("a")]), false).unwrap_err().kind(), ErrorKind::AmbiguousProjectName);
    assert_eq!(info(&config, None, Some(&vec![s("x")]), false).unwrap_err().kind(), ErrorKind::NoSuchProject);
    assert!(info(&config, None, None, false).unwrap().is_empty());
}

#[test]
fn a_paused_release_blocks_other_commands() {
    assert_eq!(sanity_check(true).unwrap_err().kind(), ErrorKind::PauseFileExists);
    assert!(sanity_check(false).is_ok());
    assert_eq!(resume(false).unwrap_err().kind(), ErrorKind::PauseFileMissing);
    assert!(resume(true).is_ok());
    assert!(check_branch("main", "main").is_ok());
    assert_eq!(check_branch("main", "dev").unwrap_err().kind(), ErrorKind::BranchMismatch);
}

#[test]
fn early_info_counts_the_projects() {
    let config = manifest(vec![project(1, "a", None), project(2, "b", None)]);
    let early = early_info(&config, s("/work"));
    assert_eq!(early.project_count(), 2);
    assert_eq!(early.working_dir(), "/work");
    let made = EarlyInfo::new(7, s("."));
    assert_eq!(made.project_count(), 7);
    assert_eq!(made.working_dir(), ".");
    let format = ShowFormat::new(true, false);
    assert!(format.wide && !format.version_only);
}

#[test]
fn a_config_keeps_its_source() {
    let config = Config::new(s("/repo"), manifest(vec![project(1, "alpha", None)]));
    assert_eq!(config.source(), "/repo");
    assert_eq!(config.prev_tag(), "versio-prev");
    assert_eq!(config.file().projects().len(), 1);
    assert_eq!(config.get_project(1).unwrap().name(), "alpha");
    assert!(config.get_project(2).is_none());
    assert_eq!(config.find_unique("alp").unwrap(), 1);
}

#[test]
fn setting_a_version_rewrites_the_file_and_stages_the_tag() {
    let mono = Mono::new(manifest(vec![project(1, "app", Some("app")), project(2, "lib", None)]), OldTags::empty());
    assert_eq!(mono.current_config().projects().len(), 2);
    assert_eq!(mono.old_tags().latest(&1), None);
    let lasts = lasts(&[(1, "c3")]);
    let data = || Some(NamedData::new(Some(s("app/VERSION")), s("1.2.3\n")));

    let mut tags = NewTags::new();
    let written = mono.set_by_id::<Never, Never, Never, Never>(1, "1.3.0", data(), &lasts, &mut tags, false).unwrap().unwrap();
    assert_eq!(written.data(), "1.3.0\n");
    assert_eq!(written.writeable_path(), &Some(s("app/VERSION")));
    assert!(tags.should_commit());
    assert_eq!(tags.tags_for_new_commit(), &vec![s("app-v1.3.0")]);

    let mut by_name = NewTags::new();
    let written = mono.set_by_name::<Never, Never, Never, Never>("li", "0.2.0", data(), &lasts, &mut by_name, false).unwrap().unwrap();
    assert_eq!(written.value(), "0.2.0");
    assert!(by_name.should_commit());
    assert!(by_name.tags_for_new_commit().is_empty());

    let mut untouched = NewTags::new();
    assert_eq!(mono.set_by_id::<Never, Never, Never, Never>(5, "1.3.0", data(), &lasts, &mut untouched, true).unwrap_err().kind(), ErrorKind::NoSuchProject);
    assert_eq!(mono.set_by_id::<Never, Never, Never, Never>(1, "1.3.0", None, &lasts, &mut untouched, true).unwrap_err().kind(), ErrorKind::IoError);
    assert!(mono.set_by_name::<Never, Never, Never, Never>("zzz", "1.3.0", data(), &lasts, &mut untouched, true).is_err());
    assert_eq!(mono.forward_by_id(5, "1.3.0", &lasts, &mut untouched, true).unwrap_err().kind(), ErrorKind::NoSuchProject);
    assert!(!untouched.should_commit());
}

#[test]
fn a_version_in_the_tags_writes_no_file() {
    let mut tagged = project(1, "app", Some("app"));
    tagged.located = Location::Tag(TagLocation { tags: TagSpec::MajorTag(MajorTagSpec { major: 1 }) });
    let latest = s("app-v1.4.0");
    assert_eq!(tagged.get_mark_value::<Never, Never, Never, Never>(None, Some(&latest)).unwrap(), "1.4.0");
    assert!(tagged.write_value::<Never, Never, Never, Never>(None, "1.5.0").unwrap().is_none());
    let mut tags = NewTags::new();
    let last = s("c2");
    assert!(tagged.set_value::<Never, Never, Never, Never>(None, "1.5.0", Some(&last), &mut tags, false).unwrap().is_none());
    assert_eq!(tags.changed_tags(), &vec![(s("app-v1.5.0"), s("c2"))]);

    let filed = project(2, "lib", None);
    assert_eq!(filed.get_mark_value::<Never, Never, Never, Never>(Some("0.3.1\n"), None).unwrap(), "0.3.1");
    assert_eq!(filed.get_mark_value::<Never, Never, Never, Never>(None, None).unwrap_err().kind(), ErrorKind::IoError);
    match &filed.located {
        Location::File(l) => {
            assert_eq!(l.path(&None), "lib/VERSION");
            assert_eq!(l.path(&Some(s("sub"))), "sub/lib/VERSION");
        }
        Location::Tag(_) => panic!("a file was expected"),
    }
}

fn am(id: u32, name: &str, mark: &str) -> AnnotatedMark {
    AnnotatedMark::new(id, s(name), s(mark))
}

#[test]
fn an_analysis_tells_gone_new_and_changed_projects_apart() {
    let prev = vec![am(1, "app", "1.2.3"), am(2, "lib", "0.1.0"), am(3, "old", "9.9.9"), am(4, "same", "1.0.0")];
    let current = vec![am(5, "new", "0.0.1"), am(2, "library", "0.2.0"), am(4, "same", "1.0.0"), am(1, "app", "1.2.3")];
    let analysis = analyze(&prev, &current);
    assert_eq!(analysis.older(), &vec![am(3, "old", "9.9.9")]);
    assert_eq!(analysis.newer(), &vec![am(5, "new", "0.0.1")]);
    let changes = analysis.changes();
    assert_eq!(changes.len(), 3);
    assert_eq!(changes[0].new_mark().name(), "library");
    assert_eq!(changes[0].old_mark().mark(), "0.1.0");
    assert_eq!(changes[0].name(), &Some((s("lib"), s("library"))));
    assert_eq!(changes[0].value(), &Some((s("0.1.0"), s("0.2.0"))));
    assert_eq!(changes[1].new_mark().id(), 4);
    assert_eq!(changes[1].name(), &None);
    assert_eq!(changes[1].value(), &None);
    assert_eq!(changes[2], Change::calc(&am(1, "app", "1.2.3"), &am(1, "app", "1.2.3")));

    let mono = Mono::new(ConfigFile::empty(), OldTags::empty());
    assert_eq!(mono.diff(&prev, &current), analysis);
    let none = analyze(&Vec::new(), &Vec::new());
    assert!(none.older().is_empty() && none.newer().is_empty() && none.changes().is_empty());
}

#[test]
fn projects_are_annotated_with_their_versions() {
    let config = manifest(vec![project(1, "alpha", None), project(2, "beta", None)]);
    let marks = config.annotate(vec![s("1.0.0"), s("2.0.0")]).unwrap();
    assert_eq!(marks, vec![am(1, "alpha", "1.0.0"), am(2, "beta", "2.0.0")]);
    assert_eq!(config.annotate(vec![s("1.0.0")]).unwrap_err().kind(), ErrorKind::NoSuchProject);
    assert_eq!(config.projects()[1].annotate(s("3.0.0")), am(2, "beta", "3.0.0"));
    let held = Config::new((), manifest(vec![project(7, "gamma", None)]));
    assert_eq!(held.annotate(vec![s("0.1.0")]).unwrap(), vec![am(7, "gamma", "0.1.0")]);
}

#[test]
fn a_feat_release_sets_the_version_and_tags_the_new_head() {
    let projects = || vec![project(1, "app", Some(""))];
    let current = manifest(projects());
    let pr = FullPr {
        number: 4,
        closed_at: Timestamp::new(1704067200, 0),
        base_oid: s("b"),
        head_oid: Some(s("c1")),
        excludes: Vec::new(),
        commits: vec![CommitData::new(s("c1"), s("feat"), s("x"), vec![s("src/a")])],
        best_guess: false,
    };
    let lasts = lasts(&[(1, "c1")]);
    let groups = vec![PrGroup { pr, manifests: vec![manifest(projects())] }];
    let plan = configure_plan(&current, manifest(projects()), groups, &lasts).unwrap();
    let decisions = release(&plan, &versions(vec![(1, (Some("1.2.3"), "1.2.3"))])).unwrap();
    let target = match &decisions[0].1 {
        Decision::Changed { target } => target.clone(),
        other => panic!("{:?}", other),
    };
    assert_eq!(target, "1.3.0");

    let mut state = StateWrite::new();
    state.update_mark(PickPath::new(s("app/VERSION"), Picker::File(FilePicker {})), target.clone(), &1).unwrap();
    state.tag_head_or_last(versio::config::make_tag("", &target), &1).unwrap();
    let steps = state.commit(current.prev_tag(), &lasts);
    assert_eq!(shapes(&steps), vec!["update app/VERSION 1.3.0", "commit", "head v1.3.0", "head versio-prev"]);
}

fn staged(project: &Project, decision: Decision, current: &str) -> Vec<String> {
    let mut state = StateWrite::new();
    stage(&mut state, project, &decision, current, s("/repo/app/VERSION")).unwrap();
    shapes(&state.commit("prev", &lasts(&[(1, "c7")])))
}

#[test]
fn a_decision_stages_its_write_and_its_tag() {
    let app = project(1, "app", Some("app"));
    assert_eq!(staged(&app, Decision::NoChange, "1.2.3"), vec!["head prev"]);
    assert_eq!(
        staged(&app, Decision::Changed { target: s("1.3.0") }, "1.2.3"),
        vec!["update /repo/app/VERSION 1.3.0", "commit", "head app-v1.3.0", "head prev"]
    );
    assert_eq!(staged(&app, Decision::Forward { target: s("1.3.0") }, "2.0.0"), vec!["tag app-v2.0.0 c7", "head prev"]);
    assert_eq!(staged(&app, Decision::Fresh, "0.1.0"), vec!["tag app-v0.1.0 c7", "head prev"]);

    let bare = project(1, "app", None);
    assert_eq!(
        staged(&bare, Decision::Changed { target: s("1.3.0") }, "1.2.3"),
        vec!["update /repo/app/VERSION 1.3.0", "commit", "head prev"]
    );
    assert_eq!(staged(&bare, Decision::Fresh, "0.1.0"), vec!["head prev"]);

    let mut tagged = project(1, "app", Some(""));
    tagged.located = Location::Tag(TagLocation { tags: TagSpec::MajorTag(MajorTagSpec { major: 1 }) });
    assert_eq!(staged(&tagged, Decision::Changed { target: s("1.3.0") }, "1.2.3"), vec!["tag v1.3.0 c7", "head prev"]);
}

#[test]
fn a_staged_update_keeps_the_picker_of_the_project() {
    let mut lined = project(1, "app", None);
    lined.located = Location::File(FileLocation {
        file: s("Cargo.toml"),
        picker: Picker::Line(versio::picker::LinePicker { pattern: s("version = \"(.*)\"") }),
    });
    let mut state = StateWrite::new();
    stage(&mut state, &lined, &Decision::Changed { target: s("0.2.0") }, "0.1.0", s("Cargo.toml")).unwrap();
    let steps = state.commit("prev", &HashMap::new());
    match &steps[0] {
        Step::Update { pick, val } => {
            assert_eq!(val, "0.2.0");
            assert_eq!(pick.picker.picker_type(), "line");
            let marked = pick.write_value::<Never, Never, Never, Never>(s("version = \"0.1.0\"\n"), val).unwrap();
            assert_eq!(marked.data(), "version = \"0.2.0\"\n");
        }
        other => panic!("{:?}", other),
    }
    let parts = Picker::Json(versio::picker::ScanningPicker { parts: vec![Part::Key(s("a")), Part::Index(3)] });
    match parts.copy() {
        Picker::Json(p) => {
            assert_eq!(p.parts.len(), 2);
            assert!(matches!(&p.parts[0], Part::Key(k) if k == "a"));
            assert!(matches!(&p.parts[1], Part::Index(3)));
        }
        other => panic!("{:?}", other),
    }
}

fn script() -> Vec<Step> {
    let mut state = StateWrite::new();
    state.write_file(s("a"), s("1"), &1).unwrap();
    state.write_file(s("b"), s("2"), &1).unwrap();
    state.tag_head(s("t")).unwrap();
    state.commit("prev", &HashMap::new())
}

#[test]
fn a_paused_release_takes_the_writes_and_lets_the_rest_wait() {
    let (now, later) = split_steps(script(), true);
    assert_eq!(shapes(&now), vec!["write a 1", "write b 2"]);
    assert_eq!(shapes(&later), vec!["commit", "head t", "head prev"]);
    let (now, later) = split_steps(script(), false);
    assert_eq!(now.len(), 5);
    assert!(later.is_empty());
    let (now, later) = split_steps(vec![Step::Commit, Step::Write { path: s("a"), val: s("1") }], true);
    assert!(now.is_empty());
    assert_eq!(later.len(), 2);
    let (now, later) = split_steps(Vec::new(), true);
    assert!(now.is_empty() && later.is_empty());
    assert!(Step::Write { path: s("a"), val: s("1") }.is_write());
    assert!(!Step::Commit.is_write());
}

#[test]
fn no_step_is_taken_after_a_failure() {
    let mut run = StepRun::new(script());
    let mut taken = Vec::new();
    while let Some(step) = run.next() {
        let ok = shape(step) != "commit";
        if ok {
            taken.push(shape(step));
        }
        run.report(ok);
    }
    assert_eq!(taken, vec!["write a 1", "write b 2"]);
    assert!(!run.is_done());
    assert!(run.next().is_none());
    run.report(true);
    assert!(run.next().is_none());

    let mut whole = StepRun::new(script());
    let mut count = 0;
    while whole.next().is_some() {
        whole.report(true);
        count += 1;
    }
    assert_eq!(count, 5);
    assert!(whole.is_done());
    assert!(StepRun::new(Vec::new()).is_done());
}

#[test]
fn a_version_in_the_tags_is_always_set() {
    let mut tagged = project(1, "app", Some("app"));
    tagged.located = Location::Tag(TagLocation { tags: TagSpec::MajorTag(MajorTagSpec { major: 1 }) });
    let mono = Mono::new(manifest(vec![tagged]), OldTags::empty());
    let mut tags = NewTags::new();
    let written = mono.set_by_id::<Never, Never, Never, Never>(1, "1.5.0", None, &lasts(&[(1, "c2")]), &mut tags, false).unwrap();
    assert!(written.is_none());
    assert_eq!(tags.changed_tags(), &vec![(s("app-v1.5.0"), s("c2"))]);
    let mut by_name = NewTags::new();
    assert!(mono.set_by_name::<Never, Never, Never, Never>("ap", "1.5.0", None, &HashMap::new(), &mut by_name, true).unwrap().is_none());
    assert_eq!(by_name.tags_for_new_commit(), &vec![s("app-v1.5.0")]);
}

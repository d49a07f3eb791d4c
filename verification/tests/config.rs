use versio::changes::ChangeLog;
use versio::picker::subdirs;
use versio::config::{
    absolutize_pattern, commit_size, join_path, legal_tag, make_tag, match_opts, version_of_tag, ConfigFile,
    FileLocation, Location, Options, Project, TagLocation, TagSpec, DefaultTagSpec,
};
use versio::error::ErrorKind;
use versio::picker::{FilePicker, LinePicker, Part, Picker, ScanningPicker};
use versio::size::Size;
use versio::sizes::{deserialize_sizes, insert_if_missing, sizes_key, SizesEntry, SizesKey};

fn json_version() -> Location {
    Location::File(FileLocation {
        file: "package.json".into(),
        picker: Picker::Json(ScanningPicker { parts: vec![Part::Key("version".into())] }),
    })
}

fn file_at(path: &str) -> Location {
    Location::File(FileLocation { file: path.into(), picker: Picker::File(FilePicker {}) })
}

fn project(id: u32, name: &str, includes: Vec<&str>, located: Location) -> Project {
    Project {
        name: name.into(),
        id,
        root: None,
        includes: includes.into_iter().map(|s| s.to_string()).collect(),
        excludes: Vec::new(),
        depends: Vec::new(),
        change_log: None,
        located,
        tag_prefix: None,
    }
}

fn manifest(projects: Vec<Project>) -> Result<ConfigFile, versio::error::Error> {
    ConfigFile::new(Options::default(), projects, Vec::new())
}

fn size_under(sizes: &[(String, Size)], kind: &str) -> Option<Size> {
    sizes.iter().find(|e| e.0 == kind).map(|e| e.1)
}

#[test]
fn test_scan() {
    let mut build = project(4, "build image", vec![], file_at("build/VERSION"));
    build.depends = vec![2, 3];
    let config = manifest(vec![
        project(
            1,
            "everything",
            vec!["**/*"],
            Location::File(FileLocation {
                file: "toplevel.json".into(),
                picker: Picker::Json(ScanningPicker { parts: vec![Part::Key("version".into())] }),
            }),
        ),
        project(
            2,
            "project1",
            vec!["project1/**/*"],
            Location::File(FileLocation {
                file: "project1/Cargo.toml".into(),
                picker: Picker::Toml(ScanningPicker { parts: vec![Part::Key("version".into())] }),
            }),
        ),
        project(
            3,
            "combined a and b",
            vec!["nested/project_a/**/*", "nested/project_b/**/*"],
            Location::File(FileLocation {
                file: "nested/version.txt".into(),
                picker: Picker::Line(LinePicker { pattern: "v([0-9]+\\.[0-9]+\\.[0-9]+) .*".into() }),
            }),
        ),
        build,
    ])
    .unwrap();

    assert_eq!(config.projects()[0].id, 1);
    assert_eq!("line", config.projects()[2].located.picker().picker_type());
}

#[test]
fn test_validate() {
    let config = manifest(vec![
        project(1, "p1", vec!["**/*"], file_at("f1")),
        project(1, "project1", vec!["**/*"], file_at("f2")),
    ]);
    assert!(config.is_err());
}

#[test]
fn test_validate_names() {
    let config = manifest(vec![
        project(1, "p1", vec!["**/*"], file_at("f1")),
        project(2, "p1", vec!["**/*"], file_at("f2")),
    ]);
    assert!(config.is_err());
}

#[test]
fn test_validate_illegal_prefix() {
    let mut p1 = project(1, "p1", vec!["**/*"], file_at("f1"));
    p1.tag_prefix = Some("ixth*&o".into());
    assert!(manifest(vec![p1]).is_err());
}

#[test]
fn test_validate_unascii_prefix() {
    let mut p1 = project(1, "p1", vec!["**/*"], file_at("f1"));
    p1.tag_prefix = Some("ixthïo".into());
    assert!(manifest(vec![p1]).is_err());
}

#[test]
fn test_validate_prefix() {
    let mut p1 = project(1, "p1", vec!["**/*"], file_at("f1"));
    p1.tag_prefix = Some("proj".into());
    let mut p2 = project(2, "p2", vec!["**/*"], file_at("f2"));
    p2.tag_prefix = Some("proj".into());
    assert!(manifest(vec![p1, p2]).is_err());
}

#[test]
fn test_validate_ok() {
    let mut p1 = project(1, "p1", vec!["**/*"], file_at("f1"));
    p1.tag_prefix = Some("_proj1-abc".into());
    let mut p2 = project(2, "p2", vec!["**/*"], file_at("f2"));
    p2.tag_prefix = Some("proj2".into());
    assert!(manifest(vec![p1, p2]).is_ok());
}

#[test]
fn test_sizes() {
    let sizes = deserialize_sizes(&vec![
        SizesEntry::Kinds { size: Size::Major, kinds: vec!["break".into()] },
        SizesEntry::Kinds { size: Size::Minor, kinds: vec!["feat".into()] },
        SizesEntry::Kinds { size: Size::Patch, kinds: vec!["fix".into(), "-".into()] },
        SizesEntry::Kinds { size: Size::Empty, kinds: vec!["none".into()] },
    ])
    .unwrap();
    assert_eq!(Some(Size::Minor), size_under(&sizes, "feat"));
    assert_eq!(Some(Size::Major), size_under(&sizes, "break"));
    assert_eq!(Some(Size::Patch), size_under(&sizes, "fix"));
    assert_eq!(Some(Size::Patch), size_under(&sizes, "-"));
    assert_eq!(Some(Size::Empty), size_under(&sizes, "none"));
}

#[test]
fn test_sizes_dup() {
    let sizes = deserialize_sizes(&vec![
        SizesEntry::Kinds { size: Size::Major, kinds: vec!["break".into(), "feat".into()] },
        SizesEntry::Kinds { size: Size::Minor, kinds: vec!["feat".into()] },
        SizesEntry::Kinds { size: Size::Patch, kinds: vec!["fix".into(), "-".into()] },
        SizesEntry::Kinds { size: Size::Empty, kinds: vec!["none".into()] },
    ]);
    assert!(sizes.is_err());
}

#[test]
fn test_include_w_root() {
    let proj = Project {
        name: "test".into(),
        id: 1,
        root: Some("base".into()),
        includes: vec!["**/*".into()],
        excludes: Vec::new(),
        depends: Vec::new(),
        change_log: None,
        located: json_version(),
        tag_prefix: None,
    };

    assert!(proj.does_cover("base/somefile.txt").unwrap());
    assert!(!proj.does_cover("outerfile.txt").unwrap());
}

#[test]
fn test_exclude_w_root() {
    let proj = Project {
        name: "test".into(),
        id: 1,
        root: Some("base".into()),
        includes: vec!["**/*".into()],
        excludes: vec!["internal/**/*".into()],
        depends: Vec::new(),
        change_log: None,
        located: json_version(),
        tag_prefix: None,
    };

    assert!(!proj.does_cover("base/internal/infile.txt").unwrap());
}

#[test]
fn test_excludes_check() {
    let proj = Project {
        name: "test".into(),
        id: 1,
        root: Some("base".into()),
        includes: vec![],
        excludes: vec!["internal/**/*".into()],
        depends: Vec::new(),
        change_log: None,
        located: json_version(),
        tag_prefix: None,
    };

    assert!(proj.check_excludes().is_err());
}

#[test]
fn excludes_check_accepts_includes() {
    let mut proj = project(1, "p", vec!["a/*"], file_at("f"));
    proj.excludes = vec!["a/b".into()];
    assert!(proj.check_excludes().is_ok());
    assert!(project(2, "q", vec![], file_at("f")).check_excludes().is_ok());
}

#[test]
fn validate_refuses_excludes_without_includes() {
    let mut proj = project(1, "p", vec![], file_at("f"));
    proj.excludes = vec!["a/b".into()];
    assert_eq!(manifest(vec![proj]).unwrap_err().kind(), ErrorKind::ManifestInvalid);
}

#[test]
fn validate_refuses_a_circle_of_dependencies() {
    let mut a = project(1, "a", vec![], file_at("fa"));
    a.depends = vec![2];
    let mut b = project(2, "b", vec![], file_at("fb"));
    b.depends = vec![3];
    let mut c = project(3, "c", vec![], file_at("fc"));
    c.depends = vec![1];
    assert_eq!(manifest(vec![a, b, c]).unwrap_err().kind(), ErrorKind::ManifestInvalid);

    let mut own = project(1, "own", vec![], file_at("f"));
    own.depends = vec![1];
    assert!(manifest(vec![own]).is_err());
}

#[test]
fn validate_accepts_a_chain_and_a_diamond() {
    let a = project(1, "a", vec![], file_at("fa"));
    let mut b = project(2, "b", vec![], file_at("fb"));
    b.depends = vec![1];
    let mut c = project(3, "c", vec![], file_at("fc"));
    c.depends = vec![1];
    let mut d = project(4, "d", vec![], file_at("fd"));
    d.depends = vec![2, 3, 1];
    assert!(manifest(vec![d, c, b, a]).is_ok());
}

#[test]
fn validate_accepts_a_dependency_on_no_project() {
    let mut a = project(1, "a", vec![], file_at("fa"));
    a.depends = vec![77];
    assert!(manifest(vec![a]).is_ok());
}

#[test]
fn empty_manifest_has_the_default_tag() {
    let config = ConfigFile::empty();
    assert_eq!(config.prev_tag(), "versio-prev");
    assert!(config.projects().is_empty());
    assert!(config.validate().is_ok());
    assert_eq!(Options::default().prev_tag(), "versio-prev");
}

#[test]
fn legal_tag_follows_the_grammar() {
    for ok in ["", "a", "_", "_proj1-abc", "Proj_2", "a-", "Z9"] {
        assert!(legal_tag(ok), "{}", ok);
    }
    for bad in ["1a", "-a", "a b", "ixth*&o", "ixthïo", "é", "a.b"] {
        assert!(!legal_tag(bad), "{}", bad);
    }
}

#[test]
fn covering_matches_without_regard_to_case() {
    let proj = project(1, "p", vec!["src/*.RS"], file_at("f"));
    assert!(proj.does_cover("src/main.rs").unwrap());
    assert!(proj.does_cover("SRC/Main.rs").unwrap());
}

#[test]
fn a_star_does_not_cross_a_separator() {
    let proj = project(1, "p", vec!["src/*"], file_at("f"));
    assert!(proj.does_cover("src/a").unwrap());
    assert!(!proj.does_cover("src/a/b").unwrap());
    let deep = project(1, "p", vec!["src/**/*"], file_at("f"));
    assert!(deep.does_cover("src/a/b").unwrap());
}

#[test]
fn an_exclude_that_matches_wins() {
    let mut proj = project(1, "p", vec!["**/*"], file_at("f"));
    proj.excludes = vec!["docs/*".into(), "**/*.md".into()];
    assert!(!proj.does_cover("docs/index.html").unwrap());
    assert!(!proj.does_cover("src/readme.md").unwrap());
    assert!(proj.does_cover("src/lib.rs").unwrap());
}

#[test]
fn coverage_does_not_depend_on_the_order_of_includes() {
    let one = project(1, "p", vec!["a/*", "b/**/*", "c"], file_at("f"));
    let two = project(1, "p", vec!["c", "a/*", "b/**/*"], file_at("f"));
    for path in ["a/x", "b/x/y", "c", "d", "a/x/y", "b"] {
        assert_eq!(one.does_cover(path).unwrap(), two.does_cover(path).unwrap(), "{}", path);
    }
}

#[test]
fn a_broken_pattern_is_an_error_when_it_is_tried() {
    let broken = project(1, "p", vec!["a/**b", "c"], file_at("f"));
    assert_eq!(broken.does_cover("c").unwrap_err().kind(), ErrorKind::ManifestInvalid);
    let later = project(1, "p", vec!["c", "a/**b"], file_at("f"));
    assert!(later.does_cover("c").unwrap());
    assert!(later.does_cover("d").is_err());
    let mut excluded = project(1, "p", vec!["c"], file_at("f"));
    excluded.excludes = vec!["[".into()];
    assert!(excluded.does_cover("c").is_err());
}

#[test]
fn a_project_without_includes_covers_nothing() {
    let proj = project(1, "p", vec![], file_at("f"));
    assert!(!proj.does_cover("a").unwrap());
}

#[test]
fn match_opts_are_those_of_the_projects() {
    let o = match_opts();
    assert!(!o.case_sensitive);
    assert!(o.require_literal_separator);
    assert!(!o.require_literal_leading_dot);
}

#[test]
fn join_path_puts_one_slash_between() {
    assert_eq!(join_path("base", "**/*"), "base/**/*");
    assert_eq!(join_path("base/", "x"), "base/x");
    assert_eq!(join_path("", "x"), "x");
    assert_eq!(join_path("base", "/abs"), "/abs");
    assert_eq!(join_path("base", ""), "base/");
}

#[test]
fn rooted_pattern_and_change_log_stand_below_the_root() {
    let mut proj = project(1, "p", vec![], file_at("f"));
    assert_eq!(proj.rooted_pattern("a/*"), "a/*");
    assert_eq!(proj.change_log(), None);
    proj.root = Some("sub".into());
    proj.change_log = Some("CHANGES.html".into());
    assert_eq!(proj.rooted_pattern("a/*"), "sub/a/*");
    assert_eq!(proj.change_log(), Some("sub/CHANGES.html".to_string()));
    assert_eq!(proj.root(), &Some("sub".to_string()));
    assert_eq!(proj.name(), "p");
    assert_eq!(proj.id(), 1);
    assert!(proj.depends().is_empty());
    assert_eq!(proj.tag_prefix(), &None);
}

#[test]
fn commit_size_follows_the_manifest() {
    let sizes = vec![
        ("feat".to_string(), Size::Minor),
        ("fix".to_string(), Size::Patch),
        ("*".to_string(), Size::Empty),
        ("feat".to_string(), Size::Major),
    ];
    assert_eq!(commit_size(&sizes, "feat").unwrap(), Size::Minor);
    assert_eq!(commit_size(&sizes, "  fix \n").unwrap(), Size::Patch);
    assert_eq!(commit_size(&sizes, "chore").unwrap(), Size::Empty);
    assert_eq!(commit_size(&sizes, "chore!").unwrap(), Size::Major);
    assert_eq!(commit_size(&sizes, " feat! ").unwrap(), Size::Major);
    assert_eq!(commit_size(&sizes, "").unwrap(), Size::Empty);
}

#[test]
fn commit_size_refuses_an_unknown_kind() {
    let sizes = vec![("feat".to_string(), Size::Minor)];
    assert_eq!(commit_size(&sizes, "docs").unwrap_err().kind(), ErrorKind::UnknownCommitKind);
    assert_eq!(commit_size(&sizes, "fe at").unwrap_err().kind(), ErrorKind::UnknownCommitKind);
    assert_eq!(commit_size(&Vec::new(), "feat").unwrap_err().kind(), ErrorKind::UnknownCommitKind);
    let proj = project(1, "p", vec![], file_at("f"));
    assert_eq!(proj.size(&sizes, "feat").unwrap(), Size::Minor);
}

#[test]
fn sizes_keys_are_told_apart() {
    assert_eq!(sizes_key("minor"), SizesKey::Kinds(Size::Minor));
    assert_eq!(sizes_key("none"), SizesKey::Kinds(Size::Empty));
    assert_eq!(sizes_key("use_angular"), SizesKey::Angular);
    assert_eq!(sizes_key("use_angular "), SizesKey::Unknown);
    assert_eq!(sizes_key("huge"), SizesKey::Unknown);
}

#[test]
fn sizes_refuse_an_unknown_key() {
    let r = deserialize_sizes(&vec![
        SizesEntry::Kinds { size: Size::Minor, kinds: vec!["feat".into()] },
        SizesEntry::Unknown { key: "huge".into() },
    ]);
    assert_eq!(r.unwrap_err().kind(), ErrorKind::ManifestParse);
}

#[test]
fn sizes_refuse_a_kind_twice_in_one_list() {
    let r = deserialize_sizes(&vec![SizesEntry::Kinds { size: Size::Minor, kinds: vec!["a".into(), "a".into()] }]);
    assert_eq!(r.unwrap_err().kind(), ErrorKind::ManifestParse);
}

#[test]
fn angular_fills_in_what_is_not_stated() {
    let sizes = deserialize_sizes(&vec![
        SizesEntry::Angular { on: true },
        SizesEntry::Kinds { size: Size::Major, kinds: vec!["fix".into(), "wip".into()] },
    ])
    .unwrap();
    let kinds: Vec<&str> = sizes.iter().map(|e| e.0.as_str()).collect();
    assert_eq!(kinds, vec!["fix", "wip", "feat", "docs", "style", "refactor", "perf", "test", "chore", "build"]);
    assert_eq!(size_under(&sizes, "fix"), Some(Size::Major));
    assert_eq!(size_under(&sizes, "feat"), Some(Size::Minor));
    assert_eq!(size_under(&sizes, "chore"), Some(Size::Empty));
}

#[test]
fn the_last_angular_flag_counts() {
    let off = deserialize_sizes(&vec![SizesEntry::Angular { on: true }, SizesEntry::Angular { on: false }]).unwrap();
    assert!(off.is_empty());
    let on = deserialize_sizes(&vec![SizesEntry::Angular { on: false }, SizesEntry::Angular { on: true }]).unwrap();
    assert_eq!(on.len(), 9);
    assert_eq!(size_under(&on, "fix"), Some(Size::Patch));
    assert!(deserialize_sizes(&Vec::new()).unwrap().is_empty());
}

#[test]
fn insert_if_missing_keeps_what_is_there() {
    let mut sizes = vec![("feat".to_string(), Size::Major)];
    insert_if_missing(&mut sizes, "feat", Size::Minor);
    insert_if_missing(&mut sizes, "fix", Size::Patch);
    assert_eq!(sizes, vec![("feat".to_string(), Size::Major), ("fix".to_string(), Size::Patch)]);
}

#[test]
fn tags_are_named_by_prefix_and_version() {
    assert_eq!(make_tag("", "1.2.3"), "v1.2.3");
    assert_eq!(make_tag("app", "1.2.3"), "app-v1.2.3");
    assert_eq!(version_of_tag("", "v1.2.3"), Some("1.2.3".to_string()));
    assert_eq!(version_of_tag("app", "app-v10.0.7"), Some("10.0.7".to_string()));
    assert_eq!(version_of_tag("app", "v1.2.3"), None);
    assert_eq!(version_of_tag("", "app-v1.2.3"), None);
    assert_eq!(version_of_tag("app", "app-v1.2"), None);
    assert_eq!(version_of_tag("app", "app"), None);
    assert_eq!(version_of_tag("", "v1.2.3-rc1"), None);
}

#[test]
fn find_unique_takes_the_one_match() {
    let config = manifest(vec![
        project(1, "alpha", vec![], file_at("a")),
        project(2, "beta", vec![], file_at("b")),
        project(3, "alphabet", vec![], file_at("c")),
    ])
    .unwrap();
    assert_eq!(config.find_unique("beta").unwrap(), 2);
    assert_eq!(config.find_unique("bet").unwrap_err().kind(), ErrorKind::AmbiguousProjectName);
    assert_eq!(config.find_unique("alpha").unwrap_err().kind(), ErrorKind::AmbiguousProjectName);
    assert_eq!(config.find_unique("alphab").unwrap(), 3);
    assert_eq!(config.find_unique("gamma").unwrap_err().kind(), ErrorKind::NoSuchProject);
    assert_eq!(config.find_unique("").unwrap_err().kind(), ErrorKind::AmbiguousProjectName);
    assert_eq!(config.get_project(3).unwrap().name(), "alphabet");
    assert!(config.get_project(9).is_none());
}

#[test]
fn a_tag_location_reads_the_latest_tag() {
    let loc = TagLocation { tags: TagSpec::DefaultTag(DefaultTagSpec { default: "0.0.0".into() }) };
    let latest = "app-v3.1.4".to_string();
    assert_eq!(loc.get_mark_value("app", Some(&latest)).unwrap(), "3.1.4");
    assert_eq!(loc.get_mark_value("lib", Some(&latest)).unwrap_err().kind(), ErrorKind::PickerNotFound);
    assert_eq!(loc.get_mark_value("app", None).unwrap_err().kind(), ErrorKind::PickerNotFound);
}

#[test]
fn a_check_needs_a_file_for_every_include() {
    let proj = project(1, "p", vec!["a/*", "b/*"], file_at("f"));
    assert!(proj.check(&vec![true, true]).is_ok());
    assert_eq!(proj.check(&vec![true, false]).unwrap_err().kind(), ErrorKind::CoverageEmpty);
    assert_eq!(proj.check(&vec![true]).unwrap_err().kind(), ErrorKind::CoverageEmpty);
    assert!(project(2, "q", vec![], file_at("f")).check(&Vec::new()).is_ok());
    let mut bad = project(3, "r", vec![], file_at("f"));
    bad.excludes = vec!["x".into()];
    assert_eq!(bad.check(&Vec::new()).unwrap_err().kind(), ErrorKind::ManifestInvalid);
}

#[test]
fn the_change_log_goes_below_the_root() {
    let mut proj = project(1, "p", vec![], file_at("f"));
    assert_eq!(proj.write_change_log(&ChangeLog::empty()).unwrap(), None);
    proj.root = Some("sub".into());
    proj.change_log = Some("CHANGES.html".into());
    let (path, page) = proj.write_change_log(&ChangeLog::empty()).unwrap().unwrap();
    assert_eq!(path, "sub/CHANGES.html");
    assert!(page.starts_with("<html>") && page.ends_with("</html>\n"));
}

#[test]
fn patterns_stand_below_the_working_directory() {
    assert_eq!(absolutize_pattern("src/**/*", "/work/repo"), "/work/repo/src/**/*");
    assert_eq!(absolutize_pattern("/abs/*", "/work/repo"), "/abs/*");
}

#[test]
fn subdirs_are_chosen_by_a_regular_expression() {
    let names = vec!["v1".to_string(), "docs".to_string(), "v22".to_string(), "rev3".to_string()];
    assert_eq!(subdirs(&names, "^v\\d+$").unwrap(), vec!["v1".to_string(), "v22".to_string()]);
    assert_eq!(subdirs(&names, "v").unwrap(), vec!["v1".to_string(), "v22".to_string(), "rev3".to_string()]);
    assert!(subdirs(&names, "nothing").unwrap().is_empty());
    assert_eq!(subdirs(&names, "(").unwrap_err().kind(), ErrorKind::ManifestInvalid);
}

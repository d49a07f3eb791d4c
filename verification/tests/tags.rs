use std::collections::HashMap;
use versio::config::{ConfigFile, FileLocation, Location, Options, Project};
use versio::error::{Error, ErrorKind};
use versio::picker::{FilePicker, Picker};
use versio::state::{CurrentState, StateRead};
use versio::tags::{NewTags, OldTags};

fn s(v: &str) -> String {
    v.to_string()
}

fn tag_lists(lists: Vec<(u32, Vec<&str>)>) -> HashMap<u32, Vec<String>> {
    lists.into_iter().map(|e| (e.0, e.1.into_iter().map(s).collect())).collect()
}

fn marks(tables: Vec<(u32, Vec<(&str, usize)>)>) -> HashMap<u32, Vec<(String, usize)>> {
    tables.into_iter().map(|e| (e.0, e.1.into_iter().map(|m| (s(m.0), m.1)).collect())).collect()
}

fn index() -> OldTags {
    OldTags::new(
        tag_lists(vec![(1, vec!["v3", "v2", "v1"]), (2, vec!["w1"])]),
        marks(vec![
            (1, vec![("c0", 0), ("c1", 0), ("c2", 1), ("c3", 2), ("c4", 2)]),
            (2, vec![("c0", 0), ("c1", 0)]),
        ]),
    )
}

fn tagged(id: u32, prefix: Option<&str>) -> Project {
    Project {
        name: format!("p{}", id),
        id,
        root: None,
        includes: Vec::new(),
        excludes: Vec::new(),
        depends: Vec::new(),
        change_log: None,
        located: Location::File(FileLocation { file: format!("f{}", id), picker: Picker::File(FilePicker {}) }),
        tag_prefix: prefix.map(|p| p.to_string()),
    }
}

#[test]
fn latest_is_the_first_tag() {
    let tags = index();
    assert_eq!(tags.latest(&1), Some(&s("v3")));
    assert_eq!(tags.latest(&2), Some(&s("w1")));
    assert_eq!(tags.latest(&3), None);
    assert_eq!(OldTags::empty().latest(&1), None);
    assert_eq!(OldTags::new(tag_lists(vec![(1, vec![])]), HashMap::new()).latest(&1), None);
}

#[test]
fn not_after_follows_the_index() {
    let tags = index();
    assert_eq!(tags.not_after(&1, "c0"), Some(&s("v3")));
    assert_eq!(tags.not_after(&1, "c2"), Some(&s("v2")));
    assert_eq!(tags.not_after(&1, "c4"), Some(&s("v1")));
    assert_eq!(tags.not_after(&1, "c9"), None);
    assert_eq!(tags.not_after(&2, "c2"), None);
    assert_eq!(tags.not_after(&3, "c0"), None);
}

#[test]
fn the_latest_tag_of_a_slice_is_the_tag_not_after_the_commit() {
    let tags = index();
    for oid in ["c0", "c1", "c2", "c3", "c4", "c9"] {
        let sliced = tags.slice_earlier(oid).unwrap();
        for p in [1u32, 2, 3] {
            assert_eq!(sliced.latest(&p), tags.not_after(&p, oid), "{} {}", oid, p);
        }
    }
}

#[test]
fn a_slice_drops_later_tags_and_counts_anew() {
    let sliced = index().slice_earlier("c2").unwrap();
    assert_eq!(sliced.latest(&1), Some(&s("v2")));
    assert_eq!(sliced.not_after(&1, "c2"), Some(&s("v2")));
    assert_eq!(sliced.not_after(&1, "c3"), Some(&s("v1")));
    assert_eq!(sliced.not_after(&1, "c4"), Some(&s("v1")));
    assert_eq!(sliced.not_after(&1, "c0"), None);
    assert_eq!(sliced.not_after(&1, "c1"), None);
    assert_eq!(sliced.latest(&2), None);
    let again = sliced.slice_earlier("c4").unwrap();
    assert_eq!(again.latest(&1), Some(&s("v1")));
    assert_eq!(again.not_after(&1, "c2"), None);
}

#[test]
fn a_slice_is_refused_where_the_index_is_broken() {
    let past = OldTags::new(tag_lists(vec![(1, vec!["v1"])]), marks(vec![(1, vec![("c0", 2)])]));
    assert_eq!(past.slice_earlier("c0").unwrap_err().kind(), ErrorKind::RepoError);
    assert!(past.slice_earlier("c1").is_ok());
    let missing = OldTags::new(HashMap::new(), marks(vec![(1, vec![("c0", 0)])]));
    assert_eq!(missing.slice_earlier("c0").unwrap_err().kind(), ErrorKind::RepoError);
    let edge = OldTags::new(tag_lists(vec![(1, vec!["v1"])]), marks(vec![(1, vec![("c0", 1)])]));
    let sliced = edge.slice_earlier("c0").unwrap();
    assert_eq!(sliced.latest(&1), None);
    assert_eq!(edge.not_after(&1, "c0"), None);
}

#[test]
fn the_first_of_two_entries_under_a_commit_counts() {
    let index = OldTags::new(
        tag_lists(vec![(1, vec!["a", "b"])]),
        marks(vec![(1, vec![("c", 1), ("c", 0), ("d", 0)])]),
    );
    assert_eq!(index.latest(&1), Some(&s("a")));
    assert_eq!(index.not_after(&1, "c"), Some(&s("b")));
    let sliced = index.slice_earlier("c").unwrap();
    assert_eq!(sliced.latest(&1), Some(&s("b")));
    assert_eq!(sliced.not_after(&1, "c"), Some(&s("b")));
    assert_eq!(sliced.not_after(&1, "d"), None);
}

#[test]
fn old_tags_are_found_on_the_walk() {
    let config = ConfigFile::new(
        Options::default(),
        vec![tagged(1, Some("")), tagged(2, Some("lib")), tagged(3, None)],
        Vec::new(),
    )
    .unwrap();
    let tags = vec![
        (s("v1.0.0"), s("c4")),
        (s("v1.1.0"), s("c2")),
        (s("v1.1.1"), s("c2")),
        (s("lib-v0.3.0"), s("c3")),
        (s("lib-v9.9.9"), s("c7")),
        (s("versio-prev"), s("c5")),
        (s("lib-latest"), s("c0")),
    ];
    let walk = vec![s("c0"), s("c1"), s("c2"), s("c3"), s("c4")];
    let found = config.find_old_tags(&tags, &walk);

    assert_eq!(found.latest(&1), Some(&s("v1.1.0")));
    assert_eq!(found.not_after(&1, "c0"), Some(&s("v1.1.0")));
    assert_eq!(found.not_after(&1, "c2"), Some(&s("v1.1.0")));
    assert_eq!(found.not_after(&1, "c3"), Some(&s("v1.0.0")));
    assert_eq!(found.not_after(&1, "c4"), Some(&s("v1.0.0")));
    assert_eq!(found.latest(&2), Some(&s("lib-v0.3.0")));
    assert_eq!(found.not_after(&2, "c1"), Some(&s("lib-v0.3.0")));
    assert_eq!(found.not_after(&2, "c3"), Some(&s("lib-v0.3.0")));
    assert_eq!(found.not_after(&2, "c4"), None);
    assert_eq!(found.latest(&3), None);

    let earlier = found.slice_earlier("c3").unwrap();
    assert_eq!(earlier.latest(&1), Some(&s("v1.0.0")));
    assert_eq!(earlier.latest(&2), Some(&s("lib-v0.3.0")));
}

#[test]
fn new_tags_gather_what_a_release_sets() {
    let mut tags = NewTags::new();
    assert!(!tags.should_commit());
    assert!(tags.tags_for_new_commit().is_empty());
    assert!(tags.changed_tags().is_empty());
    tags.add_tag(s("v1"));
    tags.add_tag(s("v2"));
    assert_eq!(tags.tags_for_new_commit(), &vec![s("v1"), s("v2")]);
    assert!(!tags.should_commit());
    tags.flag_commit();
    assert!(tags.should_commit());
    tags.change_tag(s("a"), "c1");
    tags.change_tag(s("b"), "c2");
    tags.change_tag(s("a"), "c3");
    assert_eq!(tags.changed_tags(), &vec![(s("a"), s("c3")), (s("b"), s("c2"))]);
    assert!(!NewTags::default().should_commit());
}

#[test]
fn forward_value_stages_the_tag() {
    let proj = tagged(1, Some("app"));
    let last = s("c9");

    let mut wrote = NewTags::new();
    proj.forward_value("1.3.0", Some(&last), &mut wrote, true).unwrap();
    assert!(wrote.should_commit());
    assert_eq!(wrote.tags_for_new_commit(), &vec![s("app-v1.3.0")]);
    assert!(wrote.changed_tags().is_empty());

    let mut forward = NewTags::new();
    proj.forward_value("2.0.0", Some(&last), &mut forward, false).unwrap();
    assert!(!forward.should_commit());
    assert!(forward.tags_for_new_commit().is_empty());
    assert_eq!(forward.changed_tags(), &vec![(s("app-v2.0.0"), s("c9"))]);

    let mut nothing = NewTags::new();
    proj.forward_value("2.0.0", None, &mut nothing, false).unwrap();
    tagged(2, None).forward_value("2.0.0", Some(&last), &mut nothing, false).unwrap();
    assert!(!nothing.should_commit());
    assert!(nothing.tags_for_new_commit().is_empty());
    assert!(nothing.changed_tags().is_empty());

    let mut bare = NewTags::new();
    tagged(3, Some("")).will_commit("0.1.0", &mut bare, true).unwrap();
    tagged(4, None).will_commit("0.1.0", &mut bare, true).unwrap();
    assert!(bare.should_commit());
    assert_eq!(bare.tags_for_new_commit(), &vec![s("v0.1.0")]);
}

#[test]
fn the_current_state_slices_its_tags() {
    let state = CurrentState::new(s("/repo"), index());
    assert_eq!(state.root(), "/repo");
    assert_eq!(state.latest_tag(&1), Some(&s("v3")));
    let prev = state.slice(Ok(s("c3")), false).unwrap();
    assert_eq!(prev.latest_tag(&1), Some(&s("v1")));
    assert_eq!(prev.latest_tag(&2), None);

    let gone = || Err(Error::new(ErrorKind::RepoError, s("no such tag")));
    let none = state.slice(gone(), true).unwrap();
    assert_eq!(none.latest_tag(&1), None);
    assert_eq!(state.slice(gone(), false).unwrap_err().kind(), ErrorKind::RepoError);
}

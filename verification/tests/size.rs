use versio::error::ErrorKind;
use versio::size::Size;

const ALL: [Size; 5] = [Size::Empty, Size::Patch, Size::Minor, Size::Major, Size::Fail];

#[test]
fn max_with_empty_is_identity() {
    for s in ALL {
        assert_eq!(s.max(Size::Empty), s);
        assert_eq!(Size::Empty.max(s), s);
    }
}

#[test]
fn max_with_fail_is_fail() {
    for s in ALL {
        assert_eq!(s.max(Size::Fail), Size::Fail);
        assert_eq!(Size::Fail.max(s), Size::Fail);
    }
}

#[test]
fn order_is_total_and_rising() {
    assert!(Size::Fail > Size::Major);
    assert!(Size::Major > Size::Minor);
    assert!(Size::Minor > Size::Patch);
    assert!(Size::Patch > Size::Empty);
    for a in ALL {
        for b in ALL {
            let n = [a < b, a == b, a > b].iter().filter(|x| **x).count();
            assert_eq!(n, 1);
            assert_eq!(a.partial_cmp(&b), Some(a.cmp(&b)));
        }
    }
}

#[test]
fn level_follows_the_order() {
    assert_eq!(Size::Empty.level(), 0);
    assert_eq!(Size::Patch.level(), 1);
    assert_eq!(Size::Minor.level(), 2);
    assert_eq!(Size::Major.level(), 3);
    assert_eq!(Size::Fail.level(), 4);
}

#[test]
fn words_name_sizes() {
    assert_eq!(Size::from_str("major").unwrap(), Size::Major);
    assert_eq!(Size::from_str("minor").unwrap(), Size::Minor);
    assert_eq!(Size::from_str("patch").unwrap(), Size::Patch);
    assert_eq!(Size::from_str("none").unwrap(), Size::Empty);
    assert_eq!(Size::from_str("fail").unwrap(), Size::Fail);
    assert_eq!(Size::from_str("Major").unwrap_err().kind(), ErrorKind::ManifestParse);
    assert!(Size::is_size("patch"));
    assert!(!Size::is_size("use_angular"));
    assert!(!Size::is_size(""));
}

#[test]
fn names_read_back() {
    for s in ALL {
        assert_eq!(Size::from_str(&s.name()).unwrap(), s);
    }
    assert_eq!(Size::Empty.name(), "none");
    assert_eq!(Size::Fail.name(), "fail");
}

#[test]
fn parts_reads_three_numbers() {
    assert_eq!(Size::parts("1.2.3").unwrap(), [1, 2, 3]);
    assert_eq!(Size::parts("0.0.0").unwrap(), [0, 0, 0]);
    assert_eq!(Size::parts("10.200.4294967295").unwrap(), [10, 200, 4294967295]);
    assert_eq!(Size::parts("01.002.3").unwrap(), [1, 2, 3]);
    assert_eq!(Size::parts("+1.2.3").unwrap(), [1, 2, 3]);
}

#[test]
fn parts_refuses_what_is_no_triple() {
    for v in ["", "1", "1.2", "1.2.3.4", "1..3", ".1.2", "1.2.", "a.b.c", "1.2.x", "-1.2.3", "1.2.4294967296", "1.+.3", "1 .2.3"] {
        assert_eq!(Size::parts(v).unwrap_err().kind(), ErrorKind::VersionParse, "{}", v);
    }
}

#[test]
fn apply_moves_the_right_number() {
    assert_eq!(Size::Major.apply("1.2.3").unwrap(), "2.0.0");
    assert_eq!(Size::Minor.apply("1.2.3").unwrap(), "1.3.0");
    assert_eq!(Size::Patch.apply("1.2.3").unwrap(), "1.2.4");
    assert_eq!(Size::Empty.apply("1.2.3").unwrap(), "1.2.3");
    assert_eq!(Size::Patch.apply("9.99.999").unwrap(), "9.99.1000");
    assert_eq!(Size::Minor.apply("0.9.7").unwrap(), "0.10.0");
}

#[test]
fn apply_writes_numbers_without_leading_zeros() {
    assert_eq!(Size::Empty.apply("01.02.03").unwrap(), "1.2.3");
    assert_eq!(Size::Empty.apply("+1.2.3").unwrap(), "1.2.3");
}

#[test]
fn apply_refuses_fail_and_bad_versions() {
    assert_eq!(Size::Fail.apply("1.2.3").unwrap_err().kind(), ErrorKind::SizeFail);
    assert_eq!(Size::Fail.apply("x").unwrap_err().kind(), ErrorKind::VersionParse);
    assert_eq!(Size::Major.apply("1.2").unwrap_err().kind(), ErrorKind::VersionParse);
}

#[test]
fn apply_refuses_a_number_without_room() {
    assert_eq!(Size::Major.apply("4294967295.0.0").unwrap_err().kind(), ErrorKind::VersionParse);
    assert_eq!(Size::Minor.apply("1.4294967295.0").unwrap_err().kind(), ErrorKind::VersionParse);
    assert_eq!(Size::Patch.apply("1.2.4294967295").unwrap_err().kind(), ErrorKind::VersionParse);
    assert_eq!(Size::Empty.apply("1.2.4294967295").unwrap(), "1.2.4294967295");
    assert_eq!(Size::Major.apply("1.4294967295.4294967295").unwrap(), "2.0.0");
}

#[test]
fn less_than_goes_number_by_number() {
    assert!(Size::less_than("1.2.3", "1.2.4").unwrap());
    assert!(Size::less_than("1.2.3", "1.3.0").unwrap());
    assert!(Size::less_than("1.9.9", "2.0.0").unwrap());
    assert!(Size::less_than("1.2.10", "1.10.2").unwrap());
    assert!(!Size::less_than("1.2.3", "1.2.3").unwrap());
    assert!(!Size::less_than("2.0.0", "1.3.0").unwrap());
    assert_eq!(Size::less_than("1.2", "1.2.3").unwrap_err().kind(), ErrorKind::VersionParse);
    assert_eq!(Size::less_than("1.2.3", "x").unwrap_err().kind(), ErrorKind::VersionParse);
}

#[test]
fn a_version_is_before_what_a_size_makes_of_it() {
    for v in ["0.0.0", "1.2.3", "7.0.41"] {
        for s in ALL {
            if s == Size::Fail {
                continue;
            }
            let w = s.apply(v).unwrap();
            let rises = s == Size::Major || s == Size::Minor || s == Size::Patch;
            assert_eq!(Size::less_than(v, &w).unwrap(), rises);
        }
    }
}

#[test]
fn break_override_raises_major() {
    let sizes = vec![("feat".to_string(), Size::Minor)];
    let size = versio::config::commit_size(&sizes, "fix!").unwrap();
    assert_eq!(size, Size::Major);
    assert_eq!(size.apply("1.2.3").unwrap(), "2.0.0");
}

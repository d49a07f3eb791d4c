use versio::error::{Error, ErrorKind};
use versio::mark::{convert_mark, is_version, CharMark, Mark, MarkedData, NamedData};
use versio::picker::{FilePicker, LinePicker, Part, Picker, Scanner, ScanningPicker};
use versio::state::PickPath;
use versio::text::{contains, trim, trim_end};

struct Fixed {
    at: usize,
}

impl Scanner for Fixed {
    fn build(parts: Vec<Part>) -> Fixed {
        Fixed { at: parts.len() }
    }

    fn find(&self, _data: &str) -> Result<Mark, Error> {
        Mark::make("4.5.6".to_string(), self.at)
    }
}

struct Never {}

impl Scanner for Never {
    fn build(_parts: Vec<Part>) -> Never {
        Never {}
    }

    fn find(&self, _data: &str) -> Result<Mark, Error> {
        Err(Error::new(ErrorKind::PickerNotFound, "never".to_string()))
    }
}

#[test]
fn test_find_reg() {
    let data = r#"
This is text.
Current rev is "v1.2.3" because it is."#;

    let mark = LinePicker::find_reg_data(data, "v(\\d+\\.\\d+\\.\\d+)").unwrap();
    assert_eq!("1.2.3", mark.value());
    assert_eq!(32, mark.start());
}

#[test]
fn line_picker_tells_its_errors_apart() {
    assert_eq!(LinePicker::find_reg_data("v1.2.3", "v(").unwrap_err().kind(), ErrorKind::ManifestInvalid);
    assert_eq!(LinePicker::find_reg_data("nothing", "v(\\d+)").unwrap_err().kind(), ErrorKind::PickerNotFound);
    assert_eq!(LinePicker::find_reg_data("v1.2.3", "v\\d+").unwrap_err().kind(), ErrorKind::PickerNotFound);
    assert_eq!(LinePicker::find_reg_data("v1.2.3", "v\\d+(x)?").unwrap_err().kind(), ErrorKind::PickerNotFound);
    assert_eq!(LinePicker::find_reg_data("v1.2", "v(\\d+\\.\\d+)").unwrap_err().kind(), ErrorKind::VersionParse);
}

#[test]
fn mark_found_makes_of_a_search_what_the_picker_says() {
    assert_eq!(LinePicker::mark_found(None).unwrap_err().kind(), ErrorKind::PickerNotFound);
    assert_eq!(LinePicker::mark_found(Some(None)).unwrap_err().kind(), ErrorKind::PickerNotFound);
    assert_eq!(LinePicker::mark_found(Some(Some(("x".to_string(), 3)))).unwrap_err().kind(), ErrorKind::VersionParse);
    let m = LinePicker::mark_found(Some(Some(("0.1.0".to_string(), 3)))).unwrap();
    assert_eq!(m.value(), "0.1.0");
    assert_eq!(m.start(), 3);
}

#[test]
fn line_picker_scans_and_finds() {
    let picker = LinePicker { pattern: "version = \"(.*)\"".to_string() };
    let text = "name = \"é\"\nversion = \"0.9.12\"\n";
    let mark = picker.find(text).unwrap();
    assert_eq!(mark.value(), "0.9.12");
    assert_eq!(mark.start(), 23);
    let marked = picker.scan(NamedData::new(Some("Cargo.toml".to_string()), text.to_string())).unwrap();
    assert_eq!(marked.value(), "0.9.12");
    assert_eq!(marked.start(), 23);
    assert_eq!(marked.data(), text);
    assert_eq!(marked.writeable_path(), &Some("Cargo.toml".to_string()));
}

#[test]
fn version_texts() {
    for ok in ["0.0.0", "1.2.3", "10.20.30", "007.0.1", "99999999999999999999.0.0"] {
        assert!(is_version(ok), "{}", ok);
        assert!(Mark::make(ok.to_string(), 0).is_ok());
    }
    for bad in ["", "1", "1.2", "1.2.3.4", "1.2.x", "v1.2.3", "1.2.3 ", " 1.2.3", "+1.2.3", "1..3", ".2.3", "1.2.", "１.２.３"] {
        assert!(!is_version(bad), "{}", bad);
        assert_eq!(Mark::make(bad.to_string(), 0).unwrap_err().kind(), ErrorKind::VersionParse);
    }
}

#[test]
fn a_mark_keeps_its_start() {
    let mut mark = Mark::make("1.2.3".to_string(), 17).unwrap();
    assert_eq!(mark.start(), 17);
    mark.set_value("2.0.0".to_string());
    assert_eq!(mark.value(), "2.0.0");
    assert_eq!(mark.start(), 17);
}

#[test]
fn char_marks_turn_into_byte_marks() {
    let cmark = CharMark::new("1.2.3".to_string(), 4);
    assert_eq!(cmark.value(), "1.2.3");
    assert_eq!(cmark.char_start(), 4);
    let mark = convert_mark("éé: 1.2.3", cmark).unwrap();
    assert_eq!(mark.start(), 6);
    assert_eq!(mark.value(), "1.2.3");
    assert_eq!(convert_mark("abc", CharMark::new("1.2.3".to_string(), 0)).unwrap().start(), 0);
    assert_eq!(convert_mark("abc", CharMark::new("1.2.3".to_string(), 3)).unwrap_err().kind(), ErrorKind::PickerNotFound);
    assert_eq!(convert_mark("abc", CharMark::new("x".to_string(), 1)).unwrap_err().kind(), ErrorKind::VersionParse);
}

#[test]
fn named_data_holds_text_and_path() {
    let data = NamedData::new(None, "text".to_string());
    assert_eq!(data.data(), "text");
    assert_eq!(data.writeable_path(), &None);
    let marked = data.mark(Mark::make("1.2.3".to_string(), 1).unwrap());
    assert_eq!(marked.data(), "text");
    assert_eq!(marked.start(), 1);
    assert_eq!(marked.value(), "1.2.3");
}

#[test]
fn set_value_replaces_the_span() {
    let text = "é version: 1.2.3 (é)".to_string();
    let start = text.find("1.2.3").unwrap();
    let mut marked = MarkedData::new(Some("f".to_string()), text, Mark::make("1.2.3".to_string(), start).unwrap());
    assert!(marked.is_fit());
    marked.set_value("10.20.30").unwrap();
    assert_eq!(marked.data(), "é version: 10.20.30 (é)");
    assert_eq!(marked.value(), "10.20.30");
    assert_eq!(marked.start(), start);
    marked.write_new_value("0.0.1").unwrap();
    assert_eq!(marked.data(), "é version: 0.0.1 (é)");
}

#[test]
fn set_value_refuses_a_mark_outside_the_text() {
    let mut past = MarkedData::new(Some("f".to_string()), "1.2.3".to_string(), Mark::make("1.2.3".to_string(), 1).unwrap());
    assert!(!past.is_fit());
    assert_eq!(past.set_value("2.0.0").unwrap_err().kind(), ErrorKind::PickerNotFound);
    assert_eq!(past.data(), "1.2.3");
    assert_eq!(past.value(), "1.2.3");

    let mut split = MarkedData::new(Some("f".to_string()), "é1.2.3".to_string(), Mark::make("1.2.3".to_string(), 1).unwrap());
    assert!(!split.is_fit());
    assert!(split.set_value("2.0.0").is_err());
    let mut far = MarkedData::new(None, "".to_string(), Mark::make("1.2.3".to_string(), usize::MAX).unwrap());
    assert!(far.write_new_value("2.0.0").is_err());
}

#[test]
fn write_new_value_needs_a_path() {
    let mut marked = MarkedData::new(None, "1.2.3".to_string(), Mark::make("1.2.3".to_string(), 0).unwrap());
    assert_eq!(marked.write_new_value("2.0.0").unwrap_err().kind(), ErrorKind::IoError);
    assert_eq!(marked.data(), "1.2.3");
}

#[test]
fn file_picker_takes_the_whole_file() {
    let picker = FilePicker {};
    let mark = picker.find("1.2.3\n \t\r\n").unwrap();
    assert_eq!(mark.value(), "1.2.3");
    assert_eq!(mark.start(), 0);
    assert_eq!(picker.find(" 1.2.3").unwrap_err().kind(), ErrorKind::VersionParse);
    assert_eq!(picker.find("").unwrap_err().kind(), ErrorKind::VersionParse);
    let marked = picker.scan(NamedData::new(Some("VERSION".to_string()), "2.0.0\n".to_string())).unwrap();
    assert_eq!(marked.value(), "2.0.0");
    assert_eq!(marked.data(), "2.0.0\n");
}

#[test]
fn trimming_takes_unicode_white_space() {
    assert_eq!(trim_end("a b \u{2003}\n"), "a b");
    assert_eq!(trim_end("   "), "");
    assert_eq!(trim_end(""), "");
    assert_eq!(trim_end("x"), "x");
    assert_eq!(trim(" \u{a0}a b\t"), vec!['a', ' ', 'b']);
    assert_eq!(trim(" \n "), Vec::<char>::new());
}

#[test]
fn contains_finds_a_text_in_a_text() {
    assert!(contains("alphabet", "bet"));
    assert!(contains("alphabet", "alphabet"));
    assert!(contains("alphabet", ""));
    assert!(contains("", ""));
    assert!(!contains("alphabet", "beta"));
    assert!(!contains("", "a"));
    assert!(contains("aab", "ab"));
}

#[test]
fn pickers_name_their_kind() {
    let parts = || ScanningPicker { parts: vec![Part::Key("version".to_string()), Part::Index(2)] };
    assert_eq!(Picker::Json(parts()).picker_type(), "json");
    assert_eq!(Picker::Yaml(parts()).picker_type(), "yaml");
    assert_eq!(Picker::Toml(parts()).picker_type(), "toml");
    assert_eq!(Picker::Xml(parts()).picker_type(), "xml");
    assert_eq!(Picker::Line(LinePicker { pattern: "".to_string() }).picker_type(), "line");
    assert_eq!(Picker::File(FilePicker {}).picker_type(), "file");
}

#[test]
fn a_picker_hands_structured_files_to_its_scanner() {
    let picker = Picker::Yaml(ScanningPicker { parts: vec![Part::Key("a".to_string()), Part::Key("b".to_string())] });
    let found = picker.find::<Never, Fixed, Never, Never>("x").unwrap();
    assert_eq!(found.value(), "4.5.6");
    assert_eq!(found.start(), 2);
    assert!(picker.find::<Fixed, Never, Fixed, Fixed>("x").is_err());
    let marked = picker.scan::<Never, Fixed, Never, Never>(NamedData::new(None, "ab4.5.6".to_string())).unwrap();
    assert_eq!(marked.value(), "4.5.6");
    assert_eq!(marked.data(), "ab4.5.6");
    let line = Picker::Line(LinePicker { pattern: "=(.*)".to_string() });
    assert_eq!(line.find::<Never, Never, Never, Never>("v=1.0.0").unwrap().start(), 2);
    let file = Picker::File(FilePicker {});
    assert_eq!(file.find::<Never, Never, Never, Never>("1.0.0\n").unwrap().value(), "1.0.0");
}

#[test]
fn a_pick_path_writes_a_value_into_the_text() {
    let pick = PickPath::new("VERSION".to_string(), Picker::Line(LinePicker { pattern: "v([0-9.]+)".to_string() }));
    let marked = pick.write_value::<Never, Never, Never, Never>("now: v1.2.3!\n".to_string(), "1.3.0").unwrap();
    assert_eq!(marked.data(), "now: v1.3.0!\n");
    assert_eq!(marked.writeable_path(), &Some("VERSION".to_string()));
    assert!(pick.write_value::<Never, Never, Never, Never>("none".to_string(), "1.3.0").is_err());
}

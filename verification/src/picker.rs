//! Pickers: the ways in which a manifest says where a version stands in a file.

use crate::error::{Error, ErrorKind};
use crate::mark::{is_version_text, Mark, MarkedData, NamedData};
use crate::text::{trim_end, trimmed_end};
use vstd::prelude::*;
use vstd::string::StringExecFns;

verus! {

/// Whether the regular expression `pattern` compiles.
pub uninterp spec fn regex_compiles(pattern: Seq<char>) -> bool;

/// What the first match of the regular expression `pattern` in `text` gives for the capture
/// group `group`: nothing where there is no match; for a match, nothing where the group took
/// no part in it, else the text that the group matched and the byte at which it starts.
pub uninterp spec fn regex_group(pattern: Seq<char>, text: Seq<char>, group: nat) -> Option<
    Option<(Seq<char>, nat)>,
>;

/// What a search found, as plain values.
pub open spec fn found_view(found: Option<Option<(String, usize)>>) -> Option<
    Option<(Seq<char>, nat)>,
> {
    match found {
        None => None,
        Some(None) => Some(None),
        Some(Some((v, at))) => Some(Some((v@, at as nat))),
    }
}

/// Searches `text` for the first match of the regular expression `pattern` and gives what the
/// capture group `group` matched, with the byte at which it starts.
///
/// Trusted: `regex::Regex::new` compiles the pattern or refuses it, `Regex::captures` gives
/// the leftmost match, `Captures::get` gives the group unless it took no part, and
/// `Match::as_str` and `Match::start` give its text and start. All of it depends on the
/// pattern and the text alone. Where the pattern is refused, the error is handed on as the
/// text that the crate gives for it.
#[verifier::external_body]
fn capture_group(pattern: &str, text: &str, group: usize) -> (r: Result<
    Option<Option<(String, usize)>>,
    String,
>)
    ensures
        r is Ok == regex_compiles(pattern@),
        r matches Ok(found) ==> found_view(found) == regex_group(pattern@, text@, group as nat),
{
    match regex::Regex::new(pattern) {
        Ok(re) => Ok(
            re.captures(text).map(|c| c.get(group).map(|m| (m.as_str().to_string(), m.start()))),
        ),
        Err(e) => Err(e.to_string()),
    }
}

/// Whether the regular expression `pattern` matches somewhere in `text`.
pub uninterp spec fn regex_matches(pattern: Seq<char>, text: Seq<char>) -> bool;

/// Whether the regular expression `pattern` matches somewhere in `text`.
///
/// Trusted: `regex::Regex::new` compiles the pattern or refuses it, and `Regex::is_match` says
/// whether the compiled pattern matches anywhere in the text. Both depend on their arguments
/// alone. Where the pattern is refused, the error is handed on as the text that the crate
/// gives for it.
#[verifier::external_body]
fn is_match(pattern: &str, text: &str) -> (r: Result<bool, String>)
    ensures
        r is Ok == regex_compiles(pattern@),
        r matches Ok(b) ==> b == regex_matches(pattern@, text@),
{
    match regex::Regex::new(pattern) {
        Ok(re) => Ok(re.is_match(text)),
        Err(e) => Err(e.to_string()),
    }
}

/// The names among `names` that the regular expression `pattern` matches, in their order.
pub open spec fn matching(names: Seq<String>, pattern: Seq<char>) -> Seq<String>
    decreases names.len(),
{
    if names.len() == 0 {
        Seq::empty()
    } else {
        let rest = matching(names.drop_last(), pattern);
        if regex_matches(pattern, names.last()@) {
            rest.push(names.last())
        } else {
            rest
        }
    }
}

/// The names of the directories among `names` that the regular expression `regex` matches. A
/// pattern that does not compile is an error of the manifest.
pub fn subdirs(names: &Vec<String>, regex: &str) -> (r: Result<Vec<String>, Error>)
    ensures
        r is Ok == regex_compiles(regex@),
        r matches Ok(v) ==> v@ == matching(names@, regex@),
        r matches Err(e) ==> e.kind() == ErrorKind::ManifestInvalid,
{
    match is_match(regex, "") {
        Ok(_) => {},
        Err(d) => {
            return Err(Error::new(ErrorKind::ManifestInvalid, d));
        },
    }
    let mut out: Vec<String> = Vec::new();
    let mut i: usize = 0;
    while i < names.len()
        invariant
            i <= names.len(),
            regex_compiles(regex@),
            out@ == matching(names@.take(i as int), regex@),
        decreases names.len() - i,
    {
        proof {
            let t = names@.take(i + 1);
            assert(t.drop_last() =~= names@.take(i as int));
            assert(t.last() == names@[i as int]);
        }
        match is_match(regex, names[i].as_str()) {
            Ok(true) => {
                out.push(names[i].clone());
            },
            _ => {},
        }
        i = i + 1;
    }
    proof {
        assert(names@.take(names.len() as int) =~= names@);
    }
    Ok(out)
}

/// A step on the way to a value in a structured file.
#[derive(Clone, Debug)]
pub enum Part {
    /// The entry of a map under a key.
    Key(String),
    /// The entry of a sequence at an index.
    Index(usize),
}

/// Whether `r` is the text `data` together with what a search gave: with the mark `found`
/// the text and its path stay and the mark is that mark; an error is handed on as it is.
pub open spec fn marked_with(
    r: Result<MarkedData, Error>,
    data: NamedData,
    found: Result<Mark, Error>,
) -> bool {
    match found {
        Ok(mark) => {
            &&& r is Ok
            &&& r.unwrap().spec_value() == mark.spec_value()
            &&& r.unwrap().spec_start() == mark.spec_start()
            &&& r.unwrap().spec_data() == data.spec_data()
            &&& r.unwrap().spec_path() == data.spec_path()
        },
        Err(e) => r == Err::<MarkedData, Error>(e),
    }
}

/// What finds a mark in the text of a structured file. The formats themselves are not part of
/// this library: what reads one implements this trait.
pub trait Scanner: Sized {
    /// A scanner that follows the given steps.
    fn build(parts: Vec<Part>) -> Self;

    /// The mark of the value that the steps lead to in `data`.
    fn find(&self, data: &str) -> Result<Mark, Error>;

    /// The text `data` together with the mark that `find` gives for it: `find` is asked once,
    /// for the text of `data`, and its error is handed on.
    fn scan(&self, data: NamedData) -> (r: Result<MarkedData, Error>)
        ensures
            exists|text: &str, found: Result<Mark, Error>|
                text@ == data.spec_data() && #[trigger] call_ensures(
                    Self::find,
                    (self, text),
                    found,
                ) && marked_with(r, data, found),
    {
        let text = data.data();
        let found = self.find(text);
        let r = match found {
            Ok(mark) => Ok(data.mark(mark)),
            Err(e) => Err(e),
        };
        proof {
            assert(call_ensures(Self::find, (self, text), found) && marked_with(r, data, found));
        }
        r
    }
}

/// A picker for a structured file: the steps that lead to the value.
#[derive(Clone, Debug)]
pub struct ScanningPicker {
    pub parts: Vec<Part>,
}

/// The same steps again.
fn copy_parts(parts: &Vec<Part>) -> (r: Vec<Part>)
    ensures
        r@ == parts@,
{
    let mut r: Vec<Part> = Vec::new();
    let mut i: usize = 0;
    while i < parts.len()
        invariant
            i <= parts.len(),
            r@ == parts@.take(i as int),
        decreases parts.len() - i,
    {
        let part = match &parts[i] {
            Part::Key(key) => Part::Key(key.clone()),
            Part::Index(at) => Part::Index(*at),
        };
        r.push(part);
        proof {
            assert(r@ =~= parts@.take(i + 1));
        }
        i = i + 1;
    }
    proof {
        assert(parts@.take(parts.len() as int) =~= parts@);
    }
    r
}

impl ScanningPicker {
    /// Whether `scanner` may be what the kind `T` builds for the steps of this picker.
    pub open spec fn builds<T: Scanner>(&self, scanner: T) -> bool {
        exists|parts: Vec<Part>|
            parts@ == self.parts@ && #[trigger] call_ensures(T::build, (parts,), scanner)
    }

    /// Whether `r` may be what a scanner of the kind `T`, built for the steps of this picker,
    /// finds in `data`.
    pub open spec fn finds<T: Scanner>(&self, data: &str, r: Result<Mark, Error>) -> bool {
        exists|scanner: T|
            self.builds(scanner) && #[trigger] call_ensures(T::find, (&scanner, data), r)
    }

    /// Whether `r` may be what the `scan` of a scanner of the kind `T`, built for the steps of
    /// this picker, makes of `data`.
    pub open spec fn scans<T: Scanner>(&self, data: NamedData, r: Result<MarkedData, Error>)
        -> bool {
        exists|scanner: T|
            self.builds(scanner) && #[trigger] call_ensures(T::scan, (&scanner, data), r)
    }

    /// The mark that a scanner of the kind `T` finds in `data` on the steps of this picker:
    /// the scanner is built for these steps, and what it finds in `data` is handed on.
    pub fn find<T: Scanner>(&self, data: &str) -> (r: Result<Mark, Error>)
        ensures
            self.finds::<T>(data, r),
    {
        let parts = copy_parts(&self.parts);
        let scanner = T::build(parts);
        let r = scanner.find(data);
        proof {
            assert(call_ensures(T::build, (parts,), scanner));
            assert(self.builds(scanner) && call_ensures(T::find, (&scanner, data), r));
        }
        r
    }

    /// The text `data` together with the mark that a scanner of the kind `T` finds in it: the
    /// scanner is built for the steps of this picker, and what its `scan` makes of `data` is
    /// handed on.
    pub fn scan<T: Scanner>(&self, data: NamedData) -> (r: Result<MarkedData, Error>)
        ensures
            self.scans::<T>(data, r),
    {
        let parts = copy_parts(&self.parts);
        let scanner = T::build(parts);
        let r = scanner.scan(data);
        proof {
            assert(call_ensures(T::build, (parts,), scanner));
            assert(self.builds(scanner) && call_ensures(T::scan, (&scanner, data), r));
        }
        r
    }
}

/// A picker that takes the first capture group of a regular expression.
#[derive(Clone, Debug)]
pub struct LinePicker {
    pub pattern: String,
}

/// What a line picker makes of a search: the value and its start, or the kind of the error.
pub open spec fn line_pick(found: Option<Option<(Seq<char>, nat)>>) -> Result<
    (Seq<char>, nat),
    ErrorKind,
> {
    match found {
        Some(Some((v, at))) => if is_version_text(v) {
            Ok((v, at))
        } else {
            Err(ErrorKind::VersionParse)
        },
        _ => Err(ErrorKind::PickerNotFound),
    }
}

/// What a line picker with the pattern `pattern` finds in `data`: a pattern that does not
/// compile is an error of the manifest.
pub open spec fn line_found(pattern: Seq<char>, data: Seq<char>) -> Result<
    (Seq<char>, nat),
    ErrorKind,
> {
    if regex_compiles(pattern) {
        line_pick(regex_group(pattern, data, 1))
    } else {
        Err(ErrorKind::ManifestInvalid)
    }
}

/// Whether a result holds the mark or the kind of error that `expected` says.
pub open spec fn mark_is(r: Result<Mark, Error>, expected: Result<(Seq<char>, nat), ErrorKind>)
    -> bool {
    match (r, expected) {
        (Ok(m), Ok((v, at))) => m.spec_value() == v && m.spec_start() == at,
        (Err(e), Err(k)) => e.kind() == k,
        _ => false,
    }
}

impl LinePicker {
    /// The mark of the first capture group of the pattern in `data`.
    pub fn find(&self, data: &str) -> (r: Result<Mark, Error>)
        ensures
            mark_is(
                r,
                line_found(self.pattern@, data@),
            ),
    {
        LinePicker::find_reg_data(data, self.pattern.as_str())
    }

    /// The text `data` together with the mark of the first capture group of the pattern.
    pub fn scan(&self, data: NamedData) -> (r: Result<MarkedData, Error>)
        ensures
            marked_is(
                r,
                data,
                line_found(self.pattern@, data.spec_data()),
            ),
    {
        LinePicker::scan_reg_data(data, self.pattern.as_str())
    }

    /// The mark for what a search found: the found text must be written as a version. No
    /// match, and a match in which the group took no part, give no mark.
    pub fn mark_found(found: Option<Option<(String, usize)>>) -> (r: Result<Mark, Error>)
        ensures
            mark_is(r, line_pick(found_view(found))),
    {
        match found {
            None => Err(Error::new(ErrorKind::PickerNotFound, String::from_str("No match."))),
            Some(None) => Err(
                Error::new(ErrorKind::PickerNotFound, String::from_str("No capture group.")),
            ),
            Some(Some((value, index))) => Mark::make(value, index),
        }
    }

    /// The mark of the first capture group of `pattern` in `data`. A pattern that does not
    /// compile is an error of the manifest.
    pub fn find_reg_data(data: &str, pattern: &str) -> (r: Result<Mark, Error>)
        ensures
            mark_is(
                r,
                line_found(pattern@, data@),
            ),
    {
        match capture_group(pattern, data, 1) {
            Ok(found) => LinePicker::mark_found(found),
            Err(d) => Err(Error::new(ErrorKind::ManifestInvalid, d)),
        }
    }

    /// The text `data` together with the mark of the first capture group of `pattern`.
    pub fn scan_reg_data(data: NamedData, pattern: &str) -> (r: Result<MarkedData, Error>)
        ensures
            marked_is(
                r,
                data,
                line_found(pattern@, data.spec_data()),
            ),
    {
        match LinePicker::find_reg_data(data.data(), pattern) {
            Ok(mark) => Ok(data.mark(mark)),
            Err(e) => Err(e),
        }
    }
}

/// Whether a result holds `data` with the mark, or the kind of error, that `expected` says.
pub open spec fn marked_is(
    r: Result<MarkedData, Error>,
    data: NamedData,
    expected: Result<(Seq<char>, nat), ErrorKind>,
) -> bool {
    match (r, expected) {
        (Ok(m), Ok((v, at))) => {
            &&& m.spec_value() == v
            &&& m.spec_start() == at
            &&& m.spec_data() == data.spec_data()
            &&& m.spec_path() == data.spec_path()
        },
        (Err(e), Err(k)) => e.kind() == k,
        _ => false,
    }
}

/// A picker for a file that holds nothing but the version.
#[derive(Clone, Debug)]
pub struct FilePicker {}

/// What a file picker makes of a text: the text without the white space at its end, where that
/// is written as a version.
pub open spec fn file_pick(data: Seq<char>) -> Result<(Seq<char>, nat), ErrorKind> {
    if is_version_text(trimmed_end(data)) {
        Ok((trimmed_end(data), 0nat))
    } else {
        Err(ErrorKind::VersionParse)
    }
}

impl FilePicker {
    /// The mark of the whole text, without the white space at its end.
    pub fn find(&self, data: &str) -> (r: Result<Mark, Error>)
        ensures
            mark_is(r, file_pick(data@)),
    {
        let value = trim_end(data);
        Mark::make(value, 0)
    }

    /// The text `data` together with the mark of the whole text.
    pub fn scan(&self, data: NamedData) -> (r: Result<MarkedData, Error>)
        ensures
            marked_is(r, data, file_pick(data.spec_data())),
    {
        match self.find(data.data()) {
            Ok(mark) => Ok(data.mark(mark)),
            Err(e) => Err(e),
        }
    }
}

/// The way in which a manifest says where the version stands in a file.
#[derive(Clone, Debug)]
pub enum Picker {
    /// In a file of JSON.
    Json(ScanningPicker),
    /// In a file of YAML.
    Yaml(ScanningPicker),
    /// In a file of TOML.
    Toml(ScanningPicker),
    /// In a file of XML.
    Xml(ScanningPicker),
    /// In the first capture group of a regular expression.
    Line(LinePicker),
    /// The whole file.
    File(FilePicker),
}

impl Picker {
    /// The word for the kind of the picker.
    pub fn picker_type(&self) -> (r: &'static str)
        ensures
            r@ == (match self {
                Picker::Json(_) => "json"@,
                Picker::Yaml(_) => "yaml"@,
                Picker::Toml(_) => "toml"@,
                Picker::Xml(_) => "xml"@,
                Picker::Line(_) => "line"@,
                Picker::File(_) => "file"@,
            }),
    {
        match self {
            Picker::Json(_) => "json",
            Picker::Yaml(_) => "yaml",
            Picker::Toml(_) => "toml",
            Picker::Xml(_) => "xml",
            Picker::Line(_) => "line",
            Picker::File(_) => "file",
        }
    }

    /// Whether `other` is a picker of the same kind with the same steps or the same pattern.
    pub open spec fn same(&self, other: &Picker) -> bool {
        match (*self, *other) {
            (Picker::Json(a), Picker::Json(b)) => a.parts@ == b.parts@,
            (Picker::Yaml(a), Picker::Yaml(b)) => a.parts@ == b.parts@,
            (Picker::Toml(a), Picker::Toml(b)) => a.parts@ == b.parts@,
            (Picker::Xml(a), Picker::Xml(b)) => a.parts@ == b.parts@,
            (Picker::Line(a), Picker::Line(b)) => a.pattern == b.pattern,
            (Picker::File(_), Picker::File(_)) => true,
            _ => false,
        }
    }

    /// The same picker again.
    pub fn copy(&self) -> (r: Picker)
        ensures
            self.same(&r),
    {
        match self {
            Picker::Json(p) => Picker::Json(ScanningPicker { parts: copy_parts(&p.parts) }),
            Picker::Yaml(p) => Picker::Yaml(ScanningPicker { parts: copy_parts(&p.parts) }),
            Picker::Toml(p) => Picker::Toml(ScanningPicker { parts: copy_parts(&p.parts) }),
            Picker::Xml(p) => Picker::Xml(ScanningPicker { parts: copy_parts(&p.parts) }),
            Picker::Line(p) => Picker::Line(LinePicker { pattern: p.pattern.clone() }),
            Picker::File(_) => Picker::File(FilePicker {}),
        }
    }

    /// Whether the picker is for a structured file, which a scanner reads.
    pub open spec fn is_structured(&self) -> bool {
        self is Json || self is Yaml || self is Toml || self is Xml
    }

    /// Whether `r` may be what the picker finds in `data`: for a structured file, what a
    /// scanner of its kind finds; else what the pattern or the whole text gives.
    pub open spec fn finds<J: Scanner, Y: Scanner, T: Scanner, X: Scanner>(
        &self,
        data: &str,
        r: Result<Mark, Error>,
    ) -> bool {
        match self {
            Picker::Json(p) => p.finds::<J>(data, r),
            Picker::Yaml(p) => p.finds::<Y>(data, r),
            Picker::Toml(p) => p.finds::<T>(data, r),
            Picker::Xml(p) => p.finds::<X>(data, r),
            Picker::Line(p) => mark_is(r, line_found(p.pattern@, data@)),
            Picker::File(_) => mark_is(r, file_pick(data@)),
        }
    }

    /// Whether `r` may be what the picker makes of `data`: for a structured file, what the
    /// `scan` of a scanner of its kind gives; else `data` with what the pattern or the whole
    /// text gives.
    pub open spec fn scans<J: Scanner, Y: Scanner, T: Scanner, X: Scanner>(
        &self,
        data: NamedData,
        r: Result<MarkedData, Error>,
    ) -> bool {
        match self {
            Picker::Json(p) => p.scans::<J>(data, r),
            Picker::Yaml(p) => p.scans::<Y>(data, r),
            Picker::Toml(p) => p.scans::<T>(data, r),
            Picker::Xml(p) => p.scans::<X>(data, r),
            Picker::Line(p) => marked_is(r, data, line_found(p.pattern@, data.spec_data())),
            Picker::File(_) => marked_is(r, data, file_pick(data.spec_data())),
        }
    }

    /// The text `data` together with the mark that the picker finds in it. The four kinds of
    /// scanner read the structured files.
    pub fn scan<J: Scanner, Y: Scanner, T: Scanner, X: Scanner>(&self, data: NamedData) -> (r:
        Result<MarkedData, Error>)
        ensures
            self.scans::<J, Y, T, X>(data, r),
            self matches Picker::Line(p) ==> marked_is(
                r,
                data,
                line_found(p.pattern@, data.spec_data()),
            ),
            self is File ==> marked_is(r, data, file_pick(data.spec_data())),
    {
        match self {
            Picker::Json(p) => p.scan::<J>(data),
            Picker::Yaml(p) => p.scan::<Y>(data),
            Picker::Toml(p) => p.scan::<T>(data),
            Picker::Xml(p) => p.scan::<X>(data),
            Picker::Line(p) => p.scan(data),
            Picker::File(p) => p.scan(data),
        }
    }

    /// The mark that the picker finds in `data`. The four kinds of scanner read the structured
    /// files.
    pub fn find<J: Scanner, Y: Scanner, T: Scanner, X: Scanner>(&self, data: &str) -> (r: Result<
        Mark,
        Error,
    >)
        ensures
            self.finds::<J, Y, T, X>(data, r),
            self matches Picker::Line(p) ==> mark_is(
                r,
                line_found(p.pattern@, data@),
            ),
            self is File ==> mark_is(r, file_pick(data@)),
    {
        match self {
            Picker::Json(p) => p.find::<J>(data),
            Picker::Yaml(p) => p.find::<Y>(data),
            Picker::Toml(p) => p.find::<T>(data),
            Picker::Xml(p) => p.find::<X>(data),
            Picker::Line(p) => p.find(data),
            Picker::File(p) => p.find(data),
        }
    }
}

} // verus!

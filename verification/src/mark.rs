//! Marks: where in a text the version of a project stands, and the pickers that find it.

use crate::error::{Error, ErrorKind};
use crate::text::{all_digits, chars_of, digit_of, find_dot, first_dot, is_digit};
use vstd::prelude::*;
use vstd::string::StringExecFns;
use vstd::utf8::{encode_utf8, is_char_boundary};

verus! {

/// Whether `v` is written as a version: three runs of ASCII digits, none of them empty, with a
/// full stop between the first and the second and between the second and the third. Only the
/// ten ASCII digits count as digits: a decimal digit of another script makes no version, as it
/// makes no number that `Size::parts` could read.
pub open spec fn is_version_text(v: Seq<char>) -> bool {
    let i = first_dot(v);
    let rest = v.skip(i + 1);
    let j = first_dot(rest);
    let last = rest.skip(j + 1);
    &&& i < v.len()
    &&& j < rest.len()
    &&& first_dot(last) == last.len()
    &&& i > 0 && all_digits(v.take(i))
    &&& j > 0 && all_digits(rest.take(j))
    &&& last.len() > 0 && all_digits(last)
}

/// Whether the characters of `v` from `lo` up to `hi` are ASCII digits, and at least one.
fn digits_between(v: &Vec<char>, lo: usize, hi: usize) -> (r: bool)
    requires
        lo <= hi <= v.len(),
    ensures
        r == (lo < hi && all_digits(v@.subrange(lo as int, hi as int))),
{
    if lo == hi {
        return false;
    }
    let ghost s = v@.subrange(lo as int, hi as int);
    let mut k: usize = lo;
    while k < hi
        invariant
            lo <= k <= hi <= v.len(),
            s == v@.subrange(lo as int, hi as int),
            forall|i: int| 0 <= i < k - lo ==> is_digit(#[trigger] s[i]),
        decreases hi - k,
    {
        if digit_of(v[k]).is_none() {
            proof {
                assert(s[k - lo] == v@[k as int]);
            }
            return false;
        }
        proof {
            assert(s[k - lo] == v@[k as int]);
        }
        k = k + 1;
    }
    true
}

/// Whether `value` is written as a version.
pub fn is_version(value: &str) -> (r: bool)
    ensures
        r == is_version_text(value@),
{
    let c = chars_of(value);
    let n = c.len();
    let i = find_dot(&c, 0);
    proof {
        assert(c@.skip(0) =~= c@);
    }
    if i < n {
        let j = find_dot(&c, i + 1);
        if j < n {
            let k = find_dot(&c, j + 1);
            proof {
                let rest = c@.skip(i + 1);
                assert(rest.skip(j - i) =~= c@.skip(j + 1));
                assert(c@.take(i as int) =~= c@.subrange(0, i as int));
                assert(rest.take(j - (i + 1)) =~= c@.subrange(i + 1, j as int));
                assert(c@.skip(j + 1) =~= c@.subrange(j + 1, n as int));
            }
            if k == n {
                return digits_between(&c, 0, i) && digits_between(&c, i + 1, j) && digits_between(
                    &c,
                    j + 1,
                    n,
                );
            }
        }
    }
    false
}

/// The value of a version in a text, and the byte at which it starts.
#[derive(Debug)]
pub struct Mark {
    value: String,
    byte_start: usize,
}

impl Mark {
    /// The value, as contracts speak of it.
    pub closed spec fn spec_value(&self) -> Seq<char> {
        self.value@
    }

    /// The byte at which the value starts, as contracts speak of it.
    pub closed spec fn spec_start(&self) -> usize {
        self.byte_start
    }

    /// A mark for `value`, which must be written as a version, in ASCII digits.
    pub fn make(value: String, byte_start: usize) -> (r: Result<Mark, Error>)
        ensures
            r is Ok == is_version_text(value@),
            r matches Ok(m) ==> m.spec_value() == value@ && m.spec_start() == byte_start,
            r matches Err(e) ==> e.kind() == ErrorKind::VersionParse,
    {
        if !is_version(value.as_str()) {
            let mut d = String::from_str("Value is not a version: ");
            d.append(value.as_str());
            return Err(Error::new(ErrorKind::VersionParse, d));
        }
        Ok(Mark { value, byte_start })
    }

    /// The value.
    pub fn value(&self) -> (r: &str)
        ensures
            r@ == self.spec_value(),
    {
        self.value.as_str()
    }

    /// Puts another value in place of the value; the start stays.
    pub fn set_value(&mut self, new_val: String)
        ensures
            final(self).spec_value() == new_val@,
            final(self).spec_start() == old(self).spec_start(),
    {
        self.value = new_val;
    }

    /// The byte at which the value starts.
    pub fn start(&self) -> (r: usize)
        ensures
            r == self.spec_start(),
    {
        self.byte_start
    }
}

/// The value of a version in a text, and the character at which it starts.
#[derive(Debug)]
pub struct CharMark {
    value: String,
    char_start: usize,
}

impl CharMark {
    /// The value, as contracts speak of it.
    pub closed spec fn spec_value(&self) -> Seq<char> {
        self.value@
    }

    /// The character at which the value starts, as contracts speak of it.
    pub closed spec fn spec_char_start(&self) -> usize {
        self.char_start
    }

    /// A mark for `value`, which starts at the character `char_start`.
    pub fn new(value: String, char_start: usize) -> (r: CharMark)
        ensures
            r.spec_value() == value@,
            r.spec_char_start() == char_start,
    {
        CharMark { value, char_start }
    }

    /// The value.
    pub fn value(&self) -> (r: &str)
        ensures
            r@ == self.spec_value(),
    {
        self.value.as_str()
    }

    /// The character at which the value starts.
    pub fn char_start(&self) -> (r: usize)
        ensures
            r == self.spec_char_start(),
    {
        self.char_start
    }
}

/// The byte at which the character `n` of `data` starts.
///
/// Trusted: `str::char_indices` gives each character with the byte at which it starts, which
/// is the length in bytes of the characters before it, and `nth` gives none where `data` has
/// no character `n`.
#[verifier::external_body]
fn byte_offset(data: &str, n: usize) -> (r: Option<usize>)
    ensures
        r is Some == (n < data@.len()),
        r matches Some(at) ==> at == encode_utf8(data@.take(n as int)).len(),
{
    data.char_indices().nth(n).map(|p| p.0)
}

/// The mark that starts at the byte where the character of `cmark` starts. It is refused
/// where `data` has no such character, or the value of `cmark` is not written as a version.
pub fn convert_mark(data: &str, cmark: CharMark) -> (r: Result<Mark, Error>)
    ensures
        r is Ok == (cmark.spec_char_start() < data@.len() && is_version_text(cmark.spec_value())),
        r matches Ok(m) ==> m.spec_value() == cmark.spec_value() && m.spec_start() == encode_utf8(
            data@.take(cmark.spec_char_start() as int),
        ).len(),
        r matches Err(e) ==> e.kind() == (if cmark.spec_char_start() < data@.len() {
            ErrorKind::VersionParse
        } else {
            ErrorKind::PickerNotFound
        }),
{
    match byte_offset(data, cmark.char_start()) {
        Some(start) => Mark::make(cmark.value, start),
        None => Err(
            Error::new(ErrorKind::PickerNotFound, String::from_str("No such character in data.")),
        ),
    }
}

/// A text, and the path of the file that it may be written to.
#[derive(Debug)]
pub struct NamedData {
    writeable_path: Option<String>,
    data: String,
}

impl NamedData {
    /// The path, as contracts speak of it.
    pub closed spec fn spec_path(&self) -> Option<String> {
        self.writeable_path
    }

    /// The text, as contracts speak of it.
    pub closed spec fn spec_data(&self) -> Seq<char> {
        self.data@
    }

    /// A text with the path that it may be written to.
    pub fn new(writeable_path: Option<String>, data: String) -> (r: NamedData)
        ensures
            r.spec_path() == writeable_path,
            r.spec_data() == data@,
    {
        NamedData { writeable_path, data }
    }

    /// The path of the file that the text may be written to.
    pub fn writeable_path(&self) -> (r: &Option<String>)
        ensures
            *r == self.spec_path(),
    {
        &self.writeable_path
    }

    /// The text.
    pub fn data(&self) -> (r: &str)
        ensures
            r@ == self.spec_data(),
    {
        self.data.as_str()
    }

    /// The text together with a mark in it.
    pub fn mark(self, mark: Mark) -> (r: MarkedData)
        ensures
            r.spec_path() == self.spec_path(),
            r.spec_data() == self.spec_data(),
            r.spec_value() == mark.spec_value(),
            r.spec_start() == mark.spec_start(),
    {
        MarkedData::new(self.writeable_path, self.data, mark)
    }
}

/// The length of `s` in bytes.
///
/// Trusted: `str::len` counts the bytes of the UTF-8 form of the slice, and no slice is longer
/// than `usize` can say.
#[verifier::external_body]
fn byte_len(s: &str) -> (n: usize)
    ensures
        n == encode_utf8(s@).len(),
{
    s.len()
}

/// Puts `with` in place of the bytes of `data` from `start` up to `end`.
///
/// Trusted: `String::replace_range` removes that range and puts the replacement in its place;
/// it panics unless both ends lie on character boundaries, which the `requires` demands.
#[verifier::external_body]
fn replace_span(data: &mut String, start: usize, end: usize, with: &str)
    requires
        start <= end <= encode_utf8(old(data)@).len(),
        is_char_boundary(encode_utf8(old(data)@), start as int),
        is_char_boundary(encode_utf8(old(data)@), end as int),
    ensures
        encode_utf8(final(data)@) == encode_utf8(old(data)@).subrange(0, start as int)
            + encode_utf8(with@) + encode_utf8(old(data)@).skip(end as int),
{
    data.replace_range(start..end, with);
}

/// Whether the value `value` at the byte `start` lies in the text `data`: it starts and ends
/// within the text, on the boundaries of characters.
pub open spec fn span_fits(data: Seq<char>, value: Seq<char>, start: nat) -> bool {
    let bytes = encode_utf8(data);
    let end = start + encode_utf8(value).len();
    &&& end <= bytes.len()
    &&& is_char_boundary(bytes, start as int)
    &&& is_char_boundary(bytes, end as int)
}

/// Whether `r` is what the writing of `val` in place of a found value gives. `found` is the
/// value that was found in `data` and the byte at which it starts, or the kind of the error
/// with which it was looked for. A value that does not lie in the text, and a text without a
/// path to write to, are errors; else the bytes before and after the value stay.
pub open spec fn rewritten_is(
    r: Result<MarkedData, Error>,
    data: NamedData,
    found: Result<(Seq<char>, nat), ErrorKind>,
    val: Seq<char>,
) -> bool {
    match found {
        Err(k) => r is Err && r.unwrap_err().kind() == k,
        Ok((v, at)) => if !span_fits(data.spec_data(), v, at) {
            r is Err && r.unwrap_err().kind() == ErrorKind::PickerNotFound
        } else if data.spec_path() is None {
            r is Err && r.unwrap_err().kind() == ErrorKind::IoError
        } else {
            let bytes = encode_utf8(data.spec_data());
            &&& r is Ok
            &&& r.unwrap().bytes() == bytes.subrange(0, at as int) + encode_utf8(val) + bytes.skip(
                (at + encode_utf8(v).len()) as int,
            )
            &&& r.unwrap().spec_value() == val
            &&& r.unwrap().spec_start() == at
            &&& r.unwrap().spec_path() == data.spec_path()
        },
    }
}

/// Whether `r` is the value of what a search gave: the value of the mark, or the error of the
/// search as it is.
pub open spec fn value_from(r: Result<String, Error>, found: Result<Mark, Error>) -> bool {
    match found {
        Ok(mark) => r is Ok && r.unwrap()@ == mark.spec_value(),
        Err(e) => r == Err::<String, Error>(e),
    }
}

/// Whether `r` is what the writing of `val` into what a scan gave gives: the error of the
/// scan as it is; an error where the mark does not lie in the text or there is no path to
/// write to; else the scanned text with `val` in place of the value.
pub open spec fn rewritten_from(
    r: Result<MarkedData, Error>,
    scanned: Result<MarkedData, Error>,
    val: Seq<char>,
) -> bool {
    match scanned {
        Err(e) => r == Err::<MarkedData, Error>(e),
        Ok(marked) => if !marked.fits() {
            r is Err && r.unwrap_err().kind() == ErrorKind::PickerNotFound
        } else if marked.spec_path() is None {
            r is Err && r.unwrap_err().kind() == ErrorKind::IoError
        } else {
            r is Ok && r.unwrap().replaced(&marked, val)
        },
    }
}

/// A text, a mark in it, and the path of the file that the text may be written to.
#[derive(Debug)]
pub struct MarkedData {
    writeable_path: Option<String>,
    data: String,
    mark: Mark,
}

impl MarkedData {
    /// The path, as contracts speak of it.
    pub closed spec fn spec_path(&self) -> Option<String> {
        self.writeable_path
    }

    /// The text, as contracts speak of it.
    pub closed spec fn spec_data(&self) -> Seq<char> {
        self.data@
    }

    /// The value of the mark, as contracts speak of it.
    pub closed spec fn spec_value(&self) -> Seq<char> {
        self.mark.spec_value()
    }

    /// The byte at which the mark starts, as contracts speak of it.
    pub closed spec fn spec_start(&self) -> usize {
        self.mark.spec_start()
    }

    /// The bytes of the text.
    pub open spec fn bytes(&self) -> Seq<u8> {
        encode_utf8(self.spec_data())
    }

    /// The byte after the last byte of the value.
    pub open spec fn spec_end(&self) -> int {
        self.spec_start() + encode_utf8(self.spec_value()).len()
    }

    /// Whether the mark lies in the text.
    pub open spec fn fits(&self) -> bool {
        span_fits(self.spec_data(), self.spec_value(), self.spec_start() as nat)
    }

    /// A text with a mark in it.
    pub fn new(writeable_path: Option<String>, data: String, mark: Mark) -> (r: MarkedData)
        ensures
            r.spec_path() == writeable_path,
            r.spec_data() == data@,
            r.spec_value() == mark.spec_value(),
            r.spec_start() == mark.spec_start(),
    {
        MarkedData { writeable_path, data, mark }
    }

    /// Puts `new_val` in place of the value in the text, and says where the text is to be
    /// written. It is refused, and nothing changes, where the mark does not lie in the text or
    /// there is no path to write to.
    pub fn write_new_value(&mut self, new_val: &str) -> (r: Result<(), Error>)
        ensures
            r is Ok == (old(self).fits() && old(self).spec_path() is Some),
            r is Ok ==> final(self).replaced(old(self), new_val@),
            r is Err ==> *final(self) == *old(self),
            r matches Err(e) ==> e.kind() == (if old(self).fits() {
                ErrorKind::IoError
            } else {
                ErrorKind::PickerNotFound
            }),
    {
        if !self.is_fit() {
            return Err(MarkedData::no_fit());
        }
        if self.writeable_path.is_none() {
            return Err(
                Error::new(ErrorKind::IoError, String::from_str("Can't write file: none exists.")),
            );
        }
        self.set_value(new_val)
    }

    /// Whether this is `before` with `new_val` in place of the value: the bytes before and
    /// after the value stay, and so do the start of the mark and the path.
    pub open spec fn replaced(&self, before: &MarkedData, new_val: Seq<char>) -> bool {
        &&& self.bytes() == before.bytes().subrange(0, before.spec_start() as int) + encode_utf8(
            new_val,
        ) + before.bytes().skip(before.spec_end())
        &&& self.spec_value() == new_val
        &&& self.spec_start() == before.spec_start()
        &&& self.spec_path() == before.spec_path()
    }

    /// The bytes at which the value starts and ends, where the mark lies in the text.
    fn span(&self) -> (r: Option<(usize, usize)>)
        ensures
            r is Some == self.fits(),
            r matches Some((st, ed)) ==> st == self.spec_start() && ed == self.spec_end(),
    {
        let st = self.mark.start();
        let n = byte_len(self.mark.value());
        let total = byte_len(self.data.as_str());
        if st > total || n > total - st {
            return None;
        }
        if self.data.as_str().is_char_boundary(st) && self.data.as_str().is_char_boundary(st + n) {
            Some((st, st + n))
        } else {
            None
        }
    }

    /// Whether the mark lies in the text.
    pub fn is_fit(&self) -> (r: bool)
        ensures
            r == self.fits(),
    {
        self.span().is_some()
    }

    /// Puts `new_val` in place of the value in the text. It is refused, and nothing changes,
    /// where the mark does not lie in the text.
    pub fn set_value(&mut self, new_val: &str) -> (r: Result<(), Error>)
        ensures
            r is Ok == old(self).fits(),
            r is Ok ==> final(self).replaced(old(self), new_val@),
            r is Err ==> *final(self) == *old(self),
            r matches Err(e) ==> e.kind() == ErrorKind::PickerNotFound,
    {
        match self.span() {
            Some((st, ed)) => {
                replace_span(&mut self.data, st, ed, new_val);
                self.mark.set_value(new_val.to_owned());
                Ok(())
            },
            None => Err(MarkedData::no_fit()),
        }
    }

    fn no_fit() -> (e: Error)
        ensures
            e.kind() == ErrorKind::PickerNotFound,
    {
        Error::new(ErrorKind::PickerNotFound, String::from_str("The mark is not in the data."))
    }

    /// The value of the mark.
    pub fn value(&self) -> (r: &str)
        ensures
            r@ == self.spec_value(),
    {
        self.mark.value()
    }

    /// The byte at which the mark starts.
    pub fn start(&self) -> (r: usize)
        ensures
            r == self.spec_start(),
    {
        self.mark.start()
    }

    /// The text.
    pub fn data(&self) -> (r: &str)
        ensures
            r@ == self.spec_data(),
    {
        self.data.as_str()
    }

    /// The path of the file that the text may be written to.
    pub fn writeable_path(&self) -> (r: &Option<String>)
        ensures
            *r == self.spec_path(),
    {
        &self.writeable_path
    }
}

} // verus!

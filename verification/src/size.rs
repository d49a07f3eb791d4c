//! Increment sizes, and dotted-triple versions.

use crate::error::{Error, ErrorKind};
use crate::text::{
    chars_of, decimal, find_dot, first_dot, lemma_decimal, lemma_first_dot_after,
    lemma_first_dot_none, lemma_parse_decimal, parse_number, parse_range, push_decimal,
    same_chars, string_of,
};
use vstd::prelude::*;
use vstd::string::StringExecFns;

verus! {

/// How far a version moves. The variants stand in rising order: `Fail` is above all others and
/// stops a release.
#[derive(Copy, Clone, Debug, PartialEq, Eq, Ord, Hash, Structural)]
pub enum Size {
    /// No change.
    Empty,
    /// The third number rises.
    Patch,
    /// The second number rises.
    Minor,
    /// The first number rises.
    Major,
    /// The release must not go on.
    Fail,
}

/// A version as three numbers: major, minor, patch.
pub type Triple = (nat, nat, nat);

/// The three numbers that the text `v` holds: exactly three parts between full stops, each of
/// them a number. Any other text holds no version.
pub open spec fn parts_of(v: Seq<char>) -> Option<Triple> {
    let i = first_dot(v);
    let rest = v.skip(i + 1);
    let j = first_dot(rest);
    let last = rest.skip(j + 1);
    if i < v.len() && j < rest.len() && first_dot(last) == last.len() {
        match (parse_number(v.take(i)), parse_number(rest.take(j)), parse_number(last)) {
            (Some(a), Some(b), Some(c)) => Some((a, b, c)),
            _ => None,
        }
    } else {
        None
    }
}

/// The text of a version: its three numbers in decimal, with full stops between them.
pub open spec fn render(t: Triple) -> Seq<char> {
    decimal(t.0) + seq!['.'] + decimal(t.1) + seq!['.'] + decimal(t.2)
}

/// Whether each of the three numbers fits in 32 bits.
pub open spec fn fits(t: Triple) -> bool {
    t.0 <= u32::MAX && t.1 <= u32::MAX && t.2 <= u32::MAX
}

/// Whether `a` comes before `b`: by the first number, then the second, then the third.
pub open spec fn triple_less(a: Triple, b: Triple) -> bool {
    a.0 < b.0 || (a.0 == b.0 && (a.1 < b.1 || (a.1 == b.1 && a.2 < b.2)))
}

/// The size that a word names.
pub open spec fn size_named(v: Seq<char>) -> Option<Size> {
    if v == seq!['m', 'a', 'j', 'o', 'r'] {
        Some(Size::Major)
    } else if v == seq!['m', 'i', 'n', 'o', 'r'] {
        Some(Size::Minor)
    } else if v == seq!['p', 'a', 't', 'c', 'h'] {
        Some(Size::Patch)
    } else if v == seq!['n', 'o', 'n', 'e'] {
        Some(Size::Empty)
    } else if v == seq!['f', 'a', 'i', 'l'] {
        Some(Size::Fail)
    } else {
        None
    }
}

/// Reading back a rendered version gives its three numbers again.
pub proof fn lemma_parts_of_render(t: Triple)
    requires
        fits(t),
    ensures
        parts_of(render(t)) == Some(t),
{
    let a = decimal(t.0);
    let b = decimal(t.1);
    let c = decimal(t.2);
    lemma_decimal(t.0);
    lemma_decimal(t.1);
    lemma_decimal(t.2);
    lemma_parse_decimal(t.0);
    lemma_parse_decimal(t.1);
    lemma_parse_decimal(t.2);
    let tail = b + seq!['.'] + c;
    let v = render(t);
    assert(v =~= a + seq!['.'] + tail);
    lemma_first_dot_after(a, tail);
    lemma_first_dot_after(b, c);
    lemma_first_dot_none(c);
}

/// The empty size changes no maximum, and `Fail` is the maximum with every size.
pub proof fn lemma_max_empty_and_fail(s: Size)
    ensures
        s.spec_max(Size::Empty) == s,
        Size::Empty.spec_max(s) == s,
        s.spec_max(Size::Fail) == Size::Fail,
        Size::Fail.spec_max(s) == Size::Fail,
{
}

/// The maximum of two sizes is one of them, is no smaller than either, and does not depend on
/// the order or the grouping in which sizes are taken.
pub proof fn lemma_max_is_least_upper(a: Size, b: Size, c: Size)
    ensures
        a.spec_max(b) == a || a.spec_max(b) == b,
        a.spec_max(b).rank() >= a.rank(),
        a.spec_max(b).rank() >= b.rank(),
        a.spec_max(b) == b.spec_max(a),
        a.spec_max(b).spec_max(c) == a.spec_max(b.spec_max(c)),
        a.rank() == b.rank() <==> a == b,
{
}

/// Applying the empty size to a version gives the same three numbers, and the same text where
/// the text is written as `render` writes it.
pub proof fn lemma_apply_empty(v: Seq<char>)
    requires
        parts_of(v) is Some,
    ensures
        Size::Empty.spec_apply(v) == Ok::<Seq<char>, ErrorKind>(render(parts_of(v).unwrap())),
        parts_of(Size::Empty.spec_apply(v).unwrap()) == parts_of(v),
        v == render(parts_of(v).unwrap()) ==> Size::Empty.spec_apply(v) == Ok::<
            Seq<char>,
            ErrorKind,
        >(v),
{
    let t = parts_of(v).unwrap();
    lemma_parts_fit(v);
    lemma_parts_of_render(t);
}

/// Applying `Major` raises the first number by one and sets the second and third to zero.
pub proof fn lemma_apply_major(v: Seq<char>)
    requires
        Size::Major.spec_apply(v) is Ok,
    ensures
        parts_of(Size::Major.spec_apply(v).unwrap()) == Some(
            ((parts_of(v).unwrap().0 + 1) as nat, 0nat, 0nat),
        ),
{
    let t = parts_of(v).unwrap();
    lemma_parts_of_render(Size::Major.bump(t));
}

/// A version comes before the version that a size makes of it exactly if the size is `Major`,
/// `Minor` or `Patch`.
pub proof fn lemma_apply_raises(s: Size, v: Seq<char>)
    requires
        s.spec_apply(v) is Ok,
    ensures
        parts_of(s.spec_apply(v).unwrap()) == Some(s.bump(parts_of(v).unwrap())),
        triple_less(parts_of(v).unwrap(), parts_of(s.spec_apply(v).unwrap()).unwrap()) <==> (s
            == Size::Major || s == Size::Minor || s == Size::Patch),
{
    let t = parts_of(v).unwrap();
    lemma_parts_of_render(s.bump(t));
}

/// The three numbers of a version text fit in 32 bits each.
pub proof fn lemma_parts_fit(v: Seq<char>)
    requires
        parts_of(v) is Some,
    ensures
        fits(parts_of(v).unwrap()),
{
}

impl Size {
    /// The place of a size in the order: a greater number for a greater size.
    pub open spec fn rank(self) -> nat {
        match self {
            Size::Empty => 0,
            Size::Patch => 1,
            Size::Minor => 2,
            Size::Major => 3,
            Size::Fail => 4,
        }
    }

    /// The greater of two sizes.
    pub open spec fn spec_max(self, other: Size) -> Size {
        if self.rank() >= other.rank() {
            self
        } else {
            other
        }
    }

    /// The word for a size.
    pub open spec fn spec_name(self) -> Seq<char> {
        match self {
            Size::Major => seq!['m', 'a', 'j', 'o', 'r'],
            Size::Minor => seq!['m', 'i', 'n', 'o', 'r'],
            Size::Patch => seq!['p', 'a', 't', 'c', 'h'],
            Size::Empty => seq!['n', 'o', 'n', 'e'],
            Size::Fail => seq!['f', 'a', 'i', 'l'],
        }
    }

    /// The three numbers of a version after an increment of this size; the lower numbers start
    /// again at zero. `Fail` moves nothing.
    pub open spec fn bump(self, t: Triple) -> Triple {
        match self {
            Size::Major => ((t.0 + 1) as nat, 0, 0),
            Size::Minor => (t.0, (t.1 + 1) as nat, 0),
            Size::Patch => (t.0, t.1, (t.2 + 1) as nat),
            _ => t,
        }
    }

    /// What `apply` gives for a version text: the text of the raised version, or the kind of
    /// the error.
    pub open spec fn spec_apply(self, v: Seq<char>) -> Result<Seq<char>, ErrorKind> {
        match parts_of(v) {
            None => Err(ErrorKind::VersionParse),
            Some(t) => if self == Size::Fail {
                Err(ErrorKind::SizeFail)
            } else if fits(self.bump(t)) {
                Ok(render(self.bump(t)))
            } else {
                Err(ErrorKind::VersionParse)
            },
        }
    }

    /// The greater of two sizes.
    pub fn max(self, other: Size) -> (r: Size)
        ensures
            r == self.spec_max(other),
    {
        if self.level() >= other.level() {
            self
        } else {
            other
        }
    }

    /// The place of a size in the order, as a number.
    pub fn level(self) -> (r: u8)
        ensures
            r == self.rank(),
    {
        match self {
            Size::Empty => 0,
            Size::Patch => 1,
            Size::Minor => 2,
            Size::Major => 3,
            Size::Fail => 4,
        }
    }

    /// Whether `v` is the word for a size.
    pub fn is_size(v: &str) -> (r: bool)
        ensures
            r == size_named(v@) is Some,
    {
        Size::from_str(v).is_ok()
    }

    /// The size that the word `v` names; any other word is refused as a manifest error.
    pub fn from_str(v: &str) -> (r: Result<Size, Error>)
        ensures
            r is Ok == size_named(v@) is Some,
            r matches Ok(s) ==> size_named(v@) == Some(s),
            r matches Err(e) ==> e.kind() == ErrorKind::ManifestParse,
    {
        let c = chars_of(v);
        if same_chars(&c, &vec!['m', 'a', 'j', 'o', 'r']) {
            Ok(Size::Major)
        } else if same_chars(&c, &vec!['m', 'i', 'n', 'o', 'r']) {
            Ok(Size::Minor)
        } else if same_chars(&c, &vec!['p', 'a', 't', 'c', 'h']) {
            Ok(Size::Patch)
        } else if same_chars(&c, &vec!['n', 'o', 'n', 'e']) {
            Ok(Size::Empty)
        } else if same_chars(&c, &vec!['f', 'a', 'i', 'l']) {
            Ok(Size::Fail)
        } else {
            let mut d = String::from_str("Unknown size: ");
            d.append(v);
            Err(Error::new(ErrorKind::ManifestParse, d))
        }
    }

    /// The word for the size, in lower case.
    pub fn name(self) -> (r: String)
        ensures
            r@ == self.spec_name(),
            size_named(r@) == Some(self),
    {
        let v = match self {
            Size::Major => vec!['m', 'a', 'j', 'o', 'r'],
            Size::Minor => vec!['m', 'i', 'n', 'o', 'r'],
            Size::Patch => vec!['p', 'a', 't', 'c', 'h'],
            Size::Empty => vec!['n', 'o', 'n', 'e'],
            Size::Fail => vec!['f', 'a', 'i', 'l'],
        };
        proof {
            let s = self.spec_name();
            assert(v@ =~= s);
            assert(s.len() == 4 || s.len() == 5);
            assert(s[0] == 'm' || s[0] == 'p' || s[0] == 'n' || s[0] == 'f');
            assert(s[1] == 'a' || s[1] == 'i' || s[1] == 'o');
        }
        string_of(&v)
    }

    /// The three numbers of a version text.
    pub fn parts(v: &str) -> (r: Result<[u32; 3], Error>)
        ensures
            r is Ok == parts_of(v@) is Some,
            r matches Ok(p) ==> parts_of(v@) == Some((p[0] as nat, p[1] as nat, p[2] as nat)),
            r matches Err(e) ==> e.kind() == ErrorKind::VersionParse,
    {
        let c = chars_of(v);
        let n = c.len();
        let i = find_dot(&c, 0);
        proof {
            assert(c@.skip(0) =~= c@);
        }
        if i < n {
            let j = find_dot(&c, i + 1);
            if j < n {
                let k = find_dot(&c, j + 1);
                proof {
                    let rest = c@.skip(i + 1);
                    assert(rest.skip(j - i) =~= c@.skip(j + 1));
                    assert(c@.take(i as int) =~= c@.subrange(0, i as int));
                    assert(rest.take(j - (i + 1)) =~= c@.subrange(i + 1, j as int));
                    assert(c@.skip(j + 1) =~= c@.subrange(j + 1, n as int));
                }
                if k == n {
                    let a = parse_range(&c, 0, i);
                    let b = parse_range(&c, i + 1, j);
                    let d = parse_range(&c, j + 1, n);
                    match (a, b, d) {
                        (Some(x), Some(y), Some(z)) => {
                            return Ok([x, y, z]);
                        },
                        _ => {},
                    }
                }
            }
        }
        let mut d = String::from_str("Not a 3-part version: ");
        d.append(v);
        Err(Error::new(ErrorKind::VersionParse, d))
    }

    /// Whether the version `v1` comes before the version `v2`.
    pub fn less_than(v1: &str, v2: &str) -> (r: Result<bool, Error>)
        ensures
            r is Ok == (parts_of(v1@) is Some && parts_of(v2@) is Some),
            r matches Ok(b) ==> b == triple_less(parts_of(v1@).unwrap(), parts_of(v2@).unwrap()),
            r matches Err(e) ==> e.kind() == ErrorKind::VersionParse,
    {
        let p1 = Size::parts(v1)?;
        let p2 = Size::parts(v2)?;
        Ok(
            p1[0] < p2[0] || (p1[0] == p2[0] && (p1[1] < p2[1] || (p1[1] == p2[1] && p1[2]
                < p2[2]))),
        )
    }

    /// The version `v` raised by this size, as text. A text that is no version is refused, then
    /// the size `Fail`, then a number that would no longer fit in 32 bits.
    pub fn apply(self, v: &str) -> (r: Result<String, Error>)
        ensures
            r matches Ok(s) ==> self.spec_apply(v@) == Ok::<Seq<char>, ErrorKind>(s@),
            r matches Err(e) ==> self.spec_apply(v@) == Err::<Seq<char>, ErrorKind>(e.kind()),
    {
        let p = Size::parts(v)?;
        let ghost t: Triple = (p[0] as nat, p[1] as nat, p[2] as nat);
        let q: [u32; 3] = match self {
            Size::Fail => {
                return Err(
                    Error::new(ErrorKind::SizeFail, String::from_str("'fail' size encountered.")),
                );
            },
            Size::Empty => p,
            Size::Major => {
                if p[0] == u32::MAX {
                    return Err(Size::too_large(v));
                }
                [p[0] + 1, 0, 0]
            },
            Size::Minor => {
                if p[1] == u32::MAX {
                    return Err(Size::too_large(v));
                }
                [p[0], p[1] + 1, 0]
            },
            Size::Patch => {
                if p[2] == u32::MAX {
                    return Err(Size::too_large(v));
                }
                [p[0], p[1], p[2] + 1]
            },
        };
        assert(self.bump(t) == (q[0] as nat, q[1] as nat, q[2] as nat));
        let mut out: Vec<char> = Vec::new();
        push_decimal(&mut out, q[0]);
        out.push('.');
        push_decimal(&mut out, q[1]);
        out.push('.');
        push_decimal(&mut out, q[2]);
        assert(out@ =~= render(self.bump(t)));
        Ok(string_of(&out))
    }

    fn too_large(v: &str) -> (e: Error)
        ensures
            e.kind() == ErrorKind::VersionParse,
    {
        let mut d = String::from_str("No room to raise version: ");
        d.append(v);
        Error::new(ErrorKind::VersionParse, d)
    }
}

} // verus!

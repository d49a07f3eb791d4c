//! The sizes of the kinds of commit, as a manifest states them.

use crate::error::{Error, ErrorKind};
use crate::size::{size_named, Size};
use crate::text::{chars_of, same_chars};
use vstd::prelude::*;
use vstd::string::StringExecFns;

verus! {

/// What a key of the sizes of a manifest stands for.
#[derive(Clone, Copy, Debug, PartialEq, Eq, Structural)]
pub enum SizesKey {
    /// The word of a size: a list of kinds of commit follows.
    Kinds(Size),
    /// `use_angular`: a truth value follows.
    Angular,
    /// Anything else.
    Unknown,
}

/// What the key `key` stands for.
pub open spec fn key_kind(key: Seq<char>) -> SizesKey {
    match size_named(key) {
        Some(s) => SizesKey::Kinds(s),
        None => if key == seq!['u', 's', 'e', '_', 'a', 'n', 'g', 'u', 'l', 'a', 'r'] {
            SizesKey::Angular
        } else {
            SizesKey::Unknown
        },
    }
}

/// What the key `key` of the sizes of a manifest stands for.
pub fn sizes_key(key: &str) -> (r: SizesKey)
    ensures
        r == key_kind(key@),
{
    match Size::from_str(key) {
        Ok(s) => SizesKey::Kinds(s),
        Err(_) => {
            let c = chars_of(key);
            if same_chars(&c, &vec!['u', 's', 'e', '_', 'a', 'n', 'g', 'u', 'l', 'a', 'r']) {
                SizesKey::Angular
            } else {
                SizesKey::Unknown
            }
        },
    }
}

/// An entry of the sizes of a manifest.
#[derive(Debug)]
pub enum SizesEntry {
    /// The kinds of commit that have the size.
    Kinds { size: Size, kinds: Vec<String> },
    /// Whether the sizes of the Angular convention fill in for the kinds that are not stated.
    Angular { on: bool },
    /// An entry under a key that stands for nothing.
    Unknown { key: String },
}

/// A kind of commit with its size, as contracts speak of it.
pub type KindSize = (Seq<char>, Size);

/// Kinds of commit with their sizes, as contracts speak of them.
pub open spec fn kinds_view(v: Seq<(String, Size)>) -> Seq<KindSize> {
    Seq::new(v.len(), |i: int| (v[i].0@, v[i].1))
}

/// The kinds that an entry states, each with the size of the entry.
pub open spec fn stated_by(e: SizesEntry) -> Seq<KindSize> {
    match e {
        SizesEntry::Kinds { size, kinds } => Seq::new(kinds@.len(), |i: int| (kinds@[i]@, size)),
        _ => Seq::empty(),
    }
}

/// The kinds that the entries state, in their order.
pub open spec fn stated(entries: Seq<SizesEntry>) -> Seq<KindSize>
    decreases entries.len(),
{
    if entries.len() == 0 {
        Seq::empty()
    } else {
        stated(entries.drop_last()) + stated_by(entries.last())
    }
}

/// Whether the last entry on the Angular convention turns it on.
pub open spec fn angular(entries: Seq<SizesEntry>) -> bool
    decreases entries.len(),
{
    if entries.len() == 0 {
        false
    } else {
        match entries.last() {
            SizesEntry::Angular { on } => on,
            _ => angular(entries.drop_last()),
        }
    }
}

/// Whether an entry stands under a key that stands for nothing.
pub open spec fn has_unknown(entries: Seq<SizesEntry>) -> bool {
    exists|i: int| 0 <= i < entries.len() && #[trigger] entries[i] is Unknown
}

/// Whether a kind is stated twice.
pub open spec fn has_repeat(kinds: Seq<KindSize>) -> bool {
    exists|i: int, j: int| 0 <= i < j < kinds.len() && #[trigger] kinds[i].0 == #[trigger] kinds[j].0
}

/// Whether the kind `kind` is among `kinds`.
pub open spec fn has_kind(kinds: Seq<KindSize>, kind: Seq<char>) -> bool {
    exists|i: int| 0 <= i < kinds.len() && (#[trigger] kinds[i]).0 == kind
}

/// The sizes of the Angular convention.
pub open spec fn angular_sizes() -> Seq<KindSize> {
    seq![
        (seq!['f', 'e', 'a', 't'], Size::Minor),
        (seq!['f', 'i', 'x'], Size::Patch),
        (seq!['d', 'o', 'c', 's'], Size::Empty),
        (seq!['s', 't', 'y', 'l', 'e'], Size::Empty),
        (seq!['r', 'e', 'f', 'a', 'c', 't', 'o', 'r'], Size::Empty),
        (seq!['p', 'e', 'r', 'f'], Size::Empty),
        (seq!['t', 'e', 's', 't'], Size::Empty),
        (seq!['c', 'h', 'o', 'r', 'e'], Size::Empty),
        (seq!['b', 'u', 'i', 'l', 'd'], Size::Empty),
    ]
}

/// The kinds `kinds` with the first `n` of `more` filled in: each of them that is not among
/// the kinds yet joins them.
pub open spec fn filled(kinds: Seq<KindSize>, more: Seq<KindSize>, n: int) -> Seq<KindSize>
    decreases n,
{
    if n <= 0 {
        kinds
    } else {
        let rest = filled(kinds, more, n - 1);
        if has_kind(rest, more[n - 1].0) {
            rest
        } else {
            rest.push(more[n - 1])
        }
    }
}

/// The sizes that the entries of a manifest give the kinds of commit: the kinds that are
/// stated, and behind them, where the Angular convention is on, its sizes for the kinds that
/// are not stated.
pub open spec fn sizes_of_entries(entries: Seq<SizesEntry>) -> Seq<KindSize> {
    if angular(entries) {
        filled(stated(entries), angular_sizes(), angular_sizes().len() as int)
    } else {
        stated(entries)
    }
}

/// Whether the kind `kind` is among `kinds`.
fn holds_kind(kinds: &Vec<(String, Size)>, kind: &String) -> (r: bool)
    ensures
        r == has_kind(kinds_view(kinds@), kind@),
{
    let mut i: usize = 0;
    while i < kinds.len()
        invariant
            i <= kinds.len(),
            forall|j: int| 0 <= j < i ==> (#[trigger] kinds_view(kinds@)[j]).0 != kind@,
        decreases kinds.len() - i,
    {
        if kinds[i].0 == *kind {
            proof {
                assert(kinds_view(kinds@)[i as int].0 == kind@);
            }
            return true;
        }
        i = i + 1;
    }
    false
}

/// Puts the size `val` under the kind `key` unless the kind has a size.
pub fn insert_if_missing(result: &mut Vec<(String, Size)>, key: &str, val: Size)
    ensures
        kinds_view(final(result)@) == (if has_kind(kinds_view(old(result)@), key@) {
            kinds_view(old(result)@)
        } else {
            kinds_view(old(result)@).push((key@, val))
        }),
{
    let owned = key.to_owned();
    if !holds_kind(result, &owned) {
        result.push((owned, val));
        proof {
            assert(kinds_view(result@) =~= kinds_view(old(result)@).push((key@, val)));
        }
    }
}

/// The sizes that the entries of a manifest give the kinds of commit. The entries are
/// refused where one stands under a key that stands for nothing, or a kind is stated twice.
pub fn deserialize_sizes(entries: &Vec<SizesEntry>) -> (r: Result<Vec<(String, Size)>, Error>)
    ensures
        r is Ok == (!has_unknown(entries@) && !has_repeat(stated(entries@))),
        r matches Ok(v) ==> kinds_view(v@) == sizes_of_entries(entries@),
        r matches Err(e) ==> e.kind() == ErrorKind::ManifestParse,
{
    let mut result: Vec<(String, Size)> = Vec::new();
    let mut using_angular = false;
    let mut i: usize = 0;
    while i < entries.len()
        invariant
            i <= entries.len(),
            kinds_view(result@) == stated(entries@.take(i as int)),
            using_angular == angular(entries@.take(i as int)),
            forall|j: int| 0 <= j < i ==> !(#[trigger] entries@[j] is Unknown),
        decreases entries.len() - i,
    {
        proof {
            let t = entries@.take(i + 1);
            assert(t.drop_last() =~= entries@.take(i as int));
            assert(t.last() == entries@[i as int]);
        }
        match &entries[i] {
            SizesEntry::Kinds { size, kinds } => {
                let ghost before = kinds_view(result@);
                let mut k: usize = 0;
                while k < kinds.len()
                    invariant
                        k <= kinds.len(),
                        i < entries.len(),
                        kinds_view(result@) == before + stated_by(entries@[i as int]).take(k as int),
                        entries@[i as int] == (SizesEntry::Kinds { size: *size, kinds: *kinds }),
                    decreases kinds.len() - k,
                {
                    let ghost so_far = kinds_view(result@);
                    result.push((kinds[k].clone(), *size));
                    proof {
                        let e = stated_by(entries@[i as int]);
                        assert(e[k as int] == (kinds@[k as int]@, *size));
                        assert(kinds_view(result@) =~= so_far.push(e[k as int]));
                        assert(kinds_view(result@) =~= before + e.take(k + 1));
                    }
                    k = k + 1;
                }
                proof {
                    let e = stated_by(entries@[i as int]);
                    assert(e.take(kinds.len() as int) =~= e);
                }
            },
            SizesEntry::Angular { on } => {
                using_angular = *on;
                proof {
                    assert(kinds_view(result@) + stated_by(entries@[i as int]) =~= kinds_view(
                        result@,
                    ));
                }
            },
            SizesEntry::Unknown { key } => {
                let mut d = String::from_str("Unrecognized sizes key: ");
                d.append(key.as_str());
                return Err(Error::new(ErrorKind::ManifestParse, d));
            },
        }
        i = i + 1;
    }
    proof {
        assert(entries@.take(entries.len() as int) =~= entries@);
    }
    let ghost all = kinds_view(result@);
    let mut a: usize = 0;
    while a < result.len()
        invariant
            a <= result.len(),
            all == kinds_view(result@),
            all == stated(entries@),
            !has_unknown(entries@),
            forall|x: int, y: int| 0 <= x < y < a ==> all[x].0 != all[y].0,
        decreases result.len() - a,
    {
        let mut b: usize = 0;
        while b < a
            invariant
                b <= a < result.len(),
                all == kinds_view(result@),
                all == stated(entries@),
                forall|x: int| 0 <= x < b ==> all[x].0 != all[a as int].0,
            decreases a - b,
        {
            if result[b].0 == result[a].0 {
                proof {
                    assert(all[b as int].0 == all[a as int].0);
                    assert(has_repeat(all));
                }
                let mut d = String::from_str("Duplicated kind: ");
                d.append(result[a].0.as_str());
                return Err(Error::new(ErrorKind::ManifestParse, d));
            }
            b = b + 1;
        }
        a = a + 1;
    }
    if using_angular {
        let ghost more = angular_sizes();
        insert_if_missing(&mut result, "feat", Size::Minor);
        insert_if_missing(&mut result, "fix", Size::Patch);
        insert_if_missing(&mut result, "docs", Size::Empty);
        insert_if_missing(&mut result, "style", Size::Empty);
        insert_if_missing(&mut result, "refactor", Size::Empty);
        insert_if_missing(&mut result, "perf", Size::Empty);
        insert_if_missing(&mut result, "test", Size::Empty);
        insert_if_missing(&mut result, "chore", Size::Empty);
        insert_if_missing(&mut result, "build", Size::Empty);
        proof {
            reveal_strlit("feat");
            reveal_strlit("fix");
            reveal_strlit("docs");
            reveal_strlit("style");
            reveal_strlit("refactor");
            reveal_strlit("perf");
            reveal_strlit("test");
            reveal_strlit("chore");
            reveal_strlit("build");
            assert("feat"@ =~= more[0].0);
            assert("fix"@ =~= more[1].0);
            assert("docs"@ =~= more[2].0);
            assert("style"@ =~= more[3].0);
            assert("refactor"@ =~= more[4].0);
            assert("perf"@ =~= more[5].0);
            assert("test"@ =~= more[6].0);
            assert("chore"@ =~= more[7].0);
            assert("build"@ =~= more[8].0);
            reveal_with_fuel(filled, 10);
            assert(kinds_view(result@) == filled(all, more, 9));
        }
    }
    Ok(result)
}

} // verus!

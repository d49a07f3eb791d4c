//! Sequences of entries that are looked up by a text, the first match counting.
//!
//! The library keeps a table in a hash map or a hash set where its keys are project numbers.
//! It keeps a table as a sequence of entries where the keys are texts, whose hashing the
//! verifier has no model of, or where the order of the entries counts: the plan and the change
//! logs follow the order of the projects in the manifest, so that a release takes its steps
//! in the same order every time.

use vstd::prelude::*;

verus! {

/// The number by which a manifest tells its projects apart.
pub type ProjectId = u32;

/// The index of the first entry of `s` that `p` accepts, or the length of `s` where it accepts
/// none.
pub open spec fn first_where<T>(s: Seq<T>, p: spec_fn(T) -> bool) -> nat
    decreases s.len(),
{
    if s.len() == 0 || p(s[0]) {
        0
    } else {
        1 + first_where(s.drop_first(), p)
    }
}

/// The test that accepts the entries under the text `key`.
pub open spec fn has_text<V>(key: Seq<char>) -> spec_fn((String, V)) -> bool {
    |e: (String, V)| e.0@ == key
}

/// The index of the first entry under the text `key`.
pub open spec fn position_text<V>(s: Seq<(String, V)>, key: Seq<char>) -> nat {
    first_where(s, has_text(key))
}

/// What stands under the text `key`: the value of the first entry with that text.
pub open spec fn lookup_text<V>(s: Seq<(String, V)>, key: Seq<char>) -> Option<V> {
    if position_text(s, key) < s.len() {
        Some(s[position_text(s, key) as int].1)
    } else {
        None
    }
}

/// Where the first accepted entry stands: nothing before it is accepted, and it is accepted
/// unless the index is the length.
pub proof fn lemma_first_where<T>(s: Seq<T>, p: spec_fn(T) -> bool)
    ensures
        0 <= first_where(s, p) <= s.len(),
        forall|j: int| 0 <= j < first_where(s, p) ==> !p(#[trigger] s[j]),
        first_where(s, p) < s.len() ==> p(s[first_where(s, p) as int]),
    decreases s.len(),
{
    if s.len() == 0 || p(s[0]) {
    } else {
        let t = s.drop_first();
        lemma_first_where(t, p);
        assert forall|j: int| 0 <= j < first_where(s, p) implies !p(#[trigger] s[j]) by {
            if j > 0 {
                assert(s[j] == t[j - 1]);
            }
        }
    }
}

/// An index with nothing accepted before it, which is the length or holds an accepted entry, is
/// the index of the first accepted entry.
pub proof fn lemma_first_where_is<T>(s: Seq<T>, p: spec_fn(T) -> bool, i: int)
    requires
        0 <= i <= s.len(),
        forall|j: int| 0 <= j < i ==> !p(#[trigger] s[j]),
        i < s.len() ==> p(s[i]),
    ensures
        first_where(s, p) == i,
{
    lemma_first_where(s, p);
    let f = first_where(s, p) as int;
    if f < i {
        assert(!p(s[f]));
    } else if f > i {
        assert(!p(s[i]));
    }
}

/// Appending an entry leaves the first accepted entry where it was, or makes the new entry the
/// first where none was accepted and the new one is.
pub proof fn lemma_first_where_push<T>(s: Seq<T>, p: spec_fn(T) -> bool, x: T)
    ensures
        first_where(s.push(x), p) == if first_where(s, p) < s.len() || p(x) {
            first_where(s, p)
        } else {
            s.len() + 1
        },
{
    lemma_first_where(s, p);
    let f = first_where(s, p) as int;
    let t = s.push(x);
    if f < s.len() {
        assert(t[f] == s[f]);
        assert forall|j: int| 0 <= j < f implies !p(#[trigger] t[j]) by {
            assert(t[j] == s[j]);
        }
        lemma_first_where_is(t, p, f);
    } else if p(x) {
        assert forall|j: int| 0 <= j < f implies !p(#[trigger] t[j]) by {
            assert(t[j] == s[j]);
        }
        assert(t[f] == x);
        lemma_first_where_is(t, p, f);
    } else {
        assert forall|j: int| 0 <= j < t.len() implies !p(#[trigger] t[j]) by {
            if j < s.len() {
                assert(t[j] == s[j]);
            }
        }
        lemma_first_where_is(t, p, t.len() as int);
    }
}

/// What stands under a text once an entry is appended: what stood there, or the new value
/// where nothing stood there and the new entry is under that text.
pub proof fn lemma_lookup_text_push<V>(s: Seq<(String, V)>, e: (String, V), key: Seq<char>)
    ensures
        position_text(s, key) <= s.len(),
        lookup_text(s.push(e), key) == if lookup_text(s, key) is Some {
            lookup_text(s, key)
        } else if e.0@ == key {
            Some(e.1)
        } else {
            None
        },
{
    lemma_first_where(s, has_text(key));
    lemma_first_where_push(s, has_text(key), e);
}

/// The index of the first entry under the text `key`, or the length where there is none.
pub fn find_text<V>(v: &Vec<(String, V)>, key: &str) -> (at: usize)
    ensures
        at == position_text(v@, key@),
        at <= v.len(),
        at < v.len() ==> v[at as int].0@ == key@,
{
    let owned = key.to_owned();
    let mut at: usize = 0;
    while at < v.len() && v[at].0 != owned
        invariant
            at <= v.len(),
            owned@ == key@,
            forall|j: int| 0 <= j < at ==> v@[j].0@ != key@,
        decreases v.len() - at,
    {
        at = at + 1;
    }
    proof {
        let p = has_text::<V>(key@);
        assert forall|j: int| 0 <= j < at implies !p(#[trigger] v@[j]) by {}
        lemma_first_where_is(v@, p, at as int);
    }
    at
}

/// Puts `val` under the text `key`: in place of what stood there, or as a new last entry.
pub fn put_text<V>(v: &mut Vec<(String, V)>, key: String, val: V)
    ensures
        lookup_text(final(v)@, key@) == Some(val),
        forall|k: Seq<char>|
            k != key@ ==> #[trigger] lookup_text(final(v)@, k) == lookup_text(old(v)@, k),
        final(v).len() == old(v).len() || final(v)@ == old(v)@.push((key, val)),
{
    let at = find_text(v, key.as_str());
    if at < v.len() {
        v[at].1 = val;
        proof {
            assert forall|k: Seq<char>| #[trigger]
                position_text(v@, k) == position_text(old(v)@, k) by {
                lemma_first_where(old(v)@, has_text(k));
                let i = position_text(old(v)@, k) as int;
                assert forall|j: int| 0 <= j < i implies !has_text::<V>(k)(#[trigger] v@[j]) by {
                    assert(v@[j].0 == old(v)@[j].0);
                    assert(!has_text::<V>(k)(old(v)@[j]));
                }
                if i < v.len() {
                    assert(v@[i].0 == old(v)@[i].0);
                }
                lemma_first_where_is(v@, has_text(k), i);
            }
            assert forall|k: Seq<char>| k != key@ implies #[trigger] lookup_text(v@, k)
                == lookup_text(old(v)@, k) by {
                lemma_first_where(old(v)@, has_text(k));
                let i = position_text(old(v)@, k) as int;
                assert(position_text(v@, k) == i);
                if i < v.len() {
                    assert(has_text::<V>(k)(old(v)@[i]));
                    assert(i != at);
                    assert(v@[i] == old(v)@[i]);
                }
            }
            assert(position_text(v@, key@) == at);
        }
    } else {
        proof {
            assert forall|k: Seq<char>|
                #[trigger] lookup_text(old(v)@.push((key, val)), k) == if k == key@ {
                    Some(val)
                } else {
                    lookup_text(old(v)@, k)
                } by {
                lemma_lookup_text_push(old(v)@, (key, val), k);
            }
        }
        v.push((key, val));
    }
}

} // verus!

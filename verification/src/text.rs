//! Characters, decimal numbers and a few operations on strings.

use vstd::prelude::*;

verus! {

/// The characters of a string slice, in order.
///
/// Trusted: `str::chars` yields the characters of the slice from first to last, and collecting
/// them keeps that order.
#[verifier::external_body]
pub(crate) fn chars_of(s: &str) -> (v: Vec<char>)
    ensures
        v@ == s@,
{
    s.chars().collect()
}

/// The string made of the given characters, in order.
///
/// Trusted: `String::from_iter` appends the characters one after another.
#[verifier::external_body]
pub(crate) fn string_of(v: &Vec<char>) -> (s: String)
    ensures
        s@ == v@,
{
    String::from_iter(v.iter())
}

/// Whether `c` is one of the ten ASCII digits.
pub open spec fn is_digit(c: char) -> bool {
    '0' <= c && c <= '9'
}

/// The number that the ASCII digit `c` stands for.
pub open spec fn digit_value(c: char) -> nat {
    if c == '1' {
        1
    } else if c == '2' {
        2
    } else if c == '3' {
        3
    } else if c == '4' {
        4
    } else if c == '5' {
        5
    } else if c == '6' {
        6
    } else if c == '7' {
        7
    } else if c == '8' {
        8
    } else if c == '9' {
        9
    } else {
        0
    }
}

/// The ASCII digit that stands for `d`, for `d` below ten.
pub open spec fn digit_char(d: nat) -> char {
    if d == 1 {
        '1'
    } else if d == 2 {
        '2'
    } else if d == 3 {
        '3'
    } else if d == 4 {
        '4'
    } else if d == 5 {
        '5'
    } else if d == 6 {
        '6'
    } else if d == 7 {
        '7'
    } else if d == 8 {
        '8'
    } else if d == 9 {
        '9'
    } else {
        '0'
    }
}

/// Whether every character of `s` is an ASCII digit.
pub open spec fn all_digits(s: Seq<char>) -> bool {
    forall|i: int| 0 <= i < s.len() ==> is_digit(#[trigger] s[i])
}

/// The number that a run of digits denotes in base ten; leading zeros count for nothing.
pub open spec fn digits_value(s: Seq<char>) -> nat
    decreases s.len(),
{
    if s.len() == 0 {
        0
    } else {
        digits_value(s.drop_last()) * 10 + digit_value(s.last())
    }
}

/// The digits that follow an optional leading plus sign.
pub open spec fn unsigned_digits(s: Seq<char>) -> Seq<char> {
    if s.len() > 0 && s[0] == '+' {
        s.skip(1)
    } else {
        s
    }
}

/// The number that `s` denotes: an optional plus sign, then one or more ASCII digits whose value
/// fits in 32 bits. Anything else denotes no number.
pub open spec fn parse_number(s: Seq<char>) -> Option<nat> {
    let d = unsigned_digits(s);
    if d.len() > 0 && all_digits(d) && digits_value(d) <= u32::MAX {
        Some(digits_value(d))
    } else {
        None
    }
}

/// The shortest run of digits that denotes `n`.
pub open spec fn decimal(n: nat) -> Seq<char>
    decreases n,
{
    if n < 10 {
        seq![digit_char(n)]
    } else {
        decimal(n / 10).push(digit_char(n % 10))
    }
}

/// The index of the first full stop in `s`, or the length of `s` where it holds none.
pub open spec fn first_dot(s: Seq<char>) -> int
    decreases s.len(),
{
    if s.len() == 0 || s[0] == '.' {
        0
    } else {
        1 + first_dot(s.drop_first())
    }
}

/// Whether `s` holds no full stop.
pub open spec fn dot_free(s: Seq<char>) -> bool {
    forall|i: int| 0 <= i < s.len() ==> #[trigger] s[i] != '.'
}

/// `decimal` writes digits only, at least one of them, and they denote the number written.
pub proof fn lemma_decimal(n: nat)
    ensures
        decimal(n).len() >= 1,
        all_digits(decimal(n)),
        dot_free(decimal(n)),
        digits_value(decimal(n)) == n,
        decimal(n)[0] != '+',
    decreases n,
{
    if n < 10 {
        let s = seq![digit_char(n)];
        assert(s.drop_last() =~= Seq::<char>::empty());
        assert(digits_value(s.drop_last()) == 0);
        assert(s.last() == digit_char(n));
    } else {
        lemma_decimal(n / 10);
        let p = decimal(n / 10);
        let s = p.push(digit_char(n % 10));
        assert(s.drop_last() =~= p);
        assert(s.last() == digit_char(n % 10));
        assert forall|i: int| 0 <= i < s.len() implies is_digit(#[trigger] s[i]) by {
            if i < p.len() {
                assert(s[i] == p[i]);
            }
        }
        assert forall|i: int| 0 <= i < s.len() implies #[trigger] s[i] != '.' by {
            if i < p.len() {
                assert(s[i] == p[i]);
            }
        }
        assert(s[0] == p[0]);
    }
}

/// Reading back what `decimal` wrote gives the number again.
pub proof fn lemma_parse_decimal(n: nat)
    requires
        n <= u32::MAX,
    ensures
        parse_number(decimal(n)) == Some(n),
{
    lemma_decimal(n);
}

/// A longer run of digits denotes at least as much as each run that it starts with.
pub proof fn lemma_digits_value_grows(s: Seq<char>, k: int)
    requires
        0 <= k <= s.len(),
    ensures
        digits_value(s.take(k)) <= digits_value(s),
    decreases s.len(),
{
    if k == s.len() {
        assert(s.take(k) =~= s);
    } else {
        lemma_digits_value_grows(s.drop_last(), k);
        assert(s.drop_last().take(k) =~= s.take(k));
    }
}

/// Where the first full stop stands: nothing before it is a full stop, and it is one unless the
/// sequence has none.
pub proof fn lemma_first_dot(s: Seq<char>)
    ensures
        0 <= first_dot(s) <= s.len(),
        dot_free(s.take(first_dot(s))),
        first_dot(s) < s.len() ==> s[first_dot(s)] == '.',
    decreases s.len(),
{
    if s.len() == 0 || s[0] == '.' {
    } else {
        let t = s.drop_first();
        lemma_first_dot(t);
        let i = first_dot(t);
        assert forall|k: int| 0 <= k < s.take(i + 1).len() implies #[trigger] s.take(i + 1)[k]
            != '.' by {
            if k > 0 {
                assert(s.take(i + 1)[k] == t.take(i)[k - 1]);
            }
        }
    }
}

/// The first full stop of `a`, a full stop and `b`, where `a` holds none, stands right after `a`.
pub proof fn lemma_first_dot_after(a: Seq<char>, b: Seq<char>)
    requires
        dot_free(a),
    ensures
        first_dot(a + seq!['.'] + b) == a.len(),
        (a + seq!['.'] + b).take(a.len() as int) == a,
        (a + seq!['.'] + b).skip(a.len() as int + 1) == b,
    decreases a.len(),
{
    let s = a + seq!['.'] + b;
    assert(s.take(a.len() as int) =~= a);
    assert(s.skip(a.len() as int + 1) =~= b);
    if a.len() == 0 {
        assert(s[0] == '.');
    } else {
        assert(s[0] == a[0]);
        let a1 = a.drop_first();
        assert(s.drop_first() =~= a1 + seq!['.'] + b);
        assert forall|i: int| 0 <= i < a1.len() implies #[trigger] a1[i] != '.' by {
            assert(a1[i] == a[i + 1]);
        }
        lemma_first_dot_after(a1, b);
    }
}

/// A sequence without a full stop has its first full stop at its end.
pub proof fn lemma_first_dot_none(a: Seq<char>)
    requires
        dot_free(a),
    ensures
        first_dot(a) == a.len(),
    decreases a.len(),
{
    if a.len() > 0 {
        let a1 = a.drop_first();
        assert forall|i: int| 0 <= i < a1.len() implies #[trigger] a1[i] != '.' by {
            assert(a1[i] == a[i + 1]);
        }
        lemma_first_dot_none(a1);
    }
}

/// The number that one ASCII digit stands for.
pub fn digit_of(c: char) -> (d: Option<u32>)
    ensures
        d is Some == is_digit(c),
        d matches Some(n) ==> n == digit_value(c) && n <= 9,
{
    match c {
        '0' => Some(0),
        '1' => Some(1),
        '2' => Some(2),
        '3' => Some(3),
        '4' => Some(4),
        '5' => Some(5),
        '6' => Some(6),
        '7' => Some(7),
        '8' => Some(8),
        '9' => Some(9),
        _ => None,
    }
}

/// The ASCII digit for a number below ten.
pub fn char_of_digit(d: u32) -> (c: char)
    requires
        d <= 9,
    ensures
        c == digit_char(d as nat),
{
    match d {
        0 => '0',
        1 => '1',
        2 => '2',
        3 => '3',
        4 => '4',
        5 => '5',
        6 => '6',
        7 => '7',
        8 => '8',
        _ => '9',
    }
}

/// The index of the first full stop at or after `from`, or the length where none follows.
pub fn find_dot(v: &Vec<char>, from: usize) -> (at: usize)
    requires
        from <= v.len(),
    ensures
        at == from + first_dot(v@.skip(from as int)),
        from <= at <= v.len(),
{
    let mut at: usize = from;
    proof {
        lemma_first_dot(v@.skip(from as int));
    }
    while at < v.len() && v[at] != '.'
        invariant
            from <= at <= v.len(),
            first_dot(v@.skip(from as int)) == (at - from) + first_dot(v@.skip(at as int)),
        decreases v.len() - at,
    {
        proof {
            let t = v@.skip(at as int);
            assert(t[0] == v@[at as int]);
            assert(t.drop_first() =~= v@.skip(at + 1));
        }
        at = at + 1;
    }
    proof {
        let t = v@.skip(at as int);
        if at < v.len() {
            assert(t[0] == v@[at as int]);
        }
    }
    at
}

/// Reads the number written in `v` from `lo` up to `hi`.
pub fn parse_range(v: &Vec<char>, lo: usize, hi: usize) -> (n: Option<u32>)
    requires
        lo <= hi <= v.len(),
    ensures
        n is Some == parse_number(v@.subrange(lo as int, hi as int)) is Some,
        n matches Some(x) ==> parse_number(v@.subrange(lo as int, hi as int)) == Some(x as nat),
{
    let ghost s = v@.subrange(lo as int, hi as int);
    let start: usize = if lo < hi && v[lo] == '+' {
        lo + 1
    } else {
        lo
    };
    let ghost d = unsigned_digits(s);
    proof {
        if lo < hi {
            assert(s[0] == v@[lo as int]);
        }
        assert(d =~= v@.subrange(start as int, hi as int));
    }
    if start == hi {
        return None;
    }
    let mut acc: u32 = 0;
    let mut k: usize = start;
    while k < hi
        invariant
            lo <= start <= k <= hi <= v.len(),
            d == v@.subrange(start as int, hi as int),
            d == unsigned_digits(v@.subrange(lo as int, hi as int)),
            all_digits(d.take(k - start)),
            acc == digits_value(d.take(k - start)),
        decreases hi - k,
    {
        let ghost p = d.take(k - start);
        let ghost q = d.take(k - start + 1);
        proof {
            assert(d[k - start] == v@[k as int]);
            assert(q.drop_last() =~= p);
            assert(q.last() == d[k - start]);
        }
        match digit_of(v[k]) {
            None => {
                proof {
                    assert(!is_digit(d[k - start]));
                    assert(!all_digits(d));
                }
                return None;
            },
            Some(x) => {
                if acc > (u32::MAX - x) / 10 {
                    proof {
                        assert(digits_value(q) == digits_value(p) * 10 + digit_value(q.last()));
                        assert(digits_value(q) > u32::MAX);
                        lemma_digits_value_grows(d, k - start + 1);
                        assert(digits_value(d) > u32::MAX);
                    }
                    return None;
                }
                acc = acc * 10 + x;
                proof {
                    assert forall|i: int| 0 <= i < q.len() implies is_digit(#[trigger] q[i]) by {
                        if i < p.len() {
                            assert(q[i] == p[i]);
                        }
                    }
                }
            },
        }
        k = k + 1;
    }
    proof {
        assert(d.take(hi - start) =~= d);
    }
    Some(acc)
}

/// Appends the decimal digits of `n` to `out`.
pub fn push_decimal(out: &mut Vec<char>, n: u32)
    ensures
        final(out)@ == old(out)@ + decimal(n as nat),
    decreases n,
{
    if n < 10 {
        out.push(char_of_digit(n));
        assert(out@ =~= old(out)@ + decimal(n as nat));
    } else {
        push_decimal(out, n / 10);
        out.push(char_of_digit(n % 10));
        assert(out@ =~= old(out)@ + decimal(n as nat));
    }
}

/// Whether `c` is white space, as Unicode defines it.
pub uninterp spec fn is_space(c: char) -> bool;

/// Whether `c` is white space.
///
/// Trusted: `char::is_whitespace` depends on the character alone.
#[verifier::external_body]
fn is_whitespace(c: char) -> (r: bool)
    ensures
        r == is_space(c),
{
    c.is_whitespace()
}

/// The length of `s` without the white space at its end.
pub open spec fn content_end(s: Seq<char>) -> nat
    decreases s.len(),
{
    if s.len() > 0 && is_space(s.last()) {
        content_end(s.drop_last())
    } else {
        s.len()
    }
}

/// The text `s` without the white space at its end.
pub open spec fn trimmed_end(s: Seq<char>) -> Seq<char> {
    s.take(content_end(s) as int)
}

/// The text `data` without the white space at its end.
pub fn trim_end(data: &str) -> (r: String)
    ensures
        r@ == trimmed_end(data@),
{
    let mut v = chars_of(data);
    let mut k: usize = v.len();
    proof {
        assert(data@.take(k as int) =~= data@);
    }
    while k > 0 && is_whitespace(v[k - 1])
        invariant
            k <= v.len(),
            v@ == data@,
            content_end(data@) == content_end(data@.take(k as int)),
        decreases k,
    {
        proof {
            let t = data@.take(k as int);
            assert(t.last() == v@[k - 1]);
            assert(t.drop_last() =~= data@.take(k - 1));
        }
        k = k - 1;
    }
    proof {
        assert(data@.take(data@.len() as int) =~= data@);
        let t = data@.take(k as int);
        if k > 0 {
            assert(t.last() == v@[k - 1]);
        }
        assert(content_end(t) == k);
    }
    v.truncate(k);
    proof {
        assert(v@ =~= data@.take(k as int));
    }
    string_of(&v)
}

/// The number of white space characters at the start of `s`.
pub open spec fn content_start(s: Seq<char>) -> nat
    decreases s.len(),
{
    if s.len() > 0 && is_space(s[0]) {
        1 + content_start(s.drop_first())
    } else {
        0
    }
}

/// The text `s` without the white space at its start and at its end.
pub open spec fn trimmed(s: Seq<char>) -> Seq<char> {
    trimmed_end(s.skip(content_start(s) as int))
}

/// The characters of `data` without the white space at their start and at their end.
pub fn trim(data: &str) -> (r: Vec<char>)
    ensures
        r@ == trimmed(data@),
{
    let v = chars_of(data);
    let mut lo: usize = 0;
    proof {
        assert(data@.skip(0) =~= data@);
    }
    while lo < v.len() && is_whitespace(v[lo])
        invariant
            lo <= v.len(),
            v@ == data@,
            content_start(data@) == lo + content_start(data@.skip(lo as int)),
        decreases v.len() - lo,
    {
        proof {
            let t = data@.skip(lo as int);
            assert(t[0] == v@[lo as int]);
            assert(t.drop_first() =~= data@.skip(lo + 1));
        }
        lo = lo + 1;
    }
    proof {
        let t = data@.skip(lo as int);
        if lo < v.len() {
            assert(t[0] == v@[lo as int]);
        }
        assert(content_start(data@) == lo);
    }
    let ghost rest = data@.skip(lo as int);
    let mut hi: usize = v.len();
    proof {
        assert(rest.take(hi - lo) =~= rest);
    }
    while hi > lo && is_whitespace(v[hi - 1])
        invariant
            lo <= hi <= v.len(),
            v@ == data@,
            rest == data@.skip(lo as int),
            content_end(rest) == content_end(rest.take(hi - lo)),
        decreases hi,
    {
        proof {
            let t = rest.take(hi - lo);
            assert(t.last() == v@[hi - 1]);
            assert(t.drop_last() =~= rest.take(hi - lo - 1));
        }
        hi = hi - 1;
    }
    proof {
        let t = rest.take(hi - lo);
        if hi > lo {
            assert(t.last() == v@[hi - 1]);
        }
        assert(content_end(t) == hi - lo);
    }
    let mut r: Vec<char> = Vec::new();
    let mut k: usize = lo;
    while k < hi
        invariant
            lo <= k <= hi <= v.len(),
            r@ == v@.subrange(lo as int, k as int),
        decreases hi - k,
    {
        r.push(v[k]);
        proof {
            assert(r@ =~= v@.subrange(lo as int, k + 1));
        }
        k = k + 1;
    }
    proof {
        assert(v@.subrange(lo as int, hi as int) =~= rest.take(hi - lo));
    }
    r
}

/// Whether `needle` stands in `hay` at the index `at`.
pub open spec fn occurs_at(hay: Seq<char>, needle: Seq<char>, at: int) -> bool {
    0 <= at && at + needle.len() <= hay.len() && hay.subrange(at, at + needle.len()) == needle
}

/// Whether `needle` stands somewhere in `hay`.
pub open spec fn contains_text(hay: Seq<char>, needle: Seq<char>) -> bool {
    exists|at: int| occurs_at(hay, needle, at)
}

/// Whether `needle` stands in `hay` at the index `at`.
fn has_at(hay: &Vec<char>, needle: &Vec<char>, at: usize) -> (r: bool)
    requires
        at + needle.len() <= hay.len(),
    ensures
        r == occurs_at(hay@, needle@, at as int),
{
    let ghost part = hay@.subrange(at as int, at + needle.len());
    let mut k: usize = 0;
    while k < needle.len()
        invariant
            k <= needle.len(),
            at + needle.len() <= hay.len(),
            part == hay@.subrange(at as int, at + needle.len()),
            forall|i: int| 0 <= i < k ==> part[i] == needle@[i],
        decreases needle.len() - k,
    {
        if hay[at + k] != needle[k] {
            proof {
                assert(part[k as int] == hay@[at + k]);
            }
            return false;
        }
        proof {
            assert(part[k as int] == hay@[at + k]);
        }
        k = k + 1;
    }
    proof {
        assert(part =~= needle@);
    }
    true
}

/// Whether `needle` stands somewhere in `hay`.
pub fn contains(hay: &str, needle: &str) -> (r: bool)
    ensures
        r == contains_text(hay@, needle@),
{
    let h = chars_of(hay);
    let n = chars_of(needle);
    if n.len() > h.len() {
        return false;
    }
    if n.len() == 0 {
        proof {
            assert(hay@.subrange(0, 0) =~= needle@);
            assert(occurs_at(hay@, needle@, 0));
        }
        return true;
    }
    let last: usize = h.len() - n.len();
    let mut at: usize = 0;
    while at <= last
        invariant
            at <= last + 1,
            last == h.len() - n.len(),
            0 < n.len() <= h.len(),
            h@ == hay@,
            n@ == needle@,
            forall|i: int| 0 <= i < at ==> !occurs_at(hay@, needle@, i),
        decreases last + 1 - at,
    {
        if has_at(&h, &n, at) {
            return true;
        }
        at = at + 1;
    }
    false
}

/// Whether two runs of characters are the same.
pub fn same_chars(a: &Vec<char>, b: &Vec<char>) -> (r: bool)
    ensures
        r == (a@ == b@),
{
    if a.len() != b.len() {
        return false;
    }
    let mut i: usize = 0;
    while i < a.len()
        invariant
            i <= a.len(),
            a.len() == b.len(),
            a@.take(i as int) == b@.take(i as int),
        decreases a.len() - i,
    {
        if a[i] != b[i] {
            return false;
        }
        proof {
            assert(a@.take(i + 1) =~= a@.take(i as int).push(a@[i as int]));
            assert(b@.take(i + 1) =~= b@.take(i as int).push(b@[i as int]));
        }
        i = i + 1;
    }
    proof {
        assert(a@.take(a.len() as int) =~= a@);
        assert(b@.take(b.len() as int) =~= b@);
    }
    true
}

/// Appends the characters of `more` to `out`.
pub fn push_all(out: &mut Vec<char>, more: &Vec<char>)
    ensures
        final(out)@ == old(out)@ + more@,
{
    let mut i: usize = 0;
    while i < more.len()
        invariant
            i <= more.len(),
            out@ == old(out)@ + more@.take(i as int),
        decreases more.len() - i,
    {
        out.push(more[i]);
        proof {
            assert(more@.take(i + 1) =~= more@.take(i as int).push(more@[i as int]));
            assert(out@ =~= old(out)@ + more@.take(i + 1));
        }
        i = i + 1;
    }
    proof {
        assert(more@.take(more.len() as int) =~= more@);
    }
}

} // verus!

//! Character sequences: the model on which every contract of this crate is
//! stated, and the scanning primitives that the other modules share.
//!
//! A `&str` or `String` is viewed as its `Seq<char>`. Positions are counted in
//! characters, never in bytes.

use vstd::prelude::*;
use vstd::std_specs::iter::IteratorSpec;

verus! {

/// The characters of a list of strings.
pub open spec fn strings_view(strings: Seq<String>) -> Seq<Seq<char>> {
    strings.map_values(|s: String| s@)
}

/// The characters of a list of pairs of strings.
pub open spec fn pairs_view(pairs: Seq<(String, String)>) -> Seq<(Seq<char>, Seq<char>)> {
    pairs.map_values(|p: (String, String)| (p.0@, p.1@))
}

/// The characters with the Unicode property `White_Space`.
pub open spec fn is_whitespace(c: char) -> bool {
    let u = c as int;
    ||| 0x09 <= u <= 0x0D
    ||| u == 0x20
    ||| u == 0x85
    ||| u == 0xA0
    ||| u == 0x1680
    ||| 0x2000 <= u <= 0x200A
    ||| u == 0x2028
    ||| u == 0x2029
    ||| u == 0x202F
    ||| u == 0x205F
    ||| u == 0x3000
}

/// `s` without its leading whitespace.
pub open spec fn trim_start(s: Seq<char>) -> Seq<char>
    decreases s.len(),
{
    if s.len() > 0 && is_whitespace(s[0]) {
        trim_start(s.drop_first())
    } else {
        s
    }
}

/// `s` without its trailing whitespace.
pub open spec fn trim_end(s: Seq<char>) -> Seq<char>
    decreases s.len(),
{
    if s.len() > 0 && is_whitespace(s.last()) {
        trim_end(s.drop_last())
    } else {
        s
    }
}

/// `s` without leading and trailing whitespace.
pub open spec fn trim(s: Seq<char>) -> Seq<char> {
    trim_end(trim_start(s))
}

/// `needle` stands in `s` at position `i`.
pub open spec fn occurs_at(s: Seq<char>, needle: Seq<char>, i: int) -> bool {
    0 <= i && i + needle.len() <= s.len() && s.subrange(i, i + needle.len()) == needle
}

/// The first position at or after `from` where `needle` stands in `s`.
pub open spec fn find_from(s: Seq<char>, needle: Seq<char>, from: int) -> Option<int>
    decreases s.len() - from + 1,
{
    if from < 0 || from + needle.len() > s.len() {
        None
    } else if occurs_at(s, needle, from) {
        Some(from)
    } else {
        find_from(s, needle, from + 1)
    }
}

/// `needle` stands somewhere in `s`.
pub open spec fn contains(s: Seq<char>, needle: Seq<char>) -> bool {
    exists|i: int| occurs_at(s, needle, i)
}

/// `a` comes strictly before `b` when both are compared character by
/// character, by code point, a proper prefix coming first.
pub open spec fn precedes(a: Seq<char>, b: Seq<char>) -> bool
    decreases a.len(),
{
    if b.len() == 0 {
        false
    } else if a.len() == 0 {
        true
    } else if a[0] != b[0] {
        a[0] < b[0]
    } else {
        precedes(a.drop_first(), b.drop_first())
    }
}

/// What `find_from` gives is an occurrence with none before it, and it gives
/// nothing only where there is no occurrence.
pub proof fn lemma_find_from(s: Seq<char>, needle: Seq<char>, from: int)
    requires
        0 <= from,
    ensures
        match find_from(s, needle, from) {
            Some(i) => from <= i && occurs_at(s, needle, i) && forall|j: int|
                from <= j < i ==> !occurs_at(s, needle, j),
            None => forall|j: int| from <= j ==> !occurs_at(s, needle, j),
        },
    decreases s.len() - from + 1,
{
    if from + needle.len() <= s.len() && !occurs_at(s, needle, from) {
        lemma_find_from(s, needle, from + 1);
    }
}

/// An occurrence with nothing before it is the one that `find_from` gives.
pub proof fn lemma_find_from_is(s: Seq<char>, needle: Seq<char>, from: int, i: int)
    requires
        0 <= from <= i,
        occurs_at(s, needle, i),
        forall|j: int| from <= j < i ==> !occurs_at(s, needle, j),
    ensures
        find_from(s, needle, from) == Some(i),
    decreases i - from,
{
    if from < i {
        lemma_find_from_is(s, needle, from + 1, i);
    }
}

/// `trim_start` removes a run of whitespace from the start, and all of it.
pub proof fn lemma_trim_start(s: Seq<char>)
    ensures
        ({
            let t = trim_start(s);
            let k = s.len() - t.len();
            &&& 0 <= k <= s.len()
            &&& t == s.skip(k)
            &&& forall|j: int| 0 <= j < k ==> is_whitespace(#[trigger] s[j])
            &&& t.len() > 0 ==> !is_whitespace(t[0])
        }),
    decreases s.len(),
{
    if s.len() > 0 && is_whitespace(s[0]) {
        let r = s.drop_first();
        lemma_trim_start(r);
        let t = trim_start(r);
        let k = r.len() - t.len();
        assert(r.skip(k) == s.skip(k + 1));
        assert forall|j: int| 0 <= j < k + 1 implies is_whitespace(#[trigger] s[j]) by {
            if j > 0 {
                assert(s[j] == r[j - 1]);
            }
        }
    } else {
        assert(s.skip(0) == s);
    }
}

/// `trim_end` removes a run of whitespace from the end, and all of it.
pub proof fn lemma_trim_end(s: Seq<char>)
    ensures
        ({
            let t = trim_end(s);
            &&& t.len() <= s.len()
            &&& t == s.take(t.len() as int)
            &&& forall|j: int| t.len() <= j < s.len() ==> is_whitespace(#[trigger] s[j])
            &&& t.len() > 0 ==> !is_whitespace(t.last())
        }),
    decreases s.len(),
{
    if s.len() > 0 && is_whitespace(s.last()) {
        let r = s.drop_last();
        lemma_trim_end(r);
        let t = trim_end(r);
        assert(r.take(t.len() as int) == s.take(t.len() as int));
        assert forall|j: int| t.len() <= j < s.len() implies is_whitespace(#[trigger] s[j]) by {
            if j < r.len() {
                assert(s[j] == r[j]);
            }
        }
    } else {
        assert(s.take(s.len() as int) == s);
    }
}

/// A sequence that starts with no whitespace is its own `trim_start`, and one
/// that ends with none is its own `trim_end`.
pub proof fn lemma_trim_fixed(s: Seq<char>)
    ensures
        (s.len() == 0 || !is_whitespace(s[0])) ==> trim_start(s) == s,
        (s.len() == 0 || !is_whitespace(s.last())) ==> trim_end(s) == s,
{
}

/// Trimming twice is trimming once.
pub proof fn lemma_trim_idempotent(s: Seq<char>)
    ensures
        trim_start(trim_start(s)) == trim_start(s),
        trim_end(trim_end(s)) == trim_end(s),
        trim(trim(s)) == trim(s),
{
    lemma_trim_start(s);
    lemma_trim_end(s);
    lemma_trim_fixed(trim_start(s));
    lemma_trim_fixed(trim_end(s));
    let a = trim_start(s);
    let t = trim_end(a);
    lemma_trim_end(a);
    lemma_trim_start(a);
    // t is a prefix of a; if it is not empty its first character is a's
    if t.len() > 0 {
        assert(t[0] == a[0]);
    }
    lemma_trim_fixed(t);
}

/// Nothing comes before itself.
pub proof fn lemma_precedes_irreflexive(a: Seq<char>)
    ensures
        !precedes(a, a),
    decreases a.len(),
{
    if a.len() > 0 {
        lemma_precedes_irreflexive(a.drop_first());
    }
}

/// What comes before something that comes before a third comes before the
/// third.
pub proof fn lemma_precedes_transitive(a: Seq<char>, b: Seq<char>, c: Seq<char>)
    requires
        precedes(a, b),
        precedes(b, c),
    ensures
        precedes(a, c),
    decreases a.len(),
{
    if a.len() > 0 && b.len() > 0 && c.len() > 0 {
        if a[0] == b[0] && b[0] == c[0] {
            lemma_precedes_transitive(a.drop_first(), b.drop_first(), c.drop_first());
        }
    }
}

/// Of two different sequences one comes before the other.
pub proof fn lemma_precedes_connected(a: Seq<char>, b: Seq<char>)
    requires
        a != b,
    ensures
        precedes(a, b) || precedes(b, a),
    decreases a.len(),
{
    if a.len() > 0 && b.len() > 0 {
        if a[0] == b[0] {
            if a.drop_first() == b.drop_first() {
                assert(a =~= seq![a[0]] + a.drop_first());
                assert(b =~= seq![b[0]] + b.drop_first());
            }
            lemma_precedes_connected(a.drop_first(), b.drop_first());
        }
    } else {
        if a.len() == 0 && b.len() == 0 {
            assert(a =~= b);
        }
    }
}

/// The characters of `s`, one by one.
pub fn to_chars(s: &str) -> (v: Vec<char>)
    ensures
        v@ == s@,
{
    broadcast use vstd::string::group_string_axioms;

    let mut v: Vec<char> = Vec::new();
    let chars = s.chars();
    for c in it: chars
        invariant
            it.seq() == s@,
            v@ == s@.take(it.index()),
    {
        v.push(c);
    }
    v
}

/// Whether `c` is whitespace.
pub fn is_space(c: char) -> (b: bool)
    ensures
        b == is_whitespace(c),
{
    let u: u32 = c as u32;
    (0x09 <= u && u <= 0x0D) || u == 0x20 || u == 0x85 || u == 0xA0 || u == 0x1680 || (0x2000 <= u
        && u <= 0x200A) || u == 0x2028 || u == 0x2029 || u == 0x202F || u == 0x205F || u == 0x3000
}

/// The end of the whitespace that starts at `lo`, looking no further than `hi`.
pub(crate) fn skip_space(v: &Vec<char>, lo: usize, hi: usize) -> (k: usize)
    requires
        lo <= hi <= v.len(),
    ensures
        lo <= k <= hi,
        v@.subrange(k as int, hi as int) == trim_start(v@.subrange(lo as int, hi as int)),
{
    let mut k: usize = lo;
    while k < hi && is_space(v[k])
        invariant
            lo <= k <= hi <= v.len(),
            trim_start(v@.subrange(k as int, hi as int)) == trim_start(
                v@.subrange(lo as int, hi as int),
            ),
        decreases hi - k,
    {
        proof {
            let s = v@.subrange(k as int, hi as int);
            assert(s.drop_first() == v@.subrange(k + 1, hi as int));
        }
        k = k + 1;
    }
    proof {
        let s = v@.subrange(k as int, hi as int);
    }
    k
}

/// The start of the whitespace that ends at `hi`, looking no further back
/// than `lo`.
pub(crate) fn skip_space_back(v: &Vec<char>, lo: usize, hi: usize) -> (k: usize)
    requires
        lo <= hi <= v.len(),
    ensures
        lo <= k <= hi,
        v@.subrange(lo as int, k as int) == trim_end(v@.subrange(lo as int, hi as int)),
{
    let mut k: usize = hi;
    while k > lo && is_space(v[k - 1])
        invariant
            lo <= k <= hi <= v.len(),
            trim_end(v@.subrange(lo as int, k as int)) == trim_end(
                v@.subrange(lo as int, hi as int),
            ),
        decreases k - lo,
    {
        proof {
            let s = v@.subrange(lo as int, k as int);
            assert(s.drop_last() == v@.subrange(lo as int, k - 1));
        }
        k = k - 1;
    }
    proof {
        let s = v@.subrange(lo as int, k as int);
    }
    k
}

/// Whether `needle` stands in `v` at position `i`.
pub fn stands_at(v: &Vec<char>, needle: &Vec<char>, i: usize) -> (b: bool)
    ensures
        b == occurs_at(v@, needle@, i as int),
{
    if needle.len() > v.len() || i > v.len() - needle.len() {
        return false;
    }
    let mut j: usize = 0;
    while j < needle.len()
        invariant
            j <= needle.len(),
            i + needle.len() <= v.len(),
            forall|t: int| 0 <= t < j ==> v@[i + t] == needle@[t],
        decreases needle.len() - j,
    {
        if v[i + j] != needle[j] {
            return false;
        }
        j = j + 1;
    }
    assert(v@.subrange(i as int, i + needle.len()) =~= needle@);
    true
}

/// The first position at or after `from` where `needle` stands in `v`.
pub fn position_from(v: &Vec<char>, needle: &Vec<char>, from: usize) -> (r: Option<usize>)
    ensures
        match r {
            Some(i) => find_from(v@, needle@, from as int) == Some(i as int),
            None => find_from(v@, needle@, from as int) is None,
        },
{
    let mut i: usize = from;
    while i < v.len()
        invariant
            from <= i,
            find_from(v@, needle@, i as int) == find_from(v@, needle@, from as int),
        decreases v.len() - i,
    {
        if stands_at(v, needle, i) {
            return Some(i);
        }
        assert(find_from(v@, needle@, i + 1) == find_from(v@, needle@, i as int));
        i = i + 1;
    }
    if stands_at(v, needle, i) {
        Some(i)
    } else {
        assert(find_from(v@, needle@, i + 1) is None);
        None
    }
}

/// Whether `v` begins with `prefix`.
pub fn begins_with(v: &Vec<char>, prefix: &Vec<char>) -> (b: bool)
    ensures
        b == prefix@.is_prefix_of(v@),
{
    let b = stands_at(v, prefix, 0);
    b
}

/// Whether `v` ends with `suffix`.
pub fn finishes_with(v: &Vec<char>, suffix: &Vec<char>) -> (b: bool)
    ensures
        b == suffix@.is_suffix_of(v@),
{
    if suffix.len() > v.len() {
        return false;
    }
    let at: usize = v.len() - suffix.len();
    let b = stands_at(v, suffix, at);
    proof {
        assert(v@.subrange(at as int, at + suffix.len()) == v@.subrange(
            v.len() - suffix.len(),
            v.len() as int,
        ));
    }
    b
}

/// Whether the two hold the same characters.
pub fn same_chars(a: &Vec<char>, b: &Vec<char>) -> (r: bool)
    ensures
        r == (a@ == b@),
{
    if a.len() != b.len() {
        return false;
    }
    let r = stands_at(a, b, 0);
    proof {
        assert(a@.subrange(0, 0 + b.len()) == a@);
    }
    r
}

/// Whether `a` comes strictly before `b`.
pub fn comes_before(a: &Vec<char>, b: &Vec<char>) -> (r: bool)
    ensures
        r == precedes(a@, b@),
{
    let mut i: usize = 0;
    assert(a@.skip(0) == a@ && b@.skip(0) == b@);
    while i < a.len() && i < b.len() && a[i] == b[i]
        invariant
            i <= a.len(),
            i <= b.len(),
            precedes(a@, b@) == precedes(a@.skip(i as int), b@.skip(i as int)),
        decreases a.len() - i,
    {
        proof {
            let x = a@.skip(i as int);
            let y = b@.skip(i as int);
            assert(x.drop_first() == a@.skip(i + 1));
            assert(y.drop_first() == b@.skip(i + 1));
        }
        i = i + 1;
    }
    proof {
        let x = a@.skip(i as int);
        let y = b@.skip(i as int);
    }
    if i >= b.len() {
        false
    } else if i >= a.len() {
        true
    } else {
        a[i] < b[i]
    }
}

/// The characters of `s` from `from` up to `to`, as a new string.
pub(crate) fn slice(s: &str, from: usize, to: usize) -> (r: String)
    requires
        from <= to <= s@.len(),
    ensures
        r@ == s@.subrange(from as int, to as int),
{
    s.substring_char(from, to).to_owned()
}

} // verus!

//! Wiki-style links: the spellings under which a note may be linked, and the
//! patterns that find them.

use crate::path::{final_segment, final_segment_of};
use crate::text::{finishes_with, slice, strings_view, to_chars};
use vstd::prelude::*;

verus! {

/// The suffix `.md`.
pub open spec fn md_suffix() -> Seq<char> {
    seq!['.', 'm', 'd']
}

/// `s` without one `.md` at its end.
pub open spec fn without_md(s: Seq<char>) -> Seq<char> {
    if md_suffix().is_suffix_of(s) {
        s.take(s.len() - 3)
    } else {
        s
    }
}

/// `variants` with one more spelling, unless that spelling is empty or
/// already among them.
pub open spec fn add_variant(variants: Seq<Seq<char>>, spelling: Seq<char>) -> Seq<Seq<char>> {
    if spelling.len() == 0 || variants.contains(spelling) {
        variants
    } else {
        variants.push(spelling)
    }
}

/// The spellings under which the note at `relative_path` may be linked: the
/// path itself, the path without `.md`, the last segment of the path, and
/// that segment without `.md`; in this order, without the empty ones and
/// without repeats.
pub open spec fn link_variants_of(relative_path: Seq<char>) -> Seq<Seq<char>> {
    let segment = final_segment(relative_path);
    add_variant(
        add_variant(
            add_variant(add_variant(Seq::empty(), relative_path), without_md(relative_path)),
            segment,
        ),
        without_md(segment),
    )
}

/// The characters that have a meaning of their own in a regular expression.
pub open spec fn is_meta(c: char) -> bool {
    c == '\\' || c == '.' || c == '+' || c == '*' || c == '?' || c == '(' || c == ')' || c == '|'
        || c == '[' || c == ']' || c == '{' || c == '}' || c == '^' || c == '$' || c == '#' || c
        == '&' || c == '-' || c == '~'
}

/// `s` with a backslash before each character that has a meaning of its own
/// in a regular expression.
pub open spec fn escaped(s: Seq<char>) -> Seq<char>
    decreases s.len(),
{
    if s.len() == 0 {
        Seq::empty()
    } else if is_meta(s.last()) {
        escaped(s.drop_last()).push('\\').push(s.last())
    } else {
        escaped(s.drop_last()).push(s.last())
    }
}

/// The pattern that the search tool is given for one spelling: the spelling
/// between double square brackets, or followed, after optional whitespace, by
/// a bar and an alias of at least one character other than `]`.
pub open spec fn search_pattern_of(variant: Seq<char>) -> Seq<char> {
    "\\[\\["@ + escaped(variant) + "(?:\\s*\\|[^\\]]+)?\\]\\]"@
}

/// The pattern of a plain link to one spelling: `[[spelling]]`.
pub open spec fn exact_pattern_of(variant: Seq<char>) -> Seq<char> {
    "\\[\\["@ + escaped(variant) + "\\]\\]"@
}

/// The pattern of the start of an aliased link to one spelling:
/// `[[spelling|`.
pub open spec fn alias_pattern_of(variant: Seq<char>) -> Seq<char> {
    "\\[\\["@ + escaped(variant) + "\\|"@
}

/// The search patterns of a note, one for each of its spellings.
pub open spec fn search_patterns_of(relative_path: Seq<char>) -> Seq<Seq<char>> {
    link_variants_of(relative_path).map_values(|v: Seq<char>| search_pattern_of(v))
}

/// The patterns that the full scan tries: for each spelling the plain link
/// and the start of the aliased link.
pub open spec fn scan_patterns_of(relative_path: Seq<char>) -> Seq<Seq<char>> {
    let variants = link_variants_of(relative_path);
    Seq::new(
        2 * variants.len(),
        |i: int|
            if i % 2 == 0 {
                exact_pattern_of(variants[i / 2])
            } else {
                alias_pattern_of(variants[i / 2])
            },
    )
}

/// Law. No spelling is empty and none comes twice; and the path itself, if
/// it is not empty, is the first of them.
pub proof fn lemma_variants_are_distinct(relative_path: Seq<char>)
    ensures
        link_variants_of(relative_path).no_duplicates(),
        forall|i: int|
            0 <= i < link_variants_of(relative_path).len() ==> (
            #[trigger] link_variants_of(relative_path)[i]).len() > 0,
        relative_path.len() > 0 ==> link_variants_of(relative_path).len() > 0
            && link_variants_of(relative_path)[0] == relative_path,
{
    let segment = final_segment(relative_path);
    let a = add_variant(Seq::empty(), relative_path);
    let b = add_variant(a, without_md(relative_path));
    let c = add_variant(b, segment);
    lemma_add_variant(Seq::empty(), relative_path);
    lemma_add_variant(a, without_md(relative_path));
    lemma_add_variant(b, segment);
    lemma_add_variant(c, without_md(segment));
}

/// Adding a spelling keeps the spellings distinct and not empty, and keeps
/// those that were there in their places.
pub proof fn lemma_add_variant(variants: Seq<Seq<char>>, spelling: Seq<char>)
    requires
        variants.no_duplicates(),
        forall|i: int| 0 <= i < variants.len() ==> (#[trigger] variants[i]).len() > 0,
    ensures
        add_variant(variants, spelling).no_duplicates(),
        forall|i: int|
            0 <= i < add_variant(variants, spelling).len() ==> (#[trigger] add_variant(
                variants,
                spelling,
            )[i]).len() > 0,
        variants.len() <= add_variant(variants, spelling).len(),
        forall|i: int|
            0 <= i < variants.len() ==> #[trigger] add_variant(variants, spelling)[i]
                == variants[i],
        spelling.len() > 0 ==> add_variant(variants, spelling).contains(spelling),
{
    let r = add_variant(variants, spelling);
    if spelling.len() > 0 && !variants.contains(spelling) {
        assert(r[variants.len() as int] == spelling);
    }
}

/// Law. A note in a folder whose name ends in `.md` has four spellings: the
/// path, the path without `.md`, the file name, the file name without `.md`.
/// A link in any of them is a link to the note.
pub proof fn lemma_variants_cover(relative_path: Seq<char>)
    ensures
        ({
            let variants = link_variants_of(relative_path);
            let segment = final_segment(relative_path);
            &&& relative_path.len() > 0 ==> variants.contains(relative_path)
            &&& without_md(relative_path).len() > 0 ==> variants.contains(
                without_md(relative_path),
            )
            &&& segment.len() > 0 ==> variants.contains(segment)
            &&& without_md(segment).len() > 0 ==> variants.contains(without_md(segment))
        }),
{
    let segment = final_segment(relative_path);
    let a = add_variant(Seq::empty(), relative_path);
    let b = add_variant(a, without_md(relative_path));
    let c = add_variant(b, segment);
    let d = add_variant(c, without_md(segment));
    lemma_add_variant(Seq::empty(), relative_path);
    lemma_add_variant(a, without_md(relative_path));
    lemma_add_variant(b, segment);
    lemma_add_variant(c, without_md(segment));
    lemma_kept(a, b, relative_path);
    lemma_kept(b, c, relative_path);
    lemma_kept(c, d, relative_path);
    lemma_kept(b, c, without_md(relative_path));
    lemma_kept(c, d, without_md(relative_path));
    lemma_kept(c, d, segment);
}

/// What stands in a list stands in every list that keeps its places.
pub proof fn lemma_kept(before: Seq<Seq<char>>, after: Seq<Seq<char>>, spelling: Seq<char>)
    requires
        before.len() <= after.len(),
        forall|i: int| 0 <= i < before.len() ==> #[trigger] after[i] == before[i],
    ensures
        before.contains(spelling) ==> after.contains(spelling),
{
    if before.contains(spelling) {
        let i = choose|i: int| 0 <= i < before.len() && before[i] == spelling;
        assert(after[i] == spelling);
    }
}

/// `s` without one `.md` at its end.
pub fn strip_md(s: &str) -> (r: String)
    ensures
        r@ == without_md(s@),
{
    let v = to_chars(s);
    let md: Vec<char> = vec!['.', 'm', 'd'];
    if finishes_with(&v, &md) {
        slice(s, 0, v.len() - 3)
    } else {
        s.to_owned()
    }
}

/// Adds a spelling to `variants`, unless it is empty or already there.
pub fn push_variant(variants: &mut Vec<String>, spelling: String)
    ensures
        strings_view(final(variants)@) == add_variant(strings_view(old(variants)@), spelling@),
{
    let ghost before = strings_view(variants@);
    if spelling.as_str().is_empty() {
        return ;
    }
    let mut i: usize = 0;
    while i < variants.len()
        invariant
            i <= variants.len(),
            before == strings_view(variants@),
            forall|j: int| 0 <= j < i ==> before[j] != spelling@,
        decreases variants.len() - i,
    {
        if variants[i] == spelling {
            assert(before[i as int] == spelling@);
            return ;
        }
        i = i + 1;
    }
    variants.push(spelling);
}

/// The spellings under which the note at `relative_path` may be linked.
pub fn link_variants(relative_path: &str) -> (r: Vec<String>)
    ensures
        strings_view(r@) == link_variants_of(relative_path@),
{
    let mut variants: Vec<String> = Vec::new();
    assert(strings_view(variants@) == Seq::<Seq<char>>::empty());
    let segment = final_segment_of(relative_path);
    push_variant(&mut variants, relative_path.to_owned());
    push_variant(&mut variants, strip_md(relative_path));
    let short = strip_md(segment.as_str());
    push_variant(&mut variants, segment);
    push_variant(&mut variants, short);
    variants
}

/// Calls `regex::escape`, which goes through the text character by character
/// and puts a backslash before each of the eighteen characters that
/// `regex_syntax::is_meta_character` lists.
#[verifier::external_body]
fn escape(text: &str) -> (r: String)
    ensures
        r@ == escaped(text@),
{
    regex::escape(text)
}

/// The pattern that the search tool is given for one spelling.
pub fn search_pattern(variant: &str) -> (r: String)
    ensures
        r@ == search_pattern_of(variant@),
{
    "\\[\\[".to_owned().concat(escape(variant).as_str()).concat("(?:\\s*\\|[^\\]]+)?\\]\\]")
}

/// The pattern of a plain link to one spelling.
pub fn exact_pattern(variant: &str) -> (r: String)
    ensures
        r@ == exact_pattern_of(variant@),
{
    "\\[\\[".to_owned().concat(escape(variant).as_str()).concat("\\]\\]")
}

/// The pattern of the start of an aliased link to one spelling.
pub fn alias_pattern(variant: &str) -> (r: String)
    ensures
        r@ == alias_pattern_of(variant@),
{
    "\\[\\[".to_owned().concat(escape(variant).as_str()).concat("\\|")
}

/// The search patterns of a note, one for each of its spellings, in their
/// order.
pub fn search_patterns(relative_path: &str) -> (r: Vec<String>)
    ensures
        strings_view(r@) == search_patterns_of(relative_path@),
{
    let variants = link_variants(relative_path);
    let mut patterns: Vec<String> = Vec::new();
    let mut i: usize = 0;
    while i < variants.len()
        invariant
            i <= variants.len(),
            patterns.len() == i,
            strings_view(variants@) == link_variants_of(relative_path@),
            forall|j: int|
                0 <= j < i ==> (#[trigger] patterns@[j])@ == search_pattern_of(variants@[j]@),
        decreases variants.len() - i,
    {
        patterns.push(search_pattern(variants[i].as_str()));
        i = i + 1;
    }
    patterns
}

/// The patterns that the full scan tries for a note.
pub fn scan_patterns(relative_path: &str) -> (r: Vec<String>)
    ensures
        strings_view(r@) == scan_patterns_of(relative_path@),
{
    let variants = link_variants(relative_path);
    let mut patterns: Vec<String> = Vec::new();
    let mut i: usize = 0;
    while i < variants.len()
        invariant
            i <= variants.len(),
            patterns.len() == 2 * i,
            strings_view(variants@) == link_variants_of(relative_path@),
            forall|j: int|
                0 <= j < i ==> (#[trigger] patterns@[2 * j])@ == exact_pattern_of(variants@[j]@),
            forall|j: int|
                0 <= j < i ==> (#[trigger] patterns@[2 * j + 1])@ == alias_pattern_of(
                    variants@[j]@,
                ),
        decreases variants.len() - i,
    {
        patterns.push(exact_pattern(variants[i].as_str()));
        patterns.push(alias_pattern(variants[i].as_str()));
        i = i + 1;
    }
    proof {
        let want = scan_patterns_of(relative_path@);
        let got = strings_view(patterns@);
        assert forall|k: int| 0 <= k < got.len() implies got[k] == want[k] by {
            if k % 2 != 0 {
                assert(k == 2 * (k / 2) + 1);
            }
        }
    }
    patterns
}

} // verus!

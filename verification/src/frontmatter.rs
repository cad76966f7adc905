//! The frontmatter codec: a note's text is an optional metadata block between
//! two `---` delimiters, followed by the body.

use crate::text::{
    begins_with, contains, find_from, is_whitespace, lemma_find_from, lemma_find_from_is,
    lemma_trim_end, lemma_trim_idempotent, lemma_trim_start, occurs_at, position_from, skip_space,
    skip_space_back, slice, to_chars, trim, trim_end, trim_start,
};
use vstd::prelude::*;

verus! {

/// The delimiter `---`.
pub open spec fn delimiter() -> Seq<char> {
    seq!['-', '-', '-']
}

/// What stands before the metadata in a rendered note: the delimiter and a
/// line feed.
pub open spec fn opening() -> Seq<char> {
    seq!['-', '-', '-', '\n']
}

/// What stands between the metadata and the body in a rendered note: a line
/// feed, the delimiter, and an empty line.
pub open spec fn closing() -> Seq<char> {
    seq!['\n', '-', '-', '-', '\n', '\n']
}

/// The metadata block and the body of `text`.
///
/// A text has a metadata block when it begins with the delimiter, the
/// delimiter stands again somewhere after the first three characters, and at
/// least one character follows that second delimiter. The block is what stands
/// between the two, trimmed; the body is what follows the second, without its
/// leading whitespace. Any other text is all body.
pub open spec fn split(text: Seq<char>) -> (Option<Seq<char>>, Seq<char>) {
    if delimiter().is_prefix_of(text) {
        match find_from(text, delimiter(), 3) {
            Some(end) => if end + 3 < text.len() {
                (Some(trim(text.subrange(3, end))), trim_start(text.skip(end + 3)))
            } else {
                (None, text)
            },
            None => (None, text),
        }
    } else {
        (None, text)
    }
}

/// The text of a note with the given metadata block and body. Without a block
/// the text is the body alone.
pub open spec fn rendered(frontmatter: Option<Seq<char>>, body: Seq<char>) -> Seq<char> {
    match frontmatter {
        Some(f) => opening() + f + closing() + body,
        None => body,
    }
}

/// The characters of an optional string.
pub open spec fn opt_view(s: Option<String>) -> Option<Seq<char>> {
    match s {
        Some(t) => Some(t@),
        None => None,
    }
}

/// The characters of an optional string slice.
pub open spec fn opt_str_view(s: Option<&str>) -> Option<Seq<char>> {
    match s {
        Some(t) => Some(t@),
        None => None,
    }
}

/// Splits a note's text into its metadata block, if it has one, and its body.
pub fn extract_frontmatter_and_content(content: &str) -> (r: (Option<String>, String))
    ensures
        opt_view(r.0) == split(content@).0,
        r.1@ == split(content@).1,
{
    let chars = to_chars(content);
    let delim: Vec<char> = vec!['-', '-', '-'];
    if begins_with(&chars, &delim) {
        if let Some(end) = position_from(&chars, &delim, 3) {
            proof {
                lemma_find_from(chars@, delim@, 3);
                assert(end + 3 <= chars.len());
            }
            if end + 3 < chars.len() {
                let from = skip_space(&chars, 3, end);
                let to = skip_space_back(&chars, from, end);
                let body_from = skip_space(&chars, end + 3, chars.len());
                let frontmatter = slice(content, from, to);
                let body = slice(content, body_from, chars.len());
                return (Some(frontmatter), body);
            }
        }
    }
    (None, content.to_owned())
}

/// Writes a note's text from a metadata block and a body. The block is put
/// between its delimiters as it is; without a block the body is the text.
pub fn render(frontmatter: Option<&str>, body: &str) -> (r: String)
    ensures
        r@ == rendered(opt_str_view(frontmatter), body@),
{
    match frontmatter {
        Some(f) => {
            proof {
                reveal_strlit("---\n");
                reveal_strlit("\n---\n\n");
            }
            "---\n".to_owned().concat(f).concat("\n---\n\n").concat(body)
        },
        None => body.to_owned(),
    }
}

/// A part of a sequence holds no occurrence that the whole does not hold.
pub proof fn lemma_occurs_in_part(s: Seq<char>, needle: Seq<char>, lo: int, hi: int, i: int)
    requires
        0 <= lo <= hi <= s.len(),
        occurs_at(s.subrange(lo, hi), needle, i),
    ensures
        occurs_at(s, needle, lo + i),
        lo + i + needle.len() <= hi,
{
    let part = s.subrange(lo, hi);
    assert(s.subrange(lo + i, lo + i + needle.len()) == part.subrange(i, i + needle.len()));
}

/// Trimming keeps a part of the sequence.
pub proof fn lemma_trim_is_part(s: Seq<char>)
    ensures
        ({
            let t = trim(s);
            let k = s.len() - trim_start(s).len();
            0 <= k && k + t.len() <= s.len() && t == s.subrange(k, k + t.len())
        }),
{
    lemma_trim_start(s);
    lemma_trim_end(trim_start(s));
    let k = s.len() - trim_start(s).len();
    let t = trim(s);
    assert(s.skip(k).take(t.len() as int) == s.subrange(k, k + t.len()));
}

/// Whitespace before a sequence does not change its `trim_start`.
pub proof fn lemma_trim_start_after_space(space: Seq<char>, s: Seq<char>)
    requires
        forall|j: int| 0 <= j < space.len() ==> is_whitespace(#[trigger] space[j]),
    ensures
        trim_start(space + s) == trim_start(s),
    decreases space.len(),
{
    if space.len() > 0 {
        let whole = space + s;
        assert(whole[0] == space[0]);
        assert(whole.drop_first() == space.drop_first() + s);
        assert forall|j: int| 0 <= j < space.drop_first().len() implies is_whitespace(
            #[trigger] space.drop_first()[j],
        ) by {
            assert(space.drop_first()[j] == space[j + 1]);
        }
        lemma_trim_start_after_space(space.drop_first(), s);
    } else {
        assert(space + s == s);
    }
}

/// Whitespace after a sequence does not change its `trim_end`.
pub proof fn lemma_trim_end_before_space(s: Seq<char>, space: Seq<char>)
    requires
        forall|j: int| 0 <= j < space.len() ==> is_whitespace(#[trigger] space[j]),
    ensures
        trim_end(s + space) == trim_end(s),
    decreases space.len(),
{
    if space.len() > 0 {
        let whole = s + space;
        assert(whole.last() == space.last());
        assert(whole.drop_last() == s + space.drop_last());
        assert forall|j: int| 0 <= j < space.drop_last().len() implies is_whitespace(
            #[trigger] space.drop_last()[j],
        ) by {
            assert(space.drop_last()[j] == space[j]);
        }
        lemma_trim_end_before_space(s, space.drop_last());
    } else {
        assert(s + space == s);
    }
}

/// Whitespace after a sequence stays behind its `trim_start`, unless the
/// sequence is all whitespace.
pub proof fn lemma_trim_start_keeps_tail(s: Seq<char>, tail: Seq<char>)
    requires
        trim_start(s).len() > 0,
    ensures
        trim_start(s + tail) == trim_start(s) + tail,
    decreases s.len(),
{
    if s.len() > 0 && is_whitespace(s[0]) {
        let whole = s + tail;
        assert(whole[0] == s[0]);
        assert(whole.drop_first() == s.drop_first() + tail);
        lemma_trim_start_keeps_tail(s.drop_first(), tail);
    } else {
        let whole = s + tail;
        assert(whole[0] == s[0]);
    }
}

/// A sequence of whitespace has an empty `trim_start`.
pub proof fn lemma_trim_start_of_space(space: Seq<char>)
    requires
        forall|j: int| 0 <= j < space.len() ==> is_whitespace(#[trigger] space[j]),
    ensures
        trim_start(space) == Seq::<char>::empty(),
{
    lemma_trim_start_after_space(space, Seq::<char>::empty());
    assert(space + Seq::<char>::empty() == space);
}

/// Law. Rendering a block and a body and splitting the text again gives the
/// block, trimmed, and the body without its leading whitespace, whenever the
/// block does not hold the delimiter.
pub proof fn lemma_split_of_rendered(frontmatter: Seq<char>, body: Seq<char>)
    requires
        !contains(frontmatter, delimiter()),
    ensures
        split(rendered(Some(frontmatter), body)) == (
            Some(trim(frontmatter)),
            trim_start(body),
        ),
{
    let f = frontmatter;
    let text = rendered(Some(f), body);
    let d = delimiter();
    let n: int = f.len() as int;
    let end: int = n + 5;
    assert(text.len() == 10 + f.len() + body.len());
    assert(text.subrange(0, 3) == d);
    assert(text.subrange(end, end + 3) == d);
    assert forall|j: int| 3 <= j < end implies !occurs_at(text, d, j) by {
        if occurs_at(text, d, j) {
            let w = text.subrange(j, j + 3);
            assert(w[0] == text[j] && w[1] == text[j + 1] && w[2] == text[j + 2]);
            if j == 3 {
                assert(text[3] == '\n');
            } else if j + 3 <= 4 + f.len() {
                assert(f.subrange(j - 4, j - 4 + 3) == w);
                assert(occurs_at(f, d, j - 4));
            } else {
                assert(text[n + 4] == '\n');
            }
        }
    }
    lemma_find_from_is(text, d, 3, end);
    let nl: Seq<char> = seq!['\n'];
    let between = text.subrange(3, end);
    assert(between == nl + f + nl);
    assert(is_whitespace('\n'));
    lemma_trim_start_after_space(nl, f + nl);
    assert(nl + (f + nl) == nl + f + nl);
    if trim_start(f).len() > 0 {
        lemma_trim_start_keeps_tail(f, nl);
        lemma_trim_end_before_space(trim_start(f), nl);
    } else {
        lemma_trim_start(f);
        assert(f.skip(f.len() as int) == Seq::<char>::empty());
        assert forall|j: int| 0 <= j < (f + nl).len() implies is_whitespace(
            #[trigger] (f + nl)[j],
        ) by {
            if j < f.len() {
                assert((f + nl)[j] == f[j]);
            }
        }
        lemma_trim_start_of_space(f + nl);
    }
    assert(trim(between) == trim(f));
    let nl2: Seq<char> = seq!['\n', '\n'];
    assert(text.skip(end + 3) == nl2 + body);
    lemma_trim_start_after_space(nl2, body);
}

/// Law. What `split` gives is stable: a text and the text rendered from its
/// parts split into the same block and the same body.
pub proof fn lemma_split_stable(text: Seq<char>)
    ensures
        split(rendered(split(text).0, split(text).1)) == split(text),
{
    lemma_block_survives(text, split(text).1);
    lemma_trim_idempotent(text.skip(0));
    if split(text).0 is Some {
        let end = find_from(text, delimiter(), 3)->0;
        lemma_trim_idempotent(text.skip(end + 3));
    }
}

/// Law. A note that has a metadata block keeps it, character for character,
/// whatever body it is given, even one that holds delimiters of its own; and
/// the body read back is the one given, without its leading whitespace.
pub proof fn lemma_block_survives(text: Seq<char>, new_body: Seq<char>)
    ensures
        split(text).0 is Some ==> split(rendered(split(text).0, new_body)) == (
            split(text).0,
            trim_start(new_body),
        ),
        split(text).0 is None ==> rendered(split(text).0, new_body) == new_body,
{
    if split(text).0 is Some {
        let d = delimiter();
        let end = find_from(text, d, 3)->0;
        lemma_find_from(text, d, 3);
        let between = text.subrange(3, end);
        let f = trim(between);
        lemma_trim_is_part(between);
        let k = between.len() - trim_start(between).len();
        assert forall|i: int| !occurs_at(f, d, i) by {
            if occurs_at(f, d, i) {
                lemma_occurs_in_part(between, d, k, k + f.len(), i);
                lemma_occurs_in_part(text, d, 3, end, k + i);
            }
        }
        lemma_split_of_rendered(f, new_body);
        lemma_trim_idempotent(between);
    }
}

/// Law. A text written by `rendered` from a trimmed block without delimiter
/// and a body without leading whitespace is given back unchanged when it is
/// split and rendered again.
pub proof fn lemma_render_of_split(frontmatter: Seq<char>, body: Seq<char>)
    requires
        !contains(frontmatter, delimiter()),
        trim(frontmatter) == frontmatter,
        trim_start(body) == body,
    ensures
        ({
            let text = rendered(Some(frontmatter), body);
            rendered(split(text).0, split(text).1) == text
        }),
{
    lemma_split_of_rendered(frontmatter, body);
}

} // verus!

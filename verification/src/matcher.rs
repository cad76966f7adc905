//! Matching a note's text against link patterns, with the `regex` crate.

use crate::text::strings_view;
use vstd::prelude::*;

verus! {

/// Makes `regex::Regex` known as a type whose inside is not looked at.
#[verifier::external_type_specification]
#[verifier::external_body]
pub struct ExRegex(regex::Regex);

/// Whether `regex::Regex::new` accepts a pattern.
pub uninterp spec fn regex_compiles(pattern: Seq<char>) -> bool;

/// The pattern that a compiled expression was made from: what
/// `regex::Regex::as_str` gives.
pub uninterp spec fn regex_source(regex: regex::Regex) -> Seq<char>;

/// Whether the expression made from `pattern` finds a match somewhere in
/// `haystack`: what `regex::Regex::is_match` gives.
pub uninterp spec fn regex_finds(pattern: Seq<char>, haystack: Seq<char>) -> bool;

/// Calls `regex::Regex::new` and drops the error. The contract claims that
/// whether a pattern compiles depends on the pattern alone, and that the
/// expression remembers the pattern it was made from.
#[verifier::external_body]
fn compile(pattern: &str) -> (r: Option<regex::Regex>)
    ensures
        r is Some <==> regex_compiles(pattern@),
        r matches Some(regex) ==> regex_source(regex) == pattern@,
{
    regex::Regex::new(pattern).ok()
}

/// Calls `regex::Regex::is_match`. The contract claims that the answer
/// depends on the pattern and the haystack alone.
#[verifier::external_body]
fn is_match(regex: &regex::Regex, haystack: &str) -> (b: bool)
    ensures
        b == regex_finds(regex_source(*regex), haystack@),
{
    regex.is_match(haystack)
}

/// Whether one of the patterns that compile finds a match in `text`.
pub open spec fn links_to(patterns: Seq<Seq<char>>, text: Seq<char>) -> bool {
    exists|k: int|
        0 <= k < patterns.len() && regex_compiles(#[trigger] patterns[k]) && regex_finds(
            patterns[k],
            text,
        )
}

/// Whether `compiled` are those of the `patterns` that compile.
pub open spec fn compiled_from(compiled: Seq<Seq<char>>, patterns: Seq<Seq<char>>) -> bool {
    &&& forall|i: int|
        0 <= i < compiled.len() ==> regex_compiles(#[trigger] compiled[i]) && patterns.contains(
            compiled[i],
        )
    &&& forall|k: int|
        0 <= k < patterns.len() && regex_compiles(#[trigger] patterns[k]) ==> compiled.contains(
            patterns[k],
        )
}

/// Whether one of the compiled patterns finds a match in `text`.
pub open spec fn any_finds(compiled: Seq<Seq<char>>, text: Seq<char>) -> bool {
    exists|i: int| 0 <= i < compiled.len() && regex_finds(#[trigger] compiled[i], text)
}

/// The compiled patterns stand for the patterns: one of them finds a match
/// exactly when one of the patterns that compile does.
pub proof fn lemma_compiled_stand_for(
    compiled: Seq<Seq<char>>,
    patterns: Seq<Seq<char>>,
    text: Seq<char>,
)
    requires
        compiled_from(compiled, patterns),
    ensures
        any_finds(compiled, text) == links_to(patterns, text),
{
    if any_finds(compiled, text) {
        let i = choose|i: int| 0 <= i < compiled.len() && regex_finds(#[trigger] compiled[i], text);
        assert(patterns.contains(compiled[i]));
        let k = choose|k: int| 0 <= k < patterns.len() && patterns[k] == compiled[i];
        assert(regex_compiles(patterns[k]) && regex_finds(patterns[k], text));
    }
    if links_to(patterns, text) {
        let k = choose|k: int|
            0 <= k < patterns.len() && regex_compiles(#[trigger] patterns[k]) && regex_finds(
                patterns[k],
                text,
            );
        assert(compiled.contains(patterns[k]));
        let i = choose|i: int| 0 <= i < compiled.len() && compiled[i] == patterns[k];
        assert(regex_finds(compiled[i], text));
    }
}

/// Patterns that are compiled stay compiled when a pattern is added, with
/// the pattern itself if it compiles.
pub proof fn lemma_compiled_grows(
    compiled: Seq<Seq<char>>,
    patterns: Seq<Seq<char>>,
    pattern: Seq<char>,
)
    requires
        compiled_from(compiled, patterns),
    ensures
        compiled_from(
            if regex_compiles(pattern) {
                compiled.push(pattern)
            } else {
                compiled
            },
            patterns.push(pattern),
        ),
{
    let after = if regex_compiles(pattern) {
        compiled.push(pattern)
    } else {
        compiled
    };
    let next = patterns.push(pattern);
    assert forall|i: int| 0 <= i < after.len() implies regex_compiles(#[trigger] after[i])
        && next.contains(after[i]) by {
        if i < compiled.len() {
            assert(after[i] == compiled[i]);
            assert(patterns.contains(compiled[i]));
            let k = choose|k: int| 0 <= k < patterns.len() && patterns[k] == compiled[i];
            assert(next[k] == patterns[k]);
        } else {
            assert(next[patterns.len() as int] == pattern);
        }
    }
    assert forall|k: int|
        0 <= k < next.len() && regex_compiles(#[trigger] next[k]) implies after.contains(
        next[k],
    ) by {
        if k < patterns.len() {
            assert(next[k] == patterns[k]);
            assert(compiled.contains(patterns[k]));
            let i = choose|i: int| 0 <= i < compiled.len() && compiled[i] == patterns[k];
            assert(after[i] == compiled[i]);
        } else {
            assert(after[compiled.len() as int] == pattern);
        }
    }
}

/// Link patterns, compiled and ready to be tried against texts.
pub struct Matcher {
    regexes: Vec<regex::Regex>,
}

impl Matcher {
    /// The patterns that the matcher tries, in their order.
    pub closed spec fn compiled(&self) -> Seq<Seq<char>> {
        Seq::new(self.regexes@.len(), |i: int| regex_source(self.regexes@[i]))
    }

    /// Compiles the patterns; those that do not compile are left out.
    pub fn new(patterns: &Vec<String>) -> (r: Matcher)
        ensures
            compiled_from(r.compiled(), strings_view(patterns@)),
    {
        let mut matcher = Matcher { regexes: Vec::new() };
        let ghost all = strings_view(patterns@);
        let mut n: usize = 0;
        while n < patterns.len()
            invariant
                n <= patterns.len(),
                all == strings_view(patterns@),
                compiled_from(matcher.compiled(), all.take(n as int)),
            decreases patterns.len() - n,
        {
            let ghost before = matcher.compiled();
            assert(all.take(n + 1) == all.take(n as int).push(all[n as int]));
            proof {
                lemma_compiled_grows(before, all.take(n as int), all[n as int]);
            }
            if let Some(regex) = compile(patterns[n].as_str()) {
                matcher.regexes.push(regex);
                assert(matcher.compiled() == before.push(all[n as int]));
            }
            n = n + 1;
        }
        assert(all.take(n as int) == all);
        matcher
    }

    /// Whether one of the patterns finds a match in `text`.
    pub fn matches(&self, text: &str) -> (b: bool)
        ensures
            b == any_finds(self.compiled(), text@),
    {
        let mut i: usize = 0;
        while i < self.regexes.len()
            invariant
                i <= self.regexes.len(),
                forall|j: int| 0 <= j < i ==> !regex_finds(#[trigger] self.compiled()[j], text@),
            decreases self.regexes.len() - i,
        {
            if is_match(&self.regexes[i], text) {
                assert(regex_finds(self.compiled()[i as int], text@));
                return true;
            }
            i = i + 1;
        }
        false
    }
}

} // verus!

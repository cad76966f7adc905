//! The order of results: hits sorted by path, each path once.

use crate::text::{
    comes_before, lemma_precedes_connected, lemma_precedes_irreflexive,
    lemma_precedes_transitive, pairs_view, precedes, same_chars, to_chars,
};
use vstd::prelude::*;

verus! {

/// A note that links to the target: its relative path and its title.
pub type Hit = (Seq<char>, Seq<char>);

/// Whether the hits stand in strictly ascending order of their paths.
pub open spec fn ascending(hits: Seq<Hit>) -> bool {
    forall|i: int, j: int| 0 <= i < j < hits.len() ==> precedes(hits[i].0, hits[j].0)
}

/// Whether `found[k]` is the first in `found` with its path.
pub open spec fn first_with_path(found: Seq<Hit>, k: int) -> bool {
    0 <= k < found.len() && forall|m: int| 0 <= m < k ==> found[m].0 != found[k].0
}

/// Whether `hit` is in `found`, as the first with its path.
pub open spec fn is_first_of(hit: Hit, found: Seq<Hit>) -> bool {
    exists|k: int| first_with_path(found, k) && found[k] == hit
}

/// Whether some hit in `hits` has the path `path`.
pub open spec fn has_path(hits: Seq<Hit>, path: Seq<char>) -> bool {
    exists|i: int| 0 <= i < hits.len() && hits[i].0 == path
}

/// Whether `result` is `found` put in order: sorted by path, strictly
/// ascending, each path of `found` once, with the first hit that has it.
pub open spec fn arranged(result: Seq<Hit>, found: Seq<Hit>) -> bool {
    &&& ascending(result)
    &&& forall|i: int| 0 <= i < result.len() ==> is_first_of(#[trigger] result[i], found)
    &&& forall|k: int| 0 <= k < found.len() ==> has_path(result, (#[trigger] found[k]).0)
}

/// A hit whose path is already there changes nothing.
pub proof fn lemma_arranged_skip(result: Seq<Hit>, found: Seq<Hit>, hit: Hit)
    requires
        arranged(result, found),
        has_path(result, hit.0),
    ensures
        arranged(result, found.push(hit)),
{
    let more = found.push(hit);
    assert forall|i: int| 0 <= i < result.len() implies is_first_of(
        #[trigger] result[i],
        more,
    ) by {
        assert(is_first_of(result[i], found));
        let k = choose|k: int| first_with_path(found, k) && found[k] == result[i];
        assert forall|m: int| 0 <= m < k implies more[m].0 != more[k].0 by {
            assert(more[m] == found[m]);
        }
        assert(more[k] == found[k]);
        assert(first_with_path(more, k));
    }
    assert forall|k: int| 0 <= k < more.len() implies has_path(result, (#[trigger] more[k]).0) by {
        if k < found.len() {
            assert(more[k] == found[k]);
        }
    }
}

/// A hit with a new path goes where the order wants it.
pub proof fn lemma_arranged_insert(result: Seq<Hit>, found: Seq<Hit>, hit: Hit, at: int)
    requires
        arranged(result, found),
        0 <= at <= result.len(),
        forall|t: int| 0 <= t < at ==> precedes(result[t].0, hit.0),
        at < result.len() ==> precedes(hit.0, result[at].0),
    ensures
        arranged(result.insert(at, hit), found.push(hit)),
{
    let more = found.push(hit);
    let next = result.insert(at, hit);
    assert forall|t: int| at <= t < result.len() implies precedes(hit.0, result[t].0) by {
        if t > at {
            lemma_precedes_transitive(hit.0, result[at].0, result[t].0);
        }
    }
    assert forall|t: int| 0 <= t < result.len() implies result[t].0 != hit.0 by {
        lemma_precedes_irreflexive(hit.0);
    }
    assert forall|i: int, j: int| 0 <= i < j < next.len() implies precedes(
        next[i].0,
        next[j].0,
    ) by {
        if j < at {
            assert(next[i] == result[i] && next[j] == result[j]);
        } else if j == at {
            assert(next[i] == result[i]);
        } else if i < at {
            assert(next[i] == result[i] && next[j] == result[j - 1]);
        } else if i == at {
            assert(next[j] == result[j - 1]);
        } else {
            assert(next[i] == result[i - 1] && next[j] == result[j - 1]);
        }
    }
    assert forall|m: int| 0 <= m < found.len() implies found[m].0 != hit.0 by {
        assert(has_path(result, found[m].0));
    }
    assert forall|i: int| 0 <= i < next.len() implies is_first_of(#[trigger] next[i], more) by {
        if i == at {
            let k = found.len() as int;
            assert(more[k] == hit);
            assert forall|m: int| 0 <= m < k implies more[m].0 != more[k].0 by {
                assert(more[m] == found[m]);
            }
            assert(first_with_path(more, k));
        } else {
            let old_i = if i < at {
                i
            } else {
                i - 1
            };
            assert(next[i] == result[old_i]);
            assert(is_first_of(result[old_i], found));
            let k = choose|k: int| first_with_path(found, k) && found[k] == result[old_i];
            assert forall|m: int| 0 <= m < k implies more[m].0 != more[k].0 by {
                assert(more[m] == found[m]);
            }
            assert(more[k] == found[k]);
            assert(first_with_path(more, k));
        }
    }
    assert forall|k: int| 0 <= k < more.len() implies has_path(next, (#[trigger] more[k]).0) by {
        if k < found.len() {
            assert(more[k] == found[k]);
            assert(has_path(result, found[k].0));
            let i = choose|i: int| 0 <= i < result.len() && result[i].0 == found[k].0;
            if i < at {
                assert(next[i] == result[i]);
            } else {
                assert(next[i + 1] == result[i]);
            }
        } else {
            assert(next[at] == hit);
        }
    }
}

/// Law. Only one arrangement of the hits exists: what `arranged` says of a
/// result is true of no other sequence.
pub proof fn lemma_arranged_is_unique(a: Seq<Hit>, b: Seq<Hit>, found: Seq<Hit>)
    requires
        arranged(a, found),
        arranged(b, found),
    ensures
        a == b,
{
    lemma_same_paths_same_order(a, b, found, 0);
    assert(a =~= b);
}

/// Two arrangements of the same hits agree from position `n` on, if they
/// agree before it.
proof fn lemma_same_paths_same_order(a: Seq<Hit>, b: Seq<Hit>, found: Seq<Hit>, n: int)
    requires
        arranged(a, found),
        arranged(b, found),
        0 <= n <= a.len(),
        n <= b.len(),
        forall|i: int| 0 <= i < n ==> a[i] == b[i],
    ensures
        a.len() == b.len(),
        forall|i: int| 0 <= i < a.len() ==> a[i] == b[i],
    decreases a.len() - n,
{
    if n == a.len() {
        if n < b.len() {
            lemma_found_in_other(b, a, found, n);
            let i = choose|i: int| 0 <= i < a.len() && a[i].0 == b[n].0;
            assert(b[i] == a[i]);
            lemma_precedes_irreflexive(b[n].0);
        }
    } else if n == b.len() {
        lemma_found_in_other(a, b, found, n);
        let i = choose|i: int| 0 <= i < b.len() && b[i].0 == a[n].0;
        assert(b[i] == a[i]);
        lemma_precedes_irreflexive(a[n].0);
    } else {
        lemma_found_in_other(a, b, found, n);
        lemma_found_in_other(b, a, found, n);
        let i = choose|i: int| 0 <= i < b.len() && b[i].0 == a[n].0;
        let j = choose|j: int| 0 <= j < a.len() && a[j].0 == b[n].0;
        lemma_precedes_irreflexive(a[n].0);
        lemma_precedes_irreflexive(b[n].0);
        if i < n {
            assert(b[i] == a[i]);
        }
        if j < n {
            assert(a[j] == b[j]);
        }
        if i > n && j > n {
            // a[n] lies after b[n] in b, and b[n] after a[n] in a
            lemma_precedes_transitive(a[n].0, a[j].0, b[i].0);
        }
        if i == n {
            lemma_same_first(a[n], b[n], found);
        } else if j == n {
            lemma_same_first(a[n], b[n], found);
        }
        lemma_same_paths_same_order(a, b, found, n + 1);
    }
}

/// The path of each hit of one arrangement is found in the other.
proof fn lemma_found_in_other(a: Seq<Hit>, b: Seq<Hit>, found: Seq<Hit>, n: int)
    requires
        arranged(a, found),
        arranged(b, found),
        0 <= n < a.len(),
    ensures
        has_path(b, a[n].0),
{
    assert(is_first_of(a[n], found));
    let k = choose|k: int| first_with_path(found, k) && found[k] == a[n];
    assert(has_path(b, found[k].0));
}

/// Two hits that are each the first with the same path are the same hit.
proof fn lemma_same_first(x: Hit, y: Hit, found: Seq<Hit>)
    requires
        is_first_of(x, found),
        is_first_of(y, found),
        x.0 == y.0,
    ensures
        x == y,
{
    let k = choose|k: int| first_with_path(found, k) && found[k] == x;
    let m = choose|m: int| first_with_path(found, m) && found[m] == y;
    if k < m {
        assert(found[k].0 != found[m].0);
    } else if m < k {
        assert(found[m].0 != found[k].0);
    }
}

/// Puts the hits in order: sorted by path, each path once, with the first hit
/// that has it.
pub fn arrange(found: &Vec<(String, String)>) -> (r: Vec<(String, String)>)
    ensures
        arranged(pairs_view(r@), pairs_view(found@)),
{
    let mut out: Vec<(String, String)> = Vec::new();
    let mut paths: Vec<Vec<char>> = Vec::new();
    let mut n: usize = 0;
    let ghost all = pairs_view(found@);
    while n < found.len()
        invariant
            n <= found.len(),
            all == pairs_view(found@),
            paths.len() == out.len(),
            forall|t: int| 0 <= t < out.len() ==> (#[trigger] paths@[t])@ == out@[t].0@,
            arranged(pairs_view(out@), all.take(n as int)),
        decreases found.len() - n,
    {
        let path = to_chars(found[n].0.as_str());
        let ghost hit: Hit = (found@[n as int].0@, found@[n as int].1@);
        let ghost before = pairs_view(out@);
        assert(all.take(n + 1) == all.take(n as int).push(hit));
        let mut at: usize = 0;
        while at < out.len() && comes_before(&paths[at], &path)
            invariant
                at <= out.len(),
                paths.len() == out.len(),
                before == pairs_view(out@),
                path@ == hit.0,
                forall|t: int| 0 <= t < out.len() ==> (#[trigger] paths@[t])@ == out@[t].0@,
                forall|t: int| 0 <= t < at ==> precedes(before[t].0, hit.0),
            decreases out.len() - at,
        {
            at = at + 1;
        }
        if at < out.len() && same_chars(&paths[at], &path) {
            proof {
                assert(before[at as int].0 == hit.0);
                lemma_arranged_skip(before, all.take(n as int), hit);
            }
        } else {
            proof {
                if at < out.len() {
                    lemma_precedes_connected(hit.0, before[at as int].0);
                }
                lemma_arranged_insert(before, all.take(n as int), hit, at as int);
            }
            out.insert(at, (found[n].0.clone(), found[n].1.clone()));
            paths.insert(at, path);
            assert(pairs_view(out@) == before.insert(at as int, hit));
        }
        n = n + 1;
    }
    assert(all.take(n as int) == all);
    out
}

} // verus!

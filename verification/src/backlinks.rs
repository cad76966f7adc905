//! The backlink engine: which notes of a vault link to a given note.
//!
//! Two ways lead to the answer. The fast one reads what an outside search tool
//! printed, one run for each spelling of the target; the other scans every
//! note of the vault. The scan is used only when the tool could not be run.
//! Both give their hits in one form: sorted by path, each note once, never
//! the target itself.

use crate::disk::{exists_at, Disk, Forest};
use crate::links::{link_variants, link_variants_of, scan_patterns, scan_patterns_of};
use crate::matcher::{compiled_from, lemma_compiled_stand_for, links_to, Matcher};
use crate::notes::{get_title, read_at, read_file_content, same_at, title};
use crate::order::{arrange, arranged, is_first_of, Hit};
use crate::path::{get_relative_path, relative_to};
use crate::scan::{all_notes, get_all_notes, FoundNote};
use crate::text::{
    find_from, lemma_find_from, pairs_view, position_from, skip_space, skip_space_back, slice,
    strings_view, to_chars, trim,
};
use vstd::prelude::*;

verus! {

/// What the full scan makes of one note: a hit, if the note is not the target
/// itself, can be read, and holds a link to the target.
pub open spec fn scan_hit(disk: Forest, note: FoundNote, target: Seq<char>, vault: Seq<char>)
    -> Option<Hit> {
    if note.1 == target {
        None
    } else {
        match read_at(disk, note.0) {
            Ok(text) => if links_to(scan_patterns_of(target), text) {
                Some((note.1, title(disk, Some(note.0), Some(note.1), Some(vault))))
            } else {
                None
            },
            Err(_) => None,
        }
    }
}

/// The hits among the first `n` notes, in the order of the notes.
pub open spec fn scan_hits(
    disk: Forest,
    notes: Seq<FoundNote>,
    target: Seq<char>,
    vault: Seq<char>,
    n: int,
) -> Seq<Hit>
    decreases n,
{
    if n <= 0 || n > notes.len() {
        Seq::empty()
    } else {
        let before = scan_hits(disk, notes, target, vault, n - 1);
        match scan_hit(disk, notes[n - 1], target, vault) {
            Some(hit) => before.push(hit),
            None => before,
        }
    }
}

/// What the full scan finds: the hits among all the notes of the vault.
pub open spec fn scan_found(disk: Forest, target: Seq<char>, vault: Seq<char>) -> Seq<Hit> {
    let notes = all_notes(disk, vault);
    scan_hits(disk, notes, target, vault, notes.len() as int)
}

/// What one run of the search tool gave.
#[derive(Clone, Debug, PartialEq, Eq)]
pub enum SearchRun {
    /// The tool could not be started.
    Unavailable,
    /// The tool ran and ended.
    Finished {
        /// Its exit code, if it ended with one.
        code: Option<i32>,
        /// What it printed: the paths of the files with a match, one on a
        /// line.
        output: String,
    },
}

/// The mathematical form of a [`SearchRun`].
pub ghost enum Run {
    Unavailable,
    Finished { code: Option<i32>, output: Seq<char> },
}

impl View for SearchRun {
    type V = Run;

    open spec fn view(&self) -> Run {
        match self {
            SearchRun::Unavailable => Run::Unavailable,
            SearchRun::Finished { code, output } => Run::Finished { code: *code, output: output@ },
        }
    }
}

/// The mathematical forms of a list of runs.
pub open spec fn runs_view(runs: Seq<SearchRun>) -> Seq<Run> {
    runs.map_values(|run: SearchRun| run@)
}

/// Whether a run ended in a way that says what it found: with code 0, matches
/// found, or with code 1, none found.
pub open spec fn usable(code: Option<i32>) -> bool {
    code == Some(0i32) || code == Some(1i32)
}

/// The line feed.
pub open spec fn line_feed() -> Seq<char> {
    seq!['\n']
}

/// The lines of `output` from position `start` on, each trimmed. A line ends
/// at a line feed or at the end of the text; nothing follows the last line
/// feed.
pub open spec fn reported_from(output: Seq<char>, start: int) -> Seq<Seq<char>>
    decreases output.len() - start,
{
    if start < 0 || start >= output.len() {
        Seq::empty()
    } else {
        match find_from(output, line_feed(), start) {
            Some(end) => if start <= end < output.len() {
                seq![trim(output.subrange(start, end))] + reported_from(output, end + 1)
            } else {
                Seq::empty()
            },
            None => seq![trim(output.subrange(start, output.len() as int))],
        }
    }
}

/// The paths that a run reports: the lines of its output, trimmed.
pub open spec fn reported_paths(output: Seq<char>) -> Seq<Seq<char>> {
    reported_from(output, 0)
}

/// What the fast way makes of one reported path: a hit, if something stands
/// there, it lies in the vault, and it is not the target itself.
pub open spec fn search_hit(disk: Forest, path: Seq<char>, target: Seq<char>, vault: Seq<char>)
    -> Option<Hit> {
    if exists_at(disk, path) {
        match relative_to(path, vault) {
            Some(rel) => if rel != target {
                Some((rel, title(disk, Some(path), Some(rel), Some(vault))))
            } else {
                None
            },
            None => None,
        }
    } else {
        None
    }
}

/// The hits among the first `n` reported paths, in their order.
pub open spec fn search_hits(
    disk: Forest,
    paths: Seq<Seq<char>>,
    target: Seq<char>,
    vault: Seq<char>,
    n: int,
) -> Seq<Hit>
    decreases n,
{
    if n <= 0 || n > paths.len() {
        Seq::empty()
    } else {
        let before = search_hits(disk, paths, target, vault, n - 1);
        match search_hit(disk, paths[n - 1], target, vault) {
            Some(hit) => before.push(hit),
            None => before,
        }
    }
}

/// The hits of one run: nothing to go by where the tool could not be started,
/// no hits where it ended in an unexpected way, else the hits among the paths
/// it reports.
pub open spec fn run_hits(disk: Forest, run: Run, target: Seq<char>, vault: Seq<char>)
    -> Option<Seq<Hit>> {
    match run {
        Run::Unavailable => None,
        Run::Finished { code, output } => if usable(code) {
            let paths = reported_paths(output);
            Some(search_hits(disk, paths, target, vault, paths.len() as int))
        } else {
            Some(Seq::empty())
        },
    }
}

/// The run for the spelling at position `i`. A run that is missing counts as
/// one that could not be started.
pub open spec fn run_for(runs: Seq<Run>, i: int) -> Run {
    if 0 <= i < runs.len() {
        runs[i]
    } else {
        Run::Unavailable
    }
}

/// The hits of the runs for the first `n` spellings, or `None` where one of
/// these runs could not be started.
pub open spec fn runs_found(
    disk: Forest,
    runs: Seq<Run>,
    target: Seq<char>,
    vault: Seq<char>,
    n: int,
) -> Option<Seq<Hit>>
    decreases n,
{
    if n <= 0 {
        Some(Seq::empty())
    } else {
        match (
            runs_found(disk, runs, target, vault, n - 1),
            run_hits(disk, run_for(runs, n - 1), target, vault),
        ) {
            (Some(a), Some(b)) => Some(a + b),
            _ => None,
        }
    }
}

/// What the fast way finds: the hits of the runs, one run for each spelling
/// of the target, or `None` where the tool could not be started for one of
/// them.
pub open spec fn search_found(
    disk: Forest,
    runs: Seq<Run>,
    target: Seq<char>,
    vault: Seq<char>,
) -> Option<Seq<Hit>> {
    runs_found(disk, runs, target, vault, link_variants_of(target).len() as int)
}

/// What is found: by the fast way where the tool could be started for every
/// spelling, else by the full scan.
pub open spec fn backlinks_found(
    disk: Forest,
    runs: Seq<Run>,
    target: Seq<char>,
    vault: Seq<char>,
) -> Seq<Hit> {
    match search_found(disk, runs, target, vault) {
        Some(hits) => hits,
        None => scan_found(disk, target, vault),
    }
}

/// Once a run could not be started, the fast way has nothing to go by,
/// however many spellings follow.
pub proof fn lemma_runs_found_stays_none(
    disk: Forest,
    runs: Seq<Run>,
    target: Seq<char>,
    vault: Seq<char>,
    k: int,
    n: int,
)
    requires
        0 <= k <= n,
        runs_found(disk, runs, target, vault, k) is None,
    ensures
        runs_found(disk, runs, target, vault, n) is None,
    decreases n - k,
{
    if k < n {
        lemma_runs_found_stays_none(disk, runs, target, vault, k, n - 1);
    }
}

/// Law. Neither way reports the target itself.
pub proof fn lemma_no_self_link(
    disk: Forest,
    runs: Seq<Run>,
    target: Seq<char>,
    vault: Seq<char>,
)
    ensures
        forall|i: int|
            0 <= i < backlinks_found(disk, runs, target, vault).len() ==> (
            #[trigger] backlinks_found(disk, runs, target, vault)[i]).0 != target,
        forall|i: int|
            0 <= i < scan_found(disk, target, vault).len() ==> (#[trigger] scan_found(
                disk,
                target,
                vault,
            )[i]).0 != target,
        search_found(disk, runs, target, vault) matches Some(hits) ==> forall|i: int|
            0 <= i < hits.len() ==> (#[trigger] hits[i]).0 != target,
{
    let notes = all_notes(disk, vault);
    lemma_scan_hits_miss_target(disk, notes, target, vault, notes.len() as int);
    lemma_runs_found_miss_target(disk, runs, target, vault, link_variants_of(target).len() as int);
}

/// No hit of the full scan has the path of the target.
proof fn lemma_scan_hits_miss_target(
    disk: Forest,
    notes: Seq<FoundNote>,
    target: Seq<char>,
    vault: Seq<char>,
    n: int,
)
    ensures
        forall|i: int|
            0 <= i < scan_hits(disk, notes, target, vault, n).len() ==> (#[trigger] scan_hits(
                disk,
                notes,
                target,
                vault,
                n,
            )[i]).0 != target,
    decreases n,
{
    if 0 < n <= notes.len() {
        lemma_scan_hits_miss_target(disk, notes, target, vault, n - 1);
        let before = scan_hits(disk, notes, target, vault, n - 1);
        let now = scan_hits(disk, notes, target, vault, n);
        assert forall|i: int| 0 <= i < now.len() implies (#[trigger] now[i]).0 != target by {
            if i < before.len() {
                assert(now[i] == before[i]);
            }
        }
    }
}

/// No hit among reported paths has the path of the target.
proof fn lemma_search_hits_miss_target(
    disk: Forest,
    paths: Seq<Seq<char>>,
    target: Seq<char>,
    vault: Seq<char>,
    n: int,
)
    ensures
        forall|i: int|
            0 <= i < search_hits(disk, paths, target, vault, n).len() ==> (
            #[trigger] search_hits(disk, paths, target, vault, n)[i]).0 != target,
    decreases n,
{
    if 0 < n <= paths.len() {
        lemma_search_hits_miss_target(disk, paths, target, vault, n - 1);
        let before = search_hits(disk, paths, target, vault, n - 1);
        let now = search_hits(disk, paths, target, vault, n);
        assert forall|i: int| 0 <= i < now.len() implies (#[trigger] now[i]).0 != target by {
            if i < before.len() {
                assert(now[i] == before[i]);
            }
        }
    }
}

/// No hit of the runs has the path of the target.
proof fn lemma_runs_found_miss_target(
    disk: Forest,
    runs: Seq<Run>,
    target: Seq<char>,
    vault: Seq<char>,
    n: int,
)
    ensures
        runs_found(disk, runs, target, vault, n) matches Some(hits) ==> forall|i: int|
            0 <= i < hits.len() ==> (#[trigger] hits[i]).0 != target,
    decreases n,
{
    if n > 0 {
        lemma_runs_found_miss_target(disk, runs, target, vault, n - 1);
        match run_for(runs, n - 1) {
            Run::Finished { code, output } => {
                let paths = reported_paths(output);
                lemma_search_hits_miss_target(disk, paths, target, vault, paths.len() as int);
            },
            _ => {},
        }
    }
}

/// Whether the tool could be started for each of the first `n` spellings.
pub open spec fn all_started(runs: Seq<Run>, n: int) -> bool {
    forall|i: int| 0 <= i < n ==> run_for(runs, i) is Finished
}

/// The paths that the runs for the first `n` spellings report, run by run;
/// a run that ended in an unexpected way reports none.
pub open spec fn reported_by(runs: Seq<Run>, n: int) -> Seq<Seq<char>>
    decreases n,
{
    if n <= 0 {
        Seq::empty()
    } else {
        let before = reported_by(runs, n - 1);
        match run_for(runs, n - 1) {
            Run::Finished { code, output } => if usable(code) {
                before + reported_paths(output)
            } else {
                before
            },
            Run::Unavailable => before,
        }
    }
}

/// Law. The fast way has an answer exactly when the tool could be started for
/// every spelling of the target.
pub proof fn lemma_search_needs_every_run(
    disk: Forest,
    runs: Seq<Run>,
    target: Seq<char>,
    vault: Seq<char>,
    n: int,
)
    ensures
        runs_found(disk, runs, target, vault, n) is Some <==> all_started(runs, n),
    decreases n,
{
    if n > 0 {
        lemma_search_needs_every_run(disk, runs, target, vault, n - 1);
        if all_started(runs, n) {
            assert(run_for(runs, n - 1) is Finished);
        }
        if runs_found(disk, runs, target, vault, n) is Some {
            assert forall|i: int| 0 <= i < n implies run_for(runs, i) is Finished by {
                if i < n - 1 {
                    assert(all_started(runs, n - 1));
                }
            }
        }
    }
}

/// Law. The fast way asks the disk only about the files that the runs
/// report: two pictures that show the same at each of them give the same
/// hits.
pub proof fn lemma_search_reads_only_reported(
    a: Forest,
    b: Forest,
    runs: Seq<Run>,
    target: Seq<char>,
    vault: Seq<char>,
    n: int,
)
    requires
        forall|i: int|
            0 <= i < reported_by(runs, n).len() ==> same_at(
                a,
                b,
                #[trigger] reported_by(runs, n)[i],
            ),
    ensures
        runs_found(a, runs, target, vault, n) == runs_found(b, runs, target, vault, n),
    decreases n,
{
    if n > 0 {
        let before = reported_by(runs, n - 1);
        let all = reported_by(runs, n);
        assert forall|i: int| 0 <= i < before.len() implies same_at(a, b, #[trigger] before[i]) by {
            assert(all[i] == before[i]);
        }
        lemma_search_reads_only_reported(a, b, runs, target, vault, n - 1);
        match run_for(runs, n - 1) {
            Run::Finished { code, output } => {
                if usable(code) {
                    let paths = reported_paths(output);
                    assert forall|i: int| 0 <= i < paths.len() implies same_at(
                        a,
                        b,
                        #[trigger] paths[i],
                    ) by {
                        assert(all[before.len() + i] == paths[i]);
                    }
                    lemma_hits_read_only_paths(a, b, paths, target, vault, paths.len() as int);
                }
            },
            Run::Unavailable => {},
        }
    }
}

/// Two pictures that show the same at each of the first `n` paths give the
/// same hits among them.
proof fn lemma_hits_read_only_paths(
    a: Forest,
    b: Forest,
    paths: Seq<Seq<char>>,
    target: Seq<char>,
    vault: Seq<char>,
    n: int,
)
    requires
        n <= paths.len(),
        forall|i: int| 0 <= i < n ==> same_at(a, b, #[trigger] paths[i]),
    ensures
        search_hits(a, paths, target, vault, n) == search_hits(b, paths, target, vault, n),
    decreases n,
{
    if n > 0 {
        lemma_hits_read_only_paths(a, b, paths, target, vault, n - 1);
        assert(same_at(a, b, paths[n - 1]));
    }
}

/// Law. Where the tool could be started for every spelling, the files that
/// the runs report are all that has to be read: two pictures that show the
/// same at each of them give the same backlinks.
pub proof fn lemma_reported_files_are_enough(
    a: Forest,
    b: Forest,
    runs: Seq<Run>,
    target: Seq<char>,
    vault: Seq<char>,
)
    requires
        all_started(runs, link_variants_of(target).len() as int),
        forall|i: int|
            0 <= i < reported_by(runs, link_variants_of(target).len() as int).len() ==> same_at(
                a,
                b,
                #[trigger] reported_by(runs, link_variants_of(target).len() as int)[i],
            ),
    ensures
        backlinks_found(a, runs, target, vault) == backlinks_found(b, runs, target, vault),
{
    let n = link_variants_of(target).len() as int;
    lemma_search_needs_every_run(a, runs, target, vault, n);
    lemma_search_needs_every_run(b, runs, target, vault, n);
    lemma_search_reads_only_reported(a, b, runs, target, vault, n);
}

/// What has to be read from the disk before the backlinks of a note can be
/// told.
#[derive(Clone, Debug, PartialEq, Eq)]
pub enum Reading {
    /// The whole vault: the search tool could not be started.
    Vault,
    /// The files that the search tool reported.
    Files(Vec<String>),
}

/// Says what has to be read, given what the search tool gave for the
/// spellings of the target.
pub fn plan_reading(relative_path: &str, runs: &Vec<SearchRun>) -> (r: Reading)
    ensures
        match r {
            Reading::Vault => !all_started(
                runs_view(runs@),
                link_variants_of(relative_path@).len() as int,
            ),
            Reading::Files(paths) => all_started(
                runs_view(runs@),
                link_variants_of(relative_path@).len() as int,
            ) && strings_view(paths@) == reported_by(
                runs_view(runs@),
                link_variants_of(relative_path@).len() as int,
            ),
        },
{
    let variants = link_variants(relative_path);
    let mut files: Vec<String> = Vec::new();
    let mut n: usize = 0;
    let ghost total = link_variants_of(relative_path@).len() as int;
    while n < variants.len()
        invariant
            n <= variants.len(),
            variants.len() == total,
            total == link_variants_of(relative_path@).len(),
            all_started(runs_view(runs@), n as int),
            strings_view(files@) == reported_by(runs_view(runs@), n as int),
        decreases variants.len() - n,
    {
        if n >= runs.len() {
            assert(!(run_for(runs_view(runs@), n as int) is Finished));
            return Reading::Vault;
        }
        match &runs[n] {
            SearchRun::Unavailable => {
                return Reading::Vault;
            },
            SearchRun::Finished { code, output } => {
                if is_usable(*code) {
                    let mut paths = reported_files(output.as_str());
                    files.append(&mut paths);
                }
            },
        }
        n = n + 1;
    }
    Reading::Files(files)
}

/// The paths that a run reports.
pub fn reported_files(output: &str) -> (r: Vec<String>)
    ensures
        strings_view(r@) == reported_paths(output@),
{
    let chars = to_chars(output);
    let feed: Vec<char> = vec!['\n'];
    let mut files: Vec<String> = Vec::new();
    let mut start: usize = 0;
    let ghost done: Seq<Seq<char>> = Seq::empty();
    while start < chars.len()
        invariant
            chars@ == output@,
            feed@ == line_feed(),
            strings_view(files@) == done,
            done + reported_from(chars@, start as int) == reported_paths(output@),
        decreases chars.len() - start,
    {
        let end: usize = match position_from(&chars, &feed, start) {
            Some(i) => i,
            None => chars.len(),
        };
        proof {
            lemma_find_from(chars@, feed@, start as int);
        }
        let from = skip_space(&chars, start, end);
        let to = skip_space_back(&chars, from, end);
        let file = slice(output, from, to);
        let ghost line = trim(chars@.subrange(start as int, end as int));
        files.push(file);
        proof {
            done = done.push(line);
        }
        if end >= chars.len() {
            return files;
        }
        start = end + 1;
    }
    files
}

/// Whether a run ended in a way that says what it found.
pub fn is_usable(code: Option<i32>) -> (b: bool)
    ensures
        b == usable(code),
{
    match code {
        Some(c) => c == 0 || c == 1,
        None => false,
    }
}

/// Adds to `hits` the hits among the reported paths.
pub fn collect_search_hits(
    disk: &Disk,
    paths: &Vec<String>,
    target: &String,
    vault_directory: &str,
    hits: &mut Vec<(String, String)>,
)
    ensures
        pairs_view(final(hits)@) == pairs_view(old(hits)@) + search_hits(
            disk@,
            strings_view(paths@),
            target@,
            vault_directory@,
            paths.len() as int,
        ),
{
    let ghost before = pairs_view(hits@);
    let ghost all = strings_view(paths@);
    let mut n: usize = 0;
    while n < paths.len()
        invariant
            n <= paths.len(),
            all == strings_view(paths@),
            pairs_view(hits@) == before + search_hits(
                disk@,
                all,
                target@,
                vault_directory@,
                n as int,
            ),
        decreases paths.len() - n,
    {
        let path = paths[n].as_str();
        let ghost old_hits = hits@;
        if disk.has(path) {
            if let Some(rel) = get_relative_path(path, vault_directory) {
                if rel != *target {
                    let note_title = get_title(
                        disk,
                        Some(path),
                        Some(rel.as_str()),
                        Some(vault_directory),
                    );
                    let ghost hit: Hit = (rel@, note_title@);
                    hits.push((rel, note_title));
                    proof {
                        assert(pairs_view(hits@) == pairs_view(old_hits).push(hit));
                    }
                }
            }
        }
        n = n + 1;
    }
}

/// The fast way: reads what the search tool printed, one run for each
/// spelling of the target, in the order of the spellings. Gives nothing
/// where the tool could not be started for one of the spellings, a run that
/// is missing counting as such; a run that found nothing is no failure.
pub fn try_ripgrep_search(
    disk: &Disk,
    relative_path: &str,
    vault_directory: &str,
    runs: &Vec<SearchRun>,
) -> (r: Option<Vec<(String, String)>>)
    ensures
        match search_found(disk@, runs_view(runs@), relative_path@, vault_directory@) {
            Some(found) => r is Some && arranged(pairs_view(r->0@), found),
            None => r is None,
        },
{
    let target = relative_path.to_owned();
    let variants = link_variants(relative_path);
    let mut hits: Vec<(String, String)> = Vec::new();
    let mut n: usize = 0;
    let ghost total = link_variants_of(relative_path@).len() as int;
    while n < variants.len()
        invariant
            n <= variants.len(),
            variants.len() == total,
            total == link_variants_of(relative_path@).len(),
            target@ == relative_path@,
            runs_found(disk@, runs_view(runs@), relative_path@, vault_directory@, n as int) == Some(
                pairs_view(hits@),
            ),
        decreases variants.len() - n,
    {
        if n >= runs.len() {
            proof {
                lemma_runs_found_stays_none(
                    disk@,
                    runs_view(runs@),
                    relative_path@,
                    vault_directory@,
                    n + 1,
                    total,
                );
            }
            return None;
        }
        match &runs[n] {
            SearchRun::Unavailable => {
                proof {
                    lemma_runs_found_stays_none(
                        disk@,
                        runs_view(runs@),
                        relative_path@,
                        vault_directory@,
                        n + 1,
                        total,
                    );
                }
                return None;
            },
            SearchRun::Finished { code, output } => {
                if is_usable(*code) {
                    let paths = reported_files(output.as_str());
                    collect_search_hits(disk, &paths, &target, vault_directory, &mut hits);
                }
            },
        }
        n = n + 1;
    }
    Some(arrange(&hits))
}

/// What the full scan makes of one note.
fn scan_note(
    disk: &Disk,
    absolute_path: &String,
    note_path: &String,
    target: &String,
    vault_directory: &str,
    matcher: &Matcher,
) -> (r: Option<(String, String)>)
    requires
        compiled_from(matcher.compiled(), scan_patterns_of(target@)),
    ensures
        match r {
            Some(hit) => scan_hit(
                disk@,
                (absolute_path@, note_path@),
                target@,
                vault_directory@,
            ) == Some((hit.0@, hit.1@)),
            None => scan_hit(disk@, (absolute_path@, note_path@), target@, vault_directory@)
                is None,
        },
{
    if *note_path == *target {
        return None;
    }
    match read_file_content(disk, absolute_path.as_str()) {
        Ok(text) => {
            proof {
                lemma_compiled_stand_for(matcher.compiled(), scan_patterns_of(target@), text@);
            }
            if matcher.matches(text.as_str()) {
                let note_title = get_title(
                    disk,
                    Some(absolute_path.as_str()),
                    Some(note_path.as_str()),
                    Some(vault_directory),
                );
                Some((note_path.clone(), note_title))
            } else {
                None
            }
        },
        Err(_) => None,
    }
}

/// The full scan: every note of the vault but the target is read and tried
/// against the patterns of the target. Notes that cannot be read are passed
/// over.
pub fn find_backlinks_fallback(disk: &Disk, relative_path: &str, vault_directory: &str) -> (r:
    Vec<(String, String)>)
    ensures
        arranged(pairs_view(r@), scan_found(disk@, relative_path@, vault_directory@)),
{
    let target = relative_path.to_owned();
    let notes = get_all_notes(disk, vault_directory);
    let patterns = scan_patterns(relative_path);
    let matcher = Matcher::new(&patterns);
    let mut hits: Vec<(String, String)> = Vec::new();
    let mut n: usize = 0;
    let ghost all = pairs_view(notes@);
    while n < notes.len()
        invariant
            n <= notes.len(),
            all == pairs_view(notes@),
            target@ == relative_path@,
            compiled_from(matcher.compiled(), scan_patterns_of(target@)),
            pairs_view(hits@) == scan_hits(
                disk@,
                all,
                relative_path@,
                vault_directory@,
                n as int,
            ),
        decreases notes.len() - n,
    {
        if let Some(hit) = scan_note(
            disk,
            &notes[n].0,
            &notes[n].1,
            &target,
            vault_directory,
            &matcher,
        ) {
            hits.push(hit);
        }
        n = n + 1;
    }
    arrange(&hits)
}

/// The notes of the vault that link to the note at `relative_path`: each with
/// its relative path and its title, sorted by path, no path twice, and never
/// the note itself.
///
/// `runs` holds what the search tool gave, one run for each spelling of the
/// target (see [`crate::links::search_patterns`]). Where the tool could not
/// be started the vault is scanned instead.
pub fn find_backlinks(
    disk: &Disk,
    relative_path: &str,
    vault_directory: &str,
    runs: &Vec<SearchRun>,
) -> (r: Vec<(String, String)>)
    ensures
        arranged(
            pairs_view(r@),
            backlinks_found(disk@, runs_view(runs@), relative_path@, vault_directory@),
        ),
        forall|i: int| 0 <= i < r.len() ==> (#[trigger] r@[i]).0@ != relative_path@,
{
    let r = match try_ripgrep_search(disk, relative_path, vault_directory, runs) {
        Some(links) => links,
        None => find_backlinks_fallback(disk, relative_path, vault_directory),
    };
    proof {
        lemma_no_self_link(disk@, runs_view(runs@), relative_path@, vault_directory@);
        assert forall|i: int| 0 <= i < r.len() implies (#[trigger] r@[i]).0@
            != relative_path@ by {
            let hit = pairs_view(r@)[i];
        }
    }
    r
}

} // verus!

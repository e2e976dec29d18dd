//! Resuming an interrupted run: which log folder to take up, which jobs are
//! complete, and which logs to delete.
//!
//! A log is complete where it holds a completion marker. A log that is empty or
//! has no marker stems from a spawn that crashed; it is deleted and the job runs
//! again. A job is skipped only where every runner has it complete.

use crate::names::{ascending, has_name, listing, name_set, texts, NameMap, NameSet};
use crate::spawn::{log_file_name, log_name};
use crate::text::{chars_of, name_less, name_lt, name_lt_transitive};
use vstd::prelude::*;

verus! {

// ---------------------------------------------------------------------
// Completion markers
// ---------------------------------------------------------------------

/// How many bytes from the end of a log are looked at first.
pub const COMPLETION_TAIL_SCAN_BYTES: u64 = 65536;

/// The bytes of an ASCII text.
pub open spec fn ascii(s: Seq<char>) -> Seq<u8> {
    Seq::new(s.len(), |i: int| s[i] as u8)
}

/// The marker of a spawn that signalled the end of its test.
pub open spec fn completion_marker() -> Seq<u8> {
    ascii("\"event\":\"eot_sent\""@)
}

/// The marker of a spawn that takes no part in that signal but reached its
/// silent phase.
pub open spec fn fallback_marker() -> Seq<u8> {
    ascii("\"phase\":\"silent\""@)
}

/// `needle` stands in `hay` from position `i` on.
pub open spec fn occurs_at(needle: Seq<u8>, hay: Seq<u8>, i: int) -> bool {
    0 <= i && i + needle.len() <= hay.len() && hay.subrange(i, i + needle.len()) == needle
}

/// `needle` stands somewhere in `hay`.
pub open spec fn occurs(needle: Seq<u8>, hay: Seq<u8>) -> bool {
    exists|i: int| occurs_at(needle, hay, i)
}

/// One of the two markers stands in `content`.
pub open spec fn has_marker(content: Seq<u8>) -> bool {
    occurs(completion_marker(), content) || occurs(fallback_marker(), content)
}

/// The last `n` bytes, or all where there are fewer.
pub open spec fn last_bytes(content: Seq<u8>, n: int) -> Seq<u8> {
    if content.len() <= n {
        content
    } else {
        content.skip(content.len() - n)
    }
}

fn ascii_bytes(s: &str) -> (r: Vec<u8>)
    ensures
        r@ == ascii(s@),
{
    let v = chars_of(s);
    let mut r: Vec<u8> = Vec::new();
    for i in 0..v.len()
        invariant
            v@ == s@,
            r@.len() == i,
            forall|j: int| 0 <= j < i ==> r@[j] == s@[j] as u8,
    {
        #[verifier::truncate]
        let b = v[i] as u8;
        r.push(b);
    }
    assert(r@ =~= ascii(s@));
    r
}

/// Whether `needle`, if it is not empty, stands somewhere in `haystack`.
pub fn slice_contains(haystack: &[u8], needle: &[u8]) -> (r: bool)
    ensures
        r == (needle@.len() > 0 && occurs(needle@, haystack@)),
{
    if needle.len() == 0 || needle.len() > haystack.len() {
        return false;
    }
    let n: usize = haystack.len();
    let last: usize = n - needle.len();
    let mut i: usize = 0;
    while i <= last
        invariant
            0 < needle@.len() <= haystack@.len(),
            n == haystack@.len(),
            last == n - needle@.len(),
            i <= last + 1,
            forall|p: int| 0 <= p < i ==> !occurs_at(needle@, haystack@, p),
        decreases last + 1 - i,
    {
        let mut k: usize = 0;
        while k < needle.len() && haystack[i + k] == needle[k]
            invariant
                0 < needle@.len() <= haystack@.len(),
                n == haystack@.len(),
                last == n - needle@.len(),
                i <= last,
                k <= needle@.len(),
                forall|q: int| 0 <= q < k ==> haystack@[i + q] == needle@[q],
            decreases needle.len() - k,
        {
            k = k + 1;
        }
        let ghost window = haystack@.subrange(i as int, i + needle@.len());
        if k == needle.len() {
            assert(window =~= needle@);
            assert(occurs_at(needle@, haystack@, i as int));
            return true;
        }
        assert(window[k as int] != needle@[k as int]);
        i = i + 1;
    }
    false
}

fn contains_marker(bytes: &[u8]) -> (r: bool)
    ensures
        r == has_marker(bytes@),
{
    let a = ascii_bytes("\"event\":\"eot_sent\"");
    let b = ascii_bytes("\"phase\":\"silent\"");
    proof {
        marker_lengths();
    }
    slice_contains(bytes, a.as_slice()) || slice_contains(bytes, b.as_slice())
}

proof fn marker_lengths()
    ensures
        completion_marker().len() == 18,
        fallback_marker().len() == 16,
{
    reveal_strlit("\"event\":\"eot_sent\"");
    reveal_strlit("\"phase\":\"silent\"");
}

proof fn occurrence_spans(needle: Seq<u8>, content: Seq<u8>, chunk: Seq<u8>)
    requires
        0 < needle.len() <= 18,
        !occurs(needle, content),
    ensures
        occurs(needle, last_bytes(content, 17) + chunk) == occurs(needle, content + chunk),
{
    let tail = last_bytes(content, 17);
    let off = content.len() - tail.len();
    let hay = tail + chunk;
    let all = content + chunk;
    let m = needle.len();
    assert forall|i: int| 0 <= i && i + m <= hay.len() implies #[trigger] hay.subrange(i, i + m)
        == all.subrange(i + off, i + off + m) by {
        assert(hay.subrange(i, i + m) =~= all.subrange(i + off, i + off + m));
    }
    if occurs(needle, hay) {
        let i = choose|i: int| occurs_at(needle, hay, i);
        assert(hay.subrange(i, i + m) == all.subrange(i + off, i + off + m));
        assert(occurs_at(needle, all, i + off));
    }
    if occurs(needle, all) {
        let i = choose|i: int| occurs_at(needle, all, i);
        if i + m <= content.len() {
            assert(content.subrange(i, i + m) =~= all.subrange(i, i + m));
            assert(occurs_at(needle, content, i));
        } else {
            assert(i >= off);
            assert(hay.subrange(i - off, i - off + m) == all.subrange(i, i + m));
            assert(occurs_at(needle, hay, i - off));
        }
    }
}

proof fn shorter_has_none(needle: Seq<u8>, a: Seq<u8>, b: Seq<u8>)
    requires
        occurs(needle, a),
    ensures
        occurs(needle, a + b),
        occurs(needle, b + a),
{
    let i = choose|i: int| occurs_at(needle, a, i);
    let m = needle.len();
    assert((a + b).subrange(i, i + m) =~= a.subrange(i, i + m));
    assert(occurs_at(needle, a + b, i));
    let p = b.len() as int;
    assert((b + a).subrange(i + p, i + p + m) =~= a.subrange(i, i + m));
    assert(occurs_at(needle, b + a, i + p));
}

/// A marker that stands in a part of a log stands in the whole log.
pub proof fn marker_in_part_is_in_whole(before: Seq<u8>, part: Seq<u8>, after: Seq<u8>)
    requires
        has_marker(part),
    ensures
        has_marker(before + part + after),
{
    if occurs(completion_marker(), part) {
        shorter_has_none(completion_marker(), part, before);
        shorter_has_none(completion_marker(), before + part, after);
    } else {
        shorter_has_none(fallback_marker(), part, before);
        shorter_has_none(fallback_marker(), before + part, after);
    }
}

/// A search for the markers in a log that is read piece by piece. It keeps just
/// enough of what it has read to see a marker that two pieces share.
#[derive(Debug, Clone, PartialEq, Eq)]
pub struct MarkerScan {
    carry: Vec<u8>,
}

impl MarkerScan {
    /// The scan has read `content`, in which no marker stands.
    pub closed spec fn has_read(&self, content: Seq<u8>) -> bool {
        self.carry@ == last_bytes(content, 17) && !has_marker(content)
    }

    /// A scan that has read nothing.
    pub fn new() -> (r: Self)
        ensures
            r.has_read(Seq::empty()),
    {
        proof {
            marker_lengths();
        }
        MarkerScan { carry: Vec::new() }
    }

    /// Reads the next piece and tells whether a marker stands in what has been read.
    pub fn feed(&mut self, chunk: &[u8]) -> (found: bool)
        ensures
            forall|content: Seq<u8>| #[trigger]
                old(self).has_read(content) ==> found == has_marker(content + chunk@),
            forall|content: Seq<u8>| #[trigger]
                old(self).has_read(content) && !found ==> final(self).has_read(content + chunk@),
    {
        let ghost before = self.carry@;
        let mut haystack: Vec<u8> = Vec::new();
        for i in 0..self.carry.len()
            invariant
                haystack@ == self.carry@.take(i as int),
        {
            haystack.push(self.carry[i]);
        }
        for i in 0..chunk.len()
            invariant
                haystack@ == self.carry@ + chunk@.take(i as int),
        {
            haystack.push(chunk[i]);
            assert(haystack@ =~= self.carry@ + chunk@.take(i + 1));
        }
        assert(haystack@ =~= before + chunk@);
        let found = contains_marker(haystack.as_slice());
        proof {
            marker_lengths();
            assert forall|content: Seq<u8>| #[trigger] self.has_read(content) implies found
                == has_marker(content + chunk@) by {
                occurrence_spans(completion_marker(), content, chunk@);
                occurrence_spans(fallback_marker(), content, chunk@);
            }
        }
        if !found {
            let keep: usize = if haystack.len() > 17 { haystack.len() - 17 } else { 0 };
            let mut carry: Vec<u8> = Vec::new();
            for i in keep..haystack.len()
                invariant
                    carry@ == haystack@.subrange(keep as int, i as int),
            {
                carry.push(haystack[i]);
                assert(carry@ =~= haystack@.subrange(keep as int, i + 1));
            }
            self.carry = carry;
            proof {
                assert forall|content: Seq<u8>| before == last_bytes(content, 17) implies self.carry@
                    == last_bytes(#[trigger] (content + chunk@), 17) by {
                    assert(self.carry@ =~= last_bytes(content + chunk@, 17));
                }
            }
        }
        found
    }
}

/// All pieces, one after the other.
pub open spec fn joined(chunks: Seq<Vec<u8>>) -> Seq<u8>
    decreases chunks.len(),
{
    if chunks.len() == 0 {
        Seq::empty()
    } else {
        joined(chunks.drop_last()) + chunks.last()@
    }
}

proof fn joined_extends(chunks: Seq<Vec<u8>>, n: int)
    requires
        0 <= n <= chunks.len(),
    ensures
        exists|rest: Seq<u8>| joined(chunks) == joined(chunks.take(n)) + rest,
    decreases chunks.len(),
{
    if n == chunks.len() {
        assert(chunks.take(n) =~= chunks);
        assert(joined(chunks) =~= joined(chunks.take(n)) + Seq::<u8>::empty());
    } else {
        let init = chunks.drop_last();
        joined_extends(init, n);
        assert(init.take(n) =~= chunks.take(n));
        let rest = choose|rest: Seq<u8>| joined(init) == joined(init.take(n)) + rest;
        assert(joined(chunks) =~= joined(chunks.take(n)) + (rest + chunks.last()@));
    }
}

/// Whether a marker stands in a log that comes in pieces.
pub fn scan_full_for_marker(chunks: &Vec<Vec<u8>>) -> (r: bool)
    ensures
        r == has_marker(joined(chunks@)),
{
    let mut scan = MarkerScan::new();
    for i in 0..chunks.len()
        invariant
            scan.has_read(joined(chunks@.take(i as int))),
    {
        let ghost content = joined(chunks@.take(i as int));
        assert(chunks@.take(i + 1).drop_last() =~= chunks@.take(i as int));
        if scan.feed(chunks[i].as_slice()) {
            proof {
                joined_extends(chunks@, i + 1);
                let part = joined(chunks@.take(i + 1));
                let rest = choose|rest: Seq<u8>| joined(chunks@) == part + rest;
                marker_in_part_is_in_whole(Seq::empty(), part, rest);
                assert(Seq::<u8>::empty() + part + rest =~= part + rest);
            }
            return true;
        }
    }
    assert(chunks@.take(chunks@.len() as int) =~= chunks@);
    proof {
        scan_read_facts(&scan, joined(chunks@));
    }
    false
}

proof fn scan_read_facts(scan: &MarkerScan, content: Seq<u8>)
    requires
        scan.has_read(content),
    ensures
        !has_marker(content),
{
}

/// Where the tail of a log of `file_size` bytes begins.
pub fn tail_start(file_size: u64) -> (r: u64)
    ensures
        r == (if file_size > COMPLETION_TAIL_SCAN_BYTES { file_size - COMPLETION_TAIL_SCAN_BYTES } else {
            0
        }),
{
    if file_size > COMPLETION_TAIL_SCAN_BYTES {
        file_size - COMPLETION_TAIL_SCAN_BYTES
    } else {
        0
    }
}

/// Whether a marker stands in the tail of a log.
pub fn scan_tail_for_marker(tail: &[u8]) -> (r: bool)
    ensures
        r == has_marker(tail@),
{
    contains_marker(tail)
}

/// What the two scans say together: a marker in the tail decides, else the scan of
/// the whole log does. A scan that could not be made finds nothing.
pub open spec fn marker_verdict(file_size: u64, tail: Option<bool>, full: Option<bool>) -> bool {
    file_size > 0 && (tail == Some(true) || full == Some(true))
}

/// Whether a log counts as holding a marker, given what its tail and its whole
/// showed (`None` where it could not be read).
pub fn file_contains_completion_marker(
    file_size: u64,
    tail: Option<bool>,
    full: Option<bool>,
) -> (r: bool)
    ensures
        r == marker_verdict(file_size, tail, full),
{
    if file_size == 0 {
        return false;
    }
    match tail {
        Some(true) => true,
        _ => match full {
            Some(found) => found,
            None => false,
        },
    }
}

/// Where the log can be read, looking at the tail first gives the same verdict as
/// looking for a marker in the whole log.
pub proof fn tail_first_is_exact(content: Seq<u8>, start: int, tail: Option<bool>)
    requires
        0 < content.len() <= u64::MAX,
        0 <= start <= content.len(),
        tail == Some(has_marker(content.skip(start))) || tail is None,
    ensures
        marker_verdict(content.len() as u64, tail, Some(has_marker(content))) == has_marker(content),
{
    if has_marker(content.skip(start)) {
        marker_in_part_is_in_whole(content.take(start), content.skip(start), Seq::empty());
        assert(content.take(start) + content.skip(start) + Seq::<u8>::empty() =~= content);
    }
}

// ---------------------------------------------------------------------
// Log folders
// ---------------------------------------------------------------------

/// Why no log folder can be taken up.
#[derive(Debug, Clone, PartialEq, Eq)]
pub enum ResumeError {
    /// The base folder does not exist.
    BaseMissing { base: String },
    /// No folder under the base belongs to the run.
    NoMatch { base: String, prefix: String },
}

impl ResumeError {
    /// The text of the error.
    pub open spec fn text(self) -> Seq<char> {
        match self {
            ResumeError::BaseMissing { base } => "resume: base log directory does not exist: "@
                + base@,
            ResumeError::NoMatch { base, prefix } => "resume: no log subfolder under "@ + base@
                + " matches prefix '"@ + prefix@ + "'"@,
        }
    }

    /// The text of the error.
    pub fn message(&self) -> (r: String)
        ensures
            r@ == self.text(),
    {
        match self {
            ResumeError::BaseMissing { base } => {
                let mut s = "resume: base log directory does not exist: ".to_owned();
                s.append(base.as_str());
                s
            },
            ResumeError::NoMatch { base, prefix } => {
                let mut s = "resume: no log subfolder under ".to_owned();
                s.append(base.as_str());
                s.append(" matches prefix '");
                s.append(prefix.as_str());
                s.append("'");
                s
            },
        }
    }
}

/// The folder belongs to the run: its name starts with the run's and a dash.
pub open spec fn belongs_to_run(folder: Seq<char>, run: Seq<char>) -> bool {
    (run + "-"@).is_prefix_of(folder)
}

/// Whether `s` starts with `prefix`.
fn starts_with(s: &str, prefix: &str) -> (r: bool)
    ensures
        r == prefix@.is_prefix_of(s@),
{
    let a = chars_of(s);
    let p = chars_of(prefix);
    if p.len() > a.len() {
        return false;
    }
    for i in 0..p.len()
        invariant
            a@ == s@,
            p@ == prefix@,
            p.len() <= a.len(),
            forall|j: int| 0 <= j < i ==> a@[j] == p@[j],
    {
        if a[i] != p[i] {
            assert(s@.subrange(0, prefix@.len() as int)[i as int] != prefix@[i as int]);
            return false;
        }
    }
    assert(s@.subrange(0, prefix@.len() as int) =~= prefix@);
    true
}

/// What there is to take up: of the folders that belong to the run the one whose name stands
/// last, or why there is none.
pub open spec fn latest_folder(
    base: Seq<char>,
    base_exists: bool,
    folders: Set<Seq<char>>,
    run: Seq<char>,
    r: Result<String, ResumeError>,
) -> bool {
    match r {
        Ok(name) => {
            &&& base_exists
            &&& folders.contains(name@)
            &&& belongs_to_run(name@, run)
            &&& forall|f: Seq<char>| #[trigger]
                folders.contains(f) && belongs_to_run(f, run) ==> !name_lt(name@, f)
        },
        Err(ResumeError::BaseMissing { base: b }) => !base_exists && b@ == base,
        Err(ResumeError::NoMatch { base: b, prefix }) => {
            &&& base_exists
            &&& b@ == base
            &&& prefix@ == run + "-"@
            &&& forall|f: Seq<char>| #[trigger] folders.contains(f) ==> !belongs_to_run(f, run)
        },
    }
}

/// Picks the log folder to take up: of the folders under `base` that belong to the
/// run, the one whose name stands last.
pub fn find_latest_log_subdir(
    base: &str,
    base_exists: bool,
    folders: &[String],
    run: &str,
) -> (r: Result<String, ResumeError>)
    ensures
        latest_folder(base@, base_exists, name_set(folders@), run@, r),
{
    if !base_exists {
        return Err(ResumeError::BaseMissing { base: base.to_owned() });
    }
    let mut prefix = run.to_owned();
    prefix.append("-");
    let mut best: Option<usize> = None;
    let ghost t = texts(folders@);
    for i in 0..folders.len()
        invariant
            t == texts(folders@),
            prefix@ == run@ + "-"@,
            match best {
                Some(b) => b < i && belongs_to_run(t[b as int], run@) && (forall|j: int|
                    0 <= j < i && belongs_to_run(#[trigger] t[j], run@) ==> !name_lt(t[b as int], t[j])),
                None => forall|j: int| 0 <= j < i ==> !belongs_to_run(#[trigger] t[j], run@),
            },
    {
        assert(t[i as int] == folders@[i as int]@);
        if starts_with(folders[i].as_str(), prefix.as_str()) {
            match best {
                Some(b) => {
                    if name_less(folders[b].as_str(), folders[i].as_str()) {
                        proof {
                            let old_best = t[b as int];
                            let new_best = t[i as int];
                            assert forall|j: int| 0 <= j < i + 1 && belongs_to_run(#[trigger] t[j], run@)
                                implies !name_lt(new_best, t[j]) by {
                                if name_lt(new_best, t[j]) {
                                    name_lt_transitive(old_best, new_best, t[j]);
                                    if j == i {
                                        crate::text::name_lt_irreflexive(new_best);
                                    }
                                }
                            }
                        }
                        best = Some(i);
                    }
                },
                None => {
                    proof {
                        crate::text::name_lt_irreflexive(t[i as int]);
                    }
                    best = Some(i);
                },
            }
        }
    }
    proof {
        assert forall|f: Seq<char>| #[trigger] name_set(folders@).contains(f) implies exists|j: int|
            0 <= j < t.len() && t[j] == f by {}
    }
    match best {
        Some(b) => {
            assert(t[b as int] == folders@[b as int]@);
            assert(t.to_set().contains(t[b as int]));
            Ok(folders[b].clone())
        },
        None => Err(ResumeError::NoMatch { base: base.to_owned(), prefix }),
    }
}

// ---------------------------------------------------------------------
// Manifests
// ---------------------------------------------------------------------

/// What the log of a job looks like.
#[derive(Debug, Clone, Copy, PartialEq, Eq, Structural)]
pub enum LogState {
    /// There is no such file.
    Missing,
    /// The file is empty: the spawn crashed before it wrote anything.
    Empty,
    /// The file has a completion marker.
    Complete,
    /// The file has no completion marker: the spawn crashed midway.
    Partial,
}

/// Classifies a log by its size, if the file exists, and by whether it holds a
/// marker.
pub fn classify_log(size: Option<u64>, marker: bool) -> (r: LogState)
    ensures
        r == (match size {
            None => LogState::Missing,
            Some(n) => if n == 0 {
                LogState::Empty
            } else if marker {
                LogState::Complete
            } else {
                LogState::Partial
            },
        }),
{
    match size {
        None => LogState::Missing,
        Some(n) => if n == 0 {
            LogState::Empty
        } else if marker {
            LogState::Complete
        } else {
            LogState::Partial
        },
    }
}

/// Whether a log in this state is deleted.
pub fn must_delete(state: LogState) -> (r: bool)
    ensures
        r == (state == LogState::Empty || state == LogState::Partial),
{
    match state {
        LogState::Empty => true,
        LogState::Partial => true,
        LogState::Missing => false,
        LogState::Complete => false,
    }
}

/// What a runner has of a run. The deleted logs are given by file name.
#[derive(Debug, Clone, PartialEq, Eq)]
pub struct LocalManifest {
    /// The jobs with a complete log, ascending.
    pub complete_jobs: Vec<String>,
    /// The empty logs that were deleted.
    pub deleted_empty: Vec<String>,
    /// The partial logs that were deleted.
    pub deleted_partial: Vec<String>,
}

/// The jobs whose log is complete.
pub open spec fn complete_set(names: Seq<Seq<char>>, states: Seq<LogState>) -> Set<Seq<char>> {
    Set::new(
        |job: Seq<char>|
            exists|i: int|
                0 <= i < names.len() && i < states.len() && #[trigger] names[i] == job && states[i]
                    == LogState::Complete,
    )
}

/// The file names of the logs in state `which` that were deleted, in the order of
/// the jobs.
pub open spec fn deleted_files(
    names: Seq<Seq<char>>,
    states: Seq<LogState>,
    deleted: Seq<bool>,
    which: LogState,
    self_name: Seq<char>,
    run: Seq<char>,
) -> Seq<Seq<char>>
    decreases names.len(),
{
    if names.len() == 0 {
        Seq::empty()
    } else {
        let n = names.len() - 1;
        let before = deleted_files(names.take(n), states, deleted, which, self_name, run);
        if states[n] == which && deleted[n] {
            before.push(log_file_name(names[n], self_name, run))
        } else {
            before
        }
    }
}

/// Puts the local manifest together. For each job `states` says what its log looked
/// like and `deleted` whether the log was deleted.
pub fn compute_local_manifest(
    self_name: &str,
    run: &str,
    effective_names: &[String],
    states: &[LogState],
    deleted: &[bool],
) -> (r: LocalManifest)
    requires
        states@.len() == effective_names@.len(),
        deleted@.len() == effective_names@.len(),
    ensures
        ascending(texts(r.complete_jobs@)),
        name_set(r.complete_jobs@) == complete_set(texts(effective_names@), states@),
        texts(r.complete_jobs@) == listing(complete_set(texts(effective_names@), states@)),
        texts(r.deleted_empty@) == deleted_files(
            texts(effective_names@),
            states@,
            deleted@,
            LogState::Empty,
            self_name@,
            run@,
        ),
        texts(r.deleted_partial@) == deleted_files(
            texts(effective_names@),
            states@,
            deleted@,
            LogState::Partial,
            self_name@,
            run@,
        ),
{
    let mut complete = NameSet::new();
    let mut empty: Vec<String> = Vec::new();
    let mut partial: Vec<String> = Vec::new();
    let ghost t = texts(effective_names@);
    assert(texts(empty@) =~= Seq::empty());
    assert(texts(partial@) =~= Seq::empty());
    assert(complete@ =~= complete_set(t.take(0), states@));
    for i in 0..effective_names.len()
        invariant
            t == texts(effective_names@),
            states@.len() == effective_names@.len(),
            deleted@.len() == effective_names@.len(),
            complete@ == complete_set(t.take(i as int), states@),
            texts(empty@) == deleted_files(
                t.take(i as int),
                states@,
                deleted@,
                LogState::Empty,
                self_name@,
                run@,
            ),
            texts(partial@) == deleted_files(
                t.take(i as int),
                states@,
                deleted@,
                LogState::Partial,
                self_name@,
                run@,
            ),
    {
        let name = effective_names[i].as_str();
        let ghost seen = t.take(i as int);
        let ghost next = t.take(i + 1);
        let ghost set_before = complete@;
        let ghost empty_before = empty@;
        let ghost partial_before = partial@;
        proof {
            assert(next.take(i as int) =~= seen);
            assert(next[i as int] == name@);
        }
        match states[i] {
            LogState::Complete => {
                complete.insert(effective_names[i].clone());
            },
            LogState::Empty => {
                if deleted[i] {
                    empty.push(log_name(name, self_name, run));
                    assert(texts(empty@) =~= texts(empty_before).push(
                        log_file_name(name@, self_name@, run@),
                    ));
                }
            },
            LogState::Partial => {
                if deleted[i] {
                    partial.push(log_name(name, self_name, run));
                    assert(texts(partial@) =~= texts(partial_before).push(
                        log_file_name(name@, self_name@, run@),
                    ));
                }
            },
            LogState::Missing => {},
        }
        proof {
            assert forall|job: Seq<char>| complete_set(next, states@).contains(job)
                == complete@.contains(job) by {
                if complete_set(seen, states@).contains(job) {
                    let p = choose|p: int|
                        0 <= p < seen.len() && p < states@.len() && #[trigger] seen[p] == job
                            && states@[p] == LogState::Complete;
                    assert(next[p] == job);
                }
                if complete_set(next, states@).contains(job) {
                    let p = choose|p: int|
                        0 <= p < next.len() && p < states@.len() && #[trigger] next[p] == job
                            && states@[p] == LogState::Complete;
                    if p < i {
                        assert(seen[p] == job);
                    }
                }
            }
            assert(complete@ =~= complete_set(next, states@));
        }
    }
    assert(t.take(t.len() as int) =~= t);
    LocalManifest {
        complete_jobs: complete.to_vec(),
        deleted_empty: empty,
        deleted_partial: partial,
    }
}

/// How many of the first `n` logs are missing.
pub open spec fn count_missing(states: Seq<LogState>, n: int) -> nat
    decreases n,
{
    if n <= 0 {
        0
    } else {
        count_missing(states, n - 1) + (if states[n - 1] == LogState::Missing {
            1nat
        } else {
            0nat
        })
    }
}

/// Where all logs that are to be deleted could be, every job ends up in just one place: it
/// is complete, its log was deleted as empty or as partial, or it has no log.
pub proof fn every_log_ends_up_in_one_place(
    names: Seq<Seq<char>>,
    states: Seq<LogState>,
    deleted: Seq<bool>,
    self_name: Seq<char>,
    run: Seq<char>,
)
    requires
        names.no_duplicates(),
        states.len() >= names.len(),
        deleted.len() >= names.len(),
        forall|i: int| 0 <= i < names.len() ==> #[trigger] deleted[i],
    ensures
        complete_set(names, states).finite(),
        complete_set(names, states).len() + deleted_files(
            names,
            states,
            deleted,
            LogState::Empty,
            self_name,
            run,
        ).len() + deleted_files(names, states, deleted, LogState::Partial, self_name, run).len()
            + count_missing(states, names.len() as int) == names.len(),
    decreases names.len(),
{
    if names.len() == 0 {
        assert(complete_set(names, states) =~= Set::empty());
    } else {
        let n = names.len() - 1;
        let t = names.take(n);
        assert forall|i: int, j: int| 0 <= i < t.len() && 0 <= j < t.len() && i != j implies t[i] != t[j] by {
            assert(names[i] != names[j]);
        }
        every_log_ends_up_in_one_place(t, states, deleted, self_name, run);
        let before = complete_set(t, states);
        let now = complete_set(names, states);
        assert forall|job: Seq<char>| before.contains(job) implies now.contains(job) by {
            let p = choose|p: int|
                0 <= p < t.len() && p < states.len() && #[trigger] t[p] == job && states[p]
                    == LogState::Complete;
            assert(names[p] == job);
        }
        assert(!before.contains(names[n])) by {
            if before.contains(names[n]) {
                let p = choose|p: int|
                    0 <= p < t.len() && p < states.len() && #[trigger] t[p] == names[n] && states[p]
                        == LogState::Complete;
                assert(names[p] == names[n]);
            }
        }
        assert forall|job: Seq<char>| now.contains(job) implies before.contains(job) || (job == names[n]
            && states[n] == LogState::Complete) by {
            let p = choose|p: int|
                0 <= p < names.len() && p < states.len() && #[trigger] names[p] == job && states[p]
                    == LogState::Complete;
            if p < n {
                assert(t[p] == job);
            }
        }
        if states[n] == LogState::Complete {
            assert(now.contains(names[n]));
            assert(now =~= before.insert(names[n]));
        } else {
            assert(now =~= before);
        }
        assert(deleted[n]);
    }
}

/// The jobs that every expected runner has complete; none where no runner is
/// expected or where one has not reported.
pub open spec fn complete_everywhere(
    manifests: Map<Seq<char>, Vec<String>>,
    expected: Set<Seq<char>>,
) -> Set<Seq<char>> {
    Set::new(
        |job: Seq<char>|
            expected != Set::<Seq<char>>::empty() && (forall|runner: Seq<char>| #[trigger]
                expected.contains(runner) ==> manifests.contains_key(runner) && name_set(
                    manifests[runner]@,
                ).contains(job)),
    )
}

/// The jobs to skip: those that every expected runner lists.
pub fn intersect_complete_jobs(
    manifests: &NameMap<Vec<String>>,
    expected_runners: &[String],
) -> (r: NameSet)
    ensures
        r@ == complete_everywhere(manifests@, name_set(expected_runners@)),
{
    let ghost t = texts(expected_runners@);
    let ghost expected = name_set(expected_runners@);
    let n: usize = expected_runners.len();
    let none = NameSet::new();
    if n == 0 {
        assert(expected =~= Set::empty());
        assert(none@ =~= complete_everywhere(manifests@, expected));
        return none;
    }
    assert(expected.contains(t[0]));
    let first: &Vec<String> = match manifests.get(expected_runners[0].as_str()) {
        Some(jobs) => jobs,
        None => {
            assert(none@ =~= complete_everywhere(manifests@, expected));
            return none;
        },
    };
    let mut acc = NameSet::new();
    for i in 0..first.len()
        invariant
            t == texts(expected_runners@),
            expected == t.to_set(),
            n == expected_runners@.len(),
            n > 0,
            manifests@.contains_key(t[0]),
            *first == manifests@[t[0]],
            forall|job: Seq<char>| #[trigger]
                acc@.contains(job) ==> complete_everywhere(manifests@, expected).contains(job),
            forall|p: int|
                0 <= p < i && complete_everywhere(manifests@, expected).contains(
                    #[trigger] first@[p]@,
                ) ==> acc@.contains(first@[p]@),
    {
        let job = first[i].as_str();
        let mut everywhere = true;
        let mut k: usize = 0;
        while everywhere && k < n
            invariant
                t == texts(expected_runners@),
                n == expected_runners@.len(),
                k <= n,
                everywhere ==> forall|q: int|
                    0 <= q < k ==> manifests@.contains_key(#[trigger] t[q]) && name_set(
                        manifests@[t[q]]@,
                    ).contains(job@),
                !everywhere ==> exists|q: int|
                    0 <= q < n && !(manifests@.contains_key(#[trigger] t[q]) && name_set(
                        manifests@[t[q]]@,
                    ).contains(job@)),
            decreases n - k + (if everywhere { 1int } else { 0int }),
        {
            let runner = expected_runners[k].as_str();
            assert(t[k as int] == runner@);
            match manifests.get(runner) {
                Some(jobs) => {
                    if has_name(jobs.as_slice(), job) {
                        k = k + 1;
                    } else {
                        everywhere = false;
                    }
                },
                None => {
                    everywhere = false;
                },
            }
        }
        if everywhere {
            assert(complete_everywhere(manifests@, expected).contains(job@)) by {
                assert(expected.contains(t[0]));
                assert forall|runner: Seq<char>| #[trigger] expected.contains(runner) implies manifests@.contains_key(
                    runner,
                ) && name_set(manifests@[runner]@).contains(job@) by {
                    let q = choose|q: int| 0 <= q < t.len() && t[q] == runner;
                    assert(manifests@.contains_key(t[q]));
                }
            }
            acc.insert(first[i].clone());
        } else {
            assert(!complete_everywhere(manifests@, expected).contains(job@)) by {
                let q = choose|q: int|
                    0 <= q < n && !(manifests@.contains_key(#[trigger] t[q]) && name_set(
                        manifests@[t[q]]@,
                    ).contains(job@));
                assert(expected.contains(t[q]));
            }
        }
    }
    proof {
        assert forall|job: Seq<char>| complete_everywhere(manifests@, expected).contains(job)
            == acc@.contains(job) by {
            if complete_everywhere(manifests@, expected).contains(job) {
                assert(name_set(manifests@[t[0]]@).contains(job));
                let p = choose|p: int| 0 <= p < texts(first@).len() && texts(first@)[p] == job;
                assert(first@[p]@ == job);
            }
        }
        assert(acc@ =~= complete_everywhere(manifests@, expected));
    }
    acc
}

/// A job is skipped only where every expected runner has reported it complete.
pub proof fn skipped_jobs_are_complete_everywhere(
    manifests: Map<Seq<char>, Vec<String>>,
    expected: Set<Seq<char>>,
    job: Seq<char>,
    runner: Seq<char>,
)
    requires
        complete_everywhere(manifests, expected).contains(job),
        expected.contains(runner),
    ensures
        manifests.contains_key(runner),
        name_set(manifests[runner]@).contains(job),
{
}

/// With a report missing nothing is skipped.
pub proof fn missing_report_skips_nothing(
    manifests: Map<Seq<char>, Vec<String>>,
    expected: Set<Seq<char>>,
    runner: Seq<char>,
)
    requires
        expected.contains(runner),
        !manifests.contains_key(runner),
    ensures
        complete_everywhere(manifests, expected) == Set::<Seq<char>>::empty(),
{
    assert(complete_everywhere(manifests, expected) =~= Set::empty());
}

/// The logs of the jobs outside `skip` that were deleted, by file name, in the order of
/// the jobs.
pub open spec fn cleaned_logs(
    names: Seq<Seq<char>>,
    skip: Set<Seq<char>>,
    deleted: Seq<bool>,
    self_name: Seq<char>,
    run: Seq<char>,
) -> Seq<Seq<char>>
    decreases names.len(),
{
    if names.len() == 0 {
        Seq::empty()
    } else {
        let n = names.len() - 1;
        let before = cleaned_logs(names.take(n), skip, deleted, self_name, run);
        if !skip.contains(names[n]) && deleted[n] {
            before.push(log_file_name(names[n], self_name, run))
        } else {
            before
        }
    }
}

/// Whether the log of a job is deleted before the run goes on: where the job is not
/// skipped.
pub fn must_clean(job: &str, skip_set: &NameSet) -> (r: bool)
    ensures
        r == !skip_set@.contains(job@),
{
    !skip_set.contains(job)
}

/// Lists the logs that were deleted before the run goes on: those of the jobs that are not
/// skipped. For each job `deleted` says whether its log was there and was deleted.
pub fn cleanup_incomplete_logs(
    self_name: &str,
    run: &str,
    effective_names: &[String],
    skip_set: &NameSet,
    deleted: &[bool],
) -> (r: Vec<String>)
    requires
        deleted@.len() == effective_names@.len(),
    ensures
        texts(r@) == cleaned_logs(texts(effective_names@), skip_set@, deleted@, self_name@, run@),
{
    let mut r: Vec<String> = Vec::new();
    let ghost t = texts(effective_names@);
    assert(texts(r@) =~= Seq::empty());
    for i in 0..effective_names.len()
        invariant
            t == texts(effective_names@),
            deleted@.len() == effective_names@.len(),
            texts(r@) == cleaned_logs(t.take(i as int), skip_set@, deleted@, self_name@, run@),
    {
        let name = effective_names[i].as_str();
        let ghost before = r@;
        assert(t.take(i + 1).take(i as int) =~= t.take(i as int));
        assert(t.take(i + 1)[i as int] == name@);
        if must_clean(name, skip_set) && deleted[i] {
            r.push(log_name(name, self_name, run));
            assert(texts(r@) =~= texts(before).push(log_file_name(name@, self_name@, run@)));
        }
    }
    assert(t.take(t.len() as int) =~= t);
    r
}

// ---------------------------------------------------------------------
// Laws of resuming
// ---------------------------------------------------------------------

/// The bytes stand somewhere in the content.
pub open spec fn holds(content: Seq<u8>, part: Seq<u8>) -> bool {
    exists|before: Seq<u8>, after: Seq<u8>| content == #[trigger] (before + part + after)
}

proof fn occurrence_is_a_part(content: Seq<u8>, part: Seq<u8>)
    ensures
        occurs(part, content) <==> holds(content, part),
{
    if occurs(part, content) {
        let i = choose|i: int| occurs_at(part, content, i);
        let before = content.take(i);
        let after = content.skip(i + part.len());
        assert(content.subrange(i, i + part.len()) == part);
        assert(content =~= before + part + after);
    }
    if holds(content, part) {
        let (before, after) = choose|before: Seq<u8>, after: Seq<u8>|
            content == #[trigger] (before + part + after);
        let i = before.len() as int;
        assert(content.subrange(i, i + part.len()) =~= part);
        assert(occurs_at(part, content, i));
    }
}

proof fn sent_marker_bytes()
    ensures
        completion_marker() == seq![34u8, 101u8, 118u8, 101u8, 110u8, 116u8, 34u8, 58u8, 34u8, 101u8, 111u8, 116u8, 95u8, 115u8, 101u8, 110u8, 116u8, 34u8],
{
    reveal_strlit("\"event\":\"eot_sent\"");
    assert(completion_marker() =~= seq![34u8, 101u8, 118u8, 101u8, 110u8, 116u8, 34u8, 58u8, 34u8, 101u8, 111u8, 116u8, 95u8, 115u8, 101u8, 110u8, 116u8, 34u8]);
}

proof fn silent_marker_bytes()
    ensures
        fallback_marker() == seq![34u8, 112u8, 104u8, 97u8, 115u8, 101u8, 34u8, 58u8, 34u8, 115u8, 105u8, 108u8, 101u8, 110u8, 116u8, 34u8],
{
    reveal_strlit("\"phase\":\"silent\"");
    assert(fallback_marker() =~= seq![34u8, 112u8, 104u8, 97u8, 115u8, 101u8, 34u8, 58u8, 34u8, 115u8, 105u8, 108u8, 101u8, 110u8, 116u8, 34u8]);
}

/// A log is complete just where it holds, between whatever else, the bytes of
/// `"event":"eot_sent"` or those of `"phase":"silent"`.
pub proof fn complete_logs_hold_a_marker(content: Seq<u8>)
    ensures
        has_marker(content) <==> holds(content, seq![34u8, 101u8, 118u8, 101u8, 110u8, 116u8, 34u8, 58u8, 34u8, 101u8, 111u8, 116u8, 95u8, 115u8, 101u8, 110u8, 116u8, 34u8]) || holds(content, seq![34u8, 112u8, 104u8, 97u8, 115u8, 101u8, 34u8, 58u8, 34u8, 115u8, 105u8, 108u8, 101u8, 110u8, 116u8, 34u8]),
{
    sent_marker_bytes();
    silent_marker_bytes();
    occurrence_is_a_part(content, completion_marker());
    occurrence_is_a_part(content, fallback_marker());
}

/// A job is skipped just where there are runners and each of them has reported it among its
/// complete jobs.
pub proof fn skipped_just_where_all_report_it(
    manifests: Map<Seq<char>, Vec<String>>,
    expected: Set<Seq<char>>,
    job: Seq<char>,
)
    requires
        expected != Set::<Seq<char>>::empty(),
    ensures
        complete_everywhere(manifests, expected).contains(job) <==> (forall|runner: Seq<char>|
            #[trigger] expected.contains(runner) ==> manifests.contains_key(runner) && exists|k: int|
                0 <= k < manifests[runner]@.len() && (#[trigger] manifests[runner]@[k])@ == job),
{
    assert forall|runner: Seq<char>| #[trigger] manifests.contains_key(runner) implies (name_set(
        manifests[runner]@,
    ).contains(job) <==> exists|k: int|
        0 <= k < manifests[runner]@.len() && (#[trigger] manifests[runner]@[k])@ == job) by {
        let v = manifests[runner]@;
        let t = texts(v);
        if name_set(v).contains(job) {
            let k = choose|k: int| 0 <= k < t.len() && t[k] == job;
            assert(v[k]@ == job);
        }
        if exists|k: int| 0 <= k < v.len() && (#[trigger] v[k])@ == job {
            let k = choose|k: int| 0 <= k < v.len() && (#[trigger] v[k])@ == job;
            assert(t[k] == job);
            assert(t.contains(job));
        }
    }
}

/// With no runners expected nothing is skipped.
pub proof fn without_runners_nothing_is_skipped(manifests: Map<Seq<char>, Vec<String>>, job: Seq<char>)
    ensures
        !complete_everywhere(manifests, Set::empty()).contains(job),
{
}

/// A job counts as complete just where its log is.
pub proof fn complete_jobs_have_complete_logs(names: Seq<Seq<char>>, states: Seq<LogState>, job: Seq<char>)
    requires
        names.len() == states.len(),
    ensures
        complete_set(names, states).contains(job) <==> (exists|i: int|
            0 <= i < names.len() && #[trigger] names[i] == job && states[i] is Complete),
{
}

/// The logs that are listed as deleted in some state are just those that were in that state
/// and were deleted, each by the names of its job, its runner and its run.
pub proof fn deleted_logs_are_listed(
    names: Seq<Seq<char>>,
    states: Seq<LogState>,
    deleted: Seq<bool>,
    which: LogState,
    self_name: Seq<char>,
    run: Seq<char>,
    file: Seq<char>,
)
    ensures
        deleted_files(names, states, deleted, which, self_name, run).contains(file) <==> (exists|i: int|
            0 <= i < names.len() && states[i] == which && deleted[i] && file == #[trigger] names[i] + "-"@
                + self_name + "-"@ + run + ".jsonl"@),
    decreases names.len(),
{
    let all = deleted_files(names, states, deleted, which, self_name, run);
    if names.len() > 0 {
        let n = names.len() - 1;
        let t = names.take(n);
        let before = deleted_files(t, states, deleted, which, self_name, run);
        deleted_logs_are_listed(t, states, deleted, which, self_name, run, file);
        if before.contains(file) {
            let k = choose|k: int| 0 <= k < before.len() && before[k] == file;
            assert(all[k] == file);
            let i = choose|i: int|
                0 <= i < t.len() && states[i] == which && deleted[i] && file == #[trigger] t[i] + "-"@ + self_name
                    + "-"@ + run + ".jsonl"@;
            assert(names[i] == t[i]);
        }
        if all.contains(file) && !before.contains(file) {
            let k = choose|k: int| 0 <= k < all.len() && all[k] == file;
            if k < before.len() {
                assert(before[k] == file);
            }
            assert(file == names[n] + "-"@ + self_name + "-"@ + run + ".jsonl"@);
        }
        if exists|i: int|
            0 <= i < names.len() && states[i] == which && deleted[i] && file == #[trigger] names[i] + "-"@
                + self_name + "-"@ + run + ".jsonl"@ {
            let i = choose|i: int|
                0 <= i < names.len() && states[i] == which && deleted[i] && file == #[trigger] names[i] + "-"@
                    + self_name + "-"@ + run + ".jsonl"@;
            if i < n {
                assert(t[i] == names[i]);
            } else {
                assert(all[before.len() as int] == file);
            }
        }
    }
}

/// The logs that are listed as cleaned up are just those of jobs that are not skipped and
/// whose log was deleted.
pub proof fn cleaned_logs_are_listed(
    names: Seq<Seq<char>>,
    skip: Set<Seq<char>>,
    deleted: Seq<bool>,
    self_name: Seq<char>,
    run: Seq<char>,
    file: Seq<char>,
)
    ensures
        cleaned_logs(names, skip, deleted, self_name, run).contains(file) <==> (exists|i: int|
            0 <= i < names.len() && !skip.contains(names[i]) && deleted[i] && file == #[trigger] names[i] + "-"@
                + self_name + "-"@ + run + ".jsonl"@),
    decreases names.len(),
{
    let all = cleaned_logs(names, skip, deleted, self_name, run);
    if names.len() > 0 {
        let n = names.len() - 1;
        let t = names.take(n);
        let before = cleaned_logs(t, skip, deleted, self_name, run);
        cleaned_logs_are_listed(t, skip, deleted, self_name, run, file);
        if before.contains(file) {
            let k = choose|k: int| 0 <= k < before.len() && before[k] == file;
            assert(all[k] == file);
            let i = choose|i: int|
                0 <= i < t.len() && !skip.contains(t[i]) && deleted[i] && file == #[trigger] t[i] + "-"@
                    + self_name + "-"@ + run + ".jsonl"@;
            assert(names[i] == t[i]);
        }
        if all.contains(file) && !before.contains(file) {
            let k = choose|k: int| 0 <= k < all.len() && all[k] == file;
            if k < before.len() {
                assert(before[k] == file);
            }
            assert(file == names[n] + "-"@ + self_name + "-"@ + run + ".jsonl"@);
        }
        if exists|i: int|
            0 <= i < names.len() && !skip.contains(names[i]) && deleted[i] && file == #[trigger] names[i] + "-"@
                + self_name + "-"@ + run + ".jsonl"@ {
            let i = choose|i: int|
                0 <= i < names.len() && !skip.contains(names[i]) && deleted[i] && file == #[trigger] names[i]
                    + "-"@ + self_name + "-"@ + run + ".jsonl"@;
            if i < n {
                assert(t[i] == names[i]);
            } else {
                assert(all[before.len() as int] == file);
            }
        }
    }
}

/// A folder belongs to a run just where its name is that of the run, a dash and anything.
pub proof fn folders_go_by_the_run(folder: Seq<char>, run: Seq<char>)
    ensures
        belongs_to_run(folder, run) <==> (exists|rest: Seq<char>| folder == #[trigger] (run + seq!['-'] + rest)),
{
    reveal_strlit("-");
    let start = run + "-"@;
    assert(start =~= run + seq!['-']);
    if belongs_to_run(folder, run) {
        let rest = folder.skip(start.len() as int);
        assert(folder =~= run + seq!['-'] + rest);
    }
    if exists|rest: Seq<char>| folder == #[trigger] (run + seq!['-'] + rest) {
        let rest = choose|rest: Seq<char>| folder == #[trigger] (run + seq!['-'] + rest);
        assert(folder.take(start.len() as int) =~= start);
        assert(start.is_prefix_of(folder));
    }
}

/// Which folder a resumed run takes up: one of the run, and of those the one whose name
/// stands behind all others; and none just where the base is not there or holds none of the
/// run.
pub proof fn latest_folder_of_the_run(
    base: Seq<char>,
    base_exists: bool,
    folders: Set<Seq<char>>,
    run: Seq<char>,
    r: Result<String, ResumeError>,
)
    requires
        latest_folder(base, base_exists, folders, run, r),
    ensures
        r is Ok <==> base_exists && (exists|f: Seq<char>|
            #[trigger] folders.contains(f) && belongs_to_run(f, run)),
        r is Ok ==> folders.contains(r->Ok_0@) && belongs_to_run(r->Ok_0@, run) && (forall|f: Seq<char>|
            #[trigger] folders.contains(f) && belongs_to_run(f, run) ==> f == r->Ok_0@ || name_lt(
                f,
                r->Ok_0@,
            )),
        r is Err ==> (r->Err_0 is BaseMissing <==> !base_exists),
{
    if r is Ok {
        let name = r->Ok_0@;
        assert forall|f: Seq<char>| #[trigger] folders.contains(f) && belongs_to_run(f, run) implies f == name
            || name_lt(f, name) by {
            crate::text::name_lt_total(f, name);
        }
    }
}

/// What becomes of a log: one that is empty or holds no marker is deleted, one with a marker
/// is complete, and a missing one is left alone.
pub proof fn crashed_logs_are_deleted(size: Option<u64>, marker: bool, state: LogState, gone: bool)
    requires
        call_ensures(classify_log, (size, marker), state),
        call_ensures(must_delete, (state,), gone),
    ensures
        gone <==> size is Some && (size->0 == 0 || !marker),
        state is Complete <==> size is Some && size->0 > 0 && marker,
        state is Missing <==> size is None,
        state is Empty <==> size == Some(0u64),
{
}

/// Only jobs that are skipped keep their log when a run goes on.
pub proof fn skipped_jobs_keep_their_log(job: &str, skip_set: &NameSet, r: bool)
    requires
        call_ensures(must_clean, (job, skip_set), r),
    ensures
        r <==> !skip_set@.contains(job@),
{
}

/// The tail of a log is its last 65536 bytes, or all of it where it has no more.
pub proof fn tail_is_the_end(file_size: u64, start: u64)
    requires
        call_ensures(tail_start, (file_size,), start),
    ensures
        start <= file_size,
        file_size - start <= 65_536,
        start > 0 ==> file_size - start == 65_536,
{
}

/// The pieces of a log make up the log in their order.
pub proof fn pieces_make_up_the_log(a: Seq<Vec<u8>>, b: Seq<Vec<u8>>, v: Vec<u8>)
    ensures
        joined(Seq::empty()) == Seq::<u8>::empty(),
        joined(seq![v]) == v@,
        joined(a + b) == joined(a) + joined(b),
    decreases b.len(),
{
    let one = seq![v];
    assert(one.drop_last() =~= Seq::empty());
    assert(joined(one.drop_last()) =~= Seq::empty());
    assert(one.last() == v);
    assert(joined(one) =~= v@);
    if b.len() == 0 {
        assert(a + b =~= a);
        assert(joined(a) + joined(b) =~= joined(a));
    } else {
        pieces_make_up_the_log(a, b.drop_last(), v);
        assert((a + b).drop_last() =~= a + b.drop_last());
        assert((a + b).last() == b.last());
        assert(joined(a + b) =~= joined(a) + joined(b));
    }
}

/// A log counts as holding a marker just where it is not empty and one was found in its tail
/// or in the whole; what could not be read shows none.
pub proof fn marker_is_found_in_tail_or_whole(file_size: u64, tail: Option<bool>, full: Option<bool>)
    ensures
        marker_verdict(file_size, tail, full) <==> file_size > 0 && ((tail is Some && tail->0) || (full is Some
            && full->0)),
{
}

/// The jobs that are skipped are just those that every runner has reported as complete, where
/// there are runners.
pub proof fn skipped_jobs_in_full(
    manifests: &NameMap<Vec<String>>,
    runners: &[String],
    r: NameSet,
    job: Seq<char>,
)
    requires
        call_ensures(intersect_complete_jobs, (manifests, runners), r),
    ensures
        r@.contains(job) <==> runners@.len() > 0 && (forall|i: int|
            0 <= i < runners@.len() ==> manifests@.contains_key((#[trigger] runners@[i])@) && texts(
                manifests@[runners@[i]@]@,
            ).contains(job)),
{
    let e = name_set(runners@);
    let t = texts(runners@);
    if runners@.len() > 0 {
        assert(e.contains(t[0]));
    } else {
        assert(e =~= Set::empty());
    }
    if r@.contains(job) {
        assert forall|i: int| 0 <= i < runners@.len() implies manifests@.contains_key(
            (#[trigger] runners@[i])@,
        ) && texts(manifests@[runners@[i]@]@).contains(job) by {
            assert(t[i] == runners@[i]@);
            assert(e.contains(t[i]));
        }
    }
    if runners@.len() > 0 && (forall|i: int|
        0 <= i < runners@.len() ==> manifests@.contains_key((#[trigger] runners@[i])@) && texts(
            manifests@[runners@[i]@]@,
        ).contains(job)) {
        assert forall|n: Seq<char>| #[trigger] e.contains(n) implies manifests@.contains_key(n)
            && name_set(manifests@[n]@).contains(job) by {
            let i = choose|i: int| 0 <= i < t.len() && t[i] == n;
            assert(runners@[i]@ == n);
        }
    }
}

/// A runner reports just the jobs whose log is complete, in ascending order, and lists the
/// logs that it deleted, the empty ones apart from the partial ones.
pub proof fn local_manifest_in_full(
    self_name: &str,
    run: &str,
    names: &[String],
    states: &[LogState],
    deleted: &[bool],
    r: LocalManifest,
    job: Seq<char>,
    file: Seq<char>,
)
    requires
        states@.len() == names@.len(),
        deleted@.len() == names@.len(),
        call_ensures(compute_local_manifest, (self_name, run, names, states, deleted), r),
    ensures
        ascending(texts(r.complete_jobs@)),
        texts(r.complete_jobs@).contains(job) <==> exists|i: int|
            0 <= i < names@.len() && (#[trigger] names@[i])@ == job && states@[i] is Complete,
        texts(r.deleted_empty@).contains(file) <==> exists|i: int|
            0 <= i < names@.len() && states@[i] is Empty && deleted@[i] && file == (
            #[trigger] names@[i])@ + "-"@ + self_name@ + "-"@ + run@ + ".jsonl"@,
        texts(r.deleted_partial@).contains(file) <==> exists|i: int|
            0 <= i < names@.len() && states@[i] is Partial && deleted@[i] && file == (
            #[trigger] names@[i])@ + "-"@ + self_name@ + "-"@ + run@ + ".jsonl"@,
{
    let t = texts(names@);
    assert forall|i: int| 0 <= i < names@.len() implies #[trigger] t[i] == (#[trigger] names@[i])@ by {}
    complete_jobs_have_complete_logs(t, states@, job);
    deleted_logs_are_listed(t, states@, deleted@, LogState::Empty, self_name@, run@, file);
    deleted_logs_are_listed(t, states@, deleted@, LogState::Partial, self_name@, run@, file);
    assert(name_set(r.complete_jobs@).contains(job) <==> texts(r.complete_jobs@).contains(job));
    if texts(r.complete_jobs@).contains(job) {
        let i = choose|i: int| 0 <= i < t.len() && #[trigger] t[i] == job && states@[i] is Complete;
        assert(names@[i]@ == job);
    }
    if exists|i: int| 0 <= i < names@.len() && (#[trigger] names@[i])@ == job && states@[i] is Complete {
        let i = choose|i: int|
            0 <= i < names@.len() && (#[trigger] names@[i])@ == job && states@[i] is Complete;
        assert(t[i] == job);
    }
    if texts(r.deleted_empty@).contains(file) {
        let i = choose|i: int|
            0 <= i < t.len() && states@[i] == LogState::Empty && deleted@[i] && file == #[trigger] t[i]
                + "-"@ + self_name@ + "-"@ + run@ + ".jsonl"@;
        assert(names@[i]@ == t[i]);
    }
    if exists|i: int|
        0 <= i < names@.len() && states@[i] is Empty && deleted@[i] && file == (#[trigger] names@[i])@
            + "-"@ + self_name@ + "-"@ + run@ + ".jsonl"@ {
        let i = choose|i: int|
            0 <= i < names@.len() && states@[i] is Empty && deleted@[i] && file == (
            #[trigger] names@[i])@ + "-"@ + self_name@ + "-"@ + run@ + ".jsonl"@;
        assert(t[i] == names@[i]@);
        assert(states@[i] == LogState::Empty);
    }
    if texts(r.deleted_partial@).contains(file) {
        let i = choose|i: int|
            0 <= i < t.len() && states@[i] == LogState::Partial && deleted@[i] && file == #[trigger] t[i]
                + "-"@ + self_name@ + "-"@ + run@ + ".jsonl"@;
        assert(names@[i]@ == t[i]);
    }
    if exists|i: int|
        0 <= i < names@.len() && states@[i] is Partial && deleted@[i] && file == (#[trigger] names@[i])@
            + "-"@ + self_name@ + "-"@ + run@ + ".jsonl"@ {
        let i = choose|i: int|
            0 <= i < names@.len() && states@[i] is Partial && deleted@[i] && file == (
            #[trigger] names@[i])@ + "-"@ + self_name@ + "-"@ + run@ + ".jsonl"@;
        assert(t[i] == names@[i]@);
        assert(states@[i] == LogState::Partial);
    }
}

/// A log is complete just where one of the two markers is in it, whether it is read at once or
/// piece by piece.
pub proof fn markers_are_looked_for_in_all_of_a_log(
    tail: &[u8],
    chunks: &Vec<Vec<u8>>,
    found: bool,
    found_in_pieces: bool,
)
    requires
        call_ensures(scan_tail_for_marker, (tail,), found),
        call_ensures(scan_full_for_marker, (chunks,), found_in_pieces),
        joined(chunks@) == tail@,
    ensures
        found == found_in_pieces,
        found <==> has_marker(tail@),
{
}

/// One part of a text of bytes is found in it just where it is not empty and stands somewhere.
pub proof fn parts_are_found_where_they_stand(haystack: &[u8], needle: &[u8], r: bool)
    requires
        call_ensures(slice_contains, (haystack, needle), r),
    ensures
        r <==> needle@.len() > 0 && holds(haystack@, needle@),
{
    occurrence_is_a_part(haystack@, needle@);
}

} // verus!

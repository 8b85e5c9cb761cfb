//! Progress and results shared between the parser and its displays.
use vstd::prelude::*;

use crate::order::{sort_by_key, stable_sort, SortKey};

verus! {

/// Where one section worker stands.
#[derive(Debug, Clone, Copy, PartialEq, Eq, Structural)]
pub enum WorkerStatus {
    Waiting,
    Running,
    Done,
    Failed,
}

/// Progress of the worker that parses one section.
pub struct WorkerState {
    pub section_name: String,
    pub bytes_done: u64,
    pub bytes_total: u64,
    pub matches: u64,
    pub status: WorkerStatus,
}

impl WorkerState {
    /// A worker that has not started: nothing done, no matches, waiting.
    pub fn new(section_name: String, bytes_total: u64) -> (r: Self)
        ensures
            r.section_name == section_name,
            r.bytes_done == 0,
            r.bytes_total == bytes_total,
            r.matches == 0,
            r.status == WorkerStatus::Waiting,
    {
        WorkerState { section_name, bytes_done: 0, bytes_total, matches: 0, status: WorkerStatus::Waiting }
    }
}

/// One aggregated value of one content pattern in one section.
#[derive(Debug, Clone)]
pub struct ParseResult {
    pub section: String,
    pub label: String,
    /// Byte offset of the section's first content byte within the file
    pub offset: u64,
    /// 1-based line number of the section's first content line within the file
    pub line: u64,
    pub value: String,
}

impl SortKey for ParseResult {
    open spec fn key_of(&self) -> int {
        self.offset as int
    }

    fn sort_key(&self) -> (k: u64) {
        self.offset
    }
}

/// State shared by the parser pipeline and its progress display.
pub struct AppState {
    pub net_bytes_done: u64,
    pub net_bytes_total: u64,
    pub transfer_label: &'static str,
    pub workers: Vec<WorkerState>,
    pub results: Vec<ParseResult>,
    pub remote: bool,
    /// Changed only through the methods below
    pub flags: RunFlags,
}

/// Completion, cancellation and log suppression of a run.
pub struct RunFlags {
    complete: bool,
    cancelled: bool,
    silent: bool,
}

impl RunFlags {
    pub closed spec fn complete(&self) -> bool {
        self.complete
    }

    pub closed spec fn cancelled(&self) -> bool {
        self.cancelled
    }

    pub closed spec fn silent(&self) -> bool {
        self.silent
    }

    fn new(silent: bool) -> (r: Self)
        ensures
            !r.complete(),
            !r.cancelled(),
            r.silent() == silent,
    {
        RunFlags { complete: false, cancelled: false, silent }
    }

    fn set_complete(&mut self)
        ensures
            final(self).complete(),
            final(self).cancelled() == old(self).cancelled(),
            final(self).silent() == old(self).silent(),
    {
        self.complete = true;
    }

    fn set_cancelled(&mut self)
        ensures
            final(self).cancelled(),
            final(self).complete() == old(self).complete(),
            final(self).silent() == old(self).silent(),
    {
        self.cancelled = true;
    }

    fn get_complete(&self) -> (r: bool)
        ensures
            r == self.complete(),
    {
        self.complete
    }

    fn get_cancelled(&self) -> (r: bool)
        ensures
            r == self.cancelled(),
    {
        self.cancelled
    }

    fn get_silent(&self) -> (r: bool)
        ensures
            r == self.silent(),
    {
        self.silent
    }
}

impl AppState {
    /// Whether parsing has finished (or was abandoned).
    pub open spec fn completed(&self) -> bool {
        self.flags.complete()
    }

    /// Whether the user asked to stop.
    pub open spec fn cancel_requested(&self) -> bool {
        self.flags.cancelled()
    }

    /// Whether log messages are suppressed.
    pub open spec fn quiet(&self) -> bool {
        self.flags.silent()
    }

    /// Nothing visible through the public fields and flags differs between
    /// `self` and `other` except the fields a caller names separately.
    pub open spec fn same_flags(&self, other: &AppState) -> bool {
        &&& self.completed() == other.completed()
        &&& self.cancel_requested() == other.cancel_requested()
        &&& self.quiet() == other.quiet()
        &&& self.remote == other.remote
        &&& self.transfer_label == other.transfer_label
    }

    /// Fresh state for a file of `file_size` bytes: nothing transferred, no
    /// workers, no results, neither complete nor cancelled.
    pub fn new(file_size: u64, remote: bool, transfer_label: &'static str, silent: bool) -> (r: Self)
        ensures
            r.net_bytes_done == 0,
            r.net_bytes_total == file_size,
            r.transfer_label == transfer_label,
            r.workers@.len() == 0,
            r.results@.len() == 0,
            r.remote == remote,
            !r.completed(),
            !r.cancel_requested(),
            r.quiet() == silent,
    {
        AppState {
            net_bytes_done: 0,
            net_bytes_total: file_size,
            transfer_label,
            workers: Vec::new(),
            results: Vec::new(),
            remote,
            flags: RunFlags::new(silent),
        }
    }

    pub fn is_complete(&self) -> (r: bool)
        ensures
            r == self.completed(),
    {
        self.flags.get_complete()
    }

    /// Marks parsing as finished; nothing else changes.
    pub fn set_complete(&mut self)
        ensures
            final(self).completed(),
            final(self).cancel_requested() == old(self).cancel_requested(),
            final(self).quiet() == old(self).quiet(),
            final(self).remote == old(self).remote,
            final(self).transfer_label == old(self).transfer_label,
            final(self).net_bytes_done == old(self).net_bytes_done,
            final(self).net_bytes_total == old(self).net_bytes_total,
            final(self).workers@ == old(self).workers@,
            final(self).results@ == old(self).results@,
    {
        self.flags.set_complete();
    }

    /// Records that the user asked to stop; nothing else changes.
    pub fn cancel(&mut self)
        ensures
            final(self).cancel_requested(),
            final(self).completed() == old(self).completed(),
            final(self).quiet() == old(self).quiet(),
            final(self).remote == old(self).remote,
            final(self).transfer_label == old(self).transfer_label,
            final(self).net_bytes_done == old(self).net_bytes_done,
            final(self).net_bytes_total == old(self).net_bytes_total,
            final(self).workers@ == old(self).workers@,
            final(self).results@ == old(self).results@,
    {
        self.flags.set_cancelled();
    }

    pub fn is_cancelled(&self) -> (r: bool)
        ensures
            r == self.cancel_requested(),
    {
        self.flags.get_cancelled()
    }

    /// Whether log messages are to be suppressed (GUI mode).
    pub fn is_silent(&self) -> (r: bool)
        ensures
            r == self.quiet(),
    {
        self.flags.get_silent()
    }

    /// Registers the worker of a section of `bytes_total` bytes, already
    /// running, and returns its index.
    pub fn register_worker(&mut self, section_name: String, bytes_total: u64) -> (idx: usize)
        ensures
            idx == old(self).workers@.len(),
            final(self).workers@.len() == old(self).workers@.len() + 1,
            final(self).workers@.take(idx as int) == old(self).workers@,
            final(self).workers@[idx as int].section_name == section_name,
            final(self).workers@[idx as int].bytes_done == 0,
            final(self).workers@[idx as int].bytes_total == bytes_total,
            final(self).workers@[idx as int].matches == 0,
            final(self).workers@[idx as int].status == WorkerStatus::Running,
            final(self).same_flags(old(self)),
            final(self).results@ == old(self).results@,
            final(self).net_bytes_done == old(self).net_bytes_done,
            final(self).net_bytes_total == old(self).net_bytes_total,
    {
        let mut worker = WorkerState::new(section_name, bytes_total);
        worker.status = WorkerStatus::Running;
        let idx = self.workers.len();
        self.workers.push(worker);
        assert(self.workers@.take(idx as int) =~= old(self).workers@);
        idx
    }

    /// Marks worker `idx` done: all of its bytes processed, `matches` found.
    pub fn finish_worker(&mut self, idx: usize, matches: u64)
        requires
            idx < old(self).workers@.len(),
        ensures
            final(self).workers@.len() == old(self).workers@.len(),
            forall|k: int|
                0 <= k < old(self).workers@.len() && k != idx ==> #[trigger] final(self).workers@[k]
                    == old(self).workers@[k],
            final(self).workers@[idx as int].section_name == old(self).workers@[idx as int].section_name,
            final(self).workers@[idx as int].bytes_total == old(self).workers@[idx as int].bytes_total,
            final(self).workers@[idx as int].bytes_done == old(self).workers@[idx as int].bytes_total,
            final(self).workers@[idx as int].matches == matches,
            final(self).workers@[idx as int].status == WorkerStatus::Done,
            final(self).same_flags(old(self)),
            final(self).results@ == old(self).results@,
            final(self).net_bytes_done == old(self).net_bytes_done,
            final(self).net_bytes_total == old(self).net_bytes_total,
    {
        let mut worker = self.workers.remove(idx);
        worker.bytes_done = worker.bytes_total;
        worker.matches = matches;
        worker.status = WorkerStatus::Done;
        self.workers.insert(idx, worker);
    }

    /// Marks worker `idx` failed, its counts left as they were.
    pub fn fail_worker(&mut self, idx: usize)
        requires
            idx < old(self).workers@.len(),
        ensures
            final(self).workers@.len() == old(self).workers@.len(),
            forall|k: int|
                0 <= k < old(self).workers@.len() && k != idx ==> #[trigger] final(self).workers@[k]
                    == old(self).workers@[k],
            final(self).workers@[idx as int].section_name == old(self).workers@[idx as int].section_name,
            final(self).workers@[idx as int].bytes_total == old(self).workers@[idx as int].bytes_total,
            final(self).workers@[idx as int].bytes_done == old(self).workers@[idx as int].bytes_done,
            final(self).workers@[idx as int].matches == old(self).workers@[idx as int].matches,
            final(self).workers@[idx as int].status == WorkerStatus::Failed,
            final(self).same_flags(old(self)),
            final(self).results@ == old(self).results@,
            final(self).net_bytes_done == old(self).net_bytes_done,
            final(self).net_bytes_total == old(self).net_bytes_total,
    {
        let mut worker = self.workers.remove(idx);
        worker.status = WorkerStatus::Failed;
        self.workers.insert(idx, worker);
    }

    /// Adds a batch of results and orders all results by file offset; results
    /// at the same offset keep the order in which they arrived.
    pub fn merge_results(&mut self, batch: Vec<ParseResult>)
        ensures
            final(self).results@ == sort_by_key(old(self).results@ + batch@),
            final(self).workers@ == old(self).workers@,
            final(self).same_flags(old(self)),
            final(self).net_bytes_done == old(self).net_bytes_done,
            final(self).net_bytes_total == old(self).net_bytes_total,
    {
        let mut batch = batch;
        self.results.append(&mut batch);
        stable_sort(&mut self.results);
    }
}


/// One call on the state, as its completion sees it: a call that marks the
/// run complete leaves it complete, and any other call leaves completion as
/// it was. The contract of every method of `AppState` gives this step, with
/// `marks` true for `set_complete` alone.
pub open spec fn completion_step(before: AppState, after: AppState, marks: bool) -> bool {
    if marks {
        after.completed()
    } else {
        after.completed() == before.completed()
    }
}

/// Completion is sticky and set only on request: along any run of calls
/// that starts from a fresh state, the state is complete exactly when some
/// call so far marked it complete, and once complete it stays complete.
pub proof fn lemma_completion_is_sticky(states: Seq<AppState>, marks: Seq<bool>)
    requires
        states.len() == marks.len() + 1,
        !states[0].completed(),
        forall|i: int| 0 <= i < marks.len() ==> #[trigger] completion_step(states[i], states[i + 1], marks[i]),
    ensures
        states.last().completed() <==> exists|i: int| 0 <= i < marks.len() && #[trigger] marks[i],
        forall|i: int, j: int|
            0 <= i <= j < states.len() && #[trigger] states[i].completed() ==> #[trigger] states[j].completed(),
    decreases marks.len(),
{
    if marks.len() > 0 {
        let n = marks.len() - 1;
        let ps = states.drop_last();
        let pm = marks.drop_last();
        assert forall|i: int| 0 <= i < pm.len() implies #[trigger] completion_step(ps[i], ps[i + 1], pm[i]) by {
            assert(completion_step(states[i], states[i + 1], marks[i]));
        }
        lemma_completion_is_sticky(ps, pm);
        assert(completion_step(states[n], states[n + 1], marks[n]));
        assert(ps.last() == states[n]);
        if states.last().completed() && !marks[n] {
            let i = choose|i: int| 0 <= i < pm.len() && #[trigger] pm[i];
            assert(marks[i]);
        }
        if exists|i: int| 0 <= i < marks.len() && #[trigger] marks[i] {
            let i = choose|i: int| 0 <= i < marks.len() && #[trigger] marks[i];
            if i < n {
                assert(pm[i]);
            }
        }
        assert forall|i: int, j: int|
            0 <= i <= j < states.len() && #[trigger] states[i].completed() implies #[trigger] states[j].completed() by {
            if j < states.len() - 1 {
                assert(ps[i] == states[i] && ps[j] == states[j]);
            } else if i < j {
                assert(ps[i] == states[i]);
                assert(ps[n] == states[n]);
            }
        }
    }
}

} // verus!

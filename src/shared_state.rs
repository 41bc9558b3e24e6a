//! Progress of a run: outcome counters, a capped log of the latest outcomes,
//! and the files in flight. One value of it is shared by every task, behind a
//! lock held by the caller.
use vstd::prelude::*;
use crate::upload_status::UploadStatus;

verus! {

/// How many of the latest outcomes the log keeps.
pub const LOG_CAPACITY: usize = 20;

/// Why the in-flight set refused a change.
#[derive(Debug, PartialEq, Eq, Structural, Clone, Copy)]
pub enum InFlightError {
    /// As many files as the concurrency limit allows are in flight already.
    Full,
    /// The path is in flight already.
    AlreadyInFlight,
    /// The path is not in flight.
    NotInFlight,
}

pub struct SharedState {
    /// Number of sizes known to the remote catalog.
    pub files_retrieved: usize,
    pub uploaded_files: u64,
    pub corrupt_files_counter: u64,
    pub remaining_files: u64,
    pub failed_files_counter: u64,
    pub skipped_files: u64,
    /// Number of files discovered for this run.
    pub discovered_files: u64,
    /// Most files that may be in flight at once.
    pub concurrency_limit: usize,
    /// The latest outcomes, oldest first.
    pub last_processed_files: Vec<(UploadStatus, String)>,
    /// The files in flight, each with the time (in milliseconds since the
    /// start of the run) at which it started.
    pub currently_uploading: Vec<(u64, String)>,
    pub corrupt_files: Vec<(UploadStatus, String)>,
    pub failed_files: Vec<(UploadStatus, String)>,
}

/// The counters of a run, as plain numbers.
pub struct Tally {
    pub uploaded: nat,
    pub corrupt: nat,
    pub failed: nat,
    pub skipped: nat,
    pub remaining: nat,
}

pub open spec fn entries_view(v: Seq<(UploadStatus, String)>) -> Seq<(UploadStatus, Seq<char>)> {
    v.map_values(|e: (UploadStatus, String)| (e.0, e.1@))
}

pub open spec fn in_flight_view(v: Seq<(u64, String)>) -> Seq<(u64, Seq<char>)> {
    v.map_values(|e: (u64, String)| (e.0, e.1@))
}

/// Whether `p` is among the paths in flight.
pub open spec fn in_flight_contains(v: Seq<(u64, String)>, p: Seq<char>) -> bool {
    exists|i: int| 0 <= i < v.len() && (#[trigger] v[i]).1@ == p
}

/// The log after one more entry: the oldest entry leaves once it exceeds its capacity.
pub open spec fn log_push(
    log: Seq<(UploadStatus, Seq<char>)>,
    e: (UploadStatus, Seq<char>),
) -> Seq<(UploadStatus, Seq<char>)> {
    if log.len() + 1 > LOG_CAPACITY {
        log.push(e).drop_first()
    } else {
        log.push(e)
    }
}

/// The counters after one more outcome: its own counter goes up by one and
/// the remaining count down by one.
pub open spec fn tally_record(t: Tally, o: UploadStatus) -> Tally {
    Tally {
        uploaded: if o is Success {
            t.uploaded + 1
        } else {
            t.uploaded
        },
        corrupt: if o is Corrupt {
            t.corrupt + 1
        } else {
            t.corrupt
        },
        failed: if o is Failed {
            t.failed + 1
        } else {
            t.failed
        },
        skipped: if o is Skipped {
            t.skipped + 1
        } else {
            t.skipped
        },
        remaining: (t.remaining - 1) as nat,
    }
}

/// The counters after a sequence of outcomes, in order.
pub open spec fn tally_record_all(t: Tally, outcomes: Seq<UploadStatus>) -> Tally
    decreases outcomes.len(),
{
    if outcomes.len() == 0 {
        t
    } else {
        tally_record(tally_record_all(t, outcomes.drop_last()), outcomes.last())
    }
}

pub open spec fn processed(t: Tally) -> nat {
    t.uploaded + t.corrupt + t.failed + t.skipped
}

/// Every file discovered for a run that has `n` files remaining leads, after
/// exactly `n` recorded outcomes of any mix, to nothing remaining, with each
/// of those files counted under exactly one outcome.
pub proof fn lemma_remaining_reaches_zero(t: Tally, outcomes: Seq<UploadStatus>)
    requires
        t.remaining == outcomes.len(),
    ensures
        tally_record_all(t, outcomes).remaining == 0,
        processed(tally_record_all(t, outcomes)) == processed(t) + outcomes.len(),
    decreases outcomes.len(),
{
    if outcomes.len() > 0 {
        lemma_record_all_remaining(t, outcomes.drop_last());
        lemma_record_all_processed(t, outcomes.drop_last());
    }
}

proof fn lemma_record_all_remaining(t: Tally, outcomes: Seq<UploadStatus>)
    requires
        t.remaining >= outcomes.len(),
    ensures
        tally_record_all(t, outcomes).remaining == t.remaining - outcomes.len(),
    decreases outcomes.len(),
{
    if outcomes.len() > 0 {
        lemma_record_all_remaining(t, outcomes.drop_last());
    }
}

proof fn lemma_record_all_processed(t: Tally, outcomes: Seq<UploadStatus>)
    ensures
        processed(tally_record_all(t, outcomes)) == processed(t) + outcomes.len(),
    decreases outcomes.len(),
{
    if outcomes.len() > 0 {
        lemma_record_all_processed(t, outcomes.drop_last());
    }
}

impl SharedState {
    /// The counters of the state.
    pub open spec fn tally(&self) -> Tally {
        Tally {
            uploaded: self.uploaded_files as nat,
            corrupt: self.corrupt_files_counter as nat,
            failed: self.failed_files_counter as nat,
            skipped: self.skipped_files as nat,
            remaining: self.remaining_files as nat,
        }
    }

    /// Every discovered file is counted once, either under its outcome or as
    /// remaining; the log holds at most its capacity; the in-flight set holds
    /// no more files than the concurrency limit and no path twice.
    pub open spec fn wf(&self) -> bool {
        &&& self.uploaded_files + self.corrupt_files_counter + self.failed_files_counter
            + self.skipped_files + self.remaining_files == self.discovered_files
        &&& self.last_processed_files@.len() <= LOG_CAPACITY
        &&& self.currently_uploading@.len() <= self.concurrency_limit
        &&& forall|i: int, j: int|
            0 <= i < j < self.currently_uploading@.len() ==> (#[trigger] self.currently_uploading@[i]).1@
                != (#[trigger] self.currently_uploading@[j]).1@
        &&& self.corrupt_files@.len() == self.corrupt_files_counter
        &&& self.failed_files@.len() == self.failed_files_counter
    }

    /// A state with nothing discovered yet.
    pub fn new(files_retrieved: usize, concurrency_limit: usize) -> (r: SharedState)
        ensures
            r.wf(),
            r.files_retrieved == files_retrieved,
            r.concurrency_limit == concurrency_limit,
            r.discovered_files == 0,
            r.tally() == (Tally { uploaded: 0, corrupt: 0, failed: 0, skipped: 0, remaining: 0 }),
            r.last_processed_files@.len() == 0,
            r.currently_uploading@.len() == 0,
            r.corrupt_files@.len() == 0,
            r.failed_files@.len() == 0,
    {
        SharedState {
            files_retrieved,
            uploaded_files: 0,
            corrupt_files_counter: 0,
            remaining_files: 0,
            failed_files_counter: 0,
            skipped_files: 0,
            discovered_files: 0,
            concurrency_limit,
            last_processed_files: Vec::new(),
            currently_uploading: Vec::new(),
            corrupt_files: Vec::new(),
            failed_files: Vec::new(),
        }
    }

    /// Records the number of sizes known to the remote catalog.
    pub fn set_files_retrieved(&mut self, amount: usize)
        requires
            old(self).wf(),
        ensures
            final(self).wf(),
            final(self).files_retrieved == amount,
            final(self).tally() == old(self).tally(),
            final(self).discovered_files == old(self).discovered_files,
            final(self).concurrency_limit == old(self).concurrency_limit,
            final(self).last_processed_files@ == old(self).last_processed_files@,
            final(self).currently_uploading@ == old(self).currently_uploading@,
            final(self).corrupt_files@ == old(self).corrupt_files@,
            final(self).failed_files@ == old(self).failed_files@,
    {
        self.files_retrieved = amount;
    }

    /// Sets the number of files still to process; every one of them counts as
    /// discovered.
    pub fn set_initial_remaining_files(&mut self, number: u64)
        requires
            old(self).wf(),
            processed(old(self).tally()) + number <= u64::MAX,
        ensures
            final(self).wf(),
            final(self).remaining_files == number,
            final(self).discovered_files == processed(old(self).tally()) + number,
            processed(final(self).tally()) == processed(old(self).tally()),
            final(self).uploaded_files == old(self).uploaded_files,
            final(self).corrupt_files_counter == old(self).corrupt_files_counter,
            final(self).failed_files_counter == old(self).failed_files_counter,
            final(self).skipped_files == old(self).skipped_files,
            final(self).files_retrieved == old(self).files_retrieved,
            final(self).concurrency_limit == old(self).concurrency_limit,
            final(self).last_processed_files@ == old(self).last_processed_files@,
            final(self).currently_uploading@ == old(self).currently_uploading@,
            final(self).corrupt_files@ == old(self).corrupt_files@,
            final(self).failed_files@ == old(self).failed_files@,
    {
        self.remaining_files = number;
        self.discovered_files = self.uploaded_files + self.corrupt_files_counter
            + self.failed_files_counter + self.skipped_files + number;
    }

    fn append_to_corrupt_files(&mut self, path: String)
        requires
            old(self).corrupt_files_counter < u64::MAX,
        ensures
            final(self).corrupt_files@ == old(self).corrupt_files@.push((UploadStatus::Corrupt, path)),
            final(self).corrupt_files_counter == old(self).corrupt_files_counter + 1,
            final(self).uploaded_files == old(self).uploaded_files,
            final(self).failed_files_counter == old(self).failed_files_counter,
            final(self).skipped_files == old(self).skipped_files,
            final(self).remaining_files == old(self).remaining_files,
            final(self).discovered_files == old(self).discovered_files,
            final(self).files_retrieved == old(self).files_retrieved,
            final(self).concurrency_limit == old(self).concurrency_limit,
            final(self).last_processed_files == old(self).last_processed_files,
            final(self).currently_uploading == old(self).currently_uploading,
            final(self).failed_files == old(self).failed_files,
    {
        self.corrupt_files.push((UploadStatus::Corrupt, path));
        self.corrupt_files_counter = self.corrupt_files_counter + 1;
    }

    fn append_to_failed_files(&mut self, path: String, status_code: Option<u16>)
        requires
            old(self).failed_files_counter < u64::MAX,
        ensures
            final(self).failed_files@ == old(self).failed_files@.push(
                (UploadStatus::Failed(status_code), path),
            ),
            final(self).failed_files_counter == old(self).failed_files_counter + 1,
            final(self).uploaded_files == old(self).uploaded_files,
            final(self).corrupt_files_counter == old(self).corrupt_files_counter,
            final(self).skipped_files == old(self).skipped_files,
            final(self).remaining_files == old(self).remaining_files,
            final(self).discovered_files == old(self).discovered_files,
            final(self).files_retrieved == old(self).files_retrieved,
            final(self).concurrency_limit == old(self).concurrency_limit,
            final(self).last_processed_files == old(self).last_processed_files,
            final(self).currently_uploading == old(self).currently_uploading,
            final(self).corrupt_files == old(self).corrupt_files,
    {
        self.failed_files.push((UploadStatus::Failed(status_code), path));
        self.failed_files_counter = self.failed_files_counter + 1;
    }

    /// Records the outcome of one file: the log gains the entry (dropping its
    /// oldest beyond capacity), the outcome's counter goes up, a corrupt or
    /// failed file joins its list, and one file fewer remains.
    pub fn append_to_processed_files(&mut self, content: (UploadStatus, String))
        requires
            old(self).wf(),
            old(self).remaining_files > 0,
        ensures
            final(self).wf(),
            final(self).tally() == tally_record(old(self).tally(), content.0),
            entries_view(final(self).last_processed_files@) == log_push(
                entries_view(old(self).last_processed_files@),
                (content.0, content.1@),
            ),
            content.0 is Corrupt ==> entries_view(final(self).corrupt_files@) == entries_view(
                old(self).corrupt_files@,
            ).push((content.0, content.1@)),
            !(content.0 is Corrupt) ==> final(self).corrupt_files@ == old(self).corrupt_files@,
            content.0 is Failed ==> entries_view(final(self).failed_files@) == entries_view(
                old(self).failed_files@,
            ).push((content.0, content.1@)),
            !(content.0 is Failed) ==> final(self).failed_files@ == old(self).failed_files@,
            final(self).discovered_files == old(self).discovered_files,
            final(self).files_retrieved == old(self).files_retrieved,
            final(self).concurrency_limit == old(self).concurrency_limit,
            final(self).currently_uploading@ == old(self).currently_uploading@,
    {
        let (status, path) = content;
        let ghost path_view = path@;
        let ghost log_before = entries_view(self.last_processed_files@);
        self.last_processed_files.push((status, path.clone()));
        if self.last_processed_files.len() > LOG_CAPACITY {
            self.last_processed_files.remove(0);
        }
        assert(entries_view(self.last_processed_files@) =~= log_push(
            log_before,
            (status, path_view),
        ));
        let ghost corrupt_before = entries_view(self.corrupt_files@);
        let ghost failed_before = entries_view(self.failed_files@);
        match status {
            UploadStatus::Skipped => {
                self.skipped_files = self.skipped_files + 1;
            },
            UploadStatus::Failed(reason) => {
                self.append_to_failed_files(path, reason);
                assert(entries_view(self.failed_files@) =~= failed_before.push(
                    (status, path_view),
                ));
            },
            UploadStatus::Corrupt => {
                self.append_to_corrupt_files(path);
                assert(entries_view(self.corrupt_files@) =~= corrupt_before.push(
                    (status, path_view),
                ));
            },
            UploadStatus::Success => {
                self.uploaded_files = self.uploaded_files + 1;
            },
        }
        self.remaining_files = self.remaining_files - 1;
    }

    /// Whether `path` is in flight.
    pub fn is_in_flight(&self, path: &String) -> (r: bool)
        ensures
            r == in_flight_contains(self.currently_uploading@, path@),
    {
        match self.find_in_flight(path) {
            Some(_) => true,
            None => false,
        }
    }

    fn find_in_flight(&self, path: &String) -> (r: Option<usize>)
        ensures
            match r {
                Some(i) => i < self.currently_uploading@.len()
                    && self.currently_uploading@[i as int].1@ == path@,
                None => !in_flight_contains(self.currently_uploading@, path@),
            },
    {
        let mut i: usize = 0;
        while i < self.currently_uploading.len()
            invariant
                i <= self.currently_uploading@.len(),
                forall|j: int| 0 <= j < i ==> self.currently_uploading@[j].1@ != path@,
            decreases self.currently_uploading@.len() - i,
        {
            if self.currently_uploading[i].1 == *path {
                return Some(i);
            }
            i = i + 1;
        }
        None
    }

    /// Puts `path` in flight from time `started`; refused when the concurrency
    /// limit is reached or the path is in flight already.
    pub fn append_to_currently_uploading(&mut self, path: String, started: u64) -> (r: Result<
        (),
        InFlightError,
    >)
        requires
            old(self).wf(),
        ensures
            final(self).wf(),
            old(self).currently_uploading@.len() >= old(self).concurrency_limit ==> r == Err::<
                (),
                InFlightError,
            >(InFlightError::Full),
            old(self).currently_uploading@.len() < old(self).concurrency_limit && in_flight_contains(
                old(self).currently_uploading@,
                path@,
            ) ==> r == Err::<(), InFlightError>(InFlightError::AlreadyInFlight),
            r is Ok ==> in_flight_view(final(self).currently_uploading@) == in_flight_view(
                old(self).currently_uploading@,
            ).push((started, path@)),
            r is Err ==> final(self).currently_uploading@ == old(self).currently_uploading@,
            old(self).currently_uploading@.len() < old(self).concurrency_limit
                && !in_flight_contains(old(self).currently_uploading@, path@) ==> r is Ok,
            final(self).tally() == old(self).tally(),
            final(self).discovered_files == old(self).discovered_files,
            final(self).files_retrieved == old(self).files_retrieved,
            final(self).concurrency_limit == old(self).concurrency_limit,
            final(self).last_processed_files@ == old(self).last_processed_files@,
            final(self).corrupt_files@ == old(self).corrupt_files@,
            final(self).failed_files@ == old(self).failed_files@,
    {
        if self.currently_uploading.len() >= self.concurrency_limit {
            return Err(InFlightError::Full);
        }
        if self.is_in_flight(&path) {
            return Err(InFlightError::AlreadyInFlight);
        }
        let ghost before = self.currently_uploading@;
        let ghost path_view = path@;
        self.currently_uploading.push((started, path));
        assert forall|i: int, j: int|
            0 <= i < j < self.currently_uploading@.len() implies (
            #[trigger] self.currently_uploading@[i]).1@ != (
            #[trigger] self.currently_uploading@[j]).1@ by {
            if j == before.len() {
                assert(self.currently_uploading@[i] == before[i]);
                assert(!(before[i].1@ == path_view));
            } else {
                assert(self.currently_uploading@[i] == before[i]);
                assert(self.currently_uploading@[j] == before[j]);
            }
        }
        assert(in_flight_view(self.currently_uploading@) =~= in_flight_view(before).push(
            (started, path_view),
        ));
        Ok(())
    }

    /// Takes `path` out of flight and returns the time at which it started;
    /// refused when it is not in flight.
    pub fn remove_from_currently_uploading(&mut self, path: &String) -> (r: Result<
        u64,
        InFlightError,
    >)
        requires
            old(self).wf(),
        ensures
            final(self).wf(),
            r is Err <==> !in_flight_contains(old(self).currently_uploading@, path@),
            r is Err ==> r == Err::<u64, InFlightError>(InFlightError::NotInFlight)
                && final(self).currently_uploading@ == old(self).currently_uploading@,
            r matches Ok(t) ==> exists|i: int|
                0 <= i < old(self).currently_uploading@.len()
                    && old(self).currently_uploading@[i].1@ == path@
                    && old(self).currently_uploading@[i].0 == t
                    && final(self).currently_uploading@ == old(self).currently_uploading@.remove(i),
            r is Ok ==> !in_flight_contains(final(self).currently_uploading@, path@),
            final(self).tally() == old(self).tally(),
            final(self).discovered_files == old(self).discovered_files,
            final(self).files_retrieved == old(self).files_retrieved,
            final(self).concurrency_limit == old(self).concurrency_limit,
            final(self).last_processed_files@ == old(self).last_processed_files@,
            final(self).corrupt_files@ == old(self).corrupt_files@,
            final(self).failed_files@ == old(self).failed_files@,
    {
        match self.find_in_flight(path) {
            None => Err(InFlightError::NotInFlight),
            Some(index) => {
                let ghost before = self.currently_uploading@;
                let (started, _) = self.currently_uploading.remove(index);
                assert forall|i: int, j: int|
                    0 <= i < j < self.currently_uploading@.len() implies (
                    #[trigger] self.currently_uploading@[i]).1@ != (
                    #[trigger] self.currently_uploading@[j]).1@ by {
                    let bi = if i < index {
                        i
                    } else {
                        i + 1
                    };
                    let bj = if j < index {
                        j
                    } else {
                        j + 1
                    };
                    assert(self.currently_uploading@[i] == before[bi]);
                    assert(self.currently_uploading@[j] == before[bj]);
                    assert(before[bi].1@ != before[bj].1@);
                }
                assert forall|k: int| 0 <= k < self.currently_uploading@.len() implies (
                #[trigger] self.currently_uploading@[k]).1@ != path@ by {
                    let bk = if k < index {
                        k
                    } else {
                        k + 1
                    };
                    assert(self.currently_uploading@[k] == before[bk]);
                    if k < index {
                        assert(before[bk].1@ != before[index as int].1@);
                    } else {
                        assert(before[index as int].1@ != before[bk].1@);
                    }
                }
                Ok(started)
            },
        }
    }

    fn copy_entries(v: &Vec<(UploadStatus, String)>) -> (r: Vec<(UploadStatus, String)>)
        ensures
            entries_view(r@) == entries_view(v@),
    {
        let mut r: Vec<(UploadStatus, String)> = Vec::new();
        let mut i: usize = 0;
        while i < v.len()
            invariant
                i <= v@.len(),
                entries_view(r@) == entries_view(v@.subrange(0, i as int)),
            decreases v@.len() - i,
        {
            let status = v[i].0;
            let path = v[i].1.clone();
            let ghost before = r@;
            r.push((status, path));
            assert(entries_view(r@) =~= entries_view(before).push((status, path@)));
            assert(entries_view(v@.subrange(0, i + 1)) =~= entries_view(v@.subrange(0, i as int)).push(
                (status, path@),
            ));
            i = i + 1;
        }
        assert(v@.subrange(0, v@.len() as int) =~= v@);
        r
    }

    /// A copy of the whole state, for display outside the lock.
    pub fn snapshot(&self) -> (r: SharedState)
        requires
            self.wf(),
        ensures
            r.wf(),
            r.tally() == self.tally(),
            r.discovered_files == self.discovered_files,
            r.files_retrieved == self.files_retrieved,
            r.concurrency_limit == self.concurrency_limit,
            entries_view(r.last_processed_files@) == entries_view(self.last_processed_files@),
            in_flight_view(r.currently_uploading@) == in_flight_view(self.currently_uploading@),
            entries_view(r.corrupt_files@) == entries_view(self.corrupt_files@),
            entries_view(r.failed_files@) == entries_view(self.failed_files@),
    {
        let mut in_flight: Vec<(u64, String)> = Vec::new();
        let mut i: usize = 0;
        while i < self.currently_uploading.len()
            invariant
                i <= self.currently_uploading@.len(),
                in_flight_view(in_flight@) == in_flight_view(
                    self.currently_uploading@.subrange(0, i as int),
                ),
            decreases self.currently_uploading@.len() - i,
        {
            let started = self.currently_uploading[i].0;
            let path = self.currently_uploading[i].1.clone();
            let ghost before = in_flight@;
            in_flight.push((started, path));
            assert(in_flight_view(in_flight@) =~= in_flight_view(before).push((started, path@)));
            assert(in_flight_view(self.currently_uploading@.subrange(0, i + 1)) =~= in_flight_view(
                self.currently_uploading@.subrange(0, i as int),
            ).push((started, path@)));
            i = i + 1;
        }
        assert(self.currently_uploading@.subrange(0, self.currently_uploading@.len() as int)
            =~= self.currently_uploading@);
        let r = SharedState {
            files_retrieved: self.files_retrieved,
            uploaded_files: self.uploaded_files,
            corrupt_files_counter: self.corrupt_files_counter,
            remaining_files: self.remaining_files,
            failed_files_counter: self.failed_files_counter,
            skipped_files: self.skipped_files,
            discovered_files: self.discovered_files,
            concurrency_limit: self.concurrency_limit,
            last_processed_files: SharedState::copy_entries(&self.last_processed_files),
            currently_uploading: in_flight,
            corrupt_files: SharedState::copy_entries(&self.corrupt_files),
            failed_files: SharedState::copy_entries(&self.failed_files),
        };
        assert forall|a: int, b: int| 0 <= a < b < r.currently_uploading@.len() implies (
        #[trigger] r.currently_uploading@[a]).1@ != (#[trigger] r.currently_uploading@[b]).1@ by {
            assert(in_flight_view(r.currently_uploading@)[a] == in_flight_view(
                self.currently_uploading@,
            )[a]);
            assert(in_flight_view(r.currently_uploading@)[b] == in_flight_view(
                self.currently_uploading@,
            )[b]);
            assert(self.currently_uploading@[a].1@ != self.currently_uploading@[b].1@);
        }
        assert(r.last_processed_files@.len() == entries_view(r.last_processed_files@).len());
        assert(r.corrupt_files@.len() == entries_view(r.corrupt_files@).len());
        assert(r.failed_files@.len() == entries_view(r.failed_files@).len());
        r
    }
}

/// In every well-formed state, no more files are in flight than the
/// concurrency limit allows; every operation keeps the state well-formed.
pub proof fn lemma_in_flight_bounded(s: &SharedState)
    requires
        s.wf(),
    ensures
        s.currently_uploading@.len() <= s.concurrency_limit,
{
}

} // verus!

//! The job registry: one entry per content fingerprint, guaranteeing that at
//! most one build is started for a fingerprint and that every requester of
//! that fingerprint sees the same outcome.
//!
//! The registry is generic over the process handle `H`: the caller decides
//! what a running build is, and hands the registry a closure that starts one.

use std::collections::HashMap;
use vstd::prelude::*;

verus! {

broadcast use vstd::std_specs::hash::group_hash_axioms;

/// The state of the build for one fingerprint.
pub enum JobEntry<H> {
    /// A build has been started; `H` is the shared handle of its process.
    Building(H),
    /// The build has ended, successfully or not.
    Finished(bool),
}

/// Something that happened to the registry, as seen by the model.
pub ghost enum JobEvent<H> {
    /// A request for `key` arrived; `spawned` is the handle that the start
    /// closure produced, or `None` when starting failed. The closure only runs
    /// when `key` has no entry.
    Submitted { key: u64, spawned: Option<H> },
    /// A waiter on `key` saw its build end with `success`.
    Completed { key: u64, success: bool },
}

/// The registry after one event.
pub open spec fn apply_event<H>(m: Map<u64, JobEntry<H>>, e: JobEvent<H>) -> Map<u64, JobEntry<H>> {
    match e {
        JobEvent::Submitted { key, spawned } => {
            if m.contains_key(key) {
                m
            } else {
                match spawned {
                    Some(h) => m.insert(key, JobEntry::Building(h)),
                    None => m,
                }
            }
        },
        JobEvent::Completed { key, success } => {
            if m.contains_key(key) && m[key] is Finished {
                m
            } else {
                m.insert(key, JobEntry::Finished(success))
            }
        },
    }
}

/// Whether the event starts a build process for `key`.
pub open spec fn starts_build<H>(m: Map<u64, JobEntry<H>>, e: JobEvent<H>, key: u64) -> bool {
    match e {
        JobEvent::Submitted { key: k, spawned } => k == key && !m.contains_key(key)
            && spawned is Some,
        JobEvent::Completed { .. } => false,
    }
}

/// The registry after a run of events, applied in order.
pub open spec fn replay<H>(m: Map<u64, JobEntry<H>>, events: Seq<JobEvent<H>>) -> Map<
    u64,
    JobEntry<H>,
>
    decreases events.len(),
{
    if events.len() == 0 {
        m
    } else {
        replay(apply_event(m, events[0]), events.drop_first())
    }
}

/// How many build processes a run of events starts for `key`.
pub open spec fn build_starts<H>(m: Map<u64, JobEntry<H>>, events: Seq<JobEvent<H>>, key: u64) -> nat
    decreases events.len(),
{
    if events.len() == 0 {
        0
    } else {
        (if starts_build(m, events[0], key) {
            1nat
        } else {
            0nat
        }) + build_starts(apply_event(m, events[0]), events.drop_first(), key)
    }
}

/// `b` is what `JobEntry::clone` may give for `a`.
pub open spec fn entry_cloned<H: Clone>(a: JobEntry<H>, b: JobEntry<H>) -> bool {
    match (a, b) {
        (JobEntry::Building(x), JobEntry::Building(y)) => cloned(x, y),
        (JobEntry::Finished(x), JobEntry::Finished(y)) => x == y,
        _ => false,
    }
}

impl<H: Clone> Clone for JobEntry<H> {
    fn clone(&self) -> (r: Self)
        ensures
            entry_cloned(*self, r),
    {
        match self {
            JobEntry::Building(h) => JobEntry::Building(h.clone()),
            JobEntry::Finished(b) => JobEntry::Finished(*b),
        }
    }
}

/// The registry of builds, keyed by content fingerprint. Entries are never
/// removed.
pub struct JobRegistry<H> {
    jobs: HashMap<u64, JobEntry<H>>,
}

impl<H> View for JobRegistry<H> {
    type V = Map<u64, JobEntry<H>>;

    closed spec fn view(&self) -> Map<u64, JobEntry<H>> {
        self.jobs@
    }
}

impl<H: Clone> JobRegistry<H> {
    /// An empty registry.
    pub fn new() -> (r: Self)
        ensures
            r@ == Map::<u64, JobEntry<H>>::empty(),
    {
        JobRegistry { jobs: HashMap::new() }
    }

    /// The entry for `key`, if any.
    pub fn lookup(&self, key: u64) -> (r: Option<JobEntry<H>>)
        ensures
            match r {
                Some(e) => self@.contains_key(key) && entry_cloned(self@[key], e),
                None => !self@.contains_key(key),
            },
    {
        match self.jobs.get(&key) {
            Some(e) => Some(e.clone()),
            None => None,
        }
    }

    /// Submits a request for `key`. An existing entry is returned as it is and
    /// `start` is not called. Otherwise `start` runs once; the handle that it
    /// returns is recorded as `Building`, and its error is returned with the
    /// registry unchanged, so that a later request tries again.
    pub fn submit<E, F: FnOnce() -> Result<H, E>>(&mut self, key: u64, start: F) -> (r: Result<
        JobEntry<H>,
        E,
    >)
        requires
            old(self)@.contains_key(key) || start.requires(()),
        ensures
            old(self)@.contains_key(key) ==> {
                &&& r is Ok
                &&& entry_cloned(old(self)@[key], r->Ok_0)
                &&& final(self)@ == old(self)@
            },
            !old(self)@.contains_key(key) ==> exists|out: Result<H, E>|
                {
                    &&& #[trigger] start.ensures((), out)
                    &&& match out {
                        Ok(h) => {
                            &&& final(self)@ == apply_event(
                                old(self)@,
                                JobEvent::Submitted { key, spawned: Some(h) },
                            )
                            &&& r is Ok
                            &&& entry_cloned(JobEntry::Building(h), r->Ok_0)
                        },
                        Err(e) => {
                            &&& final(self)@ == apply_event(
                                old(self)@,
                                JobEvent::Submitted { key, spawned: None },
                            )
                            &&& r == Err::<JobEntry<H>, E>(e)
                        },
                    }
                },
    {
        match self.jobs.get(&key) {
            Some(e) => {
                return Ok(e.clone());
            },
            None => {},
        }
        let out = start();
        match out {
            Ok(h) => {
                let entry = JobEntry::Building(h);
                let copy = entry.clone();
                self.jobs.insert(key, entry);
                Ok(copy)
            },
            Err(e) => Err(e),
        }
    }

    /// Records that the build of `key` ended with `success`, and returns the
    /// outcome now stored. The first completion is kept: a later one changes
    /// nothing and gets the stored outcome back.
    pub fn finish(&mut self, key: u64, success: bool) -> (r: bool)
        ensures
            final(self)@ == apply_event(old(self)@, JobEvent::Completed { key, success }),
            final(self)@.contains_key(key),
            final(self)@[key] == JobEntry::<H>::Finished(r),
            old(self)@.contains_key(key) && old(self)@[key] is Finished ==> r == old(
                self,
            )@[key]->Finished_0,
            !(old(self)@.contains_key(key) && old(self)@[key] is Finished) ==> r == success,
    {
        match self.jobs.get(&key) {
            Some(JobEntry::Finished(b)) => {
                return *b;
            },
            _ => {},
        }
        self.jobs.insert(key, JobEntry::Finished(success));
        success
    }
}

/// An event never removes an entry, and never changes a finished one.
pub proof fn lemma_apply_keeps<H>(m: Map<u64, JobEntry<H>>, e: JobEvent<H>, key: u64)
    ensures
        m.contains_key(key) ==> apply_event(m, e).contains_key(key),
        m.contains_key(key) && m[key] is Finished ==> apply_event(m, e)[key] == m[key],
{
}

/// Dedup: over any run of submissions and completions, at most one build
/// process is started for a fingerprint, and none at all once it has an entry.
pub proof fn lemma_single_build<H>(m: Map<u64, JobEntry<H>>, events: Seq<JobEvent<H>>, key: u64)
    ensures
        build_starts(m, events, key) <= 1,
        m.contains_key(key) ==> build_starts(m, events, key) == 0,
    decreases events.len(),
{
    if events.len() > 0 {
        let next = apply_event(m, events[0]);
        lemma_apply_keeps(m, events[0], key);
        lemma_single_build(next, events.drop_first(), key);
        if starts_build(m, events[0], key) {
            assert(next.contains_key(key));
        }
    }
}

/// Once the entry of a fingerprint is finished, it keeps its outcome through
/// any later run of events: every later requester sees the same outcome.
pub proof fn lemma_finished_is_final<H>(
    m: Map<u64, JobEntry<H>>,
    events: Seq<JobEvent<H>>,
    key: u64,
)
    requires
        m.contains_key(key),
        m[key] is Finished,
    ensures
        replay(m, events).contains_key(key),
        replay(m, events)[key] == m[key],
    decreases events.len(),
{
    if events.len() > 0 {
        lemma_apply_keeps(m, events[0], key);
        lemma_finished_is_final(apply_event(m, events[0]), events.drop_first(), key);
    }
}

/// A building entry leaves `Building` at its first completion, with that
/// completion's outcome, and keeps it from then on.
pub proof fn lemma_first_completion_wins<H>(
    m: Map<u64, JobEntry<H>>,
    key: u64,
    success: bool,
    events: Seq<JobEvent<H>>,
)
    requires
        m.contains_key(key),
        m[key] is Building,
    ensures
        replay(apply_event(m, JobEvent::Completed { key, success }), events)[key]
            == JobEntry::<H>::Finished(success),
{
    let next = apply_event(m, JobEvent::Completed { key, success });
    lemma_finished_is_final(next, events, key);
}

} // verus!

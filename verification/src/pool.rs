//! Bookkeeping of the worker pool.
//!
//! The pool itself — long-lived threads, one inbound job channel and one
//! outbound result channel per worker — lives with the caller; what is
//! verified here is what makes its use correct: the job envelope with its
//! exit sentinel, and the assignment schedule that says which worker may
//! take a job and which results a drain must collect, in worker order.

use vstd::prelude::*;

use crate::scan::strictly_ascending;

verus! {

broadcast use vstd::seq_lib::group_seq_properties;

/// What can go wrong around the pool: a job handed to a worker that already
/// has one, or a worker that died while running a job.
#[derive(Clone, Copy, Debug, PartialEq, Eq, Structural)]
pub enum PoolError {
    BusyWorker,
    WorkerPanic,
}

/// One job envelope: the owned argument value the worker's task consumes, or
/// the exit sentinel that tells the worker to return.
pub struct TaskTP<ARGS> {
    arguments_struct: Option<ARGS>,
    exit: bool,
}

impl<ARGS> TaskTP<ARGS> {
    /// Whether this envelope is the exit sentinel.
    pub closed spec fn spec_exit(&self) -> bool {
        self.exit
    }

    /// The argument value still held.
    pub closed spec fn spec_args(&self) -> Option<ARGS> {
        self.arguments_struct
    }

    /// An envelope carrying one job's argument value.
    pub fn new(args: ARGS) -> (t: TaskTP<ARGS>)
        ensures
            t.spec_args() == Some(args),
            !t.spec_exit(),
    {
        TaskTP { arguments_struct: Some(args), exit: false }
    }

    /// The exit sentinel: a worker that receives it returns instead of
    /// waiting for further jobs.
    pub fn exit() -> (t: TaskTP<ARGS>)
        ensures
            t.spec_args() is None,
            t.spec_exit(),
    {
        TaskTP { arguments_struct: None, exit: true }
    }

    /// Whether this envelope is the exit sentinel.
    pub fn is_exit(&self) -> (r: bool)
        ensures
            r == self.spec_exit(),
    {
        self.exit
    }

    /// Borrows the argument value, when one is present.
    pub fn get_args(&self) -> (r: Option<&ARGS>)
        ensures
            match r {
                Some(a) => self.spec_args() == Some(*a),
                None => self.spec_args() is None,
            },
    {
        match &self.arguments_struct {
            Some(args) => Some(args),
            None => None,
        }
    }

    /// Takes the argument value out, leaving the envelope empty.
    pub fn take_args(&mut self) -> (r: Option<ARGS>)
        ensures
            r == old(self).spec_args(),
            final(self).spec_args() is None,
            final(self).spec_exit() == old(self).spec_exit(),
    {
        self.arguments_struct.take()
    }
}

/// Which workers currently hold a job. The driver may submit to a worker only
/// while it is unassigned, and a drain collects exactly the assigned workers'
/// results, in worker-index order, clearing every mark.
pub struct WorkerSchedule {
    assigned: Vec<bool>,
}

impl WorkerSchedule {
    /// How many workers the schedule tracks.
    pub closed spec fn workers(&self) -> nat {
        self.assigned@.len()
    }

    /// Whether worker `i` currently holds a job.
    pub closed spec fn is_assigned(&self, i: int) -> bool {
        self.assigned@[i]
    }

    /// A schedule for `num_threads` workers, all idle.
    pub fn new(num_threads: usize) -> (s: WorkerSchedule)
        ensures
            s.workers() == num_threads,
            forall|i: int| 0 <= i < num_threads ==> !s.is_assigned(i),
    {
        let mut assigned: Vec<bool> = Vec::new();
        let mut i: usize = 0;
        while i < num_threads
            invariant
                0 <= i <= num_threads,
                assigned@.len() == i,
                forall|k: int| 0 <= k < i ==> !assigned@[k],
            decreases num_threads - i,
        {
            assigned.push(false);
            i = i + 1;
        }
        WorkerSchedule { assigned }
    }

    /// Marks worker `thread_id` as holding a job. Fails, changing nothing,
    /// when the worker already holds one.
    pub fn submit(&mut self, thread_id: usize) -> (r: Result<(), PoolError>)
        requires
            thread_id < old(self).workers(),
        ensures
            final(self).workers() == old(self).workers(),
            match r {
                Ok(()) => {
                    &&& !old(self).is_assigned(thread_id as int)
                    &&& forall|i: int|
                        0 <= i < final(self).workers() ==> final(self).is_assigned(i) == (old(
                            self,
                        ).is_assigned(i) || i == thread_id)
                },
                Err(e) => {
                    &&& e == PoolError::BusyWorker
                    &&& old(self).is_assigned(thread_id as int)
                    &&& forall|i: int|
                        0 <= i < final(self).workers() ==> final(self).is_assigned(i) == old(
                            self,
                        ).is_assigned(i)
                },
            },
    {
        if self.assigned[thread_id] {
            return Err(PoolError::BusyWorker);
        }
        self.assigned.set(thread_id, true);
        Ok(())
    }

    /// Clears every mark and reports, in ascending worker order, exactly the
    /// workers that held a job: those whose results the caller must now
    /// receive. Workers that held none are skipped and owe no result.
    pub fn drain(&mut self) -> (r: Vec<usize>)
        ensures
            final(self).workers() == old(self).workers(),
            forall|i: int| 0 <= i < final(self).workers() ==> !final(self).is_assigned(i),
            strictly_ascending(r@),
            forall|x: usize| #[trigger]
                r@.contains(x) <==> (x < old(self).workers() && old(self).is_assigned(x as int)),
    {
        let n: usize = self.assigned.len();
        let mut out: Vec<usize> = Vec::new();
        let mut i: usize = 0;
        while i < n
            invariant
                0 <= i <= n == self.assigned@.len(),
                n == old(self).workers(),
                forall|k: int| i <= k < n ==> self.assigned@[k] == old(self).is_assigned(k),
                forall|k: int| 0 <= k < i ==> !self.assigned@[k],
                strictly_ascending(out@),
                forall|m: int| 0 <= m < out@.len() ==> #[trigger] out@[m] < i,
                forall|x: usize| #[trigger]
                    out@.contains(x) <==> (x < i && old(self).is_assigned(x as int)),
            decreases n - i,
        {
            if self.assigned[i] {
                out.push(i);
            }
            self.assigned.set(i, false);
            i = i + 1;
        }
        out
    }
}

} // verus!

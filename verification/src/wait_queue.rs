//! Wait queues: threads waiting for a condition, woken when it is met, and
//! the steps of entering a wait with or without a timeout.
use crate::errors::ErrorStatus;
use crate::scheduler::{schedule_effect, ReadyThread, Scheduler, ThreadScheduleReason, MAX_PRIORITY};
use crate::thread::{BlockedReason, ContextStatus, Tid};
use smallvec::SmallVec;
use vstd::prelude::*;

verus! {

/// The number of waiting threads that a queue holds without allocating.
pub const MIN_WAIT_THREADS: usize = 4;

/// A `smallvec` of waiting threads with the reasons they wait for, held in
/// a private field; what it holds is `wait_list_contents`, and each method
/// below states what it does to that sequence.
#[verifier::external_body]
pub struct WaitList {
    list: SmallVec<[(Tid, u64); 4]>,
}

/// The threads of a wait list, in order, with their reasons.
pub uninterp spec fn wait_list_contents(w: WaitList) -> Seq<(Tid, u64)>;

impl WaitList {
    /// The entries, in order.
    pub open spec fn view(&self) -> Seq<(Tid, u64)> {
        wait_list_contents(*self)
    }

    /// Wraps `smallvec::SmallVec::new`: an empty list.
    #[verifier::external_body]
    pub fn new() -> (r: WaitList)
        ensures
            wait_list_contents(r) == Seq::<(Tid, u64)>::empty(),
    {
        WaitList { list: SmallVec::new() }
    }

    /// Wraps `smallvec::SmallVec::len`.
    #[verifier::external_body]
    pub fn len(&self) -> (r: usize)
        ensures
            r == wait_list_contents(*self).len(),
    {
        self.list.len()
    }

    /// Reads entry `i`, through the slice that `smallvec::SmallVec` derefs to.
    #[verifier::external_body]
    pub fn get(&self, i: usize) -> (r: (Tid, u64))
        requires
            i < wait_list_contents(*self).len(),
        ensures
            r == wait_list_contents(*self)[i as int],
    {
        self.list[i]
    }

    /// Wraps `smallvec::SmallVec::push`: adds an entry at the end.
    #[verifier::external_body]
    pub fn push(&mut self, e: (Tid, u64))
        ensures
            wait_list_contents(*final(self)) == wait_list_contents(*old(self)).push(e),
    {
        self.list.push(e)
    }

    /// Wraps `smallvec::SmallVec::remove`: takes entry `i` out, keeping the
    /// order of the others.
    #[verifier::external_body]
    pub fn remove(&mut self, i: usize) -> (r: (Tid, u64))
        requires
            i < wait_list_contents(*old(self)).len(),
        ensures
            r == wait_list_contents(*old(self))[i as int],
            wait_list_contents(*final(self)) == wait_list_contents(*old(self)).remove(i as int),
    {
        self.list.remove(i)
    }

    /// Wraps `smallvec::SmallVec::swap_remove`: takes entry `i` out and moves
    /// the last entry into its place.
    #[verifier::external_body]
    pub fn swap_remove(&mut self, i: usize) -> (r: (Tid, u64))
        requires
            i < wait_list_contents(*old(self)).len(),
        ensures
            r == wait_list_contents(*old(self))[i as int],
            wait_list_contents(*final(self)) == wait_list_contents(*old(self)).update(
                i as int,
                wait_list_contents(*old(self)).last(),
            ).drop_last(),
    {
        self.list.swap_remove(i)
    }
}

/// Which waiting threads a wake-up concerns.
#[derive(Clone, Copy, Debug, PartialEq, Eq, Structural)]
pub enum WakeFilter {
    /// Every thread.
    Any,
    /// The threads waiting for this reason.
    Equals(u64),
}

impl WakeFilter {
    /// Whether a thread waiting for `reason` is concerned.
    pub open spec fn spec_matches(self, reason: u64) -> bool {
        match self {
            WakeFilter::Any => true,
            WakeFilter::Equals(r) => r == reason,
        }
    }

    /// Whether a thread waiting for `reason` is concerned.
    pub fn matches(&self, reason: u64) -> (r: bool)
        ensures
            r == self.spec_matches(reason),
    {
        match self {
            WakeFilter::Any => true,
            WakeFilter::Equals(r) => *r == reason,
        }
    }
}

/// Waking at most `n` of the entries `w` that `f` concerns, front first: the
/// entries left, in order, and the threads woken, in order.
pub open spec fn wake_split(w: Seq<(Tid, u64)>, f: WakeFilter, n: nat) -> (Seq<(Tid, u64)>, Seq<(Tid, u64)>)
    decreases w.len(),
{
    if w.len() == 0 {
        (Seq::empty(), Seq::empty())
    } else if n > 0 && f.spec_matches(w[0].1) {
        let rest = wake_split(w.drop_first(), f, (n - 1) as nat);
        (rest.0, seq![w[0]] + rest.1)
    } else {
        let rest = wake_split(w.drop_first(), f, n);
        (seq![w[0]] + rest.0, rest.1)
    }
}

/// A queue of threads waiting for a condition.
pub struct WaitQueue {
    pub threads: WaitList,
}

/// Why a wait ended early.
#[derive(Clone, Copy, Debug, PartialEq, Eq, Structural)]
pub enum WaitError {
    /// The timeout was reached.
    Timeout,
    /// The thread was told to terminate.
    ForceTerminated,
}

impl WaitError {
    /// The ABI error status for this error.
    pub fn into_err(self) -> (r: ErrorStatus)
        ensures
            r == match self {
                WaitError::ForceTerminated => ErrorStatus::ForceTerminated,
                WaitError::Timeout => ErrorStatus::Timeout,
            },
    {
        match self {
            WaitError::ForceTerminated => ErrorStatus::ForceTerminated,
            WaitError::Timeout => ErrorStatus::Timeout,
        }
    }
}

/// The first index of the entry of `tid` in `w` at or after `i`, if any.
pub open spec fn position_of(w: Seq<(Tid, u64)>, tid: Tid, i: int) -> Option<usize>
    decreases w.len() - i,
{
    if i < 0 || i >= w.len() {
        None
    } else if w[i].0 == tid {
        Some(i as usize)
    } else {
        position_of(w, tid, i + 1)
    }
}

/// The waiting entries `w` after the thread `tid` takes itself out: its first
/// entry is replaced by the last one.
pub open spec fn without_thread(w: Seq<(Tid, u64)>, tid: Tid) -> Seq<(Tid, u64)> {
    match position_of(w, tid, 0) {
        Some(i) => w.update(i as int, w.last()).drop_last(),
        None => w,
    }
}

impl WaitQueue {
    /// The waiting threads, in order, with their reasons.
    pub open spec fn view(&self) -> Seq<(Tid, u64)> {
        self.threads.view()
    }

    /// An empty queue.
    pub fn new() -> (r: Self)
        ensures
            r.view() == Seq::<(Tid, u64)>::empty(),
    {
        WaitQueue { threads: WaitList::new() }
    }

    /// Whether no thread waits.
    pub fn is_empty(&self) -> (r: bool)
        ensures
            r == (self.view().len() == 0),
    {
        self.threads.len() == 0
    }

    /// The number of waiting threads.
    pub fn len(&self) -> (r: usize)
        ensures
            r == self.view().len(),
    {
        self.threads.len()
    }

    /// Takes out at most `n` of the threads that `filter` concerns, front
    /// first, keeping the others in order; returns the threads to wake, in order.
    pub fn wake_n_on_condition(&mut self, filter: WakeFilter, n: usize) -> (r: Vec<(Tid, u64)>)
        ensures
            ({
                let s = wake_split(old(self).view(), filter, n as nat);
                final(self).view() == s.0 && r@ == s.1
            }),
    {
        let ghost w0 = self.view();
        let mut woken: Vec<(Tid, u64)> = Vec::new();
        let mut count: usize = 0;
        let mut i: usize = 0;
        proof {
            assert(w0.subrange(0, w0.len() as int) =~= w0);
            let s = wake_split(w0, filter, n as nat);
            assert(self.view().subrange(0, 0) + s.0 =~= s.0);
            assert(woken@ + s.1 =~= s.1);
        }
        while i < self.threads.len()
            invariant
                0 <= i <= self.view().len(),
                count <= n,
                count == woken@.len(),
                ({
                    let k = w0.len() - (self.view().len() - i);
                    &&& 0 <= k <= w0.len()
                    &&& self.view().subrange(i as int, self.view().len() as int) == w0.subrange(k, w0.len() as int)
                    &&& ({
                        let s = wake_split(w0.subrange(k, w0.len() as int), filter, (n - count) as nat);
                        wake_split(w0, filter, n as nat) == (self.view().subrange(0, i as int) + s.0, woken@ + s.1)
                    })
                }),
            decreases self.view().len() - i,
        {
            let ghost v = self.view();
            let ghost k = w0.len() - (v.len() - i);
            let ghost rest = w0.subrange(k, w0.len() as int);
            let e = self.threads.get(i);
            proof {
                assert(rest[0] == v[i as int]);
                assert(rest.drop_first() =~= w0.subrange(k + 1, w0.len() as int));
            }
            if count < n && filter.matches(e.1) {
                self.threads.remove(i);
                woken.push(e);
                count = count + 1;
                proof {
                    let v2 = self.view();
                    assert(v2.subrange(i as int, v2.len() as int) =~= v.subrange(i as int + 1, v.len() as int));
                    assert(v2.subrange(0, i as int) =~= v.subrange(0, i as int));
                    let s = wake_split(rest.drop_first(), filter, (n - count) as nat);
                    assert(woken@ + s.1 =~= woken@.drop_last() + (seq![e] + s.1));
                }
            } else {
                i = i + 1;
                proof {
                    let v2 = self.view();
                    assert(v2.subrange(0, i as int) =~= v.subrange(0, i as int - 1).push(e));
                    let s = wake_split(rest.drop_first(), filter, (n - count) as nat);
                    assert(v2.subrange(0, i as int) + s.0 =~= v.subrange(0, i as int - 1) + (seq![e] + s.0));
                }
            }
        }
        proof {
            let v = self.view();
            assert(w0.subrange(w0.len() as int, w0.len() as int) =~= Seq::<(Tid, u64)>::empty());
            assert(v.subrange(0, i as int) =~= v);
            let s = wake_split(Seq::<(Tid, u64)>::empty(), filter, (n - count) as nat);
            assert(s.0 =~= Seq::<(Tid, u64)>::empty() && s.1 =~= Seq::<(Tid, u64)>::empty());
            assert(v + s.0 =~= v);
            assert(woken@ + s.1 =~= woken@);
        }
        woken
    }

    /// Takes out every thread that `filter` concerns, keeping the others in
    /// order; returns the threads to wake, in order.
    pub fn wake_on_condition(&mut self, filter: WakeFilter) -> (r: Vec<(Tid, u64)>)
        ensures
            ({
                let s = wake_split(old(self).view(), filter, old(self).view().len());
                final(self).view() == s.0 && r@ == s.1
            }),
    {
        let n = self.threads.len();
        self.wake_n_on_condition(filter, n)
    }

    /// Takes out every thread; returns them, in order.
    pub fn wake_all(&mut self) -> (r: Vec<(Tid, u64)>)
        ensures
            ({
                let s = wake_split(old(self).view(), WakeFilter::Any, old(self).view().len());
                final(self).view() == s.0 && r@ == s.1
            }),
    {
        self.wake_on_condition(WakeFilter::Any)
    }

    /// Takes out every thread waiting for `reason`.
    pub fn wake_equals(&mut self, reason: u64) -> (r: Vec<(Tid, u64)>)
        ensures
            ({
                let s = wake_split(old(self).view(), WakeFilter::Equals(reason), old(self).view().len());
                final(self).view() == s.0 && r@ == s.1
            }),
    {
        self.wake_on_condition(WakeFilter::Equals(reason))
    }

    /// Takes out the first thread that `filter` concerns, if any.
    pub fn try_pop_one(&mut self, filter: WakeFilter) -> (r: Option<(Tid, u64)>)
        ensures
            ({
                let s = wake_split(old(self).view(), filter, 1);
                &&& final(self).view() == s.0
                &&& r == (if s.1.len() > 0 { Some(s.1[0]) } else { None::<(Tid, u64)> })
            }),
    {
        let woken = self.wake_n_on_condition(filter, 1);
        if woken.len() > 0 {
            Some(woken[0])
        } else {
            None
        }
    }

    /// Enters a wait for `reason`, for at most `timeout` milliseconds from
    /// `time_now` when it is given: a thread told to terminate does not wait;
    /// any other joins the queue and then sleeps until then, in `scheduler`,
    /// or blocks until woken. `Ok(true)` when it must yield to begin waiting.
    pub fn enter_wait(
        &mut self,
        reason: u64,
        timeout: Option<u64>,
        scheduler: &mut Scheduler,
        thread: ReadyThread,
        status: &mut ContextStatus,
        timeouted: &mut bool,
        should_terminate: bool,
        time_now: u64,
    ) -> (r: Result<bool, WaitError>)
        requires
            old(scheduler).wf(),
            thread.queue_index <= MAX_PRIORITY,
            timeout matches Some(t) ==> t > 0,
        ensures
            final(scheduler).wf(),
            should_terminate ==> r == Err::<bool, WaitError>(WaitError::ForceTerminated) && final(self).view()
                == old(self).view() && *final(scheduler) == *old(scheduler) && *final(status) == *old(status)
                && *final(timeouted) == *old(timeouted),
            !should_terminate ==> r == Ok::<bool, WaitError>(true) && final(self).view() == old(self).view().push(
                (thread.tid, reason),
            ) && match timeout {
                Some(t) => {
                    let time = if t + time_now > u64::MAX { u64::MAX } else { (t + time_now) as u64 };
                    &&& schedule_effect(*old(scheduler), *final(scheduler), thread, ThreadScheduleReason::SleepUntil(time))
                    &&& *final(status) == ContextStatus::Blocking(BlockedReason::Sleeping)
                    &&& !*final(timeouted)
                },
                None => *final(scheduler) == *old(scheduler) && *final(status) == ContextStatus::Blocking(
                    BlockedReason::Waiting,
                ) && *final(timeouted) == *old(timeouted),
            },
    {
        if should_terminate {
            return Err(WaitError::ForceTerminated);
        }
        self.threads.push((thread.tid, reason));
        match timeout {
            Some(t) => {
                scheduler.prepare_sleep_for_ms(thread, status, timeouted, should_terminate, t, time_now);
            },
            None => {
                crate::thread::block_waiting(status, should_terminate);
            },
        }
        Ok(true)
    }

    /// Ends a wait of the thread `tid` after it ran again: it takes itself
    /// out of the queue and reports when it was told to terminate or when its
    /// timeout was reached.
    pub fn finish_wait(&mut self, tid: Tid, should_terminate: bool, timeouted: bool) -> (r: Result<(), WaitError>)
        ensures
            should_terminate ==> r == Err::<(), WaitError>(WaitError::ForceTerminated) && final(self).view()
                == without_thread(old(self).view(), tid),
            !should_terminate && timeouted ==> r == Err::<(), WaitError>(WaitError::Timeout) && final(self).view()
                == without_thread(old(self).view(), tid),
            !should_terminate && !timeouted ==> r == Ok::<(), WaitError>(()) && final(self).view() == old(self).view(),
    {
        if should_terminate {
            self.remove_self(tid);
            return Err(WaitError::ForceTerminated);
        }
        if timeouted {
            self.remove_self(tid);
            return Err(WaitError::Timeout);
        }
        Ok(())
    }

    fn remove_self(&mut self, tid: Tid)
        ensures
            final(self).view() == without_thread(old(self).view(), tid),
    {
        let mut i: usize = 0;
        while i < self.threads.len()
            invariant
                0 <= i <= self.view().len(),
                self.view() == old(self).view(),
                position_of(self.view(), tid, i as int) == position_of(self.view(), tid, 0),
            decreases self.view().len() - i,
        {
            let e = self.threads.get(i);
            if e.0 == tid {
                self.threads.swap_remove(i);
                return;
            }
            i = i + 1;
        }
    }
}

} // verus!

verus! {

/// Waking wakes at most `n` threads, only ones the filter concerns, and
/// every one it concerns when fewer than `n` were woken; no entry is lost.
pub proof fn law_wake_at_most_n(w: Seq<(Tid, u64)>, f: WakeFilter, n: nat)
    ensures
        ({
            let s = wake_split(w, f, n);
            &&& s.1.len() <= n
            &&& s.0.len() + s.1.len() == w.len()
            &&& forall|i: int| 0 <= i < s.1.len() ==> f.spec_matches(#[trigger] s.1[i].1)
            &&& s.1.len() < n ==> forall|i: int| 0 <= i < s.0.len() ==> !f.spec_matches(#[trigger] s.0[i].1)
        }),
    decreases w.len(),
{
    if w.len() > 0 {
        let s = wake_split(w, f, n);
        if n > 0 && f.spec_matches(w[0].1) {
            law_wake_at_most_n(w.drop_first(), f, (n - 1) as nat);
            let rest = wake_split(w.drop_first(), f, (n - 1) as nat);
            assert forall|i: int| 0 <= i < s.1.len() implies f.spec_matches(#[trigger] s.1[i].1) by {
                if i > 0 {
                    assert(s.1[i] == rest.1[i - 1]);
                }
            }
        } else {
            law_wake_at_most_n(w.drop_first(), f, n);
            let rest = wake_split(w.drop_first(), f, n);
            if s.1.len() < n {
                assert forall|i: int| 0 <= i < s.0.len() implies !f.spec_matches(#[trigger] s.0[i].1) by {
                    if i > 0 {
                        assert(s.0[i] == rest.0[i - 1]);
                    }
                }
            }
        }
    }
}

} // verus!

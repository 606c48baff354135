//! The per-CPU scheduler: multi-level feedback queues with time quanta that
//! grow with the level, periodic priority boosts, sleeping threads woken by
//! time, and the decisions of a context switch.
use crate::thread::{BlockedReason, ContextPriority, ContextStatus, ThreadList, Tid};
use vstd::prelude::*;

verus! {

/// The highest (least urgent) queue level.
pub const MAX_PRIORITY: u8 = 4;
/// The number of ready queues.
pub const PRIORITIES_COUNT: usize = 5;
/// Milliseconds in one quantum.
pub const TIME_PER_QUANTUM: u32 = 3;
/// The quanta that a thread gets in the top queue.
pub const INITIAL_QUANTUM: u32 = 2;
/// The quanta added for each queue level.
pub const QUANTUM_INCREMENT: u32 = 1;
/// Quanta between two priority boosts.
pub const PRIORITY_BOOST_QUANTUM: u32 = 100;
/// Milliseconds between two priority boosts.
pub const PRIORITY_BOOST_TIME: u32 = 300;

/// The milliseconds that a thread may run at queue level `queue_index`.
pub open spec fn time_for_queue(queue_index: int) -> int {
    (queue_index * QUANTUM_INCREMENT + INITIAL_QUANTUM) * TIME_PER_QUANTUM
}

/// `s` after it is scheduled at `time_ms`: the time since it was last
/// scheduled is added to the time used, saturating, unless it is zero.
pub open spec fn update_time_spec(s: SchedulePriority, time_ms: u64) -> SchedulePriority {
    SchedulePriority {
        last_scheduled: Some(time_ms),
        time_used: match s.last_scheduled {
            Some(l) if time_ms - l != 0 => Some(
                match s.time_used {
                    Some(u) => if u + (time_ms - l) > u64::MAX {
                        u64::MAX
                    } else {
                        (u + (time_ms - l)) as u64
                    },
                    None => (time_ms - l) as u64,
                },
            ),
            _ => s.time_used,
        },
        ..s
    }
}

/// `s` when it leaves the processor: one level lower (up to the last) when
/// it used up its level's time, which then starts again.
pub open spec fn next_queue_spec(s: SchedulePriority) -> SchedulePriority {
    if s.has_time_spec() {
        s
    } else {
        SchedulePriority {
            time_used: None,
            queue_index: if s.queue_index < MAX_PRIORITY { (s.queue_index + 1) as u32 } else { MAX_PRIORITY as u32 },
            ..s
        }
    }
}

/// How a thread fares in the feedback queues: its level, the time it used at
/// that level, and when it was last scheduled.
#[derive(Clone, Copy, Debug, PartialEq, Eq, Structural)]
pub struct SchedulePriority {
    pub queue_index: u32,
    pub time_used: Option<u64>,
    pub last_scheduled: Option<u64>,
}

impl SchedulePriority {
    /// The level is a queue, and the times are positive.
    pub open spec fn wf(&self) -> bool {
        &&& self.queue_index <= MAX_PRIORITY
        &&& (self.time_used matches Some(t) ==> t > 0)
        &&& (self.last_scheduled matches Some(t) ==> t > 0)
    }

    /// A thread that has not run yet: top level, no time used.
    pub fn new() -> (r: Self)
        ensures
            r.wf(),
            r.queue_index == 0 && r.time_used is None && r.last_scheduled is None,
    {
        SchedulePriority { queue_index: 0, time_used: None, last_scheduled: None }
    }

    /// Whether the thread used less than its level's time.
    pub open spec fn has_time_spec(&self) -> bool {
        match self.time_used {
            None => true,
            Some(t) => t < time_for_queue(self.queue_index as int),
        }
    }

    /// Whether the thread used less than its level's time.
    pub fn has_time(&self) -> (r: bool)
        requires
            self.wf(),
        ensures
            r == self.has_time_spec(),
    {
        match self.time_used {
            None => true,
            Some(t) => {
                let time_for_queue = ((self.queue_index * QUANTUM_INCREMENT) + INITIAL_QUANTUM) * TIME_PER_QUANTUM;
                t < time_for_queue as u64
            },
        }
    }

    /// The level that the thread goes back to: one lower (up to the last) when
    /// it used up its time, which then starts again.
    pub fn get_next_priority_queue(&mut self) -> (r: u32)
        requires
            old(self).wf(),
        ensures
            final(self).wf(),
            *final(self) == next_queue_spec(*old(self)),
            r == final(self).queue_index,
    {
        if !self.has_time() {
            self.time_used = None;
            self.queue_index = if self.queue_index + 1 < MAX_PRIORITY as u32 {
                self.queue_index + 1
            } else {
                MAX_PRIORITY as u32
            };
        }
        self.queue_index
    }

    /// Records that the thread is scheduled at `time_ms`: the time since it
    /// was last scheduled is added to the time used, saturating.
    pub fn update_time(&mut self, time_ms: u64)
        requires
            old(self).wf(),
            time_ms > 0,
            old(self).last_scheduled matches Some(l) ==> l <= time_ms,
        ensures
            final(self).wf(),
            *final(self) == update_time_spec(*old(self), time_ms),
    {
        let old_last_scheduled = self.last_scheduled;
        self.last_scheduled = Some(time_ms);
        if let Some(last_scheduled) = old_last_scheduled {
            let diff = time_ms - last_scheduled;
            if diff == 0 {
                return;
            }
            self.time_used = Some(
                match self.time_used {
                    Some(u) => u.saturating_add(diff),
                    None => diff,
                },
            );
        }
    }
}

/// A thread on its way into a ready queue: the facts that decide where it goes.
#[derive(Clone, Copy, Debug, PartialEq, Eq, Structural)]
pub struct ReadyThread {
    pub tid: Tid,
    pub priority: ContextPriority,
    pub queue_index: u32,
}

/// Why a thread is handed to a scheduler.
#[derive(Clone, Copy, Debug, PartialEq, Eq, Structural)]
pub enum ThreadScheduleReason {
    /// Sleep until the given time.
    SleepUntil(u64),
    /// A sleeping thread wakes before its time.
    UnblockTimeoutOperation,
    /// A blocked thread wakes.
    Unblocked,
    /// A new thread runs for the first time.
    NewThread,
    /// A dead thread awaits its clean-up.
    Cleanup,
}

/// The contents of the ready queues.
pub open spec fn queues_view(q: Seq<ThreadList>) -> Seq<Seq<Tid>> {
    Seq::new(q.len(), |i: int| q[i].view())
}

/// All the threads of the queues, first queue first.
pub open spec fn concat(q: Seq<Seq<Tid>>) -> Seq<Tid>
    decreases q.len(),
{
    if q.len() == 0 {
        Seq::empty()
    } else {
        concat(q.drop_last()) + q.last()
    }
}

/// The queues after a boost check at `time_ms`: at a multiple of the boost
/// time every thread is in the top queue, in order, else nothing moves.
pub open spec fn boost_spec(q: Seq<Seq<Tid>>, time_ms: u64) -> Seq<Seq<Tid>> {
    if time_ms % (PRIORITY_BOOST_TIME as u64) == 0 {
        Seq::new(q.len(), |i: int| if i == 0 { concat(q) } else { Seq::<Tid>::empty() })
    } else {
        q
    }
}

/// `r` is the front thread of the most urgent non-empty queue of `q`, with
/// its index, and `q2` is `q` without it; or every queue is empty, `r` is
/// `None` and `q2` is `q`.
pub open spec fn picked_from(q: Seq<Seq<Tid>>, r: Option<(Tid, usize)>, q2: Seq<Seq<Tid>>) -> bool {
    match r {
        None => (forall|i: int| 0 <= i < q.len() ==> (#[trigger] q[i]).len() == 0) && q2 == q,
        Some((t, i)) => i < q.len() && q[i as int].len() > 0 && (forall|j: int|
            0 <= j < i ==> (#[trigger] q[j]).len() == 0) && t == q[i as int][0] && q2 == q.update(
            i as int,
            q[i as int].drop_first(),
        ),
    }
}

/// Waking the due sleepers at `now`, except `current`, with the waiting
/// entries `w`, the next wake time `next` and the ready queues `q`: the
/// entries, next wake time and queues after, and the threads woken. Nothing
/// happens before the next wake time.
pub open spec fn wake_model(
    w: Seq<(ReadyThread, u64)>,
    next: u64,
    q: Seq<Seq<Tid>>,
    now: u64,
    current: Option<Tid>,
) -> (Seq<(ReadyThread, u64)>, u64, Seq<Seq<Tid>>, Seq<ReadyThread>) {
    if next > now {
        (w, next, q, Seq::empty())
    } else {
        let s = wake_scan(w, 0, now, current, Seq::empty(), u64::MAX);
        (s.0, if s.2 < next { s.2 } else { next }, added_all(q, s.1), s.1)
    }
}

/// The queue and end that `t` joins: the front of the top queue for an
/// immediate thread, else the back of its level's queue.
pub open spec fn placement(t: ReadyThread) -> (int, bool) {
    if t.priority == ContextPriority::Immediate {
        (0, true)
    } else {
        (t.queue_index as int, false)
    }
}

/// The queues `q` with `tid` added to queue `index`, at the front or the back.
pub open spec fn added(q: Seq<Seq<Tid>>, tid: Tid, index: int, front: bool) -> Seq<Seq<Tid>> {
    q.update(index, if front { seq![tid] + q[index] } else { q[index].push(tid) })
}

/// The queues `q` with the threads `ts` added one after another.
pub open spec fn added_all(q: Seq<Seq<Tid>>, ts: Seq<ReadyThread>) -> Seq<Seq<Tid>>
    decreases ts.len(),
{
    if ts.len() == 0 {
        q
    } else {
        let t = ts.last();
        let p = placement(t);
        added(added_all(q, ts.drop_last()), t.tid, p.0, p.1)
    }
}

/// Whether the waiting entry `e` is due at `now`, and is not `current`.
pub open spec fn is_due(e: (ReadyThread, u64), now: u64, current: Option<Tid>) -> bool {
    current != Some(e.0.tid) && e.1 <= now
}

/// Scanning the waiting entries `w` from `i` as the scheduler does, taking
/// out the due ones by swapping the last entry into their place: the entries
/// left, the threads taken in order, and the earliest time left.
pub open spec fn wake_scan(
    w: Seq<(ReadyThread, u64)>,
    i: int,
    now: u64,
    current: Option<Tid>,
    woken: Seq<ReadyThread>,
    next: u64,
) -> (Seq<(ReadyThread, u64)>, Seq<ReadyThread>, u64)
    decreases w.len() - i,
{
    if i < 0 || i >= w.len() {
        (w, woken, next)
    } else if is_due(w[i], now, current) {
        wake_scan(w.update(i, w.last()).drop_last(), i, now, current, woken.push(w[i].0), next)
    } else {
        wake_scan(w, i + 1, now, current, woken, if w[i].1 < next { w[i].1 } else { next })
    }
}

/// The scheduler of one CPU.
#[derive(Clone, Debug)]
pub struct Scheduler {
    /// No waiting thread is due before this time.
    pub next_wake_time: u64,
    /// Sleeping threads and the time they wake at.
    pub waiting_threads: Vec<(ReadyThread, u64)>,
    /// Dead threads waiting for their clean-up.
    pub awaiting_cleanup: ThreadList,
    /// The ready queues, most urgent first.
    pub ready_queues: Vec<ThreadList>,
    pub idle_thread: Tid,
    pub current_thread: Tid,
    pub threads_count: usize,
    pub context_switch_count: usize,
}

/// The start of a context switch.
#[derive(Clone, Copy, Debug)]
pub enum SwapStart {
    /// No switch: the time is zero, or the current thread keeps running.
    NoSwap,
    /// Switch; `picked` is the next thread and its queue, or `None` when every
    /// queue is empty and a thread may be taken from another scheduler.
    /// `push_to` is the queue that the current thread returns to, `None` for
    /// the idle thread.
    Swap { picked: Option<(Tid, usize)>, push_to: Option<u32> },
}

impl Scheduler {
    /// Five ready queues, and levels of waiting threads that name a queue.
    pub open spec fn wf(&self) -> bool {
        &&& self.ready_queues@.len() == PRIORITIES_COUNT
        &&& forall|i: int| 0 <= i < self.waiting_threads@.len() ==> #[trigger] self.waiting_threads@[i].0.queue_index <= MAX_PRIORITY
    }

    /// The contents of the ready queues.
    pub open spec fn queues(&self) -> Seq<Seq<Tid>> {
        queues_view(self.ready_queues@)
    }

    /// A scheduler whose only thread is `idle_thread`, which is current.
    pub fn new(idle_thread: Tid) -> (r: Self)
        ensures
            r.wf(),
            r.next_wake_time == u64::MAX,
            r.waiting_threads@.len() == 0,
            r.awaiting_cleanup.view().len() == 0,
            r.queues() == Seq::new(5, |i: int| Seq::<Tid>::empty()),
            r.idle_thread == idle_thread,
            r.current_thread == idle_thread,
            r.threads_count == 0,
            r.context_switch_count == 0,
    {
        let mut ready_queues: Vec<ThreadList> = Vec::new();
        let mut i: usize = 0;
        while i < PRIORITIES_COUNT
            invariant
                0 <= i <= PRIORITIES_COUNT,
                ready_queues@.len() == i,
                forall|j: int| 0 <= j < i ==> (#[trigger] ready_queues@[j]).view().len() == 0,
            decreases PRIORITIES_COUNT - i,
        {
            ready_queues.push(ThreadList::new_empty());
            i = i + 1;
        }
        let r = Scheduler {
            next_wake_time: u64::MAX,
            waiting_threads: Vec::new(),
            awaiting_cleanup: ThreadList::new_empty(),
            ready_queues,
            idle_thread,
            current_thread: idle_thread,
            threads_count: 0,
            context_switch_count: 0,
        };
        assert(r.queues() =~= Seq::new(5, |i: int| Seq::<Tid>::empty())) by {
            assert forall|j: int| 0 <= j < 5 implies r.queues()[j] =~= Seq::<Tid>::empty() by {}
        }
        r
    }

    /// Takes the front thread of queue `index`.
    fn pop_queue(queues: &mut Vec<ThreadList>, index: usize) -> (r: Option<Tid>)
        requires
            index < old(queues)@.len(),
        ensures
            final(queues)@.len() == old(queues)@.len(),
            ({
                let q = queues_view(old(queues)@);
                if q[index as int].len() == 0 {
                    r is None && queues_view(final(queues)@) == q
                } else {
                    r == Some(q[index as int][0]) && queues_view(final(queues)@) == q.update(
                        index as int,
                        q[index as int].drop_first(),
                    )
                }
            }),
    {
        let mut list = queues.remove(index);
        let r = list.pop_front();
        queues.insert(index, list);
        proof {
            let q = queues_view(old(queues)@);
            if q[index as int].len() == 0 {
                assert(queues_view(queues@) =~= q);
            } else {
                assert(queues_view(queues@) =~= q.update(index as int, q[index as int].drop_first()));
            }
        }
        r
    }

    /// Adds `thread` to queue `index`, at the front or the back.
    pub fn add_single_thread_to(queues: &mut Vec<ThreadList>, thread: Tid, index: usize, front: bool)
        requires
            index < old(queues)@.len(),
        ensures
            final(queues)@.len() == old(queues)@.len(),
            queues_view(final(queues)@) == added(queues_view(old(queues)@), thread, index as int, front),
    {
        let mut list = queues.remove(index);
        if front {
            list.push_front(thread);
        } else {
            list.push_back(thread);
        }
        queues.insert(index, list);
        assert(queues_view(queues@) =~= added(queues_view(old(queues)@), thread, index as int, front));
    }

    /// Adds a thread to the ready queues: an immediate thread at the front of
    /// the top queue, any other at the back of its level's queue.
    pub fn add_single_thread(queues: &mut Vec<ThreadList>, thread: ReadyThread)
        requires
            old(queues)@.len() == PRIORITIES_COUNT,
            thread.queue_index <= MAX_PRIORITY,
        ensures
            final(queues)@.len() == old(queues)@.len(),
            queues_view(final(queues)@) == added(
                queues_view(old(queues)@),
                thread.tid,
                placement(thread).0,
                placement(thread).1,
            ),
    {
        let add_front = thread.priority == ContextPriority::Immediate;
        let queue = if add_front {
            0
        } else {
            thread.queue_index as usize
        };
        Self::add_single_thread_to(queues, thread.tid, queue, add_front);
    }

    /// Takes the front thread of the most urgent non-empty queue, with the
    /// queue's index; `None` when every queue is empty.
    pub fn get_next_thread(queues: &mut Vec<ThreadList>) -> (r: Option<(Tid, usize)>)
        ensures
            final(queues)@.len() == old(queues)@.len(),
            picked_from(queues_view(old(queues)@), r, queues_view(final(queues)@)),
    {
        let ghost q = queues_view(queues@);
        let n = queues.len();
        let mut index: usize = 0;
        while index < n
            invariant
                n == queues@.len(),
                n == q.len(),
                q == queues_view(old(queues)@),
                0 <= index <= n,
                queues_view(queues@) == q,
                forall|j: int| 0 <= j < index ==> (#[trigger] q[j]).len() == 0,
            decreases n - index,
        {
            if let Some(thread) = Self::pop_queue(queues, index) {
                return Some((thread, index));
            }
            index = index + 1;
        }
        None
    }

    /// At every multiple of the boost time, moves every thread to the top
    /// queue, keeping the order of the queues and within each.
    pub fn try_boost_threads(queues: &mut Vec<ThreadList>, time_ms: u64)
        requires
            old(queues)@.len() >= 1,
        ensures
            final(queues)@.len() == old(queues)@.len(),
            queues_view(final(queues)@) == boost_spec(queues_view(old(queues)@), time_ms),
    {
        if time_ms % (PRIORITY_BOOST_TIME as u64) == 0 {
            let ghost q = queues_view(queues@);
            let n = queues.len();
            let mut top = queues.remove(0);
            queues.insert(0, ThreadList::new_empty());
            proof {
                let s1 = q.subrange(0, 1);
                assert(s1.drop_last() =~= Seq::<Seq<Tid>>::empty());
                assert(concat(s1.drop_last()) =~= Seq::<Tid>::empty());
                assert(s1.last() == q[0]);
                assert(concat(s1) =~= q[0]);
                assert(top.view() == q[0]);
                assert forall|i: int| 1 <= i < n implies #[trigger] queues_view(queues@)[i] == q[i] by {
                    assert(queues@[i] == old(queues)@[i]);
                }
            }
            let mut j: usize = 1;
            while j < n
                invariant
                    n == queues@.len(),
                    n == q.len(),
                    1 <= j <= n,
                    top.view() == concat(q.subrange(0, j as int)),
                    forall|i: int| 0 <= i < j ==> (#[trigger] queues_view(queues@)[i]).len() == 0,
                    forall|i: int| j <= i < n ==> #[trigger] queues_view(queues@)[i] == q[i],
                decreases n - j,
            {
                let ghost prev = queues@;
                assert(queues_view(prev)[j as int] == q[j as int]);
                let mut other = queues.remove(j);
                assert(other.view() == q[j as int]);
                let ghost before = top.view();
                top.append(&mut other);
                queues.insert(j, other);
                proof {
                    assert(queues@ =~= prev.update(j as int, other));
                    let s = q.subrange(0, j as int + 1);
                    assert(s.drop_last() =~= q.subrange(0, j as int));
                    assert(s.last() == q[j as int]);
                    assert(queues_view(queues@)[j as int] =~= Seq::<Tid>::empty());
                    assert forall|i: int| 0 <= i < j + 1 implies (#[trigger] queues_view(queues@)[i]).len() == 0 by {
                        if i < j {
                            assert(queues_view(prev)[i].len() == 0);
                            assert(queues@[i] == prev[i]);
                        }
                    }
                    assert forall|i: int| j + 1 <= i < n implies #[trigger] queues_view(queues@)[i] == q[i] by {
                        assert(queues_view(prev)[i] == q[i]);
                        assert(queues@[i] == prev[i]);
                    }
                }
                j = j + 1;
            }
            let ghost prev = queues@;
            queues.remove(0);
            queues.insert(0, top);
            proof {
                assert(q.subrange(0, n as int) =~= q);
                assert(queues@ =~= prev.update(0, top));
                let q2 = queues_view(queues@);
                assert(q2[0] == concat(q));
                assert forall|i: int| 1 <= i < q2.len() implies (#[trigger] q2[i]) =~= Seq::<Tid>::empty() by {
                    assert(queues_view(prev)[i].len() == 0);
                    assert(queues@[i] == prev[i]);
                }
                assert(q2 =~= boost_spec(q, time_ms));
            }
        }
    }

    /// Takes the due entries out of the waiting threads as the scheduler does
    /// (see [`wake_scan`]), skipping `current`: the threads taken, in order, and
    /// the earliest wake time left, `u64::MAX` when none is left.
    pub fn take_due_threads(&mut self, time_now: u64, current: Option<Tid>) -> (r: (Vec<ReadyThread>, u64))
        requires
            old(self).wf(),
        ensures
            final(self).wf(),
            ({
                let s = wake_scan(old(self).waiting_threads@, 0, time_now, current, Seq::empty(), u64::MAX);
                final(self).waiting_threads@ == s.0 && r.0@ == s.1 && r.1 == s.2
            }),
            final(self).ready_queues == old(self).ready_queues,
            final(self).next_wake_time == old(self).next_wake_time,
            final(self).awaiting_cleanup == old(self).awaiting_cleanup,
            final(self).idle_thread == old(self).idle_thread,
            final(self).current_thread == old(self).current_thread,
            final(self).threads_count == old(self).threads_count,
            final(self).context_switch_count == old(self).context_switch_count,
            forall|i: int| 0 <= i < r.0@.len() ==> (#[trigger] r.0@[i]).queue_index <= MAX_PRIORITY,
    {
        let mut woken: Vec<ReadyThread> = Vec::new();
        let mut next_add_time: u64 = u64::MAX;
        let mut i: usize = 0;
        let ghost target = wake_scan(self.waiting_threads@, 0, time_now, current, Seq::empty(), u64::MAX);
        while i < self.waiting_threads.len()
            invariant
                self.wf(),
                wake_scan(self.waiting_threads@, i as int, time_now, current, woken@, next_add_time) == target,
                forall|k: int| 0 <= k < woken@.len() ==> (#[trigger] woken@[k]).queue_index <= MAX_PRIORITY,
                self.ready_queues == old(self).ready_queues,
                self.next_wake_time == old(self).next_wake_time,
                self.awaiting_cleanup == old(self).awaiting_cleanup,
                self.idle_thread == old(self).idle_thread,
                self.current_thread == old(self).current_thread,
                self.threads_count == old(self).threads_count,
                self.context_switch_count == old(self).context_switch_count,
            decreases self.waiting_threads@.len() - i,
        {
            let (th, time) = self.waiting_threads[i];
            let due = match current {
                Some(c) => c != th.tid && time <= time_now,
                None => time <= time_now,
            };
            if due {
                let ghost w = self.waiting_threads@;
                let (thread, _) = self.waiting_threads.swap_remove(i);
                woken.push(thread);
                proof {
                    assert forall|k: int| 0 <= k < self.waiting_threads@.len() implies #[trigger] self.waiting_threads@[k].0.queue_index
                        <= MAX_PRIORITY by {
                        if k == i as int {
                            assert(w.last() == w[w.len() - 1]);
                        } else {
                            assert(self.waiting_threads@[k] == w[k]);
                        }
                    }
                }
            } else {
                if time < next_add_time {
                    next_add_time = time;
                }
                i = i + 1;
            }
        }
        (woken, next_add_time)
    }

    /// Adds the threads `threads` to the ready queues one after another.
    pub fn add_threads(queues: &mut Vec<ThreadList>, threads: &Vec<ReadyThread>)
        requires
            old(queues)@.len() == PRIORITIES_COUNT,
            forall|i: int| 0 <= i < threads@.len() ==> (#[trigger] threads@[i]).queue_index <= MAX_PRIORITY,
        ensures
            final(queues)@.len() == old(queues)@.len(),
            queues_view(final(queues)@) == added_all(queues_view(old(queues)@), threads@),
    {
        let mut k: usize = 0;
        while k < threads.len()
            invariant
                0 <= k <= threads@.len(),
                queues@.len() == PRIORITIES_COUNT,
                forall|i: int| 0 <= i < threads@.len() ==> (#[trigger] threads@[i]).queue_index <= MAX_PRIORITY,
                queues_view(queues@) == added_all(queues_view(old(queues)@), threads@.subrange(0, k as int)),
            decreases threads@.len() - k,
        {
            Self::add_single_thread(queues, threads[k]);
            proof {
                let s = threads@.subrange(0, k as int + 1);
                assert(s.drop_last() =~= threads@.subrange(0, k as int));
                assert(s.last() == threads@[k as int]);
            }
            k = k + 1;
        }
        assert(threads@.subrange(0, threads@.len() as int) =~= threads@);
    }

    /// Wakes the sleeping threads that are due at `time_now`, except
    /// `current`, into the ready queues; nothing happens before the next wake
    /// time. Returns the threads woken, in order.
    pub fn try_wake_waiting_threads(&mut self, time_now: u64, current: Option<Tid>) -> (r: Vec<ReadyThread>)
        requires
            old(self).wf(),
        ensures
            final(self).wf(),
            old(self).next_wake_time > time_now ==> *final(self) == *old(self),
            ({
                let m = wake_model(
                    old(self).waiting_threads@,
                    old(self).next_wake_time,
                    old(self).queues(),
                    time_now,
                    current,
                );
                &&& final(self).waiting_threads@ == m.0
                &&& final(self).next_wake_time == m.1
                &&& final(self).queues() == m.2
                &&& r@ == m.3
            }),
            final(self).awaiting_cleanup == old(self).awaiting_cleanup,
            final(self).idle_thread == old(self).idle_thread,
            final(self).current_thread == old(self).current_thread,
            final(self).threads_count == old(self).threads_count,
            final(self).context_switch_count == old(self).context_switch_count,
    {
        if self.next_wake_time > time_now {
            return Vec::new();
        }
        let (woken, next_add_time) = self.take_due_threads(time_now, current);
        Self::add_threads(&mut self.ready_queues, &woken);
        if next_add_time < self.next_wake_time {
            self.next_wake_time = next_add_time;
        }
        woken
    }

    /// Wakes every sleeping thread due at `time_now` into the ready queues;
    /// returns the threads woken, in order (each must be marked as woken from
    /// its sleep), and nothing when no thread sleeps.
    pub fn try_pop_waiting_thread(&mut self, time_now: u64) -> (r: Vec<ReadyThread>)
        requires
            old(self).wf(),
        ensures
            final(self).wf(),
            old(self).waiting_threads@.len() == 0 ==> r@.len() == 0 && *final(self) == *old(self),
            old(self).waiting_threads@.len() > 0 ==> ({
                let s = wake_scan(old(self).waiting_threads@, 0, time_now, None, Seq::empty(), u64::MAX);
                &&& final(self).waiting_threads@ == s.0
                &&& r@ == s.1
                &&& final(self).queues() == added_all(old(self).queues(), s.1)
                &&& final(self).next_wake_time == (if s.2 < old(self).next_wake_time {
                    s.2
                } else {
                    old(self).next_wake_time
                })
            }),
            final(self).awaiting_cleanup == old(self).awaiting_cleanup,
            final(self).threads_count == old(self).threads_count,
    {
        if self.waiting_threads.len() == 0 {
            return Vec::new();
        }
        let (woken, next_add_time) = self.take_due_threads(time_now, None);
        Self::add_threads(&mut self.ready_queues, &woken);
        if next_add_time < self.next_wake_time {
            self.next_wake_time = next_add_time;
        }
        woken
    }

    /// The count of threads after one more, wrapping as an atomic counter does.
    fn count_up(c: usize) -> (r: usize)
        ensures
            r == (if c == usize::MAX { 0 } else { c + 1 }),
    {
        if c == usize::MAX {
            0
        } else {
            c + 1
        }
    }

    /// The count of threads after one fewer, wrapping as an atomic counter does.
    fn count_down(c: usize) -> (r: usize)
        ensures
            r == (if c == 0 { usize::MAX } else { (c - 1) as usize }),
    {
        if c == 0 {
            usize::MAX
        } else {
            c - 1
        }
    }

    /// The index of the first waiting entry of `tid` at or after `i`, if any.
    fn find_waiting(&self, tid: Tid) -> (r: Option<usize>)
        ensures
            r == waiting_index(self.waiting_threads@, tid, 0),
            r matches Some(i) ==> i < self.waiting_threads@.len(),
    {
        let mut i: usize = 0;
        while i < self.waiting_threads.len()
            invariant
                0 <= i <= self.waiting_threads@.len(),
                waiting_index(self.waiting_threads@, tid, i as int) == waiting_index(self.waiting_threads@, tid, 0),
            decreases self.waiting_threads@.len() - i,
        {
            if self.waiting_threads[i].0.tid == tid {
                return Some(i);
            }
            i = i + 1;
        }
        None
    }

    /// Hands `thread` to this scheduler for `reason`: a sleeper joins the
    /// waiting threads, a dead thread awaits clean-up, a thread woken before
    /// its time leaves the waiting threads (nothing happens when it already
    /// left them) and joins the ready queues, as does a woken or new thread.
    pub fn schedule_thread(&mut self, thread: ReadyThread, reason: ThreadScheduleReason)
        requires
            old(self).wf(),
            thread.queue_index <= MAX_PRIORITY,
        ensures
            final(self).wf(),
            final(self).idle_thread == old(self).idle_thread,
            final(self).current_thread == old(self).current_thread,
            final(self).context_switch_count == old(self).context_switch_count,
            schedule_effect(*old(self), *final(self), thread, reason),
    {
        if let ThreadScheduleReason::UnblockTimeoutOperation = reason {
            match self.find_waiting(thread.tid) {
                Some(index) => {
                    let ghost w = self.waiting_threads@;
                    self.waiting_threads.swap_remove(index);
                    proof {
                        assert forall|k: int| 0 <= k < self.waiting_threads@.len() implies #[trigger] self.waiting_threads@[k].0.queue_index
                            <= MAX_PRIORITY by {
                            if k == index as int {
                                assert(w.last() == w[w.len() - 1]);
                            } else {
                                assert(self.waiting_threads@[k] == w[k]);
                            }
                        }
                    }
                },
                None => return,
            }
        }
        match reason {
            ThreadScheduleReason::SleepUntil(time) => {
                self.waiting_threads.push((thread, time));
                if time < self.next_wake_time {
                    self.next_wake_time = time;
                }
            },
            ThreadScheduleReason::Cleanup => {
                self.awaiting_cleanup.push_back(thread.tid);
                self.threads_count = Self::count_down(self.threads_count);
            },
            _ => {
                Self::add_single_thread(&mut self.ready_queues, thread);
                if let ThreadScheduleReason::NewThread = reason {
                    self.threads_count = Self::count_up(self.threads_count);
                }
            },
        }
    }

    /// Puts `thread` to sleep for `ms` milliseconds from `time_now`, unless it
    /// should terminate: it waits until `ms + time_now` (saturating), has not
    /// timed out, and is blocking to sleep. `true` when it was put to sleep.
    pub fn prepare_sleep_for_ms(
        &mut self,
        thread: ReadyThread,
        status: &mut ContextStatus,
        timeouted: &mut bool,
        should_terminate: bool,
        ms: u64,
        time_now: u64,
    ) -> (r: bool)
        requires
            old(self).wf(),
            thread.queue_index <= MAX_PRIORITY,
            ms > 0,
        ensures
            final(self).wf(),
            r == !should_terminate,
            !r ==> *final(self) == *old(self) && *final(status) == *old(status) && *final(timeouted) == *old(timeouted),
            r ==> ({
                let time = if ms + time_now > u64::MAX { u64::MAX } else { (ms + time_now) as u64 };
                &&& schedule_effect(*old(self), *final(self), thread, ThreadScheduleReason::SleepUntil(time))
                &&& *final(status) == ContextStatus::Blocking(BlockedReason::Sleeping)
                &&& !*final(timeouted)
            }),
            final(self).idle_thread == old(self).idle_thread,
            final(self).current_thread == old(self).current_thread,
            final(self).context_switch_count == old(self).context_switch_count,
    {
        if should_terminate {
            return false;
        }
        let time = ms.saturating_add(time_now);
        self.schedule_thread(thread, ThreadScheduleReason::SleepUntil(time));
        *timeouted = false;
        *status = ContextStatus::Blocking(BlockedReason::Sleeping);
        true
    }

    /// Counts one more context switch, wrapping as an atomic counter does.
    pub fn count_context_switch(&mut self)
        ensures
            final(self).context_switch_count == (if old(self).context_switch_count == usize::MAX {
                0
            } else {
                old(self).context_switch_count + 1
            }),
            final(self).next_wake_time == old(self).next_wake_time,
            final(self).waiting_threads == old(self).waiting_threads,
            final(self).awaiting_cleanup == old(self).awaiting_cleanup,
            final(self).ready_queues == old(self).ready_queues,
            final(self).idle_thread == old(self).idle_thread,
            final(self).current_thread == old(self).current_thread,
            final(self).threads_count == old(self).threads_count,
    {
        self.context_switch_count = Self::count_up(self.context_switch_count);
    }

    /// The first half of a context switch at `time_now`, for the current
    /// thread's `current` standing: unless the time is zero, or the current
    /// thread (not the idle one) keeps running because it has time left and
    /// `swap_if_has_time` is off, the current thread's time is charged and its
    /// next queue chosen, the due sleepers are woken, the queues boosted when
    /// the time comes, and the next thread taken from them. When every queue is
    /// empty, a thread may be taken from another scheduler before the second half.
    pub fn begin_swap(&mut self, current: &mut SchedulePriority, swap_if_has_time: bool, time_now: u64) -> (r: SwapStart)
        requires
            old(self).wf(),
            old(current).wf(),
            old(current).last_scheduled matches Some(l) ==> l <= time_now,
        ensures
            final(self).wf(),
            final(current).wf(),
            ({
                let c = *old(current);
                let was_idle = old(self).current_thread == old(self).idle_thread;
                let c1 = update_time_spec(c, time_now);
                if time_now == 0 {
                    r is NoSwap && *final(current) == c && *final(self) == *old(self)
                } else if !was_idle && !swap_if_has_time && c1.has_time_spec() {
                    r is NoSwap && *final(current) == c1 && *final(self) == *old(self)
                } else {
                    let m = wake_model(
                        old(self).waiting_threads@,
                        old(self).next_wake_time,
                        old(self).queues(),
                        time_now,
                        Some(old(self).current_thread),
                    );
                    &&& r matches SwapStart::Swap { picked, push_to } && picked_from(
                        boost_spec(m.2, time_now),
                        picked,
                        final(self).queues(),
                    ) && push_to == (if was_idle {
                        None
                    } else {
                        Some(next_queue_spec(c1).queue_index)
                    })
                    &&& *final(current) == (if was_idle { c } else { next_queue_spec(c1) })
                    &&& final(self).waiting_threads@ == m.0
                    &&& final(self).next_wake_time == m.1
                    &&& final(self).awaiting_cleanup == old(self).awaiting_cleanup
                    &&& final(self).idle_thread == old(self).idle_thread
                    &&& final(self).current_thread == old(self).current_thread
                    &&& final(self).threads_count == old(self).threads_count
                    &&& final(self).context_switch_count == old(self).context_switch_count
                }
            }),
    {
        if time_now == 0 {
            return SwapStart::NoSwap;
        }
        let was_idle_thread = self.current_thread == self.idle_thread;
        let push_to = if !was_idle_thread {
            current.update_time(time_now);
            if !swap_if_has_time && current.has_time() {
                return SwapStart::NoSwap;
            }
            Some(current.get_next_priority_queue())
        } else {
            None
        };
        let current_thread = self.current_thread;
        self.try_wake_waiting_threads(time_now, Some(current_thread));
        Self::try_boost_threads(&mut self.ready_queues, time_now);
        let picked = Self::get_next_thread(&mut self.ready_queues);
        SwapStart::Swap { picked, push_to }
    }

    /// The second half of a context switch: the current thread, with status
    /// `status`, is dead and awaits clean-up when it should terminate while
    /// running user code or when it was blocking to die; it stays blocked, or
    /// becomes blocked when it was blocking; otherwise it is runnable and goes
    /// to the back of queue `push_to`. The next thread is `picked`, or the idle
    /// thread at queue 0, and becomes current.
    pub fn finish_swap(
        &mut self,
        status: &mut ContextStatus,
        should_terminate: bool,
        in_lower_half: bool,
        push_to: Option<u32>,
        picked: Option<(Tid, usize)>,
    ) -> (r: SwapEnd)
        requires
            old(self).wf(),
            *old(status) != ContextStatus::Blocked(BlockedReason::Dead),
            push_to matches Some(p) ==> p <= MAX_PRIORITY,
        ensures
            final(self).wf(),
            ({
                let st = *old(status);
                let running = st == ContextStatus::Runnable || st == ContextStatus::Running;
                let dies = (running && in_lower_half && should_terminate) || st == ContextStatus::Blocking(
                    BlockedReason::Dead,
                );
                let cur = old(self).current_thread;
                &&& *final(status) == (match st {
                    ContextStatus::Blocking(x) => ContextStatus::Blocked(x),
                    ContextStatus::Blocked(x) => ContextStatus::Blocked(x),
                    _ => if dies {
                        ContextStatus::Blocked(BlockedReason::Dead)
                    } else {
                        ContextStatus::Runnable
                    },
                })
                &&& final(self).queues() == (if running && !dies && push_to is Some {
                    added(old(self).queues(), cur, push_to->0 as int, false)
                } else {
                    old(self).queues()
                })
                &&& final(self).awaiting_cleanup.view() == (if dies {
                    old(self).awaiting_cleanup.view().push(cur)
                } else {
                    old(self).awaiting_cleanup.view()
                })
                &&& final(self).threads_count == (if dies {
                    if old(self).threads_count == 0 { usize::MAX } else { (old(self).threads_count - 1) as usize }
                } else {
                    old(self).threads_count
                })
                &&& r.cleanup == dies
                &&& (match picked {
                    Some((t, i)) => r.next == t && r.queue_index == i,
                    None => r.next == old(self).idle_thread && r.queue_index == 0,
                })
                &&& final(self).current_thread == r.next
                &&& final(self).waiting_threads == old(self).waiting_threads
                &&& final(self).next_wake_time == old(self).next_wake_time
                &&& final(self).idle_thread == old(self).idle_thread
                &&& final(self).context_switch_count == old(self).context_switch_count
            }),
    {
        let cur = self.current_thread;
        let mut cleanup = false;
        match *status {
            ContextStatus::Runnable | ContextStatus::Running => {
                if in_lower_half && should_terminate {
                    *status = ContextStatus::Blocked(BlockedReason::Dead);
                    cleanup = true;
                } else {
                    *status = ContextStatus::Runnable;
                    if let Some(p) = push_to {
                        Self::add_single_thread_to(&mut self.ready_queues, cur, p as usize, false);
                    }
                }
            },
            ContextStatus::Blocked(_) => {},
            ContextStatus::Blocking(reason) => {
                *status = ContextStatus::Blocked(reason);
                if reason == BlockedReason::Dead {
                    cleanup = true;
                }
            },
        }
        if cleanup {
            self.awaiting_cleanup.push_back(cur);
            self.threads_count = Self::count_down(self.threads_count);
        }
        let (next, queue_index) = match picked {
            Some(p) => p,
            None => (self.idle_thread, 0),
        };
        self.current_thread = next;
        SwapEnd { next, queue_index, cleanup }
    }
}

/// The end of a context switch.
#[derive(Clone, Copy, Debug, PartialEq, Eq, Structural)]
pub struct SwapEnd {
    /// The thread that runs next.
    pub next: Tid,
    /// The queue it was taken from.
    pub queue_index: usize,
    /// Whether the thread that ran awaits its clean-up.
    pub cleanup: bool,
}

/// The next thread starts running at `time_ms`, taken from queue
/// `queue_index`: it is running (unless it is being killed), is at that
/// level, was last scheduled then (never, at time zero). `true` when its
/// process differs from the one that ran, so the address space changes.
pub fn start_running(
    schedule: &mut SchedulePriority,
    status: &mut ContextStatus,
    queue_index: usize,
    time_ms: u64,
    curr_pid: u32,
    next_pid: u32,
) -> (r: bool)
    requires
        queue_index <= MAX_PRIORITY,
        old(schedule).wf(),
        *old(status) != ContextStatus::Blocking(BlockedReason::Dead) ==> crate::thread::status_change_allowed(
            *old(status),
            ContextStatus::Running,
        ),
    ensures
        final(schedule).wf(),
        r == (curr_pid != next_pid),
        *final(status) == (if *old(status) == ContextStatus::Blocking(BlockedReason::Dead) {
            *old(status)
        } else {
            ContextStatus::Running
        }),
        final(schedule).queue_index == queue_index,
        final(schedule).time_used == old(schedule).time_used,
        final(schedule).last_scheduled == (if time_ms == 0 { None } else { Some(time_ms) }),
{
    crate::thread::set_status(status, ContextStatus::Running);
    schedule.queue_index = queue_index as u32;
    schedule.last_scheduled = if time_ms == 0 {
        None
    } else {
        Some(time_ms)
    };
    curr_pid != next_pid
}

/// The index of the first waiting entry of `tid` at or after `i`, if any.
pub open spec fn waiting_index(w: Seq<(ReadyThread, u64)>, tid: Tid, i: int) -> Option<usize>
    decreases w.len() - i,
{
    if i < 0 || i >= w.len() {
        None
    } else if w[i].0.tid == tid {
        Some(i as usize)
    } else {
        waiting_index(w, tid, i + 1)
    }
}

/// The scheduler `s2` is `s` after `thread` was handed to it for `reason`.
pub open spec fn schedule_effect(s: Scheduler, s2: Scheduler, thread: ReadyThread, reason: ThreadScheduleReason) -> bool {
    let w = s.waiting_threads@;
    let found = waiting_index(w, thread.tid, 0);
    if reason == ThreadScheduleReason::UnblockTimeoutOperation && found is None {
        s2 == s
    } else {
        let w1 = if reason == ThreadScheduleReason::UnblockTimeoutOperation {
            w.update(found->0 as int, w.last()).drop_last()
        } else {
            w
        };
        match reason {
            ThreadScheduleReason::SleepUntil(time) => {
                &&& s2.waiting_threads@ == w1.push((thread, time))
                &&& s2.next_wake_time == (if time < s.next_wake_time { time } else { s.next_wake_time })
                &&& s2.queues() == s.queues()
                &&& s2.awaiting_cleanup == s.awaiting_cleanup
                &&& s2.threads_count == s.threads_count
            },
            ThreadScheduleReason::Cleanup => {
                &&& s2.waiting_threads@ == w1
                &&& s2.next_wake_time == s.next_wake_time
                &&& s2.queues() == s.queues()
                &&& s2.awaiting_cleanup.view() == s.awaiting_cleanup.view().push(thread.tid)
                &&& s2.threads_count == (if s.threads_count == 0 { usize::MAX } else { (s.threads_count - 1) as usize })
            },
            _ => {
                &&& s2.waiting_threads@ == w1
                &&& s2.next_wake_time == s.next_wake_time
                &&& s2.queues() == added(s.queues(), thread.tid, placement(thread).0, placement(thread).1)
                &&& s2.awaiting_cleanup == s.awaiting_cleanup
                &&& s2.threads_count == (if reason == ThreadScheduleReason::NewThread {
                    if s.threads_count == usize::MAX { 0 } else { (s.threads_count + 1) as usize }
                } else {
                    s.threads_count
                })
            },
        }
    }
}

proof fn lemma_concat_append(a: Seq<Seq<Tid>>, b: Seq<Seq<Tid>>)
    ensures
        concat(a + b) == concat(a) + concat(b),
    decreases b.len(),
{
    if b.len() == 0 {
        assert(a + b =~= a);
        assert(concat(b) =~= Seq::<Tid>::empty());
        assert(concat(a) + concat(b) =~= concat(a));
    } else {
        lemma_concat_append(a, b.drop_last());
        assert((a + b).drop_last() =~= a + b.drop_last());
        assert((a + b).last() == b.last());
        assert(concat(a + b) =~= concat(a) + concat(b));
    }
}

proof fn lemma_concat_empty(q: Seq<Seq<Tid>>)
    requires
        forall|i: int| 0 <= i < q.len() ==> (#[trigger] q[i]).len() == 0,
    ensures
        concat(q) == Seq::<Tid>::empty(),
    decreases q.len(),
{
    if q.len() > 0 {
        lemma_concat_empty(q.drop_last());
        assert(concat(q) =~= Seq::<Tid>::empty());
    }
}

proof fn lemma_concat_split(q: Seq<Seq<Tid>>, i: int)
    requires
        0 <= i < q.len(),
    ensures
        concat(q) == concat(q.subrange(0, i)) + q[i] + concat(q.subrange(i + 1, q.len() as int)),
{
    let a = q.subrange(0, i);
    let m = seq![q[i]];
    let c = q.subrange(i + 1, q.len() as int);
    assert(q =~= a + m + c);
    lemma_concat_append(a + m, c);
    lemma_concat_append(a, m);
    assert(m.drop_last() =~= Seq::<Seq<Tid>>::empty());
    assert(concat(m.drop_last()) =~= Seq::<Tid>::empty());
    assert(m.last() == q[i]);
    assert(concat(m) =~= q[i]);
}

/// Taking the next thread takes the first of all the ready threads in queue
/// order, and leaves the others in their order.
pub proof fn law_pick_takes_first(q: Seq<Seq<Tid>>, r: Option<(Tid, usize)>, q2: Seq<Seq<Tid>>)
    requires
        picked_from(q, r, q2),
    ensures
        match r {
            None => concat(q) == Seq::<Tid>::empty() && q2 == q,
            Some((t, _)) => concat(q) == seq![t] + concat(q2),
        },
{
    match r {
        None => {
            lemma_concat_empty(q);
        },
        Some((t, i)) => {
            let i = i as int;
            lemma_concat_split(q, i);
            lemma_concat_split(q2, i);
            assert(q2.subrange(0, i) =~= q.subrange(0, i));
            assert(q2.subrange(i + 1, q2.len() as int) =~= q.subrange(i + 1, q.len() as int));
            lemma_concat_empty(q.subrange(0, i));
            assert(q[i] =~= seq![t] + q[i].drop_first());
            assert(concat(q) =~= seq![t] + concat(q2));
        },
    }
}

/// A priority boost moves threads between queues without changing their
/// order over all the queues.
pub proof fn law_boost_keeps_order(q: Seq<Seq<Tid>>, time_ms: u64)
    requires
        q.len() >= 1,
    ensures
        concat(boost_spec(q, time_ms)) == concat(q),
{
    if time_ms % (PRIORITY_BOOST_TIME as u64) == 0 {
        let b = boost_spec(q, time_ms);
        lemma_concat_split(b, 0);
        lemma_concat_empty(b.subrange(0, 0));
        lemma_concat_empty(b.subrange(1, b.len() as int));
        assert(concat(b) =~= concat(q));
    }
}


/// Adding a ready thread puts an immediate thread at the front of the top
/// queue, so that the next pick is that thread from queue 0; any other
/// thread goes to the back of its level's queue, after the threads already
/// there. Every other queue is left as it was.
pub proof fn law_add_single_thread_placement(q: Seq<Seq<Tid>>, t: ReadyThread, r: Option<(Tid, usize)>, q3: Seq<
    Seq<Tid>,
>)
    requires
        q.len() == PRIORITIES_COUNT,
        t.queue_index <= MAX_PRIORITY,
    ensures
        ({
            let p = placement(t);
            let q2 = added(q, t.tid, p.0, p.1);
            &&& q2.len() == q.len()
            &&& t.priority == ContextPriority::Immediate ==> {
                &&& q2[0].len() == q[0].len() + 1
                &&& q2[0][0] == t.tid
                &&& q2[0].drop_first() == q[0]
                &&& forall|j: int| 1 <= j < q.len() ==> #[trigger] q2[j] == q[j]
                &&& picked_from(q2, r, q3) ==> r == Some((t.tid, 0usize))
            }
            &&& t.priority != ContextPriority::Immediate ==> {
                let k = t.queue_index as int;
                &&& q2[k].len() == q[k].len() + 1
                &&& q2[k].last() == t.tid
                &&& q2[k].drop_last() == q[k]
                &&& forall|j: int| 0 <= j < q.len() && j != k ==> #[trigger] q2[j] == q[j]
            }
        }),
{
    let p = placement(t);
    let q2 = added(q, t.tid, p.0, p.1);
    if t.priority == ContextPriority::Immediate {
        assert((seq![t.tid] + q[0]).drop_first() =~= q[0]);
        if picked_from(q2, r, q3) {
            match r {
                Some((x, i)) => {
                    if i > 0 {
                        assert(q2[0].len() == 0);
                    }
                },
                None => {
                    assert(q2[0].len() == 0);
                },
            }
        }
    } else {
        let k = t.queue_index as int;
        assert(q[k].push(t.tid).drop_last() =~= q[k]);
    }
}

} // verus!

verus! {

/// `r` is the first index of a smallest count in `counts`.
pub open spec fn is_first_min(counts: Seq<usize>, r: int) -> bool {
    &&& 0 <= r < counts.len()
    &&& forall|j: int| 0 <= j < counts.len() ==> counts[r] <= #[trigger] counts[j]
    &&& forall|j: int| 0 <= j < r ==> counts[r] < #[trigger] counts[j]
}

/// The CPU that a new thread goes to, where `counts[i]` is the number of
/// threads of CPU `i`: the CPU asked for when there is one by that ID, else
/// the first least loaded CPU.
pub fn choose_cpu(requested: Option<usize>, counts: &Vec<usize>) -> (r: usize)
    requires
        1 <= counts@.len() <= u16::MAX,
    ensures
        (requested matches Some(i) && i < counts@.len()) ==> requested == Some(r),
        !(requested matches Some(i) && i < counts@.len()) ==> is_first_min(counts@, r as int),
{
    match requested {
        Some(i) => if i < counts.len() {
            return i;
        },
        None => {},
    }
    let mut best: usize = 0;
    let mut k: usize = 1;
    while k < counts.len()
        invariant
            1 <= k <= counts@.len(),
            is_first_min(counts@.subrange(0, k as int), best as int),
        decreases counts@.len() - k,
    {
        if counts[k] < counts[best] {
            best = k;
        }
        k = k + 1;
        assert(forall|j: int| 0 <= j < k ==> counts@.subrange(0, k as int)[j] == counts@[j]);
        assert(forall|j: int| 0 <= j < k - 1 ==> counts@.subrange(0, k - 1)[j] == counts@[j]);
    }
    assert(counts@.subrange(0, counts@.len() as int) =~= counts@);
    best
}

impl Scheduler {
    /// Offers the next thread of this scheduler to another one, which takes it
    /// when `accept` says so: a thread taken leaves this scheduler's queues
    /// and count; one refused goes back to the end of its queue.
    pub fn try_giveup_thread<F: FnOnce(Tid) -> bool>(&mut self, accept: F) -> (r: Option<(Tid, usize)>)
        requires
            old(self).wf(),
            forall|t: Tid| accept.requires((t,)),
        ensures
            final(self).wf(),
            final(self).waiting_threads == old(self).waiting_threads,
            final(self).next_wake_time == old(self).next_wake_time,
            final(self).awaiting_cleanup == old(self).awaiting_cleanup,
            final(self).idle_thread == old(self).idle_thread,
            final(self).current_thread == old(self).current_thread,
            final(self).context_switch_count == old(self).context_switch_count,
            exists|picked: Option<(Tid, usize)>, q2: Seq<Seq<Tid>>|
                #![trigger picked_from(old(self).queues(), picked, q2)]
                picked_from(old(self).queues(), picked, q2) && match picked {
                    None => r is None && final(self).queues() == old(self).queues() && final(self).threads_count
                        == old(self).threads_count,
                    Some((t, i)) => {
                        ||| accept.ensures((t,), true) && r == Some((t, i)) && final(self).queues() == q2
                            && final(self).threads_count == (if old(self).threads_count == 0 {
                            usize::MAX
                        } else {
                            (old(self).threads_count - 1) as usize
                        })
                        ||| accept.ensures((t,), false) && r is None && final(self).queues() == added(q2, t, i as int, false)
                            && final(self).threads_count == old(self).threads_count
                    },
                },
    {
        let ghost q = self.queues();
        let picked = Self::get_next_thread(&mut self.ready_queues);
        let ghost q2 = self.queues();
        match picked {
            None => {
                assert(picked_from(q, picked, q2));
                None
            },
            Some((t, i)) => {
                if accept(t) {
                    self.threads_count = Self::count_down(self.threads_count);
                    assert(picked_from(q, picked, q2));
                    Some((t, i))
                } else {
                    Self::add_single_thread_to(&mut self.ready_queues, t, i, false);
                    assert(picked_from(q, picked, q2));
                    None
                }
            },
        }
    }
}

} // verus!

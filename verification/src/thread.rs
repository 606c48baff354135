//! Threads as the scheduler sees them: priorities, run states, the FIFO lists
//! that hold them, and the state changes of blocking and waking.
use vstd::prelude::*;

verus! {

/// Thread ID, a unique identifier for a thread.
pub type Tid = u32;

/// The priority that a thread was created with.
#[derive(Clone, Copy, Debug, PartialEq, Eq, Structural, Hash, PartialOrd, Ord)]
pub enum ContextPriority {
    Low,
    Medium,
    High,
    Immediate,
}

/// The priority that a caller asks for at the system-call boundary.
#[derive(Clone, Copy, Debug, PartialEq, Eq, Structural, Hash)]
pub enum RawContextPriority {
    Default,
    Low,
    Medium,
    High,
}

/// The thread priority that a requested priority stands for; the default is medium.
pub open spec fn priority_from_raw(value: RawContextPriority) -> ContextPriority {
    match value {
        RawContextPriority::Default => ContextPriority::Medium,
        RawContextPriority::High => ContextPriority::High,
        RawContextPriority::Medium => ContextPriority::Medium,
        RawContextPriority::Low => ContextPriority::Low,
    }
}

impl From<RawContextPriority> for ContextPriority {
    fn from(value: RawContextPriority) -> (r: Self) {
        match value {
            RawContextPriority::Default => ContextPriority::Medium,
            RawContextPriority::High => ContextPriority::High,
            RawContextPriority::Medium => ContextPriority::Medium,
            RawContextPriority::Low => ContextPriority::Low,
        }
    }
}

impl vstd::std_specs::convert::FromSpecImpl<RawContextPriority> for ContextPriority {
    open spec fn obeys_from_spec() -> bool {
        true
    }

    open spec fn from_spec(v: RawContextPriority) -> ContextPriority {
        priority_from_raw(v)
    }
}

/// Why a thread is blocked.
#[derive(Clone, Copy, Debug, PartialEq, Eq, Structural)]
pub enum BlockedReason {
    Waiting,
    Sleeping,
    Dead,
}

/// The run state of a thread.
#[derive(Clone, Copy, Debug, PartialEq, Eq, Structural)]
pub enum ContextStatus {
    /// Currently running.
    Running,
    /// Ready to run, but not running.
    Runnable,
    /// Blocked, and not running.
    Blocked(BlockedReason),
    /// Being blocked, and maybe still running.
    Blocking(BlockedReason),
}

/// A FIFO list of threads.
#[derive(Clone, Debug)]
pub struct ThreadList {
    pub threads: Vec<Tid>,
}

impl ThreadList {
    /// The threads, front first.
    pub open spec fn view(&self) -> Seq<Tid> {
        self.threads@
    }

    /// An empty list.
    pub fn new_empty() -> (r: Self)
        ensures
            r.view() == Seq::<Tid>::empty(),
    {
        ThreadList { threads: Vec::new() }
    }

    /// A list of the one thread `thread`.
    pub fn new_from_thread(thread: Tid) -> (r: Self)
        ensures
            r.view() == seq![thread],
    {
        let mut threads = Vec::new();
        threads.push(thread);
        ThreadList { threads }
    }

    /// The number of threads.
    pub fn len(&self) -> (r: usize)
        ensures
            r == self.view().len(),
    {
        self.threads.len()
    }

    /// Whether the list is empty.
    pub fn is_empty(&self) -> (r: bool)
        ensures
            r == (self.view().len() == 0),
    {
        self.threads.len() == 0
    }

    /// Adds `thread` at the back.
    pub fn push_back(&mut self, thread: Tid)
        ensures
            final(self).view() == old(self).view().push(thread),
    {
        self.threads.push(thread);
    }

    /// Adds `new_head` at the front.
    pub fn push_front(&mut self, new_head: Tid)
        ensures
            final(self).view() == seq![new_head] + old(self).view(),
    {
        self.threads.insert(0, new_head);
        assert(self.view() =~= seq![new_head] + old(self).view());
    }

    /// Takes the front thread.
    pub fn pop_front(&mut self) -> (r: Option<Tid>)
        ensures
            old(self).view().len() == 0 ==> r is None && final(self).view() == old(self).view(),
            old(self).view().len() > 0 ==> r == Some(old(self).view()[0]) && final(self).view()
                == old(self).view().drop_first(),
    {
        if self.threads.len() == 0 {
            None
        } else {
            let t = self.threads.remove(0);
            assert(self.view() =~= old(self).view().drop_first());
            Some(t)
        }
    }

    /// Moves the threads of `other` to the back of this list, leaving `other` empty.
    pub fn append(&mut self, other: &mut Self)
        ensures
            final(self).view() == old(self).view() + old(other).view(),
            final(other).view() == Seq::<Tid>::empty(),
    {
        self.threads.append(&mut other.threads);
    }
}

/// What waking a thread asks of the scheduler.
#[derive(Clone, Copy, Debug, PartialEq, Eq, Structural)]
pub enum WakeUp {
    /// Nothing to do: the thread is not blocked, or it is dead.
    Nothing,
    /// The thread is still blocking: wait until it is blocked, then settle with
    /// the reason it blocked for.
    WaitUntilBlocked,
    /// Schedule the thread again; a sleeping thread gets an unblocked timeout
    /// and records whether it timed out.
    Schedule { timeout_operation: bool, timeouted: bool },
}

/// What waking a thread blocked for `reason` asks of the scheduler.
pub open spec fn wake_for_spec(reason: BlockedReason, timeouted: bool) -> WakeUp {
    match reason {
        BlockedReason::Dead => WakeUp::Nothing,
        BlockedReason::Sleeping => WakeUp::Schedule { timeout_operation: true, timeouted },
        BlockedReason::Waiting => WakeUp::Schedule { timeout_operation: false, timeouted: false },
    }
}

/// What waking a thread blocked for `reason` asks of the scheduler: a dead
/// thread stays, a sleeper is unblocked from its timeout, a waiter is unblocked.
pub fn wake_for(reason: BlockedReason, timeouted: bool) -> (r: WakeUp)
    ensures
        r == wake_for_spec(reason, timeouted),
{
    match reason {
        BlockedReason::Dead => WakeUp::Nothing,
        BlockedReason::Sleeping => WakeUp::Schedule { timeout_operation: true, timeouted },
        BlockedReason::Waiting => WakeUp::Schedule { timeout_operation: false, timeouted: false },
    }
}

/// Wakes a thread, whatever it is blocked for: a blocked waiter or sleeper
/// becomes runnable and is scheduled again, a dead one stays, a thread still
/// blocking must be waited for, any other is left alone.
pub fn wake_up(status: &mut ContextStatus, timeouted: bool) -> (r: WakeUp)
    ensures
        match *old(status) {
            ContextStatus::Blocked(reason) => {
                &&& r == wake_for_spec(reason, timeouted)
                &&& *final(status) == (if reason == BlockedReason::Dead {
                    *old(status)
                } else {
                    ContextStatus::Runnable
                })
            },
            ContextStatus::Blocking(_) => r == WakeUp::WaitUntilBlocked && *final(status) == *old(status),
            _ => r == WakeUp::Nothing && *final(status) == *old(status),
        },
{
    match *status {
        ContextStatus::Blocked(reason) => {
            if reason != BlockedReason::Dead {
                *status = ContextStatus::Runnable;
            }
            wake_for(reason, timeouted)
        },
        ContextStatus::Blocking(_) => WakeUp::WaitUntilBlocked,
        _ => WakeUp::Nothing,
    }
}

/// Blocks a thread until it is woken, unless it should terminate: `true`
/// when it was blocked.
pub fn block_waiting(status: &mut ContextStatus, should_terminate: bool) -> (r: bool)
    ensures
        r == !should_terminate,
        *final(status) == (if r { ContextStatus::Blocking(BlockedReason::Waiting) } else { *old(status) }),
{
    if !should_terminate {
        *status = ContextStatus::Blocking(BlockedReason::Waiting);
        true
    } else {
        false
    }
}

/// The status change before a sleeping thread is woken by its timer: a thread
/// blocked sleeping becomes runnable and is marked as timed out; `true` then.
pub fn before_sleep_wakeup(status: &mut ContextStatus, timeouted: &mut bool) -> (r: bool)
    ensures
        r == (*old(status) == ContextStatus::Blocked(BlockedReason::Sleeping)),
        *final(status) == (if r { ContextStatus::Runnable } else { *old(status) }),
        *final(timeouted) == (if r { true } else { *old(timeouted) }),
{
    if *status == ContextStatus::Blocked(BlockedReason::Sleeping) {
        *status = ContextStatus::Runnable;
        *timeouted = true;
        true
    } else {
        false
    }
}

/// Whether a thread may move from status `from` to `to`.
pub open spec fn status_change_allowed(from: ContextStatus, to: ContextStatus) -> bool {
    ||| from == ContextStatus::Runnable
    ||| from == ContextStatus::Running
    ||| (from matches ContextStatus::Blocking(x) && to matches ContextStatus::Blocked(y) && x == y)
    ||| from == ContextStatus::Blocked(BlockedReason::Waiting)
    ||| from == ContextStatus::Blocked(BlockedReason::Sleeping)
    ||| (to == ContextStatus::Blocking(BlockedReason::Dead) && to == from)
}

/// Sets a thread's status, except that a thread being killed is never set
/// running again.
pub fn set_status(current: &mut ContextStatus, status: ContextStatus)
    requires
        !(status == ContextStatus::Running && *old(current) == ContextStatus::Blocking(BlockedReason::Dead))
            ==> status_change_allowed(*old(current), status),
    ensures
        *final(current) == (if status == ContextStatus::Running && *old(current) == ContextStatus::Blocking(
            BlockedReason::Dead,
        ) {
            *old(current)
        } else {
            status
        }),
{
    if status == ContextStatus::Running && *current == ContextStatus::Blocking(BlockedReason::Dead) {
        return;
    }
    *current = status;
}

} // verus!

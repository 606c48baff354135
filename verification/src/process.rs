//! Processes: their exit information and the information userspace asks
//! for, their resource tables, and which user pointers the kernel accepts.
use crate::addr::VirtAddr;
use crate::errors::ErrorStatus;
use crate::table::HandleTable;
use crate::thread::Tid;
use crate::wait_queue::{wake_split, WaitQueue, WakeFilter};
use vstd::prelude::*;

verus! {

/// A process ID.
pub type Pid = u32;
/// A resource ID.
pub type Ri = u32;

/// The end of the address range of processes.
pub const PROCESS_AREA_END_ADDR: u64 = 0x0000_7F00_0000_0000;

/// How a process ended.
#[derive(Clone, Copy, Debug, PartialEq, Eq, Structural)]
pub struct ExitInfo {
    pub exit_code: isize,
    pub killed_by: Pid,
}

/// What the kernel records of a process.
pub struct ProcessRecord {
    pub name: Vec<u8>,
    pub pid: Pid,
    pub ppid: Pid,
    pub exit_info: Option<ExitInfo>,
    pub is_alive: bool,
    pub wait_queue: WaitQueue,
}

/// What userspace learns of a process.
#[derive(Clone, Debug)]
pub struct ProcessInfo {
    pub name: Vec<u8>,
    pub ppid: Pid,
    pub pid: Pid,
    pub at: VirtAddr,
    pub stack_addr: VirtAddr,
    pub killed_by: Option<Pid>,
    pub exit_code: Option<isize>,
    pub is_alive: bool,
}

/// `i` describes the process `p`.
pub open spec fn describes(i: ProcessInfo, p: ProcessRecord) -> bool {
    &&& i.name@ == p.name@
    &&& i.ppid == p.ppid
    &&& i.pid == p.pid
    &&& i.at.0 == 0
    &&& i.stack_addr.0 == 0
    &&& i.killed_by == (match p.exit_info {
        Some(e) => Some(e.killed_by),
        None => None::<Pid>,
    })
    &&& i.exit_code == (match p.exit_info {
        Some(e) => Some(e.exit_code),
        None => None::<isize>,
    })
    &&& i.is_alive == p.is_alive
}

impl ProcessRecord {
    /// The information userspace learns of this process.
    pub fn info(&self) -> (r: ProcessInfo)
        ensures
            describes(r, *self),
    {
        let (exit_code, killed_by) = match self.exit_info {
            Some(i) => (Some(i.exit_code), Some(i.killed_by)),
            None => (None, None),
        };
        let name = crate::net::copy_from(self.name.as_slice(), 0);
        assert(name@ =~= self.name@);
        ProcessInfo {
            name,
            ppid: self.ppid,
            pid: self.pid,
            at: VirtAddr::null(),
            stack_addr: VirtAddr::null(),
            killed_by,
            exit_code,
            is_alive: self.is_alive,
        }
    }

    /// Records that the process ended with `exit_code`, killed by
    /// `killed_by` or by itself: it is no longer alive, and every thread
    /// waiting on it is woken (the threads returned).
    pub fn finalize_kill(&mut self, exit_code: isize, killed_by: Option<Pid>) -> (r: Vec<(Tid, u64)>)
        ensures
            final(self).exit_info == Some(
                ExitInfo {
                    exit_code,
                    killed_by: match killed_by {
                        Some(k) => k,
                        None => old(self).pid,
                    },
                },
            ),
            !final(self).is_alive,
            final(self).pid == old(self).pid,
            final(self).ppid == old(self).ppid,
            final(self).name == old(self).name,
            ({
                let w = wake_split(old(self).wait_queue.view(), WakeFilter::Any, old(self).wait_queue.view().len());
                final(self).wait_queue.view() == w.0 && r@ == w.1
            }),
    {
        let killed_by = match killed_by {
            Some(k) => k,
            None => self.pid,
        };
        self.exit_info = Some(ExitInfo { exit_code, killed_by });
        self.is_alive = false;
        self.wait_queue.wake_all()
    }
}

/// The information of the process `pid` among `processes`: that of the
/// first with that ID.
pub fn getinfo(processes: &Vec<ProcessRecord>, pid: Pid) -> (r: Option<ProcessInfo>)
    ensures
        match r {
            Some(i) => exists|k: int|
                0 <= k < processes@.len() && (#[trigger] processes@[k]).pid == pid && describes(i, processes@[k])
                    && forall|j: int| 0 <= j < k ==> (#[trigger] processes@[j]).pid != pid,
            None => forall|k: int| 0 <= k < processes@.len() ==> (#[trigger] processes@[k]).pid != pid,
        },
{
    let mut k: usize = 0;
    while k < processes.len()
        invariant
            0 <= k <= processes@.len(),
            forall|j: int| 0 <= j < k ==> (#[trigger] processes@[j]).pid != pid,
        decreases processes@.len() - k,
    {
        if processes[k].pid == pid {
            let i = processes[k].info();
            assert(processes@[k as int].pid == pid);
            return Some(i);
        }
        k = k + 1;
    }
    None
}

/// Whether the kernel accepts a user pointer to `addr`: it lies no higher
/// than the end of the process area.
pub fn ptr_is_allowed(addr: usize) -> (r: bool)
    ensures
        r == (addr <= PROCESS_AREA_END_ADDR),
{
    (addr as u64) <= PROCESS_AREA_END_ADDR
}

/// Whether a user pointer to `addr`, of a type aligned to `align`, is
/// valid: not null, aligned, and accepted.
pub fn ptr_is_valid(addr: usize, align: usize) -> (r: bool)
    requires
        align > 0,
    ensures
        r == (addr != 0 && addr % align == 0 && addr <= PROCESS_AREA_END_ADDR),
{
    addr != 0 && addr % align == 0 && ptr_is_allowed(addr)
}

/// The resources of a process: resource IDs and the handles of the
/// resources they name.
pub struct ResourceManager {
    pub resources: HandleTable,
    pub next_resource_id: Ri,
}

impl ResourceManager {
    /// The resources, by ID.
    pub open spec fn view(&self) -> Map<u64, u64> {
        self.resources.view()
    }

    /// Every ID in use lies below the next ID, so the next ID is free and an
    /// ID once removed is not handed out again.
    pub open spec fn wf(&self) -> bool {
        forall|k: u64| #[trigger] self.view().contains_key(k) ==> k < self.next_resource_id
    }

    /// A table with no resources, whose first ID is 0.
    pub fn new() -> (r: Self)
        ensures
            r.wf(),
            r.view() == Map::<u64, u64>::empty(),
            r.next_resource_id == 0,
    {
        ResourceManager { resources: HandleTable::new(), next_resource_id: 0 }
    }

    /// Adds the resource `node` under the next ID, and returns that ID.
    pub fn add_resource_node(&mut self, node: u64) -> (r: Ri)
        requires
            old(self).next_resource_id < u32::MAX,
        ensures
            r == old(self).next_resource_id,
            final(self).next_resource_id == old(self).next_resource_id + 1,
            final(self).view() == old(self).view().insert(r as u64, node),
            old(self).wf() ==> !old(self).view().contains_key(r as u64) && final(self).wf(),
    {
        let ri = self.next_resource_id;
        self.resources.insert(ri as u64, node);
        self.next_resource_id = ri + 1;
        ri
    }

    /// Adds a resource that lives as long as the process.
    pub fn add_global_resource(&mut self, node: u64) -> (r: Ri)
        requires
            old(self).next_resource_id < u32::MAX,
        ensures
            r == old(self).next_resource_id,
            final(self).next_resource_id == old(self).next_resource_id + 1,
            final(self).view() == old(self).view().insert(r as u64, node),
            old(self).wf() ==> !old(self).view().contains_key(r as u64) && final(self).wf(),
    {
        self.add_resource_node(node)
    }

    /// Removes the resource `ri`; `true` when there was one.
    pub fn remove_resource(&mut self, ri: Ri) -> (r: bool)
        ensures
            r == old(self).view().contains_key(ri as u64),
            final(self).view() == old(self).view().remove(ri as u64),
            final(self).next_resource_id == old(self).next_resource_id,
            old(self).wf() ==> final(self).wf(),
    {
        self.resources.remove(ri as u64).is_some()
    }

    /// The resource `ri`, if there is one.
    pub fn get(&self, ri: Ri) -> (r: Option<u64>)
        ensures
            r == (if self.view().contains_key(ri as u64) { Some(self.view()[ri as u64]) } else { None::<u64> }),
    {
        self.resources.get(ri as u64)
    }

    /// The resource `ri`, or `UnknownResource`.
    pub fn get_expected(&self, ri: Ri) -> (r: Result<u64, ErrorStatus>)
        ensures
            r == (if self.view().contains_key(ri as u64) {
                Ok::<u64, ErrorStatus>(self.view()[ri as u64])
            } else {
                Err::<u64, ErrorStatus>(ErrorStatus::UnknownResource)
            }),
    {
        match self.get(ri) {
            Some(n) => Ok(n),
            None => Err(ErrorStatus::UnknownResource),
        }
    }

    /// Adds `clone`, the outcome of cloning the resource `ri`, under the next
    /// ID: `None` when there is no resource `ri`, the new ID when the clone
    /// succeeded, the clone's error otherwise.
    pub fn duplicate_resource(&mut self, ri: Ri, clone: Result<u64, ErrorStatus>) -> (r: Option<Result<Ri, ErrorStatus>>)
        requires
            old(self).next_resource_id < u32::MAX,
        ensures
            !old(self).view().contains_key(ri as u64) ==> r is None && final(self).view() == old(self).view()
                && final(self).next_resource_id == old(self).next_resource_id,
            old(self).view().contains_key(ri as u64) ==> match clone {
                Ok(node) => r == Some(Ok::<Ri, ErrorStatus>(old(self).next_resource_id)) && final(self).view()
                    == old(self).view().insert(old(self).next_resource_id as u64, node)
                    && final(self).next_resource_id == old(self).next_resource_id + 1,
                Err(e) => r == Some(Err::<Ri, ErrorStatus>(e)) && final(self).view() == old(self).view()
                    && final(self).next_resource_id == old(self).next_resource_id,
            },
            old(self).wf() ==> final(self).wf() && !old(self).view().contains_key(old(self).next_resource_id as u64),
    {
        if self.get(ri).is_none() {
            return None;
        }
        match clone {
            Ok(node) => Some(Ok(self.add_resource_node(node))),
            Err(e) => Some(Err(e)),
        }
    }

    /// A table of copies of the resources `resource_ids`, where `clones[i]`
    /// is the outcome of cloning resource `resource_ids[i]` (`None` when it
    /// failed, and then it is left out); its next ID follows the largest ID
    /// taken. An empty list gives an empty table; an ID without a resource fails.
    pub fn clone_specific_resources(&self, resource_ids: &Vec<Ri>, clones: &Vec<Option<u64>>) -> (r: Result<
        ResourceManager,
        (),
    >)
        requires
            resource_ids@.len() == clones@.len(),
            forall|i: int| 0 <= i < resource_ids@.len() ==> #[trigger] resource_ids@[i] < u32::MAX,
        ensures
            (exists|i: int| 0 <= i < resource_ids@.len() && !self.view().contains_key(#[trigger] resource_ids@[i] as u64))
                <==> r is Err,
            r matches Ok(m) ==> m.wf(),
            r matches Ok(m) ==> m.view() == cloned_table(resource_ids@, clones@) && m.next_resource_id == (if resource_ids@.len()
                == 0 {
                0
            } else {
                max_cloned_id(resource_ids@, clones@) + 1
            }),
    {
        if resource_ids.len() == 0 {
            return Ok(ResourceManager::new());
        }
        let mut new_resources = HandleTable::new();
        let mut max_resource_id: Ri = 0;
        let mut k: usize = 0;
        while k < resource_ids.len()
            invariant
                0 <= k <= resource_ids@.len(),
                resource_ids@.len() == clones@.len(),
                forall|i: int| 0 <= i < k ==> self.view().contains_key(#[trigger] resource_ids@[i] as u64),
                new_resources.view() == cloned_table(resource_ids@.subrange(0, k as int), clones@.subrange(0, k as int)),
                max_resource_id == max_cloned_id(resource_ids@.subrange(0, k as int), clones@.subrange(0, k as int)),
                max_resource_id < u32::MAX,
                forall|i: int| 0 <= i < resource_ids@.len() ==> #[trigger] resource_ids@[i] < u32::MAX,
            decreases resource_ids@.len() - k,
        {
            let id = resource_ids[k];
            if self.get(id).is_none() {
                return Err(());
            }
            proof {
                let a = resource_ids@.subrange(0, k as int + 1);
                let b = clones@.subrange(0, k as int + 1);
                assert(a.drop_last() =~= resource_ids@.subrange(0, k as int));
                assert(b.drop_last() =~= clones@.subrange(0, k as int));
            }
            match clones[k] {
                Some(node) => {
                    new_resources.insert(id as u64, node);
                    if max_resource_id < id {
                        max_resource_id = id;
                    }
                },
                None => {},
            }
            k = k + 1;
        }
        assert(resource_ids@.subrange(0, resource_ids@.len() as int) =~= resource_ids@);
        assert(clones@.subrange(0, clones@.len() as int) =~= clones@);
        proof {
            lemma_cloned_below_max(resource_ids@, clones@);
        }
        Ok(ResourceManager { resources: new_resources, next_resource_id: max_resource_id + 1 })
    }
}

/// The table of the resources cloned: each ID whose clone succeeded, with its clone.
pub open spec fn cloned_table(ids: Seq<Ri>, clones: Seq<Option<u64>>) -> Map<u64, u64>
    decreases ids.len(),
{
    if ids.len() == 0 || clones.len() != ids.len() {
        Map::empty()
    } else {
        let m = cloned_table(ids.drop_last(), clones.drop_last());
        match clones.last() {
            Some(n) => m.insert(ids.last() as u64, n),
            None => m,
        }
    }
}

/// A resource ID in use lies below the next ID, which only grows: once the
/// resource is removed, no later addition or duplication hands the ID out.
pub proof fn law_removed_id_not_reused(m: ResourceManager, ri: Ri)
    requires
        m.wf(),
        m.view().contains_key(ri as u64),
    ensures
        ri < m.next_resource_id,
{
    assert(m.view().contains_key(ri as u64));
}

/// Every ID of the cloned table is at most the largest ID cloned.
pub proof fn lemma_cloned_below_max(ids: Seq<Ri>, clones: Seq<Option<u64>>)
    ensures
        forall|k: u64| #[trigger] cloned_table(ids, clones).contains_key(k) ==> k <= max_cloned_id(ids, clones),
    decreases ids.len(),
{
    if ids.len() > 0 && clones.len() == ids.len() {
        lemma_cloned_below_max(ids.drop_last(), clones.drop_last());
        let m = cloned_table(ids.drop_last(), clones.drop_last());
        let mx = max_cloned_id(ids.drop_last(), clones.drop_last());
        assert forall|k: u64| #[trigger] cloned_table(ids, clones).contains_key(k) implies k <= max_cloned_id(
            ids,
            clones,
        ) by {
            if m.contains_key(k) {
                assert(k <= mx);
            }
        }
    }
}

/// The largest ID whose clone succeeded, or 0.
pub open spec fn max_cloned_id(ids: Seq<Ri>, clones: Seq<Option<u64>>) -> Ri
    decreases ids.len(),
{
    if ids.len() == 0 || clones.len() != ids.len() {
        0
    } else {
        let m = max_cloned_id(ids.drop_last(), clones.drop_last());
        match clones.last() {
            Some(_) => if m < ids.last() { ids.last() } else { m },
            None => m,
        }
    }
}

} // verus!

verus! {

/// What a thread that waits for a process finds.
#[derive(Clone, Copy, Debug, PartialEq, Eq, Structural)]
pub enum ProcessWait {
    /// No process has that ID.
    NotFound,
    /// The process had ended; its record was removed, and this is its exit code.
    Exited(Option<isize>),
    /// The process is alive: sleep on it, then look again.
    Wait,
}

/// The index of the first process with ID `pid` among `s`, if any.
pub open spec fn first_with_pid(s: Seq<ProcessRecord>, pid: Pid) -> Option<int>
    decreases s.len(),
{
    if s.len() == 0 {
        None
    } else {
        match first_with_pid(s.drop_last(), pid) {
            Some(i) => Some(i),
            None => if s.last().pid == pid {
                Some(s.len() - 1)
            } else {
                None
            },
        }
    }
}

proof fn lemma_first_with_pid(s: Seq<ProcessRecord>, pid: Pid, k: int)
    requires
        0 <= k <= s.len(),
        forall|j: int| 0 <= j < k ==> (#[trigger] s[j]).pid != pid,
    ensures
        (k < s.len() && s[k].pid == pid) ==> first_with_pid(s, pid) == Some(k),
        k == s.len() ==> first_with_pid(s, pid) is None,
    decreases s.len(),
{
    if s.len() > 0 {
        if k < s.len() {
            lemma_first_with_pid(s.drop_last(), pid, k);
        } else {
            lemma_first_with_pid(s.drop_last(), pid, k - 1);
        }
    }
}

/// No two processes of `s` have the same ID.
pub open spec fn unique_pids(s: Seq<ProcessRecord>) -> bool {
    forall|i: int, j: int| 0 <= i < j < s.len() ==> #[trigger] s[i].pid != #[trigger] s[j].pid
}

/// Looks for the process `pid` on behalf of a thread that waits for it to
/// end: a process that ended is removed from `processes` and its exit code
/// handed back; a live one must be waited for. With unique process IDs, they
/// stay unique, and a process that was handed back is no longer found.
pub fn wait_for_process(processes: &mut Vec<ProcessRecord>, pid: Pid) -> (r: ProcessWait)
    ensures
        match first_with_pid(old(processes)@, pid) {
            None => r == ProcessWait::NotFound && final(processes)@ == old(processes)@,
            Some(i) => {
                let p = old(processes)@[i];
                if p.is_alive {
                    r == ProcessWait::Wait && final(processes)@ == old(processes)@
                } else {
                    r == ProcessWait::Exited(
                        match p.exit_info {
                            Some(e) => Some(e.exit_code),
                            None => None::<isize>,
                        },
                    ) && final(processes)@ == old(processes)@.remove(i)
                }
            },
        },
        unique_pids(old(processes)@) ==> unique_pids(final(processes)@),
        unique_pids(old(processes)@) && r is Exited ==> first_with_pid(final(processes)@, pid) is None,
{
    let mut k: usize = 0;
    while k < processes.len()
        invariant
            0 <= k <= processes@.len(),
            processes@ == old(processes)@,
            forall|j: int| 0 <= j < k ==> (#[trigger] processes@[j]).pid != pid,
        decreases processes@.len() - k,
    {
        if processes[k].pid == pid {
            proof {
                lemma_first_with_pid(processes@, pid, k as int);
            }
            if processes[k].is_alive {
                return ProcessWait::Wait;
            }
            let code = match processes[k].exit_info {
                Some(e) => Some(e.exit_code),
                None => None,
            };
            processes.remove(k);
            proof {
                let o = old(processes)@;
                let f = processes@;
                assert(f =~= o.remove(k as int));
                if unique_pids(o) {
                    assert forall|i: int, j: int| 0 <= i < j < f.len() implies #[trigger] f[i].pid != #[trigger] f[
                        j
                    ].pid by {
                        let i2 = if i < k { i } else { i + 1 };
                        let j2 = if j < k { j } else { j + 1 };
                        assert(f[i] == o[i2] && f[j] == o[j2]);
                    }
                    assert forall|j: int| 0 <= j < f.len() implies (#[trigger] f[j]).pid != pid by {
                        if j < k {
                            assert(f[j] == o[j]);
                        } else {
                            assert(f[j] == o[j + 1]);
                            assert(o[k as int].pid != o[j + 1].pid);
                        }
                    }
                    lemma_first_with_pid(f, pid, f.len() as int);
                }
            }
            return ProcessWait::Exited(code);
        }
        k = k + 1;
    }
    proof {
        lemma_first_with_pid(processes@, pid, k as int);
    }
    ProcessWait::NotFound
}

} // verus!

verus! {

/// Wakes at most `n` of the threads of `queue` that wait on the futex at
/// `target_addr`, front first, and returns how many it woke; with `n` zero
/// nothing happens.
pub fn wake_n_futexs(queue: &mut WaitQueue, target_addr: u64, n: usize) -> (r: usize)
    ensures
        n == 0 ==> r == 0 && final(queue).view() == old(queue).view(),
        n > 0 ==> ({
            let s = wake_split(old(queue).view(), WakeFilter::Equals(target_addr), n as nat);
            final(queue).view() == s.0 && r == s.1.len()
        }),
{
    if n == 0 {
        return 0;
    }
    let woken = queue.wake_n_on_condition(WakeFilter::Equals(target_addr), n);
    woken.len()
}

} // verus!

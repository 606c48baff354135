use safa_core::errors::ErrorStatus;
use safa_core::net::SocketError;
use safa_core::process::{wait_for_process, ProcessWait, getinfo, ptr_is_allowed, ptr_is_valid, ExitInfo, ProcessRecord, ResourceManager};
use safa_core::scheduler::{choose_cpu, ReadyThread, SchedulePriority, Scheduler, SwapStart, ThreadScheduleReason};
use safa_core::sockets::{
    create_socket, decode_command, LocalSocketKind, Received, RecvFlags, SockOptValue, SocketAddr, SocketCreation,
    SocketFamily, SocketKind, SocketOpt, UdpSocket,
};
use safa_core::table::HandleTable;
use safa_core::thread::{wake_up, BlockedReason, ContextPriority, ContextStatus, RawContextPriority, ThreadList, WakeUp};
use safa_core::wait_queue::{WaitError, WaitQueue, WakeFilter};

fn ready(tid: u32, priority: ContextPriority, queue_index: u32) -> ReadyThread {
    ReadyThread { tid, priority, queue_index }
}

fn queue_contents(s: &Scheduler) -> Vec<Vec<u32>> {
    s.ready_queues.iter().map(|l| l.threads.clone()).collect()
}

#[test]
fn thread_list_is_fifo() {
    let mut l = ThreadList::new_from_thread(1);
    l.push_back(2);
    l.push_front(0);
    assert_eq!(l.len(), 3);
    assert_eq!(l.pop_front(), Some(0));
    let mut other = ThreadList::new_from_thread(9);
    l.append(&mut other);
    assert!(other.is_empty());
    assert_eq!(l.threads, vec![1, 2, 9]);
}

#[test]
fn priorities_from_requests() {
    assert_eq!(ContextPriority::from(RawContextPriority::Default), ContextPriority::Medium);
    assert_eq!(ContextPriority::from(RawContextPriority::High), ContextPriority::High);
    assert_eq!(ContextPriority::from(RawContextPriority::Low), ContextPriority::Low);
}

#[test]
fn schedule_priority_time_accounting() {
    let mut p = SchedulePriority::new();
    assert!(p.has_time());
    p.update_time(10);
    assert_eq!(p.time_used, None);
    p.update_time(15);
    assert_eq!(p.time_used, Some(5));
    assert!(p.has_time()); // level 0 has 6 ms
    p.update_time(16);
    assert!(!p.has_time());
    assert_eq!(p.get_next_priority_queue(), 1);
    assert_eq!(p.time_used, None);
    let mut low = SchedulePriority { queue_index: 4, time_used: Some(100), last_scheduled: None };
    assert_eq!(low.get_next_priority_queue(), 4);
}

#[test]
fn ready_queues_pick_most_urgent_first() {
    let mut s = Scheduler::new(0);
    Scheduler::add_single_thread(&mut s.ready_queues, ready(1, ContextPriority::Medium, 2));
    Scheduler::add_single_thread(&mut s.ready_queues, ready(2, ContextPriority::Medium, 1));
    Scheduler::add_single_thread(&mut s.ready_queues, ready(3, ContextPriority::Immediate, 3));
    Scheduler::add_single_thread(&mut s.ready_queues, ready(4, ContextPriority::Medium, 1));
    assert_eq!(Scheduler::get_next_thread(&mut s.ready_queues), Some((3, 0)));
    assert_eq!(Scheduler::get_next_thread(&mut s.ready_queues), Some((2, 1)));
    assert_eq!(Scheduler::get_next_thread(&mut s.ready_queues), Some((4, 1)));
    assert_eq!(Scheduler::get_next_thread(&mut s.ready_queues), Some((1, 2)));
    assert_eq!(Scheduler::get_next_thread(&mut s.ready_queues), None);
}

#[test]
fn boost_moves_everything_to_top_in_order() {
    let mut s = Scheduler::new(0);
    Scheduler::add_single_thread(&mut s.ready_queues, ready(1, ContextPriority::Low, 3));
    Scheduler::add_single_thread(&mut s.ready_queues, ready(2, ContextPriority::Low, 1));
    Scheduler::add_single_thread(&mut s.ready_queues, ready(3, ContextPriority::Low, 1));
    Scheduler::try_boost_threads(&mut s.ready_queues, 301);
    assert_eq!(queue_contents(&s), vec![vec![], vec![2, 3], vec![], vec![1], vec![]]);
    Scheduler::try_boost_threads(&mut s.ready_queues, 600);
    assert_eq!(queue_contents(&s), vec![vec![2, 3, 1], vec![], vec![], vec![], vec![]]);
}

#[test]
fn sleepers_wake_at_their_time() {
    let mut s = Scheduler::new(0);
    s.schedule_thread(ready(5, ContextPriority::Medium, 0), ThreadScheduleReason::SleepUntil(50));
    s.schedule_thread(ready(6, ContextPriority::Medium, 2), ThreadScheduleReason::SleepUntil(20));
    assert_eq!(s.next_wake_time, 20);
    assert!(s.try_wake_waiting_threads(10, None).is_empty());
    let woken = s.try_wake_waiting_threads(30, None);
    assert_eq!(woken.iter().map(|t| t.tid).collect::<Vec<_>>(), vec![6]);
    assert_eq!(queue_contents(&s)[2], vec![6]);
    assert_eq!(s.waiting_threads.len(), 1);
    // an early wake-up takes the sleeper out of the waiting threads
    s.schedule_thread(ready(5, ContextPriority::Medium, 0), ThreadScheduleReason::UnblockTimeoutOperation);
    assert!(s.waiting_threads.is_empty());
    assert_eq!(queue_contents(&s)[0], vec![5]);
}

#[test]
fn new_and_dead_threads_are_counted() {
    let mut s = Scheduler::new(0);
    let before = s.threads_count;
    s.schedule_thread(ready(7, ContextPriority::High, 0), ThreadScheduleReason::NewThread);
    assert_eq!(s.threads_count, before + 1);
    s.schedule_thread(ready(7, ContextPriority::High, 0), ThreadScheduleReason::Cleanup);
    assert_eq!(s.threads_count, before);
    assert_eq!(s.awaiting_cleanup.threads, vec![7]);
}

#[test]
fn context_switch_round_robin() {
    let mut s = Scheduler::new(0);
    s.schedule_thread(ready(1, ContextPriority::Medium, 0), ThreadScheduleReason::NewThread);
    s.schedule_thread(ready(2, ContextPriority::Medium, 0), ThreadScheduleReason::NewThread);

    // the idle thread runs: it is not requeued, thread 1 is picked
    let mut idle = SchedulePriority::new();
    let (picked, push_to) = match s.begin_swap(&mut idle, true, 5) {
        SwapStart::Swap { picked, push_to } => (picked, push_to),
        SwapStart::NoSwap => panic!("expected a switch"),
    };
    assert_eq!(picked, Some((1, 0)));
    assert_eq!(push_to, None);
    let mut status = ContextStatus::Running;
    let end = s.finish_swap(&mut status, false, false, push_to, picked);
    assert_eq!(end.next, 1);
    assert!(!end.cleanup);
    assert_eq!(s.current_thread, 1);

    // thread 1 used its time: it goes back behind thread 2
    let mut one = SchedulePriority { queue_index: 0, time_used: None, last_scheduled: Some(5) };
    let (picked, push_to) = match s.begin_swap(&mut one, false, 12) {
        SwapStart::Swap { picked, push_to } => (picked, push_to),
        SwapStart::NoSwap => panic!("expected a switch"),
    };
    assert_eq!(picked, Some((2, 0)));
    assert_eq!(push_to, Some(1));
    let mut status = ContextStatus::Running;
    let end = s.finish_swap(&mut status, false, false, push_to, picked);
    assert_eq!(status, ContextStatus::Runnable);
    assert_eq!(end.next, 2);
    assert_eq!(queue_contents(&s)[1], vec![1]);

    // thread 2 still has time and does not ask to yield
    let mut two = SchedulePriority { queue_index: 0, time_used: None, last_scheduled: Some(12) };
    assert!(matches!(s.begin_swap(&mut two, false, 13), SwapStart::NoSwap));
}

#[test]
fn dying_thread_is_cleaned_up() {
    let mut s = Scheduler::new(0);
    s.schedule_thread(ready(1, ContextPriority::Medium, 0), ThreadScheduleReason::NewThread);
    s.current_thread = 1;
    let count = s.threads_count;
    let mut status = ContextStatus::Blocking(BlockedReason::Dead);
    let end = s.finish_swap(&mut status, true, true, Some(0), None);
    assert!(end.cleanup);
    assert_eq!(end.next, 0);
    assert_eq!(status, ContextStatus::Blocked(BlockedReason::Dead));
    assert_eq!(s.awaiting_cleanup.threads, vec![1]);
    assert_eq!(s.threads_count, count - 1);
}

#[test]
fn wake_up_statuses() {
    let mut st = ContextStatus::Blocked(BlockedReason::Waiting);
    assert_eq!(wake_up(&mut st, true), WakeUp::Schedule { timeout_operation: false, timeouted: false });
    assert_eq!(st, ContextStatus::Runnable);
    let mut sleeping = ContextStatus::Blocked(BlockedReason::Sleeping);
    assert_eq!(wake_up(&mut sleeping, true), WakeUp::Schedule { timeout_operation: true, timeouted: true });
    let mut dead = ContextStatus::Blocked(BlockedReason::Dead);
    assert_eq!(wake_up(&mut dead, false), WakeUp::Nothing);
    assert_eq!(dead, ContextStatus::Blocked(BlockedReason::Dead));
    let mut blocking = ContextStatus::Blocking(BlockedReason::Waiting);
    assert_eq!(wake_up(&mut blocking, false), WakeUp::WaitUntilBlocked);
}

#[test]
fn wait_queue_wakes_in_order() {
    let mut q = WaitQueue::new();
    q.threads.push((1, 10));
    q.threads.push((2, 20));
    q.threads.push((3, 10));
    q.threads.push((4, 10));
    let woken = q.wake_n_on_condition(WakeFilter::Equals(10), 2);
    assert_eq!(woken, vec![(1, 10), (3, 10)]);
    assert_eq!(q.len(), 2);
    assert_eq!(q.try_pop_one(WakeFilter::Any), Some((2, 20)));
    assert_eq!(q.wake_all(), vec![(4, 10)]);
    assert!(q.is_empty());
    assert_eq!(q.try_pop_one(WakeFilter::Any), None);
}

#[test]
fn wait_queue_finish() {
    let mut q = WaitQueue::new();
    q.threads.push((1, 0));
    q.threads.push((2, 0));
    q.threads.push((3, 0));
    assert_eq!(q.finish_wait(1, true, false), Err(WaitError::ForceTerminated));
    assert_eq!(q.len(), 2);
    assert_eq!(q.threads.get(0), (3, 0));
    assert_eq!(q.finish_wait(2, false, true), Err(WaitError::Timeout));
    assert_eq!(q.finish_wait(3, false, false), Ok(()));
    assert_eq!(q.len(), 1);
}

#[test]
fn process_info_and_kill() {
    let mut q = WaitQueue::new();
    q.threads.push((8, 0));
    let mut p = ProcessRecord { name: b"init".to_vec(), pid: 1, ppid: 0, exit_info: None, is_alive: true, wait_queue: q };
    let woken = p.finalize_kill(3, None);
    assert_eq!(woken, vec![(8, 0)]);
    assert_eq!(p.exit_info, Some(ExitInfo { exit_code: 3, killed_by: 1 }));
    let other =
        ProcessRecord { name: b"sh".to_vec(), pid: 2, ppid: 1, exit_info: None, is_alive: true, wait_queue: WaitQueue::new() };
    let list = vec![p, other];
    let info = getinfo(&list, 1).unwrap();
    assert_eq!(info.name, b"init".to_vec());
    assert_eq!(info.exit_code, Some(3));
    assert_eq!(info.killed_by, Some(1));
    assert!(!info.is_alive);
    assert_eq!(getinfo(&list, 2).unwrap().ppid, 1);
    assert!(getinfo(&list, 3).is_none());
}

#[test]
fn user_pointers() {
    assert!(ptr_is_allowed(0x7F00_0000_0000));
    assert!(!ptr_is_allowed(0x7F00_0000_0001));
    assert!(ptr_is_valid(0x1000, 8));
    assert!(!ptr_is_valid(0, 8));
    assert!(!ptr_is_valid(0x1004, 8));
}

#[test]
fn resources() {
    let mut r = ResourceManager::new();
    assert_eq!(r.add_resource_node(100), 0);
    assert_eq!(r.add_global_resource(101), 1);
    assert_eq!(r.get(1), Some(101));
    assert_eq!(r.get_expected(5), Err(ErrorStatus::UnknownResource));
    assert_eq!(r.duplicate_resource(0, Ok(200)), Some(Ok(2)));
    assert_eq!(r.duplicate_resource(0, Err(ErrorStatus::Generic)), Some(Err(ErrorStatus::Generic)));
    assert_eq!(r.duplicate_resource(9, Ok(1)), None);
    assert!(r.remove_resource(1));
    assert!(!r.remove_resource(1));
    // a removed ID is not handed out again
    assert_eq!(r.add_resource_node(102), 3);
    assert_eq!(r.get(1), None);
    assert_eq!(r.get(2), Some(200));

    let copy = r.clone_specific_resources(&vec![0, 2], &vec![Some(300), None]).unwrap();
    assert_eq!(copy.get(0), Some(300));
    assert_eq!(copy.get(2), None);
    assert_eq!(copy.next_resource_id, 1);
    assert!(r.clone_specific_resources(&vec![1], &vec![Some(1)]).is_err());
    let empty = r.clone_specific_resources(&vec![], &vec![]).unwrap();
    assert_eq!(empty.next_resource_id, 0);
}

#[test]
fn socket_creation() {
    let mut pings = 0u16;
    assert_eq!(
        create_socket(SocketFamily::Local, SocketKind::Stream, 0, &mut pings),
        Ok(SocketCreation::Local(LocalSocketKind::Stream))
    );
    assert_eq!(create_socket(SocketFamily::Net, SocketKind::Datagram, 17, &mut pings), Ok(SocketCreation::Udp));
    assert_eq!(create_socket(SocketFamily::Net, SocketKind::Datagram, 1, &mut pings), Ok(SocketCreation::Icmp(0)));
    assert_eq!(create_socket(SocketFamily::Net, SocketKind::Datagram, 1, &mut pings), Ok(SocketCreation::Icmp(1)));
    assert_eq!(
        create_socket(SocketFamily::Net, SocketKind::Stream, 6, &mut pings),
        Err(ErrorStatus::TypeMismatch)
    );
    assert_eq!(pings, 2);
    assert_eq!(decode_command(0x8003), Ok((true, SocketOpt::IpTTL)));
    assert_eq!(decode_command(1), Ok((false, SocketOpt::ReadTimeout)));
    assert_eq!(decode_command(9), Err(ErrorStatus::InvalidCommand));
    assert_eq!(SocketError::WouldBlockEmpty.into_err(), ErrorStatus::WouldBlock);
    assert_eq!(SocketError::from_wait_error(WaitError::Timeout), SocketError::Timeout);
}

#[test]
fn udp_socket_flow() {
    let mut ports = HandleTable::new();
    let mut s = UdpSocket::create(true);
    assert_eq!(s.send_target().unwrap_err(), SocketError::ConnectionClosed);
    s.connect(SocketAddr::Ip { addr: [10, 0, 0, 9], port: 53 }).unwrap();
    assert_eq!(s.send_target().unwrap_err(), SocketError::NotBound);
    s.bind(SocketAddr::Ip { addr: [0, 0, 0, 0], port: 4000 }, &mut ports, 11).unwrap();
    assert_eq!(s.send_target(), Ok(([10, 0, 0, 9], 53, 4000, 64)));
    let mut t = UdpSocket::create(false);
    assert_eq!(
        t.bind(SocketAddr::Ip { addr: [0, 0, 0, 0], port: 4000 }, &mut ports, 12),
        Err(SocketError::AddressInUse)
    );
    assert_eq!(t.bind(SocketAddr::Abstract(1), &mut ports, 12), Err(SocketError::OperationNotSupported));

    s.set_sock_opt(SocketOpt::IpTTL, 0x140).unwrap();
    assert_eq!(s.get_sock_opt(SocketOpt::IpTTL), SockOptValue::Ttl(0x40));
    s.set_sock_opt(SocketOpt::ReadTimeout, 0).unwrap();
    assert_eq!(s.get_sock_opt(SocketOpt::ReadTimeout), SockOptValue::Timeout(None));

    let flags = RecvFlags { dont_wait: false, peek: false };
    assert!(matches!(s.recv_from(100, flags), Ok(Received::Wait)));
    assert_eq!(
        s.recv_from(100, RecvFlags { dont_wait: true, peek: false }).err(),
        Some(SocketError::WouldBlockEmpty)
    );
    s.wait_queue.threads.push((5, 0));
    let (n, woken, was_empty) = s.write([10, 0, 0, 9], 53, b"hello");
    assert_eq!(n, 5);
    assert_eq!(woken, vec![(5, 0)]);
    assert!(was_empty);
    match s.recv_from(3, RecvFlags { dont_wait: false, peek: true }) {
        Ok(Received::Data { data, src_port, .. }) => {
            assert_eq!(data, b"hel".to_vec());
            assert_eq!(src_port, 53);
        }
        _ => panic!("expected data"),
    }
    match s.recv_from(100, flags) {
        Ok(Received::Data { data, src_ip, drained, .. }) => {
            assert_eq!(data, b"hello".to_vec());
            assert_eq!(src_ip, [10, 0, 0, 9]);
            assert!(drained);
        }
        _ => panic!("expected data"),
    }
    s.on_close(&mut ports);
    assert_eq!(ports.len(), 0);
    assert!(s.binded_to.is_none());
}

#[test]
fn udp_datagrams_come_back_in_order() {
    let mut s = UdpSocket::create(false);
    let (_, _, first_was_empty) = s.write([1, 1, 1, 1], 10, b"one");
    let (_, _, second_was_empty) = s.write([2, 2, 2, 2], 20, b"two!");
    assert!(first_was_empty);
    assert!(!second_was_empty);
    let flags = RecvFlags { dont_wait: true, peek: false };
    match s.recv_from(64, flags) {
        Ok(Received::Data { data, src_ip, src_port, drained }) => {
            assert_eq!(data, b"one".to_vec());
            assert_eq!((src_ip, src_port), ([1, 1, 1, 1], 10));
            assert!(!drained);
        }
        _ => panic!("expected data"),
    }
    match s.recv_from(64, flags) {
        Ok(Received::Data { data, src_ip, src_port, drained }) => {
            assert_eq!(data, b"two!".to_vec());
            assert_eq!((src_ip, src_port), ([2, 2, 2, 2], 20));
            assert!(drained);
        }
        _ => panic!("expected data"),
    }
    assert_eq!(s.recv_from(64, flags).err(), Some(SocketError::WouldBlockEmpty));
}

#[test]
fn waiting_for_a_process() {
    let mk = |pid: u32, alive: bool| ProcessRecord {
        name: b"p".to_vec(),
        pid,
        ppid: 0,
        exit_info: if alive { None } else { Some(ExitInfo { exit_code: 7, killed_by: pid }) },
        is_alive: alive,
        wait_queue: WaitQueue::new(),
    };
    let mut list = vec![mk(1, true), mk(2, false), mk(3, true)];
    assert_eq!(wait_for_process(&mut list, 9), ProcessWait::NotFound);
    assert_eq!(wait_for_process(&mut list, 1), ProcessWait::Wait);
    assert_eq!(list.len(), 3);
    assert_eq!(wait_for_process(&mut list, 2), ProcessWait::Exited(Some(7)));
    assert_eq!(list.iter().map(|p| p.pid).collect::<Vec<_>>(), vec![1, 3]);
    assert_eq!(wait_for_process(&mut list, 2), ProcessWait::NotFound);
}

#[test]
fn new_threads_go_to_least_loaded_cpu() {
    assert_eq!(choose_cpu(Some(1), &vec![5, 9, 0]), 1);
    assert_eq!(choose_cpu(Some(3), &vec![5, 2, 2]), 1);
    assert_eq!(choose_cpu(None, &vec![4, 3, 3, 8]), 1);
    assert_eq!(choose_cpu(None, &vec![0]), 0);
}

#[test]
fn giving_up_a_thread() {
    let mut s = Scheduler::new(0);
    s.schedule_thread(ready(1, ContextPriority::Medium, 1), ThreadScheduleReason::NewThread);
    s.schedule_thread(ready(2, ContextPriority::Medium, 1), ThreadScheduleReason::NewThread);
    let count = s.threads_count;
    assert_eq!(s.try_giveup_thread(|_| false), None);
    assert_eq!(queue_contents(&s)[1], vec![2, 1]);
    assert_eq!(s.threads_count, count);
    assert_eq!(s.try_giveup_thread(|t| t == 2), Some((2, 1)));
    assert_eq!(queue_contents(&s)[1], vec![1]);
    assert_eq!(s.threads_count, count - 1);
}

#[test]
fn futex_wakeups() {
    use_futex_queue();
}

fn use_futex_queue() {
    let mut q = WaitQueue::new();
    q.threads.push((1, 0x1000));
    q.threads.push((2, 0x2000));
    q.threads.push((3, 0x1000));
    q.threads.push((4, 0x1000));
    assert_eq!(safa_core::process::wake_n_futexs(&mut q, 0x1000, 0), 0);
    assert_eq!(q.len(), 4);
    assert_eq!(safa_core::process::wake_n_futexs(&mut q, 0x1000, 2), 2);
    assert_eq!(q.len(), 2);
    assert_eq!(q.threads.get(0), (2, 0x2000));
    assert_eq!(safa_core::process::wake_n_futexs(&mut q, 0x1000, 5), 1);
    assert_eq!(safa_core::process::wake_n_futexs(&mut q, 0x3000, 5), 0);
}

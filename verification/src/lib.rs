//! Verified core logic of the SafaOS kernel and its tools: address arithmetic,
//! the virtual memory region manager, the buddy heap allocator, scheduling
//! decisions, packet codecs, the build helper's toolchain naming rules, and
//! the userspace programs' logic (DHCP client, calculator, terminal screen).
use vstd::prelude::*;

pub mod addr;
pub mod errors;
pub mod paging;
pub mod vmm;
pub mod buddy;
pub mod net;
pub mod table;
pub mod udp;
pub mod arp;
pub mod thread;
pub mod scheduler;
pub mod process_mem;
pub mod elf;
pub mod threads;
pub mod wait_queue;
pub mod vtty;
pub mod decimal;
pub mod percpu;
pub mod timer;
pub mod sockets;
pub mod process;
pub mod toolchain;
pub mod dhcp;
pub mod calculator;
pub mod digest;
pub mod terminal;
pub mod dock;
pub mod journal;
pub mod page_table;
pub mod address_space;

//! Time from the CPU's cycle counter: instants, elapsed durations, and their
//! display.
use crate::decimal::{decimal, push_decimal};
use vstd::prelude::*;

verus! {

/// Nanoseconds in a second.
pub const NANO_SECONDS_PER_SECOND: u32 = 1_000_000_000;

/// An instant, as a reading of the CPU's cycle counter.
#[derive(Clone, Copy, Debug, PartialEq, Eq, Structural)]
pub struct SystemInstant {
    pub cpu_cycles: u64,
}

/// The nanoseconds that `cycles` cycles take at `frequency_mhz` MHz.
pub open spec fn nanos_of(cycles: int, frequency_mhz: int) -> int {
    (cycles * 1000) / frequency_mhz
}

/// The distance between two counter readings.
pub open spec fn abs_diff(a: u64, b: u64) -> int {
    if a >= b { a - b } else { b - a }
}

impl SystemInstant {
    /// The instant of boot: counter zero.
    pub fn boot() -> (r: Self)
        ensures
            r.cpu_cycles == 0,
    {
        SystemInstant { cpu_cycles: 0 }
    }

    /// The instant of the counter reading `cpu_cycles`.
    pub fn now(cpu_cycles: u64) -> (r: Self)
        ensures
            r.cpu_cycles == cpu_cycles,
    {
        SystemInstant { cpu_cycles }
    }

    /// The time between this instant and `other`, as whole seconds and
    /// nanoseconds, for a counter of `frequency_mhz` MHz.
    pub fn elapsed_from(&self, other: &Self, frequency_mhz: u64) -> (r: (u64, u32))
        requires
            frequency_mhz > 0,
            abs_diff(self.cpu_cycles, other.cpu_cycles) * 1000 <= u64::MAX,
        ensures
            ({
                let total = nanos_of(abs_diff(self.cpu_cycles, other.cpu_cycles), frequency_mhz as int);
                r.0 == total / 1_000_000_000 && r.1 == total % 1_000_000_000
            }),
    {
        let cycles = if self.cpu_cycles >= other.cpu_cycles {
            self.cpu_cycles - other.cpu_cycles
        } else {
            other.cpu_cycles - self.cpu_cycles
        };
        let total_nanos = (cycles * 1000) / frequency_mhz;
        let seconds = total_nanos / NANO_SECONDS_PER_SECOND as u64;
        let sub_nano_seconds = (total_nanos % NANO_SECONDS_PER_SECOND as u64) as u32;
        (seconds, sub_nano_seconds)
    }

    /// The time since this instant, to the counter reading `now_cycles`.
    pub fn elapsed(&self, now_cycles: u64, frequency_mhz: u64) -> (r: (u64, u32))
        requires
            frequency_mhz > 0,
            abs_diff(self.cpu_cycles, now_cycles) * 1000 <= u64::MAX,
        ensures
            ({
                let total = nanos_of(abs_diff(self.cpu_cycles, now_cycles), frequency_mhz as int);
                r.0 == total / 1_000_000_000 && r.1 == total % 1_000_000_000
            }),
    {
        self.elapsed_from(&SystemInstant::now(now_cycles), frequency_mhz)
    }
}

/// The milliseconds since boot at the counter reading `now_cycles`.
pub fn time_since_boot_ms(now_cycles: u64, frequency_mhz: u64) -> (r: u64)
    requires
        frequency_mhz > 0,
        now_cycles * 1000 <= u64::MAX,
    ensures
        r == nanos_of(now_cycles as int, frequency_mhz as int) / 1_000_000,
{
    let (secs, nanos) = SystemInstant::boot().elapsed(now_cycles, frequency_mhz);
    let ghost total = nanos_of(now_cycles as int, frequency_mhz as int);
    assert(secs * 1000 + nanos / 1_000_000 == total / 1_000_000) by (nonlinear_arith)
        requires
            secs == total / 1_000_000_000,
            nanos == total % 1_000_000_000,
            total >= 0,
    ;
    assert(total <= u64::MAX) by (nonlinear_arith)
        requires
            total == (now_cycles * 1000) / (frequency_mhz as int),
            frequency_mhz > 0,
            now_cycles * 1000 <= u64::MAX,
    ;
    secs * 1000 + (nanos / 1_000_000) as u64
}

/// A duration, for display.
#[derive(Clone, Copy, Debug, PartialEq, Eq, Structural)]
pub struct DurationFmt {
    pub secs: u64,
    pub nanos: u32,
}

/// A duration shown as its non-zero parts among seconds, milliseconds and
/// microseconds, like `1s:250ms:3us`.
pub open spec fn duration_text(secs: u64, nanos: u32) -> Seq<u8> {
    let millis = nanos / 1_000_000;
    let micros = (nanos / 1000) % 1000;
    let s = if secs != 0 { decimal(secs as nat) + seq![0x73u8] } else { Seq::empty() };
    let m = if millis != 0 {
        (if secs != 0 { seq![0x3Au8] } else { Seq::empty() }) + decimal(millis as nat) + seq![0x6Du8, 0x73]
    } else {
        Seq::empty()
    };
    let u = if micros != 0 {
        (if millis != 0 || secs != 0 { seq![0x3Au8] } else { Seq::empty() }) + decimal(micros as nat) + seq![0x75u8, 0x73]
    } else {
        Seq::empty()
    };
    s + m + u
}

impl DurationFmt {
    /// A duration of `secs` seconds and `nanos` nanoseconds.
    pub fn new(secs: u64, nanos: u32) -> (r: Self)
        ensures
            r.secs == secs && r.nanos == nanos,
    {
        DurationFmt { secs, nanos }
    }

    /// The duration as text; see [`duration_text`].
    pub fn to_string(&self) -> (r: Vec<u8>)
        ensures
            r@ == duration_text(self.secs, self.nanos),
    {
        let seconds = self.secs;
        let millis = self.nanos / 1_000_000;
        let micros = (self.nanos / 1000) % 1000;
        let mut out: Vec<u8> = Vec::new();
        if seconds != 0 {
            push_decimal(&mut out, seconds);
            out.push(0x73);
        }
        let ghost after_s = out@;
        if millis != 0 {
            if seconds != 0 {
                out.push(0x3A);
            }
            push_decimal(&mut out, millis as u64);
            out.push(0x6D);
            out.push(0x73);
        }
        let ghost after_m = out@;
        if micros != 0 {
            if millis != 0 || seconds != 0 {
                out.push(0x3A);
            }
            push_decimal(&mut out, micros as u64);
            out.push(0x75);
            out.push(0x73);
        }
        assert(out@ =~= duration_text(self.secs, self.nanos));
        out
    }
}

} // verus!

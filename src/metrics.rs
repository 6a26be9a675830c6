//! System- and process-level resource metrics.
//!
//! The caller reads the kernel's counters (CPU times in clock ticks, memory in
//! bytes) and hands them in; this module keeps the previous readings, works
//! out the usage since then, and formats each metric as text.
use vstd::prelude::*;

verus! {

/// One metric as a name and a formatted value.
#[derive(Debug)]
pub struct ResourceMetric {
    pub name: String,
    pub value: String,
}

/// The CPU times of the whole system since boot, in clock ticks. The last
/// three are missing on old kernels.
#[derive(Clone, Copy, Debug, PartialEq, Eq, Structural)]
pub struct CpuSample {
    pub user: u64,
    pub nice: u64,
    pub system: u64,
    pub idle: u64,
    pub iowait: Option<u64>,
    pub irq: Option<u64>,
    pub softirq: Option<u64>,
}

/// The system's memory counters, in bytes.
#[derive(Clone, Copy, Debug, PartialEq, Eq, Structural)]
pub struct MemorySample {
    pub mem_total: u64,
    pub mem_free: u64,
    pub buffers: u64,
    pub cached: u64,
    pub slab: u64,
}

/// This process's CPU times in clock ticks, and its memory in bytes.
#[derive(Clone, Copy, Debug, PartialEq, Eq, Structural)]
pub struct ProcessSample {
    pub utime: u64,
    pub stime: u64,
    pub vsize: u64,
    pub rss_bytes: u64,
}

/// `a + b`, held at the largest value.
pub open spec fn sat_add(a: u64, b: u64) -> u64 {
    if a + b > u64::MAX {
        u64::MAX
    } else {
        (a + b) as u64
    }
}

/// `a - b`, held at zero.
pub open spec fn sat_sub(a: u64, b: u64) -> u64 {
    if a < b {
        0
    } else {
        (a - b) as u64
    }
}

pub open spec fn or_zero(o: Option<u64>) -> u64 {
    match o {
        Some(v) => v,
        None => 0,
    }
}

/// Ticks the system spent idle or waiting for I/O.
pub open spec fn idle_ticks(c: CpuSample) -> u64 {
    sat_add(c.idle, or_zero(c.iowait))
}

/// Ticks the system spent in user, nice, system and interrupt time.
pub open spec fn active_ticks(c: CpuSample) -> u64 {
    sat_add(
        sat_add(sat_add(sat_add(c.user, c.nice), c.system), or_zero(c.irq)),
        or_zero(c.softirq),
    )
}

pub open spec fn total_ticks(c: CpuSample) -> u64 {
    sat_add(idle_ticks(c), active_ticks(c))
}

/// Memory used by kernel caches.
pub open spec fn cached_bytes(m: MemorySample) -> u64 {
    sat_add(sat_add(m.buffers, m.cached), m.slab)
}

/// Memory in use, kernel caches left out.
pub open spec fn used_bytes(m: MemorySample) -> u64 {
    sat_sub(sat_sub(m.mem_total, m.mem_free), cached_bytes(m))
}

/// The text of a number in decimal.
pub open spec fn decimal(n: nat) -> Seq<char>
    decreases n,
{
    if n < 10 {
        seq![(48 + n) as char]
    } else {
        decimal(n / 10).push((48 + n % 10) as char)
    }
}

/// The text of the percentage `part / whole` to one decimal place, rounded to
/// the nearest tenth, halves up; `NaN%` for `0 / 0` and `inf%` for any other
/// share of zero.
pub open spec fn percent_text(part: u64, whole: u64) -> Seq<char> {
    if whole == 0 {
        if part == 0 {
            seq!['N', 'a', 'N', '%']
        } else {
            seq!['i', 'n', 'f', '%']
        }
    } else {
        let tenths = ((part as nat) * 1000 + (whole as nat) / 2) / (whole as nat);
        decimal(tenths / 10) + seq!['.'] + decimal(tenths % 10) + seq!['%']
    }
}

/// The digit for `d`, below ten.
fn digit(d: u128) -> (r: &'static str)
    requires
        d < 10,
    ensures
        r@ == seq![(48 + d) as char],
{
    let r = match d {
        0 => {
            proof {
                reveal_strlit("0");
            }
            "0"
        },
        1 => {
            proof {
                reveal_strlit("1");
            }
            "1"
        },
        2 => {
            proof {
                reveal_strlit("2");
            }
            "2"
        },
        3 => {
            proof {
                reveal_strlit("3");
            }
            "3"
        },
        4 => {
            proof {
                reveal_strlit("4");
            }
            "4"
        },
        5 => {
            proof {
                reveal_strlit("5");
            }
            "5"
        },
        6 => {
            proof {
                reveal_strlit("6");
            }
            "6"
        },
        7 => {
            proof {
                reveal_strlit("7");
            }
            "7"
        },
        8 => {
            proof {
                reveal_strlit("8");
            }
            "8"
        },
        _ => {
            proof {
                reveal_strlit("9");
            }
            "9"
        },
    };
    assert(r@ =~= seq![(48 + d) as char]);
    r
}

/// The number in decimal, no sign, no leading zeros.
fn decimal_string(n: u128) -> (r: String)
    ensures
        r@ == decimal(n as nat),
    decreases n,
{
    if n < 10 {
        String::from_str(digit(n))
    } else {
        let mut s = decimal_string(n / 10);
        let ghost before = s@;
        s.append(digit(n % 10));
        assert(s@ =~= before.push((48 + n % 10) as char));
        s
    }
}

/// The names of the six metrics, in the order they are given.
pub open spec fn metric_name(i: int) -> Seq<char> {
    if i == 0 {
        seq!['r', 'e', 's', 'o', 'u', 'r', 'c', 'e', '.', 's', 'y', 's', 't', 'e', 'm', '.', 'c', 'p', 'u']
    } else if i == 1 {
        seq!['r', 'e', 's', 'o', 'u', 'r', 'c', 'e', '.', 's', 'y', 's', 't', 'e', 'm', '.', 'm', 'e', 'm', 'o', 'r', 'y', '.', 'u', 's', 'e', 'd']
    } else if i == 2 {
        seq!['r', 'e', 's', 'o', 'u', 'r', 'c', 'e', '.', 's', 'y', 's', 't', 'e', 'm', '.', 'm', 'e', 'm', 'o', 'r', 'y', '.', 'c', 'a', 'c', 'h', 'e', 'd']
    } else if i == 3 {
        seq!['r', 'e', 's', 'o', 'u', 'r', 'c', 'e', '.', 'p', 'r', 'o', 'c', 'e', 's', 's', '.', 'c', 'p', 'u']
    } else if i == 4 {
        seq!['r', 'e', 's', 'o', 'u', 'r', 'c', 'e', '.', 'p', 'r', 'o', 'c', 'e', 's', 's', '.', 'm', 'e', 'm', 'o', 'r', 'y', '.', 'u', 's', 'e', 'd']
    } else {
        seq!['r', 'e', 's', 'o', 'u', 'r', 'c', 'e', '.', 'p', 'r', 'o', 'c', 'e', 's', 's', '.', 'm', 'e', 'm', 'o', 'r', 'y', '.', 'v', 'i', 'r', 't', 'u', 'a', 'l', '_', 'm', 'i', 'b']
    }
}

/// A share of a whole.
#[derive(Clone, Copy, Debug, PartialEq, Eq, Structural)]
struct Percentage {
    part: u64,
    whole: u64,
}

impl Percentage {
    fn as_metric(&self, name: &str) -> (r: ResourceMetric)
        ensures
            r.name@ == name@,
            r.value@ == percent_text(self.part, self.whole),
    {
        let value = if self.whole == 0 {
            if self.part == 0 {
                proof {
                    reveal_strlit("NaN%");
                }
                let v = String::from_str("NaN%");
                assert(v@ =~= percent_text(self.part, self.whole));
                v
            } else {
                proof {
                    reveal_strlit("inf%");
                }
                let v = String::from_str("inf%");
                assert(v@ =~= percent_text(self.part, self.whole));
                v
            }
        } else {
            let part = self.part as u128;
            let whole = self.whole as u128;
            assert(part * 1000 <= u64::MAX as u128 * 1000) by (nonlinear_arith)
                requires
                    part <= u64::MAX,
            ;
            let tenths = (part * 1000 + whole / 2) / whole;
            let mut v = decimal_string(tenths / 10);
            proof {
                reveal_strlit(".");
                reveal_strlit("%");
            }
            v.append(".");
            v.append(decimal_string(tenths % 10).as_str());
            v.append("%");
            assert(v@ =~= percent_text(self.part, self.whole));
            v
        };
        ResourceMetric { name: String::from_str(name), value }
    }
}

/// A number of bytes.
#[derive(Clone, Copy, Debug, PartialEq, Eq, Structural)]
struct Bytes {
    bytes: u64,
}

impl Bytes {
    /// The metric `<name>_mib`, in whole mebibytes.
    fn as_metric(&self, name: &str) -> (r: ResourceMetric)
        ensures
            r.name@ == name@ + seq!['_', 'm', 'i', 'b'],
            r.value@ == decimal((self.bytes as nat) / 1048576),
    {
        let mut n = String::from_str(name);
        proof {
            reveal_strlit("_mib");
        }
        n.append("_mib");
        let value = decimal_string((self.bytes / (1024 * 1024)) as u128);
        ResourceMetric { name: n, value }
    }
}

/// The CPU times of the last reading of the whole system.
#[derive(Debug)]
struct SystemMetrics {
    last_total_time: u64,
    last_active_time: u64,
}

#[derive(Debug)]
struct SystemSnapshot {
    cpu_time: Percentage,
    used_memory: Percentage,
    cached_memory: Percentage,
}

impl SystemMetrics {
    /// Starts from a first reading.
    fn new(cpu: &CpuSample, mem: &MemorySample) -> (r: SystemMetrics)
        ensures
            r.last_total_time == total_ticks(*cpu),
            r.last_active_time == active_ticks(*cpu),
    {
        let mut ret = SystemMetrics { last_total_time: 0, last_active_time: 0 };
        let _ = ret.update(cpu, mem);
        ret
    }

    /// Takes a new reading: the snapshot since the last one, the ticks that
    /// passed, and the total memory.
    fn update(&mut self, cpu: &CpuSample, mem: &MemorySample) -> (r: (SystemSnapshot, u64, u64))
        ensures
            final(self).last_total_time == total_ticks(*cpu),
            final(self).last_active_time == active_ticks(*cpu),
            r.0.cpu_time == (Percentage {
                part: sat_sub(active_ticks(*cpu), old(self).last_active_time),
                whole: sat_sub(total_ticks(*cpu), old(self).last_total_time),
            }),
            r.0.used_memory == (Percentage { part: used_bytes(*mem), whole: mem.mem_total }),
            r.0.cached_memory == (Percentage { part: cached_bytes(*mem), whole: mem.mem_total }),
            r.1 == sat_sub(total_ticks(*cpu), old(self).last_total_time),
            r.2 == mem.mem_total,
    {
        let iowait = match cpu.iowait {
            Some(v) => v,
            None => 0,
        };
        let irq = match cpu.irq {
            Some(v) => v,
            None => 0,
        };
        let softirq = match cpu.softirq {
            Some(v) => v,
            None => 0,
        };
        let idle_time = cpu.idle.saturating_add(iowait);
        let active_time = cpu.user.saturating_add(cpu.nice).saturating_add(cpu.system).saturating_add(
            irq,
        ).saturating_add(softirq);
        let total_time = idle_time.saturating_add(active_time);
        let total_time_diff = total_time.saturating_sub(self.last_total_time);
        let active_time_diff = active_time.saturating_sub(self.last_active_time);
        self.last_total_time = total_time;
        self.last_active_time = active_time;
        let cpu_time = Percentage { part: active_time_diff, whole: total_time_diff };
        let total_memory = mem.mem_total;
        let cached = mem.buffers.saturating_add(mem.cached).saturating_add(mem.slab);
        let used = mem.mem_total.saturating_sub(mem.mem_free).saturating_sub(cached);
        let snapshot = SystemSnapshot {
            cpu_time,
            used_memory: Percentage { part: used, whole: total_memory },
            cached_memory: Percentage { part: cached, whole: total_memory },
        };
        (snapshot, total_time_diff, total_memory)
    }
}

/// The CPU times of the last reading of this process.
#[derive(Debug)]
struct ProcessMetrics {
    last_user_time: u64,
    last_system_time: u64,
}

#[derive(Debug)]
struct ProcessSnapshot {
    cpu_time: Percentage,
    memory_usage: Percentage,
    virtual_memory_size: Bytes,
}

impl ProcessMetrics {
    /// Starts from a first reading; the tick and memory totals it is given only
    /// need to be non-zero, as its usage is never read.
    fn new(process: &ProcessSample) -> (r: ProcessMetrics)
        ensures
            r.last_user_time == process.utime,
            r.last_system_time == process.stime,
    {
        let mut ret = ProcessMetrics { last_user_time: 0, last_system_time: 0 };
        let _ = ret.update(1, 1, process);
        ret
    }

    /// Takes a new reading, given the ticks and total memory of the system's
    /// reading.
    fn update(&mut self, total_time_diff: u64, total_memory: u64, p: &ProcessSample) -> (r:
        ProcessSnapshot)
        ensures
            final(self).last_user_time == p.utime,
            final(self).last_system_time == p.stime,
            r.cpu_time == (Percentage {
                part: sat_add(
                    sat_sub(p.utime, old(self).last_user_time),
                    sat_sub(p.stime, old(self).last_system_time),
                ),
                whole: total_time_diff,
            }),
            r.memory_usage == (Percentage { part: p.rss_bytes, whole: total_memory }),
            r.virtual_memory_size == (Bytes { bytes: p.vsize }),
    {
        let user_time_diff = p.utime.saturating_sub(self.last_user_time);
        let system_time_diff = p.stime.saturating_sub(self.last_system_time);
        let active_time_diff = user_time_diff.saturating_add(system_time_diff);
        self.last_user_time = p.utime;
        self.last_system_time = p.stime;
        ProcessSnapshot {
            cpu_time: Percentage { part: active_time_diff, whole: total_time_diff },
            memory_usage: Percentage { part: p.rss_bytes, whole: total_memory },
            virtual_memory_size: Bytes { bytes: p.vsize },
        }
    }
}

/// Keeps the previous readings of the system and of this process.
#[derive(Debug)]
pub struct ResourceMetrics {
    system: SystemMetrics,
    process: ProcessMetrics,
}

impl ResourceMetrics {
    /// The CPU ticks of the system at the last reading.
    pub closed spec fn last_total(&self) -> u64 {
        self.system.last_total_time
    }

    /// The active CPU ticks of the system at the last reading.
    pub closed spec fn last_active(&self) -> u64 {
        self.system.last_active_time
    }

    /// This process's user and system ticks at the last reading.
    pub closed spec fn last_process(&self) -> (u64, u64) {
        (self.process.last_user_time, self.process.last_system_time)
    }

    /// Starts from a first reading; the usage it covers is never given.
    pub fn new(cpu: &CpuSample, mem: &MemorySample, process: &ProcessSample) -> (r: ResourceMetrics)
        ensures
            r.last_total() == total_ticks(*cpu),
            r.last_active() == active_ticks(*cpu),
            r.last_process() == (process.utime, process.stime),
    {
        ResourceMetrics { system: SystemMetrics::new(cpu, mem), process: ProcessMetrics::new(process) }
    }

    /// Takes new readings and gives the usage since the last ones: system CPU,
    /// used and cached memory, process CPU and resident memory as percentages,
    /// and the process's virtual memory in mebibytes.
    pub fn update_and_fmt(&mut self, cpu: &CpuSample, mem: &MemorySample, process: &ProcessSample) -> (r:
        Vec<ResourceMetric>)
        ensures
            final(self).last_total() == total_ticks(*cpu),
            final(self).last_active() == active_ticks(*cpu),
            final(self).last_process() == (process.utime, process.stime),
            r@.len() == 6,
            r@[0].name@ == metric_name(0),
            r@[1].name@ == metric_name(1),
            r@[2].name@ == metric_name(2),
            r@[3].name@ == metric_name(3),
            r@[4].name@ == metric_name(4),
            r@[5].name@ == metric_name(5),
            r@[0].value@ == percent_text(
                sat_sub(active_ticks(*cpu), old(self).last_active()),
                sat_sub(total_ticks(*cpu), old(self).last_total()),
            ),
            r@[1].value@ == percent_text(used_bytes(*mem), mem.mem_total),
            r@[2].value@ == percent_text(cached_bytes(*mem), mem.mem_total),
            r@[3].value@ == percent_text(
                sat_add(
                    sat_sub(process.utime, old(self).last_process().0),
                    sat_sub(process.stime, old(self).last_process().1),
                ),
                sat_sub(total_ticks(*cpu), old(self).last_total()),
            ),
            r@[4].value@ == percent_text(process.rss_bytes, mem.mem_total),
            r@[5].value@ == decimal((process.vsize as nat) / 1048576),
    {
        let (system, cpu_time, total_memory) = self.system.update(cpu, mem);
        let p = self.process.update(cpu_time, total_memory, process);
        let mut out: Vec<ResourceMetric> = Vec::new();
        proof {
            reveal_strlit("resource.system.cpu");
            reveal_strlit("resource.system.memory.used");
            reveal_strlit("resource.system.memory.cached");
            reveal_strlit("resource.process.cpu");
            reveal_strlit("resource.process.memory.used");
            reveal_strlit("resource.process.memory.virtual");
        }
        out.push(system.cpu_time.as_metric("resource.system.cpu"));
        out.push(system.used_memory.as_metric("resource.system.memory.used"));
        out.push(system.cached_memory.as_metric("resource.system.memory.cached"));
        out.push(p.cpu_time.as_metric("resource.process.cpu"));
        out.push(p.memory_usage.as_metric("resource.process.memory.used"));
        out.push(p.virtual_memory_size.as_metric("resource.process.memory.virtual"));
        assert(out@[0].name@ =~= metric_name(0));
        assert(out@[1].name@ =~= metric_name(1));
        assert(out@[2].name@ =~= metric_name(2));
        assert(out@[3].name@ =~= metric_name(3));
        assert(out@[4].name@ =~= metric_name(4));
        assert(out@[5].name@ =~= metric_name(5));
        out
    }
}

} // verus!

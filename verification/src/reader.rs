//! The stateful part of reading /proc: each reading is compared with the one
//! before it, so CPU usage, network traffic, disk I/O and per-process CPU
//! come out as amounts since the previous reading.
use std::collections::HashMap;
use crate::metrics::{DiskMetrics, InterfaceMetrics, MemoryMetrics, NetworkMetrics};
use crate::procfs::{
    device_io_views, last_index_of, net_dev_entry_view, net_dev_views, CpuTimes, DeviceIo,
    MemInfo, NetDevEntry, NetDevView, ParseFault, ProcCpuTimes,
};
use crate::text::{
    chars_eq, chars_eq_str, chars_of, lines, split_lines, split_words, string_of, views, words,
};
use vstd::prelude::*;

verus! {

/// A share expressed as a part of a whole; `whole == 0` stands for 0%.
#[derive(Debug, Clone, Copy, PartialEq, Eq, Structural)]
pub struct Share {
    pub part: u64,
    pub whole: u64,
}

/// `a - b`, or 0 when `b` is larger (`u64::saturating_sub`).
pub open spec fn sat_sub(a: int, b: int) -> int {
    if a >= b {
        a - b
    } else {
        0
    }
}

/// Busy time over total time between two readings of one CPU line.
pub open spec fn cpu_share(prev: CpuTimes, cur: CpuTimes) -> Share {
    Share {
        part: sat_sub(cur.sum() - cur.idle - cur.iowait, prev.sum() - prev.idle - prev.iowait) as u64,
        whole: sat_sub(cur.sum(), prev.sum()) as u64,
    }
}

/// Whether every line read in both samples fits the 64-bit sums.
pub open spec fn samples_fit(prev: Seq<CpuTimes>, cur: Seq<CpuTimes>) -> bool {
    forall|i: int|
        0 <= i < prev.len() && 0 <= i < cur.len() ==> (#[trigger] prev[i]).fits()
            && cur[i].fits()
}

/// Usage of each core (lines after the aggregate) between two samples; a
/// core absent from the earlier sample counts as unused.
pub open spec fn core_shares(prev: Seq<CpuTimes>, cur: Seq<CpuTimes>) -> Seq<Share> {
    Seq::new(
        (if cur.len() > 0 {
            cur.len() - 1
        } else {
            0
        }) as nat,
        |k: int|
            if k + 1 < prev.len() {
                cpu_share(prev[k + 1], cur[k + 1])
            } else {
                Share { part: 0, whole: 0 }
            },
    )
}

/// Overall usage between two samples: that of their first (aggregate) lines.
pub open spec fn total_share(prev: Seq<CpuTimes>, cur: Seq<CpuTimes>) -> Share {
    if prev.len() > 0 && cur.len() > 0 {
        cpu_share(prev[0], cur[0])
    } else {
        Share { part: 0, whole: 0 }
    }
}

/// Time a CPU line counts as busy: user, nice, system, irq, softirq and
/// steal.
pub open spec fn busy_counters(t: CpuTimes) -> int {
    t.user + t.nice + t.system + t.irq + t.softirq + t.steal
}

/// All time a CPU line counts: the busy time, idle and I/O wait.
pub open spec fn all_counters(t: CpuTimes) -> int {
    busy_counters(t) + t.idle + t.iowait
}

/// The growth of a counter between two readings, 0 where it shrank.
pub open spec fn growth(before: int, after: int) -> int {
    if after >= before {
        after - before
    } else {
        0
    }
}

/// Usage lines up with the samples: the overall usage is that of line 0 of
/// both samples, there is one core per line after it, and core `k` is line
/// `k + 1` of both samples. A usage is the growth of the busy time over the
/// growth of all time; a core missing from the earlier sample shows 0 of 0.
pub proof fn lemma_cpu_usage_by_line(prev: Seq<CpuTimes>, cur: Seq<CpuTimes>)
    ensures
        prev.len() > 0 && cur.len() > 0 ==> total_share(prev, cur) == (Share {
            part: growth(busy_counters(prev[0]), busy_counters(cur[0])) as u64,
            whole: growth(all_counters(prev[0]), all_counters(cur[0])) as u64,
        }),
        prev.len() == 0 || cur.len() == 0 ==> total_share(prev, cur) == (Share { part: 0, whole: 0 }),
        core_shares(prev, cur).len() == (if cur.len() > 0 {
            cur.len() - 1
        } else {
            0
        }),
        forall|k: int|
            0 <= k && k + 1 < cur.len() && k + 1 < prev.len() ==> #[trigger] core_shares(prev, cur)[k]
                == (Share {
                part: growth(busy_counters(prev[k + 1]), busy_counters(cur[k + 1])) as u64,
                whole: growth(all_counters(prev[k + 1]), all_counters(cur[k + 1])) as u64,
            }),
        forall|k: int|
            0 <= k && k + 1 < cur.len() && k + 1 >= prev.len() ==> #[trigger] core_shares(prev, cur)[k]
                == (Share { part: 0, whole: 0 }),
{
}

/// Reads system metrics from the text of /proc files. Holds the previous
/// CPU, network, disk I/O and per-process readings for delta-based metrics.
pub struct ProcReader {
    prev_cpu_times: Option<Vec<CpuTimes>>,
    prev_net: Option<NetCounters>,
    prev_disk_io: Option<Vec<DeviceIo>>,
    prev_proc_times: HashMap<u32, ProcCpuTimes>,
    /// System-wide total CPU delta from the last CPU reading.
    last_system_cpu_delta: u64,
    num_cores: usize,
    /// Total threads from the last process reading.
    total_threads: u64,
}

impl ProcReader {
    /// The previous CPU reading.
    pub closed spec fn prev_cpu(self) -> Option<Seq<CpuTimes>> {
        match self.prev_cpu_times {
            Some(v) => Some(v@),
            None => None,
        }
    }

    /// The previous network reading: per-interface (name, rx, tx) and the
    /// totals.
    pub closed spec fn prev_network(self) -> Option<(Seq<(Seq<char>, u64, u64)>, u64, u64)> {
        match self.prev_net {
            Some(n) => Some((counter_views(n.per_interface@), n.total_rx, n.total_tx)),
            None => None,
        }
    }

    /// The previous disk I/O reading.
    pub closed spec fn prev_disks(self) -> Option<Seq<(Seq<char>, u64, u64)>> {
        match self.prev_disk_io {
            Some(d) => Some(device_io_views(d@)),
            None => None,
        }
    }

    /// CPU times of each process at the previous process reading.
    pub closed spec fn prev_procs(self) -> Map<u32, ProcCpuTimes> {
        self.prev_proc_times@
    }

    /// Total CPU time that passed between the last two CPU readings.
    pub closed spec fn system_delta(self) -> u64 {
        self.last_system_cpu_delta
    }

    /// Number of cores seen at the last CPU reading.
    pub closed spec fn cores(self) -> usize {
        self.num_cores
    }

    /// Threads counted at the last process reading.
    pub closed spec fn threads(self) -> u64 {
        self.total_threads
    }

    /// Whether no CPU reading has been taken yet.
    pub fn has_no_cpu_reading(&self) -> (b: bool)
        ensures
            b == (self.prev_cpu() is None),
    {
        self.prev_cpu_times.is_none()
    }

    /// Number of lines of the previous CPU reading, if there is one.
    pub fn cpu_reading_len(&self) -> (n: Option<usize>)
        ensures
            match self.prev_cpu() {
                Some(p) => n == Some(p.len() as usize),
                None => n is None,
            },
    {
        match &self.prev_cpu_times {
            Some(v) => Some(v.len()),
            None => None,
        }
    }

    /// Number of cores seen at the last CPU reading.
    pub fn num_cores(&self) -> (n: usize)
        ensures
            n == self.cores(),
    {
        self.num_cores
    }

    /// Threads counted at the last process reading.
    pub fn total_threads(&self) -> (n: u64)
        ensures
            n == self.threads(),
    {
        self.total_threads
    }
}

/// (name, rx, tx) of each interface in a kept network reading.
pub open spec fn counter_views(c: Seq<(Vec<char>, u64, u64)>) -> Seq<(Seq<char>, u64, u64)> {
    c.map_values(|e: (Vec<char>, u64, u64)| (e.0@, e.1, e.2))
}

/// Cumulative counters of the previous network reading.
#[derive(Debug, Clone)]
pub struct NetCounters {
    /// (name, rx bytes, tx bytes) of each interface, in reading order.
    pub per_interface: Vec<(Vec<char>, u64, u64)>,
    pub total_rx: u64,
    pub total_tx: u64,
}

/// What one CPU reading gives: the running process count and the usage
/// shares since the previous reading.
#[derive(Debug, Clone)]
pub struct CpuSample {
    pub total: Share,
    pub cores: Vec<Share>,
    pub processes: u64,
}

impl ProcReader {
    /// A reader with no previous readings.
    pub fn new() -> (r: ProcReader)
        ensures
            r.prev_cpu() is None,
            r.prev_network() is None,
            r.prev_disks() is None,
            r.prev_procs() == Map::<u32, ProcCpuTimes>::empty(),
            r.system_delta() == 0,
            r.cores() == 0,
            r.threads() == 0,
    {
        ProcReader {
            prev_cpu_times: None,
            prev_net: None,
            prev_disk_io: None,
            prev_proc_times: HashMap::new(),
            last_system_cpu_delta: 0,
            num_cores: 0,
            total_threads: 0,
        }
    }

    /// Usage between two readings of /proc/stat: overall (first line) and per
    /// core (the following lines, a core absent from `prev` counting as 0).
    pub fn compute_cpu_deltas(prev: &[CpuTimes], current: &[CpuTimes]) -> (r: (Share, Vec<Share>))
        requires
            samples_fit(prev@, current@),
        ensures
            r.0 == total_share(prev@, current@),
            r.1@ == core_shares(prev@, current@),
    {
        let total = if prev.len() > 0 && current.len() > 0 {
            cpu_share_exec(&prev[0], &current[0])
        } else {
            Share { part: 0, whole: 0 }
        };
        let mut cores: Vec<Share> = Vec::new();
        let mut i: usize = 1;
        while i < current.len()
            invariant
                1 <= i <= current.len() || (current.len() == 0 && i == 1),
                samples_fit(prev@, current@),
                cores@ == core_shares(prev@, current@).take(i - 1),
            decreases current.len() - i,
        {
            let s = if i < prev.len() {
                cpu_share_exec(&prev[i], &current[i])
            } else {
                Share { part: 0, whole: 0 }
            };
            cores.push(s);
            i = i + 1;
            assert(cores@ =~= core_shares(prev@, current@).take(i - 1));
        }
        assert(cores@ =~= core_shares(prev@, current@));
        (total, cores)
    }

    /// Takes a new reading of /proc/stat. The first reading has no usage
    /// (nothing to compare with); later ones give the usage since the
    /// previous reading, and need the aggregate line in both readings. Fails,
    /// changing nothing, where the monitor's sums of the two readings'
    /// counters would overflow.
    pub fn update_cpu(&mut self, current: Vec<CpuTimes>, procs_running: u64) -> (r: Result<
        CpuSample,
        ParseFault,
    >)
        requires
            old(self).prev_cpu() matches Some(p) ==> p.len() > 0 && current@.len() > 0,
        ensures
            match old(self).prev_cpu() {
                None => {
                    &&& r is Ok
                    &&& r->Ok_0.total == Share { part: 0, whole: 0 }
                    &&& r->Ok_0.cores@.len() == 0
                    &&& final(self).system_delta() == 0
                },
                Some(prev) => if samples_fit(prev, current@) {
                    &&& r is Ok
                    &&& r->Ok_0.total == total_share(prev, current@)
                    &&& r->Ok_0.cores@ == core_shares(prev, current@)
                    &&& final(self).system_delta() == sat_sub(
                        current@[0].sum(),
                        prev[0].sum(),
                    )
                } else {
                    &&& r == Err::<CpuSample, ParseFault>(ParseFault::Overflow)
                    &&& final(self).prev_cpu() == old(self).prev_cpu()
                    &&& final(self).system_delta() == old(self).system_delta()
                    &&& final(self).cores() == old(self).cores()
                },
            },
            r is Ok ==> {
                &&& r->Ok_0.processes == procs_running
                &&& final(self).prev_cpu() == Some(current@)
                &&& final(self).cores() == (if current@.len() > 1 {
                    current@.len() - 1
                } else {
                    1
                })
            },
            final(self).prev_network() == old(self).prev_network(),
            final(self).prev_disks() == old(self).prev_disks(),
            final(self).prev_procs() == old(self).prev_procs(),
            final(self).threads() == old(self).threads(),
    {
        let (total, cores, delta) = match &self.prev_cpu_times {
            Some(prev) => {
                assert(old(self).prev_cpu() == Some(prev@));
                assert(prev@.len() > 0 && current@.len() > 0);
                if !fits_pairwise(prev.as_slice(), current.as_slice()) {
                    return Err(ParseFault::Overflow);
                }
                let ghost p0 = prev@[0];
                let ghost c0 = current@[0];
                assert(p0.fits() && c0.fits());
                let delta = sat_sub_u64(current[0].total(), prev[0].total());
                let (t, c) = ProcReader::compute_cpu_deltas(prev.as_slice(), current.as_slice());
                (t, c, delta)
            },
            None => (Share { part: 0, whole: 0 }, Vec::new(), 0),
        };
        self.last_system_cpu_delta = delta;
        self.num_cores = if current.len() > 1 {
            current.len() - 1
        } else {
            1
        };
        self.prev_cpu_times = Some(current);
        Ok(CpuSample { total, cores, processes: procs_running })
    }
}

/// `a - b`, or 0 when `b` is larger.
pub fn sat_sub_u64(a: u64, b: u64) -> (r: u64)
    ensures
        r == sat_sub(a as int, b as int),
{
    if a >= b {
        a - b
    } else {
        0
    }
}

fn cpu_share_exec(prev: &CpuTimes, cur: &CpuTimes) -> (s: Share)
    requires
        prev.fits(),
        cur.fits(),
    ensures
        s == cpu_share(*prev, *cur),
{
    Share {
        part: sat_sub_u64(cur.busy(), prev.busy()),
        whole: sat_sub_u64(cur.total(), prev.total()),
    }
}

fn fits_pairwise(prev: &[CpuTimes], cur: &[CpuTimes]) -> (b: bool)
    ensures
        b == samples_fit(prev@, cur@),
{
    let mut i: usize = 0;
    while i < prev.len() && i < cur.len()
        invariant
            i <= prev.len(),
            i <= cur.len(),
            forall|k: int|
                0 <= k < i && k < prev.len() && k < cur.len() ==> (#[trigger] prev@[k]).fits()
                    && cur@[k].fits(),
        decreases prev.len() - i,
    {
        if !times_fit(&prev[i]) || !times_fit(&cur[i]) {
            return false;
        }
        assert(prev@[i as int].fits() && cur@[i as int].fits());
        i = i + 1;
    }
    true
}

fn times_fit(t: &CpuTimes) -> (b: bool)
    ensures
        b == t.fits(),
{
    let s: u128 = t.user as u128 + t.nice as u128 + t.system as u128 + t.idle as u128
        + t.iowait as u128 + t.irq as u128 + t.softirq as u128 + t.steal as u128;
    s <= 18446744073709551615
}

/// A reading taken on two samples of counters that never go backwards
/// never shows more busy time than total time: usage stays within 100%.
pub proof fn lemma_cpu_share_bounded(prev: CpuTimes, cur: CpuTimes)
    requires
        prev.fits(),
        cur.fits(),
        prev.user <= cur.user,
        prev.nice <= cur.nice,
        prev.system <= cur.system,
        prev.idle <= cur.idle,
        prev.iowait <= cur.iowait,
        prev.irq <= cur.irq,
        prev.softirq <= cur.softirq,
        prev.steal <= cur.steal,
    ensures
        cpu_share(prev, cur).part <= cpu_share(prev, cur).whole,
{
}

// ---------------------------------------------------------------------------
// Memory
// ---------------------------------------------------------------------------

/// Memory metrics from the /proc/meminfo values: used memory is total less
/// available, used swap is total less free (neither below zero).
pub fn memory_from_meminfo(m: MemInfo) -> (r: MemoryMetrics)
    ensures
        r.total_bytes == m.total,
        r.used_bytes == sat_sub(m.total as int, m.available as int),
        r.available_bytes == m.available,
        r.swap_total_bytes == m.swap_total,
        r.swap_used_bytes == sat_sub(m.swap_total as int, m.swap_free as int),
        r.agent_usage@ == Map::<String, u64>::empty(),
        r.used_bytes <= r.total_bytes,
        r.swap_used_bytes <= r.swap_total_bytes,
{
    MemoryMetrics {
        total_bytes: m.total,
        used_bytes: sat_sub_u64(m.total, m.available),
        available_bytes: m.available,
        swap_total_bytes: m.swap_total,
        swap_used_bytes: sat_sub_u64(m.swap_total, m.swap_free),
        agent_usage: HashMap::new(),
    }
}

// ---------------------------------------------------------------------------
// Mounts and disks
// ---------------------------------------------------------------------------

/// The byte an octal escape's three characters denote: three octal digits
/// of value at most 255 (`\\377`).
pub open spec fn octal_byte(o: Seq<char>) -> Option<u8> {
    if o.len() == 3 && all_octal(o) && octal_value(o) <= 255 {
        Some(octal_value(o) as u8)
    } else {
        None
    }
}

pub open spec fn all_octal(d: Seq<char>) -> bool {
    forall|i: int| 0 <= i < d.len() ==> is_octal_digit(#[trigger] d[i])
}

pub open spec fn is_octal_digit(c: char) -> bool {
    '0' as u32 <= c as u32 && c as u32 <= '7' as u32
}

pub open spec fn octal_value(d: Seq<char>) -> nat
    decreases d.len(),
{
    if d.len() == 0 {
        0
    } else {
        (octal_value(d.drop_last()) * 8 + (d.last() as u32 - '0' as u32)) as nat
    }
}

/// A /proc/mounts field with its escapes decoded: a backslash and the three
/// characters after it become the byte they denote in octal; a backslash
/// whose next three characters are not such a number stays, with them.
pub open spec fn decode_escapes(s: Seq<char>) -> Seq<char>
    decreases s.len(),
{
    if s.len() == 0 {
        seq![]
    } else if s[0] == '\\' {
        let n = if s.len() >= 4 {
            3
        } else {
            s.len() - 1
        };
        let o = s.subrange(1, 1 + n);
        match (if n == 3 {
            octal_byte(o)
        } else {
            None
        }) {
            Some(b) => seq![b as char] + decode_escapes(s.skip(4)),
            None => seq!['\\'] + o + decode_escapes(s.skip(1 + n)),
        }
    } else {
        seq![s[0]] + decode_escapes(s.skip(1))
    }
}

/// A field without a backslash is left as it is.
pub proof fn lemma_decode_plain(s: Seq<char>)
    requires
        !s.contains('\\'),
    ensures
        decode_escapes(s) == s,
    decreases s.len(),
{
    if s.len() > 0 {
        assert(s[0] != '\\');
        assert(!s.skip(1).contains('\\')) by {
            if s.skip(1).contains('\\') {
                let k = choose|k: int| 0 <= k < s.skip(1).len() && s.skip(1)[k] == '\\';
                assert(s[k + 1] == '\\');
            }
        }
        lemma_decode_plain(s.skip(1));
        assert(seq![s[0]] + s.skip(1) =~= s);
    }
}

fn octal_byte_exec(s: &[char], a: usize) -> (r: Option<u8>)
    requires
        a + 3 <= s.len(),
    ensures
        r == octal_byte(s@.subrange(a as int, a + 3)),
{
    let ghost o = s@.subrange(a as int, a + 3);
    let mut v: u32 = 0;
    let mut i: usize = a;
    while i < a + 3
        invariant
            a <= i <= a + 3,
            a + 3 <= s.len(),
            o == s@.subrange(a as int, a + 3),
            forall|k: int| 0 <= k < i - a ==> is_octal_digit(#[trigger] o[k]),
            v == octal_value(o.take(i - a)),
            i - a == 0 ==> v == 0,
            i - a == 1 ==> v < 8,
            i - a == 2 ==> v < 64,
            i - a == 3 ==> v < 512,
        decreases a + 3 - i,
    {
        let c = s[i];
        assert(o[i - a] == c);
        if !('0' as u32 <= c as u32 && c as u32 <= '7' as u32) {
            assert(!is_octal_digit(o[i - a]));
            assert(!all_octal(o));
            return None;
        }
        assert(o.take(i - a + 1).drop_last() =~= o.take(i - a));
        v = v * 8 + (c as u32 - '0' as u32);
        i = i + 1;
    }
    assert(o.take(3) =~= o);
    if v <= 255 {
        Some(v as u8)
    } else {
        None
    }
}

impl ProcReader {
    /// Decodes octal escape sequences in /proc/mounts paths
    /// (e.g. `\040` becomes a space).
    pub fn decode_octal_escapes(s: &str) -> (r: String)
        ensures
            r@ == decode_escapes(s@),
    {
        let cs = chars_of(s);
        let v = decode_chars(cs.as_slice());
        string_of(v.as_slice())
    }
}

/// `decode_escapes` on a character slice.
pub fn decode_chars(s: &[char]) -> (r: Vec<char>)
    ensures
        r@ == decode_escapes(s@),
{
    let mut out: Vec<char> = Vec::new();
    let mut i: usize = 0;
    assert(s@.skip(0) =~= s@);
    while i < s.len()
        invariant
            i <= s.len(),
            out@ + decode_escapes(s@.skip(i as int)) == decode_escapes(s@),
        decreases s.len() - i,
    {
        let ghost rest = s@.skip(i as int);
        let ghost out0 = out@;
        let c = s[i];
        assert(rest[0] == c);
        if c == '\\' {
            let n: usize = if s.len() - i >= 4 {
                3
            } else {
                s.len() - i - 1
            };
            let ghost o = rest.subrange(1, 1 + n as int);
            assert(o =~= s@.subrange(i + 1, i + 1 + n));
            let b = if n == 3 {
                octal_byte_exec(s, i + 1)
            } else {
                None
            };
            match b {
                Some(byte) => {
                    out.push(byte as char);
                    assert(rest.skip(4) =~= s@.skip(i + 4));
                    assert(decode_escapes(rest) == seq![byte as char] + decode_escapes(rest.skip(4)));
                    assert(out0 + decode_escapes(rest) =~= out@ + decode_escapes(rest.skip(4)));
                    i = i + 4;
                },
                None => {
                    out.push('\\');
                    let ghost base = out@;
                    let mut k: usize = 0;
                    while k < n
                        invariant
                            k <= n,
                            i + 1 + n <= s.len(),
                            out@ == base + s@.subrange(i + 1, i + 1 + k),
                        decreases n - k,
                    {
                        out.push(s[i + 1 + k]);
                        k = k + 1;
                        assert(out@ =~= base + s@.subrange(i + 1, i + 1 + k));
                    }
                    assert(rest.skip(1 + n) =~= s@.skip(i + 1 + n));
                    assert(decode_escapes(rest) == seq!['\\'] + o + decode_escapes(rest.skip(1 + n)));
                    assert(out0 + decode_escapes(rest) =~= out@ + decode_escapes(rest.skip(1 + n)));
                    i = i + 1 + n;
                },
            }
        } else {
            out.push(c);
            assert(rest.skip(1) =~= s@.skip(i + 1));
            assert(decode_escapes(rest) == seq![c] + decode_escapes(rest.skip(1)));
            assert(out0 + decode_escapes(rest) =~= out@ + decode_escapes(rest.skip(1)));
            i = i + 1;
        }
    }
    assert(s@.skip(s.len() as int) =~= Seq::<char>::empty());
    assert(out@ + Seq::<char>::empty() =~= out@);
    out
}


/// The filesystems whose mounts count as disks.
pub open spec fn is_real_fs(fs: Seq<char>) -> bool {
    ||| fs == "ext4"@
    ||| fs == "ext3"@
    ||| fs == "ext2"@
    ||| fs == "btrfs"@
    ||| fs == "xfs"@
    ||| fs == "f2fs"@
    ||| fs == "zfs"@
    ||| fs == "ntfs"@
    ||| fs == "vfat"@
    ||| fs == "fuseblk"@
}

fn is_real_fs_exec(fs: &[char]) -> (b: bool)
    ensures
        b == is_real_fs(fs@),
{
    chars_eq_str(fs, "ext4") || chars_eq_str(fs, "ext3") || chars_eq_str(fs, "ext2")
        || chars_eq_str(fs, "btrfs") || chars_eq_str(fs, "xfs") || chars_eq_str(fs, "f2fs")
        || chars_eq_str(fs, "zfs") || chars_eq_str(fs, "ntfs") || chars_eq_str(fs, "vfat")
        || chars_eq_str(fs, "fuseblk")
}

/// A mounted filesystem of a kind that counts as a disk.
#[derive(Debug, Clone)]
pub struct MountEntry {
    pub device: Vec<char>,
    /// The mount point, its escapes decoded.
    pub mount_point: Vec<char>,
    pub filesystem: Vec<char>,
}

/// A mount's (device, mount point, filesystem).
pub open spec fn mount_view(m: MountEntry) -> (Seq<char>, Seq<char>, Seq<char>) {
    (m.device@, m.mount_point@, m.filesystem@)
}

pub open spec fn mount_views(ms: Seq<MountEntry>) -> Seq<(Seq<char>, Seq<char>, Seq<char>)> {
    ms.map_values(|m: MountEntry| mount_view(m))
}

/// The disk mount of one /proc/mounts line: at least three words, the
/// third a disk filesystem.
pub open spec fn mount_line(l: Seq<char>) -> Option<(Seq<char>, Seq<char>, Seq<char>)> {
    let ws = words(l);
    if ws.len() < 3 || !is_real_fs(ws[2]) {
        None
    } else {
        Some((ws[0], decode_escapes(ws[1]), ws[2]))
    }
}

pub open spec fn mounts_fold(ls: Seq<Seq<char>>) -> Seq<(Seq<char>, Seq<char>, Seq<char>)>
    decreases ls.len(),
{
    if ls.len() == 0 {
        seq![]
    } else {
        match mount_line(ls.last()) {
            Some(m) => mounts_fold(ls.drop_last()).push(m),
            None => mounts_fold(ls.drop_last()),
        }
    }
}

/// The disk mounts listed in the text of /proc/mounts, in order.
pub fn parse_mounts(content: &str) -> (r: Vec<MountEntry>)
    ensures
        mount_views(r@) == mounts_fold(lines(content@)),
{
    let cs = chars_of(content);
    let ls = split_lines(cs.as_slice());
    let ghost lv = views(ls@);
    let mut out: Vec<MountEntry> = Vec::new();
    let mut i: usize = 0;
    while i < ls.len()
        invariant
            i <= ls.len(),
            lv == views(ls@),
            mount_views(out@) == mounts_fold(lv.take(i as int)),
        decreases ls.len() - i,
    {
        assert(lv.take(i + 1).drop_last() =~= lv.take(i as int));
        assert(lv[i as int] == ls[i as int]@);
        let ws = split_words(ls[i].as_slice());
        if ws.len() >= 3 && is_real_fs_exec(ws[2].as_slice()) {
            let ghost before = mount_views(out@);
            let m = MountEntry {
                device: ws[0].clone(),
                mount_point: decode_chars(ws[1].as_slice()),
                filesystem: ws[2].clone(),
            };
            out.push(m);
            assert(mount_views(out@) =~= before.push(mount_view(m)));
        }
        i = i + 1;
    }
    assert(lv.take(ls.len() as int) =~= lv);
    out
}

/// Sizes reported by statvfs for one mount point, in bytes.
#[derive(Debug, Clone, Copy, PartialEq, Eq, Structural)]
pub struct FsStats {
    pub total_bytes: u64,
    pub free_bytes: u64,
    pub available_bytes: u64,
}

/// The counters kept under `name`; a name listed twice keeps its last entry.
pub open spec fn counter_lookup(cs: Seq<(Seq<char>, u64, u64)>, name: Seq<char>) -> Option<
    (u64, u64),
>
    decreases cs.len(),
{
    if cs.len() == 0 {
        None
    } else if cs.last().0 == name {
        Some((cs.last().1, cs.last().2))
    } else {
        counter_lookup(cs.drop_last(), name)
    }
}

/// A lookup finds the last entry listed under `name`, and finds nothing
/// only where no entry has that name.
pub proof fn lemma_counter_lookup_last(cs: Seq<(Seq<char>, u64, u64)>, name: Seq<char>)
    ensures
        counter_lookup(cs, name) matches Some(v) ==> exists|i: int|
            #![trigger cs[i]]
            0 <= i < cs.len() && cs[i].0 == name && v == (cs[i].1, cs[i].2) && forall|j: int|
                i < j < cs.len() ==> (#[trigger] cs[j]).0 != name,
        counter_lookup(cs, name) is None ==> forall|i: int| 0 <= i < cs.len() ==> (#[trigger] cs[i]).0 != name,
    decreases cs.len(),
{
    if cs.len() > 0 {
        let init = cs.drop_last();
        lemma_counter_lookup_last(init, name);
        let n = cs.len() - 1;
        if cs.last().0 == name {
            assert(cs[n] == cs.last());
        } else {
            assert(cs[n] == cs.last());
            match counter_lookup(cs, name) {
                Some(v) => {
                    let i = choose|i: int|
                        #![trigger init[i]]
                        0 <= i < init.len() && init[i].0 == name && v == (init[i].1, init[i].2)
                            && forall|j: int| i < j < init.len() ==> (#[trigger] init[j]).0 != name;
                    assert(cs[i] == init[i]);
                    assert forall|j: int| i < j < cs.len() implies (#[trigger] cs[j]).0 != name by {
                        if j < n {
                            assert(cs[j] == init[j]);
                        }
                    }
                },
                None => {
                    assert forall|i: int| 0 <= i < cs.len() implies (#[trigger] cs[i]).0 != name by {
                        if i < n {
                            assert(cs[i] == init[i]);
                        }
                    }
                },
            }
        }
    }
}

/// Bytes moved since the previous reading by the device or interface
/// `name`: zero when either reading lacks it.
pub open spec fn counter_delta(
    cur: Seq<(Seq<char>, u64, u64)>,
    prev: Option<Seq<(Seq<char>, u64, u64)>>,
    name: Seq<char>,
) -> (u64, u64) {
    match (counter_lookup(cur, name), prev) {
        (Some(c), Some(p)) => match counter_lookup(p, name) {
            Some(q) => (sat_sub(c.0 as int, q.0 as int) as u64, sat_sub(c.1 as int, q.1 as int) as u64),
            None => (0, 0),
        },
        _ => (0, 0),
    }
}

fn counter_lookup_disk(cs: &Vec<DeviceIo>, name: &[char]) -> (r: Option<(u64, u64)>)
    ensures
        r == counter_lookup(device_io_views(cs@), name@),
{
    let ghost v = device_io_views(cs@);
    let mut i: usize = cs.len();
    assert(v.take(cs.len() as int) =~= v);
    while i > 0
        invariant
            i <= cs.len(),
            v == device_io_views(cs@),
            counter_lookup(v, name@) == counter_lookup(v.take(i as int), name@),
        decreases i,
    {
        assert(v.take(i as int).drop_last() =~= v.take(i - 1));
        assert(v.take(i as int).last() == v[i - 1]);
        if chars_eq(cs[i - 1].name.as_slice(), name) {
            return Some((cs[i - 1].read_bytes, cs[i - 1].write_bytes));
        }
        i = i - 1;
    }
    None
}

fn counter_lookup_net(cs: &Vec<(Vec<char>, u64, u64)>, name: &[char]) -> (r: Option<(u64, u64)>)
    ensures
        r == counter_lookup(counter_views(cs@), name@),
{
    let ghost v = counter_views(cs@);
    let mut i: usize = cs.len();
    assert(v.take(cs.len() as int) =~= v);
    while i > 0
        invariant
            i <= cs.len(),
            v == counter_views(cs@),
            counter_lookup(v, name@) == counter_lookup(v.take(i as int), name@),
        decreases i,
    {
        assert(v.take(i as int).drop_last() =~= v.take(i - 1));
        assert(v.take(i as int).last() == v[i - 1]);
        if chars_eq(cs[i - 1].0.as_slice(), name) {
            return Some((cs[i - 1].1, cs[i - 1].2));
        }
        i = i - 1;
    }
    None
}

/// The part of a device path after its last `/`.
pub open spec fn short_device(d: Seq<char>) -> Seq<char> {
    match last_index_of(d, '/') {
        Some(k) => d.skip(k + 1),
        None => d,
    }
}

fn short_device_exec(d: &[char]) -> (r: Vec<char>)
    ensures
        r@ == short_device(d@),
{
    let mut i: usize = d.len();
    assert(d@.take(d.len() as int) =~= d@);
    while i > 0
        invariant
            i <= d.len(),
            last_index_of(d@, '/') == last_index_of(d@.take(i as int), '/'),
        decreases i,
    {
        assert(d@.take(i as int).drop_last() =~= d@.take(i - 1));
        assert(d@.take(i as int).last() == d@[i - 1]);
        if d[i - 1] == '/' {
            let mut r: Vec<char> = Vec::new();
            let mut k: usize = i;
            while k < d.len()
                invariant
                    i <= k <= d.len(),
                    r@ == d@.subrange(i as int, k as int),
                decreases d.len() - k,
            {
                r.push(d[k]);
                k = k + 1;
                assert(r@ =~= d@.subrange(i as int, k as int));
            }
            return r;
        }
        i = i - 1;
    }
    assert(d@.take(0) =~= Seq::<char>::empty());
    let mut r: Vec<char> = Vec::new();
    let mut k: usize = 0;
    while k < d.len()
        invariant
            k <= d.len(),
            r@ == d@.take(k as int),
        decreases d.len() - k,
    {
        r.push(d[k]);
        k = k + 1;
        assert(r@ =~= d@.take(k as int));
    }
    assert(d@.take(d.len() as int) =~= d@);
    r
}

/// A disk's (mount point, device, filesystem, total, used, available,
/// read, written).
pub type DiskView = (Seq<char>, Seq<char>, Seq<char>, u64, u64, u64, u64, u64);

pub open spec fn disk_view(d: DiskMetrics) -> DiskView {
    (
        d.mount_point@,
        d.device@,
        d.filesystem@,
        d.total_bytes,
        d.used_bytes,
        d.available_bytes,
        d.read_bytes,
        d.write_bytes,
    )
}

pub open spec fn disk_views(ds: Seq<DiskMetrics>) -> Seq<DiskView> {
    ds.map_values(|d: DiskMetrics| disk_view(d))
}

/// The disk of a mount whose statvfs call succeeded.
pub open spec fn disk_of(
    m: (Seq<char>, Seq<char>, Seq<char>),
    st: FsStats,
    cur: Seq<(Seq<char>, u64, u64)>,
    prev: Option<Seq<(Seq<char>, u64, u64)>>,
) -> DiskView {
    let io = counter_delta(cur, prev, short_device(m.0));
    (
        m.1,
        m.0,
        m.2,
        st.total_bytes,
        sat_sub(st.total_bytes as int, st.free_bytes as int) as u64,
        st.available_bytes,
        io.0,
        io.1,
    )
}

/// The disks of the mounts whose statvfs call succeeded, in mount order.
pub open spec fn disks_of(
    ms: Seq<(Seq<char>, Seq<char>, Seq<char>)>,
    stats: Seq<Option<FsStats>>,
    cur: Seq<(Seq<char>, u64, u64)>,
    prev: Option<Seq<(Seq<char>, u64, u64)>>,
) -> Seq<DiskView>
    decreases ms.len(),
{
    if ms.len() == 0 || stats.len() != ms.len() {
        seq![]
    } else {
        let rest = disks_of(ms.drop_last(), stats.drop_last(), cur, prev);
        match stats.last() {
            Some(st) => rest.push(disk_of(ms.last(), st, cur, prev)),
            None => rest,
        }
    }
}

/// What a disk of a reading holds: its mount point, device and filesystem
/// from the mount; total, used (total less free, never below zero) and
/// available space from statvfs; and as read bytes the growth of the read
/// counter (the first counter) of its device, as written bytes that of the
/// write counter (the second), the device found under the part of its path
/// after the last `/`. Both are 0 when either reading lacks the device.
pub proof fn lemma_disk_columns(
    m: (Seq<char>, Seq<char>, Seq<char>),
    st: FsStats,
    cur: Seq<(Seq<char>, u64, u64)>,
    prev: Option<Seq<(Seq<char>, u64, u64)>>,
)
    ensures
        ({
            let d = disk_of(m, st, cur, prev);
            let name = short_device(m.0);
            &&& d.0 == m.1
            &&& d.1 == m.0
            &&& d.2 == m.2
            &&& d.3 == st.total_bytes
            &&& d.4 == growth(st.free_bytes as int, st.total_bytes as int)
            &&& d.5 == st.available_bytes
            &&& d.6 == match (counter_lookup(cur, name), prev) {
                (Some(c), Some(p)) => match counter_lookup(p, name) {
                    Some(q) => growth(q.0 as int, c.0 as int),
                    None => 0,
                },
                _ => 0,
            }
            &&& d.7 == match (counter_lookup(cur, name), prev) {
                (Some(c), Some(p)) => match counter_lookup(p, name) {
                    Some(q) => growth(q.1 as int, c.1 as int),
                    None => 0,
                },
                _ => 0,
            }
        }),
{
}

/// Where every mount's statvfs call succeeded, a disk reading has one disk
/// per mount, in mount order.
pub proof fn lemma_disks_in_mount_order(
    ms: Seq<(Seq<char>, Seq<char>, Seq<char>)>,
    stats: Seq<Option<FsStats>>,
    cur: Seq<(Seq<char>, u64, u64)>,
    prev: Option<Seq<(Seq<char>, u64, u64)>>,
)
    requires
        stats.len() == ms.len(),
        forall|i: int| 0 <= i < stats.len() ==> (#[trigger] stats[i]) is Some,
    ensures
        disks_of(ms, stats, cur, prev).len() == ms.len(),
        forall|i: int|
            0 <= i < ms.len() ==> #[trigger] disks_of(ms, stats, cur, prev)[i] == disk_of(
                ms[i],
                stats[i]->Some_0,
                cur,
                prev,
            ),
    decreases ms.len(),
{
    if ms.len() > 0 {
        let n = ms.len() - 1;
        let ms0 = ms.drop_last();
        let st0 = stats.drop_last();
        assert forall|i: int| 0 <= i < st0.len() implies (#[trigger] st0[i]) is Some by {
            assert(st0[i] == stats[i]);
        }
        lemma_disks_in_mount_order(ms0, st0, cur, prev);
        assert(stats[n] is Some);
        let rest = disks_of(ms0, st0, cur, prev);
        let all = disks_of(ms, stats, cur, prev);
        assert(all == rest.push(disk_of(ms.last(), stats.last()->Some_0, cur, prev)));
        assert forall|i: int| 0 <= i < ms.len() implies #[trigger] all[i] == disk_of(
            ms[i],
            stats[i]->Some_0,
            cur,
            prev,
        ) by {
            if i < n {
                assert(all[i] == rest[i]);
                assert(ms0[i] == ms[i]);
                assert(st0[i] == stats[i]);
            }
        }
    }
}

/// A disk never reports more space used than it has: in every disk that a
/// disk reading gives, used bytes are at most total bytes.
pub proof fn lemma_disks_used_within_total(
    ms: Seq<(Seq<char>, Seq<char>, Seq<char>)>,
    stats: Seq<Option<FsStats>>,
    cur: Seq<(Seq<char>, u64, u64)>,
    prev: Option<Seq<(Seq<char>, u64, u64)>>,
)
    ensures
        forall|i: int|
            0 <= i < disks_of(ms, stats, cur, prev).len() ==> (#[trigger] disks_of(
                ms,
                stats,
                cur,
                prev,
            )[i]).4 <= disks_of(ms, stats, cur, prev)[i].3,
    decreases ms.len(),
{
    if ms.len() > 0 && stats.len() == ms.len() {
        let rest = disks_of(ms.drop_last(), stats.drop_last(), cur, prev);
        lemma_disks_used_within_total(ms.drop_last(), stats.drop_last(), cur, prev);
        let all = disks_of(ms, stats, cur, prev);
        match stats.last() {
            Some(st) => {
                assert(all == rest.push(disk_of(ms.last(), st, cur, prev)));
                assert forall|i: int| 0 <= i < all.len() implies (#[trigger] all[i]).4 <= all[i].3 by {
                    if i < rest.len() {
                        assert(all[i] == rest[i]);
                    }
                }
            },
            None => {
                assert(all == rest);
            },
        }
    }
}

/// The first disk reading (no previous counters) reports no I/O on any
/// disk.
pub proof fn lemma_first_disk_reading_quiet(
    ms: Seq<(Seq<char>, Seq<char>, Seq<char>)>,
    stats: Seq<Option<FsStats>>,
    cur: Seq<(Seq<char>, u64, u64)>,
)
    ensures
        forall|i: int|
            0 <= i < disks_of(ms, stats, cur, None).len() ==> (#[trigger] disks_of(
                ms,
                stats,
                cur,
                None,
            )[i]).6 == 0 && disks_of(ms, stats, cur, None)[i].7 == 0,
    decreases ms.len(),
{
    if ms.len() > 0 && stats.len() == ms.len() {
        let rest = disks_of(ms.drop_last(), stats.drop_last(), cur, None);
        lemma_first_disk_reading_quiet(ms.drop_last(), stats.drop_last(), cur);
        let all = disks_of(ms, stats, cur, None);
        match stats.last() {
            Some(st) => {
                assert(all == rest.push(disk_of(ms.last(), st, cur, None)));
                assert forall|i: int| 0 <= i < all.len() implies (#[trigger] all[i]).6 == 0
                    && all[i].7 == 0 by {
                    if i < rest.len() {
                        assert(all[i] == rest[i]);
                    }
                }
            },
            None => {
                assert(all == rest);
            },
        }
    }
}

impl ProcReader {
    /// Disk metrics for the mounts, given each mount's statvfs result and
    /// the current /proc/diskstats counters. I/O is counted since the
    /// previous disk reading (zero at the first), and the current counters
    /// are kept for the next one.
    pub fn update_disks(
        &mut self,
        mounts: &Vec<MountEntry>,
        stats: &Vec<Option<FsStats>>,
        current_io: Vec<DeviceIo>,
    ) -> (r: Vec<DiskMetrics>)
        requires
            stats@.len() == mounts@.len(),
        ensures
            disk_views(r@) == disks_of(
                mount_views(mounts@),
                stats@,
                device_io_views(current_io@),
                old(self).prev_disks(),
            ),
            final(self).prev_disks() == Some(device_io_views(current_io@)),
            forall|i: int| 0 <= i < r@.len() ==> (#[trigger] r@[i]).used_bytes <= r@[i].total_bytes,
            final(self).prev_cpu() == old(self).prev_cpu(),
            final(self).prev_network() == old(self).prev_network(),
            final(self).prev_procs() == old(self).prev_procs(),
            final(self).system_delta() == old(self).system_delta(),
            final(self).cores() == old(self).cores(),
            final(self).threads() == old(self).threads(),
    {
        let ghost mv = mount_views(mounts@);
        let ghost cur = device_io_views(current_io@);
        let ghost prev = self.prev_disks();
        let mut out: Vec<DiskMetrics> = Vec::new();
        let mut i: usize = 0;
        while i < mounts.len()
            invariant
                i <= mounts.len(),
                stats@.len() == mounts@.len(),
                mv == mount_views(mounts@),
                cur == device_io_views(current_io@),
                prev == self.prev_disks(),
                disk_views(out@) == disks_of(mv.take(i as int), stats@.take(i as int), cur, prev),
            decreases mounts.len() - i,
        {
            assert(mv.take(i + 1).drop_last() =~= mv.take(i as int));
            assert(stats@.take(i + 1).drop_last() =~= stats@.take(i as int));
            assert(mv[i as int] == mount_view(mounts@[i as int]));
            match stats[i] {
                Some(st) => {
                    let m = &mounts[i];
                    let dev = short_device_exec(m.device.as_slice());
                    let (rd, wr) = match counter_lookup_disk(&current_io, dev.as_slice()) {
                        Some(c) => match &self.prev_disk_io {
                            Some(p) => match counter_lookup_disk(p, dev.as_slice()) {
                                Some(q) => (sat_sub_u64(c.0, q.0), sat_sub_u64(c.1, q.1)),
                                None => (0, 0),
                            },
                            None => (0, 0),
                        },
                        None => (0, 0),
                    };
                    let d = DiskMetrics {
                        mount_point: string_of(m.mount_point.as_slice()),
                        device: string_of(m.device.as_slice()),
                        filesystem: string_of(m.filesystem.as_slice()),
                        total_bytes: st.total_bytes,
                        used_bytes: sat_sub_u64(st.total_bytes, st.free_bytes),
                        available_bytes: st.available_bytes,
                        read_bytes: rd,
                        write_bytes: wr,
                    };
                    let ghost before = disk_views(out@);
                    out.push(d);
                    assert(disk_views(out@) =~= before.push(disk_view(d)));
                    assert(disk_view(d) == disk_of(mv[i as int], st, cur, prev));
                },
                None => {},
            }
            i = i + 1;
        }
        assert(mv.take(mounts.len() as int) =~= mv);
        assert(stats@.take(mounts.len() as int) =~= stats@);
        proof {
            lemma_disks_used_within_total(mv, stats@, cur, prev);
            assert forall|k: int| 0 <= k < out@.len() implies (#[trigger] out@[k]).used_bytes
                <= out@[k].total_bytes by {
                assert(disk_views(out@)[k] == disk_view(out@[k]));
            }
        }
        self.prev_disk_io = Some(current_io);
        out
    }
}

// ---------------------------------------------------------------------------
// Network
// ---------------------------------------------------------------------------

/// Sum of received (`rx`) or sent bytes over the interfaces other than `lo`.
pub open spec fn non_loopback_sum(es: Seq<NetDevView>, rx: bool) -> int
    decreases es.len(),
{
    if es.len() == 0 {
        0
    } else {
        non_loopback_sum(es.drop_last(), rx) + if es.last().0 == "lo"@ {
            0
        } else if rx {
            es.last().1 as int
        } else {
            es.last().4 as int
        }
    }
}

proof fn lemma_sum_prefix(es: Seq<NetDevView>, i: int, rx: bool)
    requires
        0 <= i <= es.len(),
    ensures
        non_loopback_sum(es.take(i), rx) <= non_loopback_sum(es, rx),
        0 <= non_loopback_sum(es.take(i), rx),
    decreases es.len() - i,
{
    if i < es.len() {
        lemma_sum_prefix(es, i + 1, rx);
        assert(es.take(i + 1).drop_last() =~= es.take(i));
        lemma_sum_nonneg(es.take(i), rx);
    } else {
        assert(es.take(i) =~= es);
        lemma_sum_nonneg(es, rx);
    }
}

proof fn lemma_sum_nonneg(es: Seq<NetDevView>, rx: bool)
    ensures
        0 <= non_loopback_sum(es, rx),
    decreases es.len(),
{
    if es.len() > 0 {
        lemma_sum_nonneg(es.drop_last(), rx);
    }
}

/// An interface's (name, rx delta, tx delta, rx packets, tx packets,
/// rx errors, tx errors, up).
pub type InterfaceView = (Seq<char>, u64, u64, u64, u64, u64, u64, bool);

pub open spec fn interface_view(i: InterfaceMetrics) -> InterfaceView {
    (i.name@, i.rx_bytes, i.tx_bytes, i.rx_packets, i.tx_packets, i.rx_errors, i.tx_errors, i.is_up)
}

pub open spec fn interface_views(is: Seq<InterfaceMetrics>) -> Seq<InterfaceView> {
    is.map_values(|i: InterfaceMetrics| interface_view(i))
}

/// One interface of a network reading. Byte counts are the change since
/// the previous reading (zero when either reading lacks the interface).
/// Whether it is up comes from its `operstate` when that could be read, and
/// otherwise from whether it ever moved a byte.
pub open spec fn interface_of(
    e: NetDevView,
    up: Option<bool>,
    prev: Option<(Seq<(Seq<char>, u64, u64)>, u64, u64)>,
) -> InterfaceView {
    let d = match prev {
        Some(p) => match counter_lookup(p.0, e.0) {
            Some(q) => (sat_sub(e.1 as int, q.0 as int) as u64, sat_sub(e.4 as int, q.1 as int) as u64),
            None => (0u64, 0u64),
        },
        None => (0u64, 0u64),
    };
    (
        e.0,
        d.0,
        d.1,
        e.2,
        e.5,
        e.3,
        e.6,
        match up {
            Some(b) => b,
            None => e.1 > 0 || e.4 > 0,
        },
    )
}

/// What an interface of a network reading holds: its name; as received and
/// sent bytes the growth of its received and sent byte counters since the
/// previous reading (0 where that reading lacks it); the received and sent
/// packet and error counts of its /proc/net/dev entry as they stand; and
/// whether it is up.
pub proof fn lemma_interface_columns(
    e: NetDevView,
    up: Option<bool>,
    prev: Option<(Seq<(Seq<char>, u64, u64)>, u64, u64)>,
)
    ensures
        ({
            let i = interface_of(e, up, prev);
            let (name, rx_bytes, rx_packets, rx_errors, tx_bytes, tx_packets, tx_errors) = e;
            &&& i.0 == name
            &&& i.1 == match prev {
                Some(p) => match counter_lookup(p.0, name) {
                    Some(q) => growth(q.0 as int, rx_bytes as int),
                    None => 0,
                },
                None => 0,
            }
            &&& i.2 == match prev {
                Some(p) => match counter_lookup(p.0, name) {
                    Some(q) => growth(q.1 as int, tx_bytes as int),
                    None => 0,
                },
                None => 0,
            }
            &&& i.3 == rx_packets
            &&& i.4 == tx_packets
            &&& i.5 == rx_errors
            &&& i.6 == tx_errors
            &&& i.7 == match up {
                Some(b) => b,
                None => rx_bytes > 0 || tx_bytes > 0,
            }
        }),
{
}

/// The views of the metrics name their fields: a disk's (mount point,
/// device, filesystem, total, used, available, read, written), an
/// interface's (name, received bytes, sent bytes, received packets, sent
/// packets, received errors, sent errors, up) and a process's (pid, name,
/// state, CPU ticks, CPU ticks of the machine, memory, memory of the
/// machine, threads).
pub proof fn lemma_metric_views(
    d: DiskMetrics,
    i: InterfaceMetrics,
    p: crate::metrics::ProcessInfo,
)
    ensures
        disk_view(d) == (
            d.mount_point@,
            d.device@,
            d.filesystem@,
            d.total_bytes,
            d.used_bytes,
            d.available_bytes,
            d.read_bytes,
            d.write_bytes,
        ),
        interface_view(i) == (
            i.name@,
            i.rx_bytes,
            i.tx_bytes,
            i.rx_packets,
            i.tx_packets,
            i.rx_errors,
            i.tx_errors,
            i.is_up,
        ),
        process_view(p) == (
            p.pid,
            p.name@,
            p.state,
            p.cpu_ticks,
            p.cpu_ticks_total,
            p.memory_bytes,
            p.memory_total_bytes,
            p.threads,
        ),
{
}

/// The first network reading (no previous counters) reports no traffic on
/// any interface.
pub proof fn lemma_first_network_reading_quiet(e: NetDevView, up: Option<bool>)
    ensures
        interface_of(e, up, None).1 == 0,
        interface_of(e, up, None).2 == 0,
{
}

/// (name, rx, tx) of each interface: what the next reading compares with.
pub open spec fn counters_of(es: Seq<NetDevView>) -> Seq<(Seq<char>, u64, u64)> {
    es.map_values(|e: NetDevView| (e.0, e.1, e.4))
}

impl ProcReader {
    /// Network metrics from the /proc/net/dev interfaces, each one's
    /// operstate result (`None` where the file could not be read), and the
    /// established connection count. Byte counts are changes since the
    /// previous network reading (zero at the first). Fails, changing
    /// nothing, when the byte totals of the interfaces other than `lo` do
    /// not fit in 64 bits.
    pub fn update_network(
        &mut self,
        entries: &Vec<NetDevEntry>,
        up: &Vec<Option<bool>>,
        active_connections: u64,
    ) -> (r: Result<NetworkMetrics, ParseFault>)
        requires
            up@.len() == entries@.len(),
        ensures
            ({
                let es = net_dev_views(entries@);
                let rx = non_loopback_sum(es, true);
                let tx = non_loopback_sum(es, false);
                if rx > u64::MAX || tx > u64::MAX {
                    &&& r == Err::<NetworkMetrics, ParseFault>(ParseFault::Overflow)
                    &&& final(self).prev_network() == old(self).prev_network()
                } else {
                    &&& r is Ok
                    &&& interface_views(r->Ok_0.interfaces@) == Seq::new(
                        es.len(),
                        |i: int| interface_of(es[i], up@[i], old(self).prev_network()),
                    )
                    &&& r->Ok_0.total_rx_bytes == match old(self).prev_network() {
                        Some(p) => sat_sub(rx, p.1 as int),
                        None => 0,
                    }
                    &&& r->Ok_0.total_tx_bytes == match old(self).prev_network() {
                        Some(p) => sat_sub(tx, p.2 as int),
                        None => 0,
                    }
                    &&& r->Ok_0.active_connections == active_connections
                    &&& final(self).prev_network() == Some((counters_of(es), rx as u64, tx as u64))
                }
            }),
            final(self).prev_cpu() == old(self).prev_cpu(),
            final(self).prev_disks() == old(self).prev_disks(),
            final(self).prev_procs() == old(self).prev_procs(),
            final(self).system_delta() == old(self).system_delta(),
            final(self).cores() == old(self).cores(),
            final(self).threads() == old(self).threads(),
    {
        let ghost es = net_dev_views(entries@);
        let ghost prev = self.prev_network();
        // Totals of cumulative counters, skipping the loopback interface.
        let mut total_rx: u64 = 0;
        let mut total_tx: u64 = 0;
        let mut i: usize = 0;
        while i < entries.len()
            invariant
                i <= entries.len(),
                es == net_dev_views(entries@),
                total_rx == non_loopback_sum(es.take(i as int), true),
                total_tx == non_loopback_sum(es.take(i as int), false),
            decreases entries.len() - i,
        {
            assert(es.take(i + 1).drop_last() =~= es.take(i as int));
            assert(es[i as int] == net_dev_entry_view(entries@[i as int]));
            let e = &entries[i];
            if !chars_eq_str(e.name.as_slice(), "lo") {
                if e.rx_bytes > 18446744073709551615 - total_rx || e.tx_bytes
                    > 18446744073709551615 - total_tx {
                    proof {
                        lemma_sum_prefix(es, i + 1, true);
                        lemma_sum_prefix(es, i + 1, false);
                    }
                    return Err(ParseFault::Overflow);
                }
                total_rx = total_rx + e.rx_bytes;
                total_tx = total_tx + e.tx_bytes;
            }
            i = i + 1;
        }
        assert(es.take(entries.len() as int) =~= es);
        let mut interfaces: Vec<InterfaceMetrics> = Vec::new();
        let mut counters: Vec<(Vec<char>, u64, u64)> = Vec::new();
        let mut k: usize = 0;
        while k < entries.len()
            invariant
                k <= entries.len(),
                up@.len() == entries@.len(),
                es == net_dev_views(entries@),
                prev == self.prev_network(),
                interface_views(interfaces@) == Seq::new(
                    k as nat,
                    |j: int| interface_of(es[j], up@[j], prev),
                ),
                counter_views(counters@) == counters_of(es.take(k as int)),
            decreases entries.len() - k,
        {
            let e = &entries[k];
            assert(es[k as int] == net_dev_entry_view(entries@[k as int]));
            let (drx, dtx) = match &self.prev_net {
                Some(p) => match counter_lookup_net(&p.per_interface, e.name.as_slice()) {
                    Some(q) => (sat_sub_u64(e.rx_bytes, q.0), sat_sub_u64(e.tx_bytes, q.1)),
                    None => (0, 0),
                },
                None => (0, 0),
            };
            let is_up = match up[k] {
                Some(b) => b,
                None => e.rx_bytes > 0 || e.tx_bytes > 0,
            };
            let m = InterfaceMetrics {
                name: string_of(e.name.as_slice()),
                rx_bytes: drx,
                tx_bytes: dtx,
                rx_packets: e.rx_packets,
                tx_packets: e.tx_packets,
                rx_errors: e.rx_errors,
                tx_errors: e.tx_errors,
                is_up,
            };
            assert(interface_view(m) == interface_of(es[k as int], up@[k as int], prev));
            let ghost before_i = interface_views(interfaces@);
            let ghost before_c = counter_views(counters@);
            let ghost ev = es[k as int];
            interfaces.push(m);
            let c = (e.name.clone(), e.rx_bytes, e.tx_bytes);
            assert((c.0@, c.1, c.2) == (ev.0, ev.1, ev.4));
            counters.push(c);
            k = k + 1;
            assert(interface_views(interfaces@) =~= before_i.push(interface_view(m)));
            assert(interface_views(interfaces@) =~= Seq::new(
                k as nat,
                |j: int| interface_of(es[j], up@[j], prev),
            ));
            assert(counter_views(counters@) =~= before_c.push((ev.0, ev.1, ev.4)));
            assert(es.take(k as int) =~= es.take(k - 1).push(ev));
            assert(counters_of(es.take(k as int)) =~= counters_of(es.take(k - 1)).push(
                (ev.0, ev.1, ev.4),
            ));
        }
        assert(es.take(entries.len() as int) =~= es);
        let (delta_rx, delta_tx) = match &self.prev_net {
            Some(p) => (sat_sub_u64(total_rx, p.total_rx), sat_sub_u64(total_tx, p.total_tx)),
            None => (0, 0),
        };
        self.prev_net = Some(NetCounters { per_interface: counters, total_rx, total_tx });
        Ok(
            NetworkMetrics {
                interfaces,
                total_rx_bytes: delta_rx,
                total_tx_bytes: delta_tx,
                active_connections,
            },
        )
    }
}

// ---------------------------------------------------------------------------
// Processes
// ---------------------------------------------------------------------------

/// A process's (pid, name, state, CPU ticks, CPU ticks of the machine,
/// memory bytes, memory bytes of the machine, threads).
pub type ProcessView = (u32, Seq<char>, char, u64, u64, u64, u64, u64);

pub open spec fn process_view(p: crate::metrics::ProcessInfo) -> ProcessView {
    (
        p.pid,
        p.name@,
        p.state,
        p.cpu_ticks,
        p.cpu_ticks_total,
        p.memory_bytes,
        p.memory_total_bytes,
        p.threads,
    )
}

/// CPU time a process used since the previous reading (user plus system,
/// never below zero).
pub open spec fn process_delta(p: crate::procfs::RawProcView, prev: Map<u32, ProcCpuTimes>) -> int {
    sat_sub(p.3 + p.4, prev[p.0].utime + prev[p.0].stime)
}

/// Whether the monitor's figures for a process it compares with its
/// previous reading would overflow: a sum of user and system time, or the
/// CPU time used times the number of cores.
pub open spec fn process_overflows(
    p: crate::procfs::RawProcView,
    sys: u64,
    cores: usize,
    prev: Map<u32, ProcCpuTimes>,
) -> bool {
    sys > 0 && prev.contains_key(p.0) && (p.3 + p.4 > u64::MAX || prev[p.0].utime
        + prev[p.0].stime > u64::MAX || process_delta(p, prev) * cores > u64::MAX)
}

/// The numerator of a process's CPU share since the previous reading: its
/// CPU time times the number of cores (the denominator is the system's CPU
/// time); 0 at its first reading or when no system time passed.
pub open spec fn process_cpu(
    p: crate::procfs::RawProcView,
    sys: u64,
    cores: usize,
    prev: Map<u32, ProcCpuTimes>,
) -> u64 {
    if sys > 0 && prev.contains_key(p.0) {
        (process_delta(p, prev) * cores) as u64
    } else {
        0
    }
}

/// A process's CPU figure, stated from its counters: for a process seen at
/// the previous reading, while system time passed, the growth of its user
/// plus system time since then, times the number of cores; 0 otherwise.
pub proof fn lemma_process_cpu_user_plus_system(
    p: crate::procfs::RawProcView,
    sys: u64,
    cores: usize,
    prev: Map<u32, ProcCpuTimes>,
)
    ensures
        ({
            let (pid, name, state, utime, stime, threads) = p;
            process_cpu(p, sys, cores, prev) == if sys > 0 && prev.contains_key(pid) {
                (growth(prev[pid].utime + prev[pid].stime, utime + stime) * cores) as u64
            } else {
                0u64
            }
        }),
{
}

/// Total threads over the processes.
pub open spec fn thread_sum(ps: Seq<crate::procfs::RawProcView>) -> int
    decreases ps.len(),
{
    if ps.len() == 0 {
        0
    } else {
        thread_sum(ps.drop_last()) + ps.last().5
    }
}

/// CPU times by pid after reading the processes (a pid read twice keeps its
/// last times).
pub open spec fn times_by_pid(ps: Seq<crate::procfs::RawProcView>) -> Map<u32, ProcCpuTimes>
    decreases ps.len(),
{
    if ps.len() == 0 {
        Map::empty()
    } else {
        times_by_pid(ps.drop_last()).insert(
            ps.last().0,
            ProcCpuTimes { utime: ps.last().3, stime: ps.last().4 },
        )
    }
}

pub open spec fn raw_views(ps: Seq<crate::procfs::RawProc>) -> Seq<crate::procfs::RawProcView> {
    ps.map_values(|p: crate::procfs::RawProc| crate::procfs::raw_proc_view(p))
}

proof fn lemma_thread_sum_prefix(ps: Seq<crate::procfs::RawProcView>, i: int)
    requires
        0 <= i <= ps.len(),
    ensures
        0 <= thread_sum(ps.take(i)) <= thread_sum(ps),
    decreases ps.len() - i,
{
    if i < ps.len() {
        lemma_thread_sum_prefix(ps, i + 1);
        assert(ps.take(i + 1).drop_last() =~= ps.take(i));
        lemma_thread_sum_nonneg(ps.take(i));
    } else {
        assert(ps.take(i) =~= ps);
        lemma_thread_sum_nonneg(ps);
    }
}

proof fn lemma_thread_sum_nonneg(ps: Seq<crate::procfs::RawProcView>)
    ensures
        0 <= thread_sum(ps),
    decreases ps.len(),
{
    if ps.len() > 0 {
        lemma_thread_sum_nonneg(ps.drop_last());
    }
}

impl ProcReader {
    /// The process entries of a process reading, in reading order, with
    /// their CPU shares since the previous process reading (memory is
    /// filled in later). Keeps the thread total and each process's CPU
    /// times for the next reading. Fails, changing nothing, where the
    /// monitor's thread total, a compared process's time sum, or its CPU
    /// time times the number of cores would overflow.
    pub fn process_infos(&mut self, raws: &Vec<crate::procfs::RawProc>) -> (r: Result<
        Vec<crate::metrics::ProcessInfo>,
        ParseFault,
    >)
        ensures
            ({
                let ps = raw_views(raws@);
                let sys = old(self).system_delta();
                let prev = old(self).prev_procs();
                if thread_sum(ps) > u64::MAX || exists|i: int|
                    0 <= i < ps.len() && process_overflows(#[trigger] ps[i], sys, old(self).cores(), prev) {
                    &&& r == Err::<Vec<crate::metrics::ProcessInfo>, ParseFault>(
                        ParseFault::Overflow,
                    )
                    &&& final(self).prev_procs() == prev
                    &&& final(self).threads() == old(self).threads()
                } else {
                    &&& r is Ok
                    &&& r->Ok_0@.len() == ps.len()
                    &&& forall|i: int|
                        0 <= i < ps.len() ==> process_view(#[trigger] r->Ok_0@[i]) == (
                            ps[i].0,
                            ps[i].1,
                            ps[i].2,
                            process_cpu(ps[i], sys, old(self).cores(), prev),
                            sys,
                            0u64,
                            0u64,
                            ps[i].5,
                        )
                    &&& final(self).threads() == thread_sum(ps)
                    &&& final(self).prev_procs() == times_by_pid(ps)
                }
            }),
            final(self).prev_cpu() == old(self).prev_cpu(),
            final(self).prev_network() == old(self).prev_network(),
            final(self).prev_disks() == old(self).prev_disks(),
            final(self).system_delta() == old(self).system_delta(),
            final(self).cores() == old(self).cores(),
    {
        broadcast use vstd::std_specs::hash::group_hash_axioms;

        let ghost ps = raw_views(raws@);
        let ghost prev = self.prev_procs();
        let sys = self.last_system_cpu_delta;
        let cores = self.num_cores;
        // Thread total, and whether any compared process's times overflow.
        let mut threads: u64 = 0;
        let mut i: usize = 0;
        while i < raws.len()
            invariant
                i <= raws.len(),
                ps == raw_views(raws@),
                prev == self.prev_procs(),
                sys == self.system_delta(),
                threads == thread_sum(ps.take(i as int)),
                cores == self.cores(),
                forall|k: int| 0 <= k < i ==> !process_overflows(#[trigger] ps[k], sys, cores, prev),
            decreases raws.len() - i,
        {
            assert(ps.take(i + 1).drop_last() =~= ps.take(i as int));
            assert(ps[i as int] == crate::procfs::raw_proc_view(raws@[i as int]));
            let p = &raws[i];
            if p.num_threads > 18446744073709551615 - threads {
                proof {
                    lemma_thread_sum_prefix(ps, i + 1);
                }
                return Err(ParseFault::Overflow);
            }
            threads = threads + p.num_threads;
            if sys > 0 {
                match self.prev_proc_times.get(&p.pid) {
                    Some(q) => {
                        if p.utime > 18446744073709551615 - p.stime || q.utime > 18446744073709551615
                            - q.stime {
                            proof {
                                lemma_thread_sum_prefix(ps, i as int);
                            }
                            return Err(ParseFault::Overflow);
                        }
                        let d = sat_sub_u64(p.utime + p.stime, q.utime + q.stime);
                        assert((d as int) * (cores as int) <= u128::MAX) by (nonlinear_arith)
                            requires
                                d <= u64::MAX,
                                cores <= u64::MAX,
                        ;
                        if (d as u128) * (cores as u128) > 18446744073709551615 {
                            proof {
                                lemma_thread_sum_prefix(ps, i as int);
                                assert(process_delta(ps[i as int], prev) == d);
                            }
                            return Err(ParseFault::Overflow);
                        }
                        assert(process_delta(ps[i as int], prev) == d);
                    },
                    None => {},
                }
            }
            i = i + 1;
        }
        assert(ps.take(raws.len() as int) =~= ps);
        let mut infos: Vec<crate::metrics::ProcessInfo> = Vec::new();
        let mut new_prev: HashMap<u32, ProcCpuTimes> = HashMap::new();
        let mut k: usize = 0;
        while k < raws.len()
            invariant
                k <= raws.len(),
                ps == raw_views(raws@),
                prev == self.prev_procs(),
                sys == self.system_delta(),
                cores == self.cores(),
                forall|j: int| 0 <= j < ps.len() ==> !process_overflows(#[trigger] ps[j], sys, cores, prev),
                infos@.len() == k,
                forall|j: int|
                    0 <= j < k ==> process_view(#[trigger] infos@[j]) == (
                        ps[j].0,
                        ps[j].1,
                        ps[j].2,
                        process_cpu(ps[j], sys, self.cores(), prev),
                        sys,
                        0u64,
                        0u64,
                        ps[j].5,
                    ),
                new_prev@ == times_by_pid(ps.take(k as int)),
            decreases raws.len() - k,
        {
            let p = &raws[k];
            assert(ps[k as int] == crate::procfs::raw_proc_view(raws@[k as int]));
            let cur = ProcCpuTimes { utime: p.utime, stime: p.stime };
            let cpu = if sys > 0 {
                match self.prev_proc_times.get(&p.pid) {
                    Some(q) => {
                        assert(!process_overflows(ps[k as int], sys, cores, prev));
                        let d = sat_sub_u64(cur.total(), q.total());
                        assert(process_delta(ps[k as int], prev) == d);
                        assert((d as u128) * (cores as u128) <= 18446744073709551615);
                        ((d as u128) * (cores as u128)) as u64
                    },
                    None => 0,
                }
            } else {
                0
            };
            let info = crate::metrics::ProcessInfo {
                pid: p.pid,
                name: string_of(p.name.as_slice()),
                state: p.state,
                cpu_ticks: cpu,
                cpu_ticks_total: sys,
                memory_bytes: 0,
                memory_total_bytes: 0,
                threads: p.num_threads,
            };
            infos.push(info);
            new_prev.insert(p.pid, cur);
            assert(ps.take(k + 1).drop_last() =~= ps.take(k as int));
            k = k + 1;
        }
        assert(ps.take(raws.len() as int) =~= ps);
        self.prev_proc_times = new_prev;
        self.total_threads = threads;
        Ok(infos)
    }
}

/// The `top_n` processes with the highest CPU share: the entries stably
/// sorted by descending CPU share, cut to `top_n`. Every entry left out has
/// a CPU share no higher than any entry kept.
pub fn top_by_cpu(infos: Vec<crate::metrics::ProcessInfo>, top_n: usize) -> (r: Vec<
    crate::metrics::ProcessInfo,
>)
    ensures
        exists|full: Seq<crate::metrics::ProcessInfo>|
            {
                &&& crate::ranking::stable_sorted(full, infos@, crate::tui::ProcessSort::Cpu, true)
                &&& r@ == full.take(
                    if top_n < infos@.len() {
                        top_n as int
                    } else {
                        infos@.len() as int
                    },
                )
                &&& forall|i: int, j: int|
                    0 <= i < r@.len() <= j < full.len() ==> crate::ranking::cpu_key(
                        #[trigger] full[j],
                    ) <= crate::ranking::cpu_key(#[trigger] full[i])
                &&& forall|x: crate::metrics::ProcessInfo| infos@.contains(x) ==> full.contains(x)
            },
{
    let mut sorted = crate::ranking::sort_processes(
        infos.as_slice(),
        crate::tui::ProcessSort::Cpu,
        true,
    );
    let ghost full = sorted@;
    sorted.truncate(top_n);
    proof {
        crate::ranking::lemma_top_n_keeps_largest(full, infos@, sorted@.len() as int);
    }
    assert(sorted@ =~= full.take(
        if top_n < infos@.len() {
            top_n as int
        } else {
            infos@.len() as int
        },
    ));
    sorted
}

/// A process's resident memory in bytes: its resident pages times the page
/// size. Fails when that does not fit in 64 bits.
pub fn process_memory(rss_pages: u64, page_size: u64) -> (r: Result<u64, ParseFault>)
    ensures
        rss_pages * page_size > u64::MAX ==> r == Err::<u64, ParseFault>(ParseFault::Overflow),
        rss_pages * page_size <= u64::MAX ==> r == Ok::<u64, ParseFault>(
            (rss_pages * page_size) as u64,
        ),
{
    match rss_pages.checked_mul(page_size) {
        Some(bytes) => Ok(bytes),
        None => Err(ParseFault::Overflow),
    }
}

} // verus!

//! Parsers for the Linux /proc text files the collector reads. Each takes the
//! file's text and gives what the collector uses of it; where the monitor's
//! arithmetic on the values would overflow, the parser says so with an error.
use crate::text::{
    is_ws,
    chars_eq_str, chars_of, is_ascii_digit, is_digit, lines, parse_u64, parse_u64_or_zero,
    parse_u64_or_zero_exec, parse_u64_spec, split_lines, split_words, starts_with, starts_with_str,
    trim, trim_chars, views, word_u64, word_u64_exec, words,
};
use vstd::prelude::*;

verus! {

/// The parsed value would overflow the arithmetic applied to it.
#[derive(Debug, Clone, Copy, PartialEq, Eq, Structural)]
pub enum ParseFault {
    /// A counter times its unit does not fit in 64 bits.
    Overflow,
    /// A process stat line ends right after its command name, or with a
    /// character that is not ASCII there.
    Truncated,
}

// ---------------------------------------------------------------------------
// /proc/stat
// ---------------------------------------------------------------------------

/// Accumulated CPU time counters from a single `cpu` line in /proc/stat.
#[derive(Debug, Clone, Copy, PartialEq, Eq, Structural)]
pub struct CpuTimes {
    pub user: u64,
    pub nice: u64,
    pub system: u64,
    pub idle: u64,
    pub iowait: u64,
    pub irq: u64,
    pub softirq: u64,
    pub steal: u64,
}

impl CpuTimes {
    /// Sum of all counters.
    pub open spec fn sum(self) -> int {
        self.user + self.nice + self.system + self.idle + self.iowait + self.irq + self.softirq
            + self.steal
    }

    /// Counters that fit the monitor's 64-bit sums.
    pub open spec fn fits(self) -> bool {
        self.sum() <= u64::MAX
    }

    pub open spec fn spec_zero() -> CpuTimes {
        CpuTimes {
            user: 0,
            nice: 0,
            system: 0,
            idle: 0,
            iowait: 0,
            irq: 0,
            softirq: 0,
            steal: 0,
        }
    }

    /// All counters zero.
    pub fn zero() -> (t: CpuTimes)
        ensures
            t == CpuTimes::spec_zero(),
    {
        CpuTimes { user: 0, nice: 0, system: 0, idle: 0, iowait: 0, irq: 0, softirq: 0, steal: 0 }
    }

    /// Total time of all kinds.
    pub fn total(&self) -> (t: u64)
        requires
            self.fits(),
        ensures
            t == self.sum(),
    {
        self.user + self.nice + self.system + self.idle + self.iowait + self.irq + self.softirq
            + self.steal
    }

    /// Time not spent idle or waiting for I/O.
    pub fn busy(&self) -> (b: u64)
        requires
            self.fits(),
        ensures
            b == self.sum() - self.idle - self.iowait,
    {
        self.total() - self.idle - self.iowait
    }
}

/// Whether the first word of a line that begins with `cpu` names the
/// aggregate (`cpu`) or a core (`cpu` and a digit).
pub open spec fn is_cpu_label(w: Seq<char>) -> bool {
    w == "cpu"@ || (w.len() > 3 && is_digit(w[3]))
}

/// The counters of a `cpu` line with at least eight words.
pub open spec fn cpu_line(l: Seq<char>) -> Option<CpuTimes> {
    let ws = words(l);
    let first = if ws.len() > 0 {
        ws[0]
    } else {
        seq![]
    };
    if !is_cpu_label(first) || ws.len() < 8 {
        None
    } else {
        Some(
            CpuTimes {
                user: word_u64(ws, 1),
                nice: word_u64(ws, 2),
                system: word_u64(ws, 3),
                idle: word_u64(ws, 4),
                iowait: word_u64(ws, 5),
                irq: word_u64(ws, 6),
                softirq: word_u64(ws, 7),
                steal: if ws.len() > 8 {
                    word_u64(ws, 8)
                } else {
                    0
                },
            },
        )
    }
}

/// The counters of a CPU line are its words 1 to 8 in the kernel's order:
/// user, nice, system, idle, iowait, irq, softirq, steal (steal 0 where the
/// line has only seven numbers). A line labelled `cpu` or `cpuN` with at
/// least eight words is always read.
pub proof fn lemma_cpu_line_columns(l: Seq<char>)
    ensures
        cpu_line(l) matches Some(t) ==> {
            let ws = words(l);
            &&& ws.len() >= 8
            &&& is_cpu_label(ws[0])
            &&& t.user == parse_u64_or_zero(ws[1])
            &&& t.nice == parse_u64_or_zero(ws[2])
            &&& t.system == parse_u64_or_zero(ws[3])
            &&& t.idle == parse_u64_or_zero(ws[4])
            &&& t.iowait == parse_u64_or_zero(ws[5])
            &&& t.irq == parse_u64_or_zero(ws[6])
            &&& t.softirq == parse_u64_or_zero(ws[7])
            &&& t.steal == (if ws.len() > 8 {
                parse_u64_or_zero(ws[8])
            } else {
                0
            })
        },
        words(l).len() >= 8 && is_cpu_label(words(l)[0]) ==> cpu_line(l) is Some,
{
}

/// The value of a `procs_running` line.
pub open spec fn procs_running_line(l: Seq<char>) -> Option<u64> {
    if starts_with(l, "procs_running "@) {
        Some(parse_u64_or_zero(trim(l.skip(14))))
    } else {
        None
    }
}

/// CPU lines and the last `procs_running` value among the lines `ls`.
pub open spec fn stat_fold(ls: Seq<Seq<char>>) -> (Seq<CpuTimes>, u64)
    decreases ls.len(),
{
    if ls.len() == 0 {
        (seq![], 0)
    } else {
        let prev = stat_fold(ls.drop_last());
        let l = ls.last();
        if starts_with(l, "cpu"@) {
            match cpu_line(l) {
                Some(t) => (prev.0.push(t), prev.1),
                None => prev,
            }
        } else {
            match procs_running_line(l) {
                Some(v) => (prev.0, v),
                None => prev,
            }
        }
    }
}

/// The CPU counters (aggregate first, then each core) and the number of
/// running processes in the text of /proc/stat. With no CPU line, one line
/// of zeros stands in.
pub open spec fn proc_stat(s: Seq<char>) -> (Seq<CpuTimes>, u64) {
    let r = stat_fold(lines(s));
    (
        if r.0.len() == 0 {
            seq![CpuTimes::spec_zero()]
        } else {
            r.0
        },
        r.1,
    )
}

fn parse_cpu_line(l: &[char]) -> (r: Option<CpuTimes>)
    ensures
        r == cpu_line(l@),
{
    let ws = split_words(l);
    let ghost wv = views(ws@);
    let first_ok = if ws.len() > 0 {
        let w = ws[0].as_slice();
        chars_eq_str(w, "cpu") || (w.len() > 3 && is_ascii_digit(w[3]))
    } else {
        chars_eq_str(&[], "cpu")
    };
    proof {
        if ws.len() == 0 {
            assert(Seq::<char>::empty() =~= seq![]);
        }
    }
    if !first_ok || ws.len() < 8 {
        return None;
    }
    Some(
        CpuTimes {
            user: word_u64_exec(&ws, 1),
            nice: word_u64_exec(&ws, 2),
            system: word_u64_exec(&ws, 3),
            idle: word_u64_exec(&ws, 4),
            iowait: word_u64_exec(&ws, 5),
            irq: word_u64_exec(&ws, 6),
            softirq: word_u64_exec(&ws, 7),
            steal: if ws.len() > 8 {
                word_u64_exec(&ws, 8)
            } else {
                0
            },
        },
    )
}

fn parse_procs_running_line(l: &[char]) -> (r: Option<u64>)
    ensures
        r == procs_running_line(l@),
{
    if !starts_with_str(l, "procs_running ") {
        return None;
    }
    proof {
        reveal_strlit("procs_running ");
    }
    let mut rest: Vec<char> = Vec::new();
    let mut i: usize = 14;
    while i < l.len()
        invariant
            14 <= i <= l.len(),
            rest@ == l@.subrange(14, i as int),
        decreases l.len() - i,
    {
        rest.push(l[i]);
        i = i + 1;
        assert(rest@ =~= l@.subrange(14, i as int));
    }
    assert(rest@ =~= l@.skip(14));
    let t = trim_chars(rest.as_slice());
    Some(parse_u64_or_zero_exec(t.as_slice()))
}

/// Parses the text of /proc/stat.
pub fn parse_proc_stat(content: &str) -> (r: (Vec<CpuTimes>, u64))
    ensures
        r.0@ == proc_stat(content@).0,
        r.1 == proc_stat(content@).1,
{
    let cs = chars_of(content);
    let ls = split_lines(cs.as_slice());
    let ghost lv = views(ls@);
    let mut times: Vec<CpuTimes> = Vec::new();
    let mut procs: u64 = 0;
    let mut i: usize = 0;
    while i < ls.len()
        invariant
            i <= ls.len(),
            lv == views(ls@),
            lv == lines(content@),
            (times@, procs) == stat_fold(lv.take(i as int)),
        decreases ls.len() - i,
    {
        let l = ls[i].as_slice();
        assert(lv.take(i + 1).drop_last() =~= lv.take(i as int));
        assert(lv[i as int] == l@);
        if starts_with_str(l, "cpu") {
            match parse_cpu_line(l) {
                Some(t) => times.push(t),
                None => {},
            }
        } else {
            match parse_procs_running_line(l) {
                Some(v) => {
                    procs = v;
                },
                None => {},
            }
        }
        i = i + 1;
    }
    assert(lv.take(ls.len() as int) =~= lv);
    if times.len() == 0 {
        times.push(CpuTimes::zero());
        assert(times@ =~= seq![CpuTimes::spec_zero()]);
    }
    (times, procs)
}

/// CPU time counters of one process from /proc/[pid]/stat.
#[derive(Debug, Clone, Copy, PartialEq, Eq, Structural)]
pub struct ProcCpuTimes {
    pub utime: u64,
    pub stime: u64,
}

impl ProcCpuTimes {
    /// User plus system time.
    pub fn total(&self) -> (t: u64)
        requires
            self.utime + self.stime <= u64::MAX,
        ensures
            t == self.utime + self.stime,
    {
        self.utime + self.stime
    }
}

// ---------------------------------------------------------------------------
// /proc/meminfo
// ---------------------------------------------------------------------------

/// The four /proc/meminfo values the monitor uses, in bytes.
#[derive(Debug, Clone, Copy, PartialEq, Eq, Structural)]
pub struct MemInfo {
    pub total: u64,
    pub available: u64,
    pub swap_total: u64,
    pub swap_free: u64,
}

/// The meminfo values after the lines `ls`, or `None` when some line's
/// number of kilobytes does not fit in 64 bits as bytes.
pub open spec fn meminfo_fold(ls: Seq<Seq<char>>) -> Option<MemInfo>
    decreases ls.len(),
{
    if ls.len() == 0 {
        Some(MemInfo { total: 0, available: 0, swap_total: 0, swap_free: 0 })
    } else {
        match meminfo_fold(ls.drop_last()) {
            None => None,
            Some(m) => {
                let ws = words(ls.last());
                if ws.len() < 2 {
                    Some(m)
                } else if parse_u64_or_zero(ws[1]) * 1024 > u64::MAX {
                    None
                } else {
                    let kb = (parse_u64_or_zero(ws[1]) * 1024) as u64;
                    if ws[0] == "MemTotal:"@ {
                        Some(MemInfo { total: kb, ..m })
                    } else if ws[0] == "MemAvailable:"@ {
                        Some(MemInfo { available: kb, ..m })
                    } else if ws[0] == "SwapTotal:"@ {
                        Some(MemInfo { swap_total: kb, ..m })
                    } else if ws[0] == "SwapFree:"@ {
                        Some(MemInfo { swap_free: kb, ..m })
                    } else {
                        Some(m)
                    }
                }
            },
        }
    }
}

/// Parses the text of /proc/meminfo.
pub fn parse_meminfo(content: &str) -> (r: Result<MemInfo, ParseFault>)
    ensures
        match meminfo_fold(lines(content@)) {
            Some(m) => r == Ok::<MemInfo, ParseFault>(m),
            None => r == Err::<MemInfo, ParseFault>(ParseFault::Overflow),
        },
{
    let cs = chars_of(content);
    let ls = split_lines(cs.as_slice());
    let ghost lv = views(ls@);
    let mut m = MemInfo { total: 0, available: 0, swap_total: 0, swap_free: 0 };
    let mut i: usize = 0;
    while i < ls.len()
        invariant
            i <= ls.len(),
            lv == views(ls@),
            lv == lines(content@),
            meminfo_fold(lv.take(i as int)) == Some(m),
        decreases ls.len() - i,
    {
        assert(lv.take(i + 1).drop_last() =~= lv.take(i as int));
        let ws = split_words(ls[i].as_slice());
        if ws.len() >= 2 {
            let v = parse_u64_or_zero_exec(ws[1].as_slice());
            if v > 18014398509481983 {
                assert(meminfo_fold(lv.take(i + 1)) is None);
                proof {
                    lemma_fold_none_stays(lv, i as int + 1);
                }
                return Err(ParseFault::Overflow);
            }
            let kb = v * 1024;
            let key = ws[0].as_slice();
            if chars_eq_str(key, "MemTotal:") {
                m.total = kb;
            } else if chars_eq_str(key, "MemAvailable:") {
                m.available = kb;
            } else if chars_eq_str(key, "SwapTotal:") {
                m.swap_total = kb;
            } else if chars_eq_str(key, "SwapFree:") {
                m.swap_free = kb;
            }
        }
        i = i + 1;
    }
    assert(lv.take(ls.len() as int) =~= lv);
    Ok(m)
}

proof fn lemma_fold_none_stays(lv: Seq<Seq<char>>, i: int)
    requires
        0 <= i <= lv.len(),
        meminfo_fold(lv.take(i)) is None,
    ensures
        meminfo_fold(lv) is None,
    decreases lv.len() - i,
{
    if i < lv.len() {
        assert(lv.take(i + 1).drop_last() =~= lv.take(i));
        lemma_fold_none_stays(lv, i + 1);
    } else {
        assert(lv.take(i) =~= lv);
    }
}

// ---------------------------------------------------------------------------
// /proc/diskstats
// ---------------------------------------------------------------------------

/// Cumulative bytes read and written by one block device.
#[derive(Debug, Clone)]
pub struct DeviceIo {
    pub name: Vec<char>,
    pub read_bytes: u64,
    pub write_bytes: u64,
}

/// A device's name and its (read, write) byte counts.
pub open spec fn device_io_view(d: DeviceIo) -> (Seq<char>, u64, u64) {
    (d.name@, d.read_bytes, d.write_bytes)
}

pub open spec fn device_io_views(ds: Seq<DeviceIo>) -> Seq<(Seq<char>, u64, u64)> {
    ds.map_values(|d: DeviceIo| device_io_view(d))
}

/// The devices of the /proc/diskstats lines `ls` (lines of 14 or more
/// words; sectors counted as 512 bytes), or `None` when a sector count does
/// not fit in 64 bits as bytes.
pub open spec fn diskstats_fold(ls: Seq<Seq<char>>) -> Option<Seq<(Seq<char>, u64, u64)>>
    decreases ls.len(),
{
    if ls.len() == 0 {
        Some(seq![])
    } else {
        match diskstats_fold(ls.drop_last()) {
            None => None,
            Some(ds) => {
                let ws = words(ls.last());
                if ws.len() < 14 {
                    Some(ds)
                } else if parse_u64_or_zero(ws[5]) * 512 > u64::MAX || parse_u64_or_zero(ws[9])
                    * 512 > u64::MAX {
                    None
                } else {
                    Some(
                        ds.push(
                            (
                                ws[2],
                                (parse_u64_or_zero(ws[5]) * 512) as u64,
                                (parse_u64_or_zero(ws[9]) * 512) as u64,
                            ),
                        ),
                    )
                }
            },
        }
    }
}

/// Every device read from /proc/diskstats comes from one of its lines of at
/// least 14 words: its name is word 2, its read bytes the sectors read
/// (word 5) times 512, and its written bytes the sectors written (word 9)
/// times 512.
pub proof fn lemma_diskstats_columns(ls: Seq<Seq<char>>)
    ensures
        diskstats_fold(ls) matches Some(ds) ==> forall|j: int|
            0 <= j < ds.len() ==> exists|i: int|
                #![trigger ls[i]]
                0 <= i < ls.len() && words(ls[i]).len() >= 14 && #[trigger] ds[j] == (
                    words(ls[i])[2],
                    (parse_u64_or_zero(words(ls[i])[5]) * 512) as u64,
                    (parse_u64_or_zero(words(ls[i])[9]) * 512) as u64,
                ),
    decreases ls.len(),
{
    if ls.len() > 0 {
        let init = ls.drop_last();
        lemma_diskstats_columns(init);
        if let Some(ds) = diskstats_fold(ls) {
            let prev = diskstats_fold(init)->Some_0;
            let n = ls.len() - 1;
            let ws = words(ls[n]);
            assert(ls.last() == ls[n]);
            assert(diskstats_fold(init) is Some);
            if ws.len() >= 14 {
                assert(ds == prev.push(
                    (
                        ws[2],
                        (parse_u64_or_zero(ws[5]) * 512) as u64,
                        (parse_u64_or_zero(ws[9]) * 512) as u64,
                    ),
                ));
            } else {
                assert(ds == prev);
            }
            assert forall|j: int| 0 <= j < ds.len() implies exists|i: int|
                #![trigger ls[i]]
                0 <= i < ls.len() && words(ls[i]).len() >= 14 && #[trigger] ds[j] == (
                    words(ls[i])[2],
                    (parse_u64_or_zero(words(ls[i])[5]) * 512) as u64,
                    (parse_u64_or_zero(words(ls[i])[9]) * 512) as u64,
                ) by {
                if j < prev.len() {
                    assert(ds[j] == prev[j]);
                    let i = choose|i: int|
                        #![trigger init[i]]
                        0 <= i < init.len() && words(init[i]).len() >= 14 && prev[j] == (
                            words(init[i])[2],
                            (parse_u64_or_zero(words(init[i])[5]) * 512) as u64,
                            (parse_u64_or_zero(words(init[i])[9]) * 512) as u64,
                        );
                    assert(ls[i] == init[i]);
                } else {
                    assert(ds[j] == (
                        words(ls[n])[2],
                        (parse_u64_or_zero(words(ls[n])[5]) * 512) as u64,
                        (parse_u64_or_zero(words(ls[n])[9]) * 512) as u64,
                    ));
                }
            }
        }
    }
}

proof fn lemma_diskstats_none_stays(lv: Seq<Seq<char>>, i: int)
    requires
        0 <= i <= lv.len(),
        diskstats_fold(lv.take(i)) is None,
    ensures
        diskstats_fold(lv) is None,
    decreases lv.len() - i,
{
    if i < lv.len() {
        assert(lv.take(i + 1).drop_last() =~= lv.take(i));
        lemma_diskstats_none_stays(lv, i + 1);
    } else {
        assert(lv.take(i) =~= lv);
    }
}

/// Parses the text of /proc/diskstats.
pub fn parse_diskstats(content: &str) -> (r: Result<Vec<DeviceIo>, ParseFault>)
    ensures
        match diskstats_fold(lines(content@)) {
            Some(ds) => r is Ok && device_io_views(r->Ok_0@) == ds,
            None => r == Err::<Vec<DeviceIo>, ParseFault>(ParseFault::Overflow),
        },
{
    let cs = chars_of(content);
    let ls = split_lines(cs.as_slice());
    let ghost lv = views(ls@);
    let mut out: Vec<DeviceIo> = Vec::new();
    let mut i: usize = 0;
    while i < ls.len()
        invariant
            i <= ls.len(),
            lv == views(ls@),
            lv == lines(content@),
            diskstats_fold(lv.take(i as int)) == Some(device_io_views(out@)),
        decreases ls.len() - i,
    {
        assert(lv.take(i + 1).drop_last() =~= lv.take(i as int));
        let ws = split_words(ls[i].as_slice());
        if ws.len() >= 14 {
            let rd = parse_u64_or_zero_exec(ws[5].as_slice());
            let wr = parse_u64_or_zero_exec(ws[9].as_slice());
            if rd > 36028797018963967 || wr > 36028797018963967 {
                proof {
                    lemma_diskstats_none_stays(lv, i as int + 1);
                }
                return Err(ParseFault::Overflow);
            }
            let ghost before = device_io_views(out@);
            let d = DeviceIo { name: ws[2].clone(), read_bytes: rd * 512, write_bytes: wr * 512 };
            out.push(d);
            assert(device_io_views(out@) =~= before.push(
                (views(ws@)[2], (rd * 512) as u64, (wr * 512) as u64),
            ));
        }
        i = i + 1;
    }
    assert(lv.take(ls.len() as int) =~= lv);
    Ok(out)
}

// ---------------------------------------------------------------------------
// /proc/net/dev
// ---------------------------------------------------------------------------

/// Counters of one interface line of /proc/net/dev.
#[derive(Debug, Clone)]
pub struct NetDevEntry {
    pub name: Vec<char>,
    pub rx_bytes: u64,
    pub rx_packets: u64,
    pub rx_errors: u64,
    pub tx_bytes: u64,
    pub tx_packets: u64,
    pub tx_errors: u64,
}

/// Index of the first occurrence of `c` in `s`.
pub open spec fn first_index_of(s: Seq<char>, c: char) -> Option<int>
    decreases s.len(),
{
    if s.len() == 0 {
        None
    } else {
        match first_index_of(s.drop_last(), c) {
            Some(i) => Some(i),
            None => if s.last() == c {
                Some(s.len() - 1)
            } else {
                None
            },
        }
    }
}

/// Index of the last occurrence of `c` in `s`.
pub open spec fn last_index_of(s: Seq<char>, c: char) -> Option<int>
    decreases s.len(),
{
    if s.len() == 0 {
        None
    } else if s.last() == c {
        Some(s.len() - 1)
    } else {
        last_index_of(s.drop_last(), c)
    }
}

/// The words of `ws` that are numbers, as numbers
/// (`filter_map(|v| v.parse().ok())`).
pub open spec fn numbers_of(ws: Seq<Seq<char>>) -> Seq<u64>
    decreases ws.len(),
{
    if ws.len() == 0 {
        seq![]
    } else {
        match parse_u64_spec(ws.last()) {
            Some(v) => numbers_of(ws.drop_last()).push(v),
            None => numbers_of(ws.drop_last()),
        }
    }
}

/// An interface's (name, rx bytes, rx packets, rx errors, tx bytes,
/// tx packets, tx errors).
pub type NetDevView = (Seq<char>, u64, u64, u64, u64, u64, u64);

pub open spec fn net_dev_entry_view(e: NetDevEntry) -> NetDevView {
    (e.name@, e.rx_bytes, e.rx_packets, e.rx_errors, e.tx_bytes, e.tx_packets, e.tx_errors)
}

pub open spec fn net_dev_views(es: Seq<NetDevEntry>) -> Seq<NetDevView> {
    es.map_values(|e: NetDevEntry| net_dev_entry_view(e))
}

/// The interface of one /proc/net/dev line: the trimmed line is split at its
/// first `:`; the name is the trimmed part before it, and the line counts
/// when the part after it holds at least 16 numbers.
pub open spec fn net_dev_line(l: Seq<char>) -> Option<NetDevView> {
    let t = trim(l);
    match first_index_of(t, ':') {
        None => None,
        Some(k) => {
            let vals = numbers_of(words(t.skip(k + 1)));
            if vals.len() < 16 {
                None
            } else {
                Some((trim(t.take(k)), vals[0], vals[1], vals[2], vals[8], vals[9], vals[10]))
            }
        },
    }
}

/// The columns of a /proc/net/dev line, counted among the numbers after the
/// `:`: received bytes, packets and errors are columns 0, 1 and 2, and sent
/// bytes, packets and errors columns 8, 9 and 10.
pub proof fn lemma_net_dev_columns(l: Seq<char>)
    ensures
        net_dev_line(l) matches Some(e) ==> {
            let t = trim(l);
            let k = first_index_of(t, ':')->Some_0;
            let vals = numbers_of(words(t.skip(k + 1)));
            &&& first_index_of(t, ':') is Some
            &&& vals.len() >= 16
            &&& e.0 == trim(t.take(k))
            &&& e.1 == vals[0]
            &&& e.2 == vals[1]
            &&& e.3 == vals[2]
            &&& e.4 == vals[8]
            &&& e.5 == vals[9]
            &&& e.6 == vals[10]
        },
{
}

/// The interfaces of the lines `ls`.
pub open spec fn net_dev_fold(ls: Seq<Seq<char>>) -> Seq<NetDevView>
    decreases ls.len(),
{
    if ls.len() == 0 {
        seq![]
    } else {
        match net_dev_line(ls.last()) {
            Some(e) => net_dev_fold(ls.drop_last()).push(e),
            None => net_dev_fold(ls.drop_last()),
        }
    }
}

/// `s` without its first `n` elements (`Iterator::skip`).
pub open spec fn drop_front<T>(s: Seq<T>, n: int) -> Seq<T> {
    if s.len() <= n {
        seq![]
    } else {
        s.skip(n)
    }
}

/// The interfaces in the text of /proc/net/dev (its first two lines are
/// headers).
pub open spec fn net_dev(s: Seq<char>) -> Seq<NetDevView> {
    net_dev_fold(drop_front(lines(s), 2))
}

fn find_first(s: &[char], c: char) -> (r: Option<usize>)
    ensures
        match first_index_of(s@, c) {
            Some(k) => r == Some(k as usize),
            None => r is None,
        },
        r matches Some(k) ==> k < s.len() && first_index_of(s@, c) == Some(k as int),
{
    let mut i: usize = 0;
    while i < s.len()
        invariant
            i <= s.len(),
            first_index_of(s@.take(i as int), c) is None,
        decreases s.len() - i,
    {
        assert(s@.take(i + 1).drop_last() =~= s@.take(i as int));
        if s[i] == c {
            proof {
                assert(s@.take(i + 1).last() == c);
                lemma_first_index_extends(s@, i as int + 1, i as int, c);
            }
            return Some(i);
        }
        i = i + 1;
    }
    assert(s@.take(s.len() as int) =~= s@);
    None
}

proof fn lemma_first_index_extends(s: Seq<char>, i: int, k: int, c: char)
    requires
        0 <= k < i <= s.len(),
        first_index_of(s.take(i), c) == Some(k),
    ensures
        first_index_of(s, c) == Some(k),
    decreases s.len() - i,
{
    if i < s.len() {
        assert(s.take(i + 1).drop_last() =~= s.take(i));
        lemma_first_index_extends(s, i + 1, k, c);
    } else {
        assert(s.take(i) =~= s);
    }
}

fn find_last(s: &[char], c: char) -> (r: Option<usize>)
    ensures
        match last_index_of(s@, c) {
            Some(k) => r == Some(k as usize),
            None => r is None,
        },
        r matches Some(k) ==> k < s.len() && last_index_of(s@, c) == Some(k as int),
{
    let mut i: usize = s.len();
    assert(s@.take(s.len() as int) =~= s@);
    while i > 0
        invariant
            i <= s.len(),
            last_index_of(s@, c) == last_index_of(s@.take(i as int), c),
        decreases i,
    {
        assert(s@.take(i as int).drop_last() =~= s@.take(i - 1));
        assert(s@.take(i as int).last() == s@[i - 1]);
        if s[i - 1] == c {
            return Some(i - 1);
        }
        i = i - 1;
    }
    assert(s@.take(0) =~= Seq::<char>::empty());
    None
}

/// The characters of `s` from `a` up to `b`.
pub fn slice_range(s: &[char], a: usize, b: usize) -> (r: Vec<char>)
    requires
        a <= b <= s.len(),
    ensures
        r@ == s@.subrange(a as int, b as int),
{
    let mut r: Vec<char> = Vec::new();
    let mut i: usize = a;
    while i < b
        invariant
            a <= i <= b <= s.len(),
            r@ == s@.subrange(a as int, i as int),
        decreases b - i,
    {
        r.push(s[i]);
        i = i + 1;
        assert(r@ =~= s@.subrange(a as int, i as int));
    }
    r
}

fn numbers_in(ws: &Vec<Vec<char>>) -> (r: Vec<u64>)
    ensures
        r@ == numbers_of(views(ws@)),
{
    let ghost wv = views(ws@);
    let mut r: Vec<u64> = Vec::new();
    let mut i: usize = 0;
    while i < ws.len()
        invariant
            i <= ws.len(),
            wv == views(ws@),
            r@ == numbers_of(wv.take(i as int)),
        decreases ws.len() - i,
    {
        assert(wv.take(i + 1).drop_last() =~= wv.take(i as int));
        assert(wv[i as int] == ws[i as int]@);
        match parse_u64(ws[i].as_slice()) {
            Some(v) => r.push(v),
            None => {},
        }
        i = i + 1;
    }
    assert(wv.take(ws.len() as int) =~= wv);
    r
}

fn parse_net_dev_line(l: &[char]) -> (r: Option<NetDevEntry>)
    ensures
        match net_dev_line(l@) {
            Some(e) => r is Some && net_dev_entry_view(r->Some_0) == e,
            None => r is None,
        },
{
    let t = trim_chars(l);
    let k = match find_first(t.as_slice(), ':') {
        Some(k) => k,
        None => {
            assert(first_index_of(t@, ':') is None);
            assert(t@ == trim(l@));
            assert(net_dev_line(l@) is None);
            return None;
        },
    };
    let rest = slice_range(t.as_slice(), k + 1, t.len());
    assert(rest@ =~= t@.skip(k + 1));
    let ws = split_words(rest.as_slice());
    let vals = numbers_in(&ws);
    if vals.len() < 16 {
        return None;
    }
    let before = slice_range(t.as_slice(), 0, k);
    assert(before@ =~= t@.take(k as int));
    let name = trim_chars(before.as_slice());
    Some(
        NetDevEntry {
            name,
            rx_bytes: vals[0],
            rx_packets: vals[1],
            rx_errors: vals[2],
            tx_bytes: vals[8],
            tx_packets: vals[9],
            tx_errors: vals[10],
        },
    )
}

/// Parses the text of /proc/net/dev.
pub fn parse_net_dev(content: &str) -> (r: Vec<NetDevEntry>)
    ensures
        net_dev_views(r@) == net_dev(content@),
{
    let cs = chars_of(content);
    let ls = split_lines(cs.as_slice());
    let ghost all = views(ls@);
    let mut out: Vec<NetDevEntry> = Vec::new();
    if ls.len() <= 2 {
        return out;
    }
    let ghost lv = all.skip(2);
    let mut i: usize = 2;
    while i < ls.len()
        invariant
            2 <= i <= ls.len(),
            all == views(ls@),
            all == lines(content@),
            lv == all.skip(2),
            net_dev_views(out@) == net_dev_fold(lv.take(i - 2)),
        decreases ls.len() - i,
    {
        assert(lv.take(i - 1).drop_last() =~= lv.take(i - 2));
        assert(lv.take(i - 1).last() == ls[i as int]@);
        let ghost before = net_dev_views(out@);
        match parse_net_dev_line(ls[i].as_slice()) {
            Some(e) => {
                out.push(e);
                assert(net_dev_views(out@) =~= before.push(net_dev_entry_view(e)));
            },
            None => {},
        }
        i = i + 1;
    }
    assert(lv.take(ls.len() - 2) =~= lv);
    out
}

/// Whether the text of an interface's `operstate` file says `up`.
pub open spec fn operstate_up(s: Seq<char>) -> bool {
    trim(s) == "up"@
}

/// Whether the text of an interface's `operstate` file says `up`.
pub fn parse_operstate(content: &str) -> (up: bool)
    ensures
        up == operstate_up(content@),
{
    let cs = chars_of(content);
    let t = trim_chars(cs.as_slice());
    chars_eq_str(t.as_slice(), "up")
}

// ---------------------------------------------------------------------------
// /proc/net/tcp
// ---------------------------------------------------------------------------

/// Whether a socket line is in state `01` (ESTABLISHED).
pub open spec fn is_established(l: Seq<char>) -> bool {
    words(l).len() > 3 && words(l)[3] == "01"@
}

/// Number of established sockets among the lines `ls`.
pub open spec fn established_count(ls: Seq<Seq<char>>) -> nat
    decreases ls.len(),
{
    if ls.len() == 0 {
        0
    } else {
        established_count(ls.drop_last()) + if is_established(ls.last()) {
            1nat
        } else {
            0nat
        }
    }
}

/// Number of established sockets in the text of /proc/net/tcp or tcp6
/// (the first line is a header).
pub fn count_established(content: &str) -> (n: u64)
    ensures
        n == established_count(drop_front(lines(content@), 1)),
{
    let cs = chars_of(content);
    let ls = split_lines(cs.as_slice());
    let ghost all = views(ls@);
    if ls.len() <= 1 {
        return 0;
    }
    let ghost lv = all.skip(1);
    let mut n: u64 = 0;
    let mut i: usize = 1;
    while i < ls.len()
        invariant
            1 <= i <= ls.len(),
            all == views(ls@),
            all == lines(content@),
            lv == all.skip(1),
            n == established_count(lv.take(i - 1)),
            n <= i - 1,
        decreases ls.len() - i,
    {
        assert(lv.take(i as int).drop_last() =~= lv.take(i - 1));
        assert(lv.take(i as int).last() == ls[i as int]@);
        let ws = split_words(ls[i].as_slice());
        if ws.len() > 3 && chars_eq_str(ws[3].as_slice(), "01") {
            n = n + 1;
        }
        i = i + 1;
    }
    assert(lv.take(ls.len() - 1) =~= lv);
    n
}

// ---------------------------------------------------------------------------
// /proc/[pid]/stat and statm
// ---------------------------------------------------------------------------

/// What the monitor reads from one /proc/[pid]/stat file.
#[derive(Debug, Clone)]
pub struct RawProc {
    pub pid: u32,
    pub name: Vec<char>,
    pub state: char,
    pub utime: u64,
    pub stime: u64,
    pub num_threads: u64,
}

/// A process's (pid, name, state, utime, stime, threads).
pub type RawProcView = (u32, Seq<char>, char, u64, u64, u64);

pub open spec fn raw_proc_view(p: RawProc) -> RawProcView {
    (p.pid, p.name@, p.state, p.utime, p.stime, p.num_threads)
}

/// Whether the text after the command name can be cut where the monitor
/// cuts it: two characters past the last `)`, the first of them ASCII.
pub open spec fn pid_stat_cuttable(s: Seq<char>, close: int) -> bool {
    close + 1 < s.len() && (s[close + 1] as u32) < 128
}

/// The outcome of reading one /proc/[pid]/stat text: `Err` where the
/// monitor would cut the text inside a character, `Ok(None)` for a text it
/// skips, and otherwise the process.
pub open spec fn pid_stat(pid: u32, s: Seq<char>) -> Result<Option<RawProcView>, ParseFault> {
    match (first_index_of(s, '('), last_index_of(s, ')')) {
        (Some(open), Some(close)) => if close <= open {
            Ok(None)
        } else if !pid_stat_cuttable(s, close) {
            Err(ParseFault::Truncated)
        } else {
            let fields = words(s.skip(close + 2));
            if fields.len() < 18 {
                Ok(None)
            } else {
                Ok(
                    Some(
                        (
                            pid,
                            s.subrange(open + 1, close),
                            fields[0][0],
                            parse_u64_or_zero(fields[11]),
                            parse_u64_or_zero(fields[12]),
                            parse_u64_or_zero(fields[17]),
                        ),
                    ),
                )
            }
        },
        _ => Ok(None),
    }
}

/// The columns of a /proc/[pid]/stat text, counted among the words after
/// the command name's closing `)` and the space after it: the state is the
/// first character of word 0, user time word 11, system time word 12 and
/// the thread count word 17 (fields 14, 15 and 20 of the whole line); the
/// name is what stands between the first `(` and the last `)`.
pub proof fn lemma_pid_stat_columns(pid: u32, s: Seq<char>)
    ensures
        pid_stat(pid, s) matches Ok(Some(v)) ==> {
            let open = first_index_of(s, '(')->Some_0;
            let close = last_index_of(s, ')')->Some_0;
            let fields = words(s.skip(close + 2));
            &&& first_index_of(s, '(') is Some
            &&& last_index_of(s, ')') is Some
            &&& open < close
            &&& fields.len() >= 18
            &&& v.0 == pid
            &&& v.1 == s.subrange(open + 1, close)
            &&& v.2 == fields[0][0]
            &&& v.3 == parse_u64_or_zero(fields[11])
            &&& v.4 == parse_u64_or_zero(fields[12])
            &&& v.5 == parse_u64_or_zero(fields[17])
        },
{
}

/// The views of the records read from /proc name their fields: a device's
/// (name, read, written), an interface's (name, received bytes, packets,
/// errors, sent bytes, packets, errors) and a process's (pid, name, state,
/// user time, system time, threads).
pub proof fn lemma_record_views(d: DeviceIo, e: NetDevEntry, p: RawProc)
    ensures
        device_io_view(d) == (d.name@, d.read_bytes, d.write_bytes),
        net_dev_entry_view(e) == (
            e.name@,
            e.rx_bytes,
            e.rx_packets,
            e.rx_errors,
            e.tx_bytes,
            e.tx_packets,
            e.tx_errors,
        ),
        raw_proc_view(p) == (p.pid, p.name@, p.state, p.utime, p.stime, p.num_threads),
{
}

proof fn lemma_words_nonempty(s: Seq<char>)
    ensures
        forall|k: int| 0 <= k < words(s).len() ==> #[trigger] words(s)[k].len() > 0,
    decreases s.len(),
{
    if s.len() > 0 {
        let p = s.drop_last();
        lemma_words_nonempty(p);
        let w = words(p);
        if !is_ws(s.last()) && p.len() > 0 && !is_ws(p.last()) {
            assert(w.len() > 0) by {
                lemma_words_last_open(p);
            }
            assert forall|k: int| 0 <= k < words(s).len() implies #[trigger] words(s)[k].len()
                > 0 by {
                if k < w.len() - 1 {
                    assert(words(s)[k] == w[k]);
                }
            }
        } else if !is_ws(s.last()) {
            assert forall|k: int| 0 <= k < words(s).len() implies #[trigger] words(s)[k].len()
                > 0 by {
                if k < w.len() {
                    assert(words(s)[k] == w[k]);
                }
            }
        }
    }
}

proof fn lemma_words_last_open(s: Seq<char>)
    requires
        s.len() > 0,
        !is_ws(s.last()),
    ensures
        words(s).len() > 0,
    decreases s.len(),
{
    let p = s.drop_last();
    if p.len() > 0 && !is_ws(p.last()) {
        lemma_words_last_open(p);
    }
}

/// Parses the text of /proc/[pid]/stat for process `pid`.
pub fn parse_pid_stat(pid: u32, content: &str) -> (r: Result<Option<RawProc>, ParseFault>)
    ensures
        match pid_stat(pid, content@) {
            Ok(Some(v)) => r is Ok && r->Ok_0 is Some && raw_proc_view(r->Ok_0->Some_0) == v,
            Ok(None) => r is Ok && r->Ok_0 is None,
            Err(f) => r == Err::<Option<RawProc>, ParseFault>(f),
        },
{
    let cs = chars_of(content);
    let s = cs.as_slice();
    let open = match find_first(s, '(') {
        Some(k) => k,
        None => {
            assert(first_index_of(content@, '(') is None);
            assert(pid_stat(pid, content@) == Ok::<Option<RawProcView>, ParseFault>(None));
            return Ok(None);
        },
    };
    let close = match find_last(s, ')') {
        Some(k) => k,
        None => return Ok(None),
    };
    if close <= open {
        return Ok(None);
    }
    if !(close + 1 < s.len() && (s[close + 1] as u32) < 128) {
        return Err(ParseFault::Truncated);
    }
    let rest = slice_range(s, close + 2, s.len());
    assert(rest@ =~= s@.skip(close + 2));
    let fields = split_words(rest.as_slice());
    if fields.len() < 18 {
        return Ok(None);
    }
    proof {
        lemma_words_nonempty(rest@);
        assert(views(fields@)[0].len() > 0);
    }
    let name = slice_range(s, open + 1, close);
    let state = fields[0][0];
    Ok(
        Some(
            RawProc {
                pid,
                name,
                state,
                utime: parse_u64_or_zero_exec(fields[11].as_slice()),
                stime: parse_u64_or_zero_exec(fields[12].as_slice()),
                num_threads: parse_u64_or_zero_exec(fields[17].as_slice()),
            },
        ),
    )
}

/// The resident-set size, in pages, in the text of /proc/[pid]/statm: its
/// second word, when that is a number.
pub open spec fn statm_rss(s: Seq<char>) -> Option<u64> {
    if words(s).len() > 1 {
        parse_u64_spec(words(s)[1])
    } else {
        None
    }
}

/// Reads the resident-set size, in pages, from the text of /proc/[pid]/statm.
pub fn parse_statm_rss(content: &str) -> (r: Option<u64>)
    ensures
        r == statm_rss(content@),
{
    let cs = chars_of(content);
    let ws = split_words(cs.as_slice());
    if ws.len() > 1 {
        parse_u64(ws[1].as_slice())
    } else {
        None
    }
}

} // verus!

use nazar::procfs::{
    count_established, parse_diskstats, parse_meminfo, parse_net_dev, parse_operstate,
    parse_pid_stat, parse_proc_stat, parse_statm_rss, CpuTimes, DeviceIo, ParseFault,
    ProcCpuTimes, RawProc,
};
use nazar::reader::{
    memory_from_meminfo, parse_mounts, process_memory, top_by_cpu, FsStats, ProcReader, Share,
};

fn percent(s: Share) -> f64 {
    if s.whole == 0 {
        0.0
    } else {
        s.part as f64 / s.whole as f64 * 100.0
    }
}

fn times(user: u64, system: u64, idle: u64) -> CpuTimes {
    CpuTimes { user, nice: 0, system, idle, iowait: 0, irq: 0, softirq: 0, steal: 0 }
}

const STAT_1: &str = "cpu  100 0 50 850 0 0 0 0 0 0\n\
cpu0 50 0 25 425 0 0 0 0 0 0\n\
cpu1 50 0 25 425 0 0 0 0 0 0\n\
intr 12345\n\
procs_running 3\n\
procs_blocked 0\n";

const STAT_2: &str = "cpu  200 0 100 900 0 0 0 0 0 0\n\
cpu0 100 0 50 450 0 0 0 0 0 0\n\
cpu1 100 0 50 450 0 0 0 0 0 0\n\
procs_running 2\n";

const MEMINFO: &str = "MemTotal:       16000000 kB\n\
MemFree:         1000000 kB\n\
MemAvailable:    8000000 kB\n\
SwapTotal:       4000000 kB\n\
SwapFree:        3000000 kB\n";

const NET_DEV_1: &str = "Inter-|   Receive                                                |  Transmit\n \
face |bytes    packets errs drop fifo frame compressed multicast|bytes    packets errs drop fifo colls carrier compressed\n    \
lo:    1000      10    0    0    0     0          0         0     1000      10    0    0    0     0       0          0\n  \
eth0:    5000      50    1    0    0     0          0         0     3000      30    2    0    0     0       0          0\n";

const NET_DEV_2: &str = "Inter-|   Receive                                                |  Transmit\n \
face |bytes    packets errs drop fifo frame compressed multicast|bytes    packets errs drop fifo colls carrier compressed\n    \
lo:    9000      90    0    0    0     0          0         0     9000      90    0    0    0     0       0          0\n  \
eth0:    7000      70    1    0    0     0          0         0     3500      35    2    0    0     0       0          0\n";

const DISKSTATS_1: &str = "   8       0 sda 100 0 2000 0 50 0 4000 0 0 0 0 0 0 0 0 0 0\n\
   8       1 sda1 90 0 1800 0 40 0 3000 0 0 0 0 0 0 0 0 0 0\n";

const DISKSTATS_2: &str = "   8       0 sda 110 0 2100 0 60 0 4100 0 0 0 0 0 0 0 0 0 0\n\
   8       1 sda1 95 0 1900 0 45 0 3100 0 0 0 0 0 0 0 0 0 0\n";

const MOUNTS: &str = "/dev/sda1 / ext4 rw,relatime 0 0\n\
proc /proc proc rw 0 0\n\
/dev/sda1 /mnt/my\\040drive ext4 rw 0 0\n";

const TCP: &str = "  sl  local_address rem_address   st tx_queue rx_queue tr tm->when retrnsmt   uid  timeout inode\n   \
0: 0100007F:1F90 00000000:0000 0A 00000000:00000000 00:00000000 00000000  1000        0 1\n   \
1: 0100007F:1F90 0100007F:D2F0 01 00000000:00000000 00:00000000 00000000  1000        0 2\n   \
2: 0100007F:D2F0 0100007F:1F90 01 00000000:00000000 00:00000000 00000000  1000        0 3\n";

fn pid_stat(pid: u32, name: &str, utime: u64, stime: u64, threads: u64) -> String {
    format!(
        "{pid} ({name}) S 1 {pid} {pid} 0 -1 4194304 100 0 0 0 {utime} {stime} 0 0 20 0 {threads} 0 100 1000 200 18446744073709551615"
    )
}

#[test]
fn proc_reader_creates() {
    let reader = ProcReader::new();
    assert!(reader.has_no_cpu_reading());
}

#[test]
fn decode_octal_escapes_space() {
    assert_eq!(ProcReader::decode_octal_escapes("/mnt/my\\040drive"), "/mnt/my drive");
}

#[test]
fn decode_octal_escapes_no_escapes() {
    assert_eq!(ProcReader::decode_octal_escapes("/home/user"), "/home/user");
}

#[test]
fn decode_octal_escapes_tab() {
    assert_eq!(ProcReader::decode_octal_escapes("a\\011b"), "a\tb");
}

#[test]
fn decode_octal_escapes_needs_three_digits() {
    assert_eq!(ProcReader::decode_octal_escapes("a\\+12b"), "a\\+12b");
    assert_eq!(ProcReader::decode_octal_escapes("\\377"), "\u{ff}");
    assert_eq!(ProcReader::decode_octal_escapes("\\400"), "\\400");
}

#[test]
fn decode_octal_escapes_keeps_incomplete() {
    assert_eq!(ProcReader::decode_octal_escapes("a\\01"), "a\\01");
    assert_eq!(ProcReader::decode_octal_escapes("a\\089b"), "a\\089b");
}

#[test]
fn compute_cpu_deltas_basic() {
    let prev = vec![times(100, 50, 850)];
    let current = vec![times(200, 100, 900)];
    let (total, cores) = ProcReader::compute_cpu_deltas(&prev, &current);
    assert!((percent(total) - 75.0).abs() < 0.01);
    assert!(cores.is_empty());
}

#[test]
fn compute_cpu_deltas_with_cores() {
    let prev = vec![times(100, 50, 850), times(50, 25, 425)];
    let current = vec![times(200, 100, 900), times(100, 50, 450)];
    let (total, cores) = ProcReader::compute_cpu_deltas(&prev, &current);
    assert!((percent(total) - 75.0).abs() < 0.01);
    assert_eq!(cores.len(), 1);
    assert!((percent(cores[0]) - 75.0).abs() < 0.01);
}

#[test]
fn cpu_counters_running_backwards_give_zero() {
    let prev = vec![times(200, 100, 900)];
    let current = vec![times(100, 50, 850)];
    let (total, _) = ProcReader::compute_cpu_deltas(&prev, &current);
    assert_eq!(total, Share { part: 0, whole: 0 });
    assert_eq!(percent(total), 0.0);
}

#[test]
fn parse_proc_stat_reads_lines() {
    let (cpus, running) = parse_proc_stat(STAT_1);
    assert_eq!(cpus.len(), 3);
    assert_eq!(cpus[0], times(100, 50, 850));
    assert_eq!(cpus[1], times(50, 25, 425));
    assert_eq!(running, 3);
    assert_eq!(cpus[0].total(), 1000);
    assert_eq!(cpus[0].busy(), 150);
    let (none, zero) = parse_proc_stat("");
    assert_eq!(none, vec![CpuTimes::zero()]);
    assert_eq!(zero, 0);
}

#[test]
fn read_cpu_first_call_zero() {
    let mut reader = ProcReader::new();
    let (cpus, running) = parse_proc_stat(STAT_1);
    let sample = reader.update_cpu(cpus, running).unwrap();
    assert_eq!(percent(sample.total), 0.0);
    assert!(sample.cores.is_empty());
    assert_eq!(sample.processes, 3);
    assert!(!reader.has_no_cpu_reading());
    assert_eq!(reader.num_cores(), 2);
}

#[test]
fn read_cpu_second_call_has_data() {
    let mut reader = ProcReader::new();
    let (c1, r1) = parse_proc_stat(STAT_1);
    reader.update_cpu(c1, r1).unwrap();
    let (c2, r2) = parse_proc_stat(STAT_2);
    let second = reader.update_cpu(c2, r2).unwrap();
    assert!(percent(second.total) >= 0.0);
    assert!(percent(second.total) <= 100.0);
    assert_eq!(second.total, Share { part: 150, whole: 200 });
    assert_eq!(second.cores, vec![Share { part: 75, whole: 100 }, Share { part: 75, whole: 100 }]);
    assert_eq!(second.processes, 2);
}

#[test]
fn cpu_sum_overflow_is_refused() {
    let mut reader = ProcReader::new();
    reader.update_cpu(vec![times(1, 1, 1)], 0).unwrap();
    let r = reader.update_cpu(vec![times(u64::MAX, 1, 1)], 0);
    assert_eq!(r.unwrap_err(), ParseFault::Overflow);
}

#[test]
fn read_memory_runs() {
    let m = memory_from_meminfo(parse_meminfo(MEMINFO).unwrap());
    assert!(m.used_bytes <= m.total_bytes);
    assert_eq!(m.total_bytes, 16_000_000 * 1024);
    assert_eq!(m.used_bytes, 8_000_000 * 1024);
    assert_eq!(m.available_bytes, 8_000_000 * 1024);
    assert_eq!(m.swap_total_bytes, 4_000_000 * 1024);
    assert_eq!(m.swap_used_bytes, 1_000_000 * 1024);
    assert!(m.agent_usage.is_empty());
}

#[test]
fn meminfo_overflow_is_refused() {
    let r = parse_meminfo("MemTotal: 18446744073709551615 kB\n");
    assert_eq!(r.unwrap_err(), ParseFault::Overflow);
}

#[test]
fn read_network_runs() {
    let entries = parse_net_dev(NET_DEV_1);
    assert_eq!(entries.len(), 2);
    assert!(entries.iter().any(|e| e.name.iter().collect::<String>() == "lo"));
    assert_eq!(entries[1].rx_bytes, 5000);
    assert_eq!(entries[1].rx_errors, 1);
    assert_eq!(entries[1].tx_bytes, 3000);
    assert_eq!(entries[1].tx_errors, 2);
}

#[test]
fn read_network_deltas() {
    let mut reader = ProcReader::new();
    let e1 = parse_net_dev(NET_DEV_1);
    let up1 = vec![Some(true), Some(parse_operstate("up\n"))];
    let first = reader.update_network(&e1, &up1, 2).unwrap();
    assert_eq!(first.total_rx_bytes, 0);
    assert_eq!(first.total_tx_bytes, 0);
    assert_eq!(first.active_connections, 2);
    let e2 = parse_net_dev(NET_DEV_2);
    let up2 = vec![Some(true), Some(parse_operstate("down\n"))];
    let second = reader.update_network(&e2, &up2, 1).unwrap();
    // Only eth0 counts towards the totals; lo is left out.
    assert_eq!(second.total_rx_bytes, 2000);
    assert_eq!(second.total_tx_bytes, 500);
    let eth0 = &second.interfaces[1];
    assert_eq!(eth0.name, "eth0");
    assert_eq!(eth0.rx_bytes, 2000);
    assert_eq!(eth0.tx_bytes, 500);
    assert!(!eth0.is_up);
    assert_eq!(second.interfaces[0].rx_bytes, 8000);
}

#[test]
fn read_disk_io_deltas() {
    let mut reader = ProcReader::new();
    let mounts = parse_mounts(MOUNTS);
    let stats = vec![
        Some(FsStats { total_bytes: 1000, free_bytes: 400, available_bytes: 300 }),
        Some(FsStats { total_bytes: 1000, free_bytes: 400, available_bytes: 300 }),
    ];
    let first = reader.update_disks(&mounts, &stats, parse_diskstats(DISKSTATS_1).unwrap());
    assert_eq!(first.len(), 2);
    for d in &first {
        assert_eq!(d.read_bytes, 0);
        assert_eq!(d.write_bytes, 0);
        assert!(d.used_bytes <= d.total_bytes);
    }
    let second = reader.update_disks(&mounts, &stats, parse_diskstats(DISKSTATS_2).unwrap());
    assert_eq!(second[0].mount_point, "/");
    assert_eq!(second[0].device, "/dev/sda1");
    assert_eq!(second[0].read_bytes, 100 * 512);
    assert_eq!(second[0].write_bytes, 100 * 512);
    assert_eq!(second[1].mount_point, "/mnt/my drive");
}

#[test]
fn read_disk_runs() {
    let mounts = parse_mounts(MOUNTS);
    assert_eq!(mounts.len(), 2);
    assert_eq!(mounts[0].filesystem.iter().collect::<String>(), "ext4");
    let mut reader = ProcReader::new();
    let stats = vec![None, Some(FsStats { total_bytes: 500, free_bytes: 100, available_bytes: 50 })];
    let disks = reader.update_disks(&mounts, &stats, Vec::new());
    assert_eq!(disks.len(), 1);
    assert_eq!(disks[0].total_bytes, 500);
    assert_eq!(disks[0].used_bytes, 400);
    assert_eq!(disks[0].available_bytes, 50);
}

#[test]
fn parse_diskstats_runs() {
    let counters = parse_diskstats(DISKSTATS_1).unwrap();
    assert!(!counters.is_empty(), "expected at least one device");
    assert_eq!(counters[0].name.iter().collect::<String>(), "sda");
    assert_eq!(counters[0].read_bytes, 2000 * 512);
    assert_eq!(counters[0].write_bytes, 4000 * 512);
    assert!(parse_diskstats("8 0 sda 1 2 3\n").unwrap().is_empty());
}

#[test]
fn count_connections_runs() {
    assert_eq!(count_established(TCP), 2);
    assert_eq!(count_established(""), 0);
}

#[test]
fn parse_pid_stat_reads_fields() {
    let text = pid_stat(42, "my (odd) name", 10, 5, 3);
    let p = parse_pid_stat(42, &text).unwrap().unwrap();
    assert_eq!(p.pid, 42);
    assert_eq!(p.name.iter().collect::<String>(), "my (odd) name");
    assert_eq!(p.state, 'S');
    assert_eq!(p.utime, 10);
    assert_eq!(p.stime, 5);
    assert_eq!(p.num_threads, 3);
    assert!(parse_pid_stat(1, "garbage").unwrap().is_none());
    assert_eq!(parse_statm_rss("1000 200 30 4 0 50 0"), Some(200));
    assert_eq!(parse_statm_rss("1000"), None);
    assert_eq!(ProcCpuTimes { utime: 10, stime: 5 }.total(), 15);
}

fn raw(pid: u32, name: &str, utime: u64, stime: u64, threads: u64) -> RawProc {
    RawProc { pid, name: name.chars().collect(), state: 'R', utime, stime, num_threads: threads }
}

#[test]
fn read_processes_second_call_has_cpu() {
    let mut reader = ProcReader::new();
    let (c1, r1) = parse_proc_stat(STAT_1);
    reader.update_cpu(c1, r1).unwrap();
    let (c2, r2) = parse_proc_stat(STAT_2);
    reader.update_cpu(c2, r2).unwrap();
    let first = reader.process_infos(&vec![raw(1, "init", 10, 10, 1), raw(2, "work", 100, 0, 4)]).unwrap();
    assert_eq!(first.len(), 2);
    assert_eq!(reader.total_threads(), 5);
    let (c3, r3) = parse_proc_stat("cpu  300 0 150 950 0 0 0 0\ncpu0 1 1 1 1 1 1 1 1\n");
    reader.update_cpu(c3, r3).unwrap();
    let second = reader.process_infos(&vec![raw(1, "init", 10, 10, 1), raw(2, "work", 150, 0, 4)]).unwrap();
    assert_eq!(second[0].cpu_ticks, 0);
    // 50 ticks of a 200-tick system delta on one core: a quarter
    assert_eq!((second[1].cpu_ticks, second[1].cpu_ticks_total), (50, 200));
    for p in &second {
        assert!(p.cpu_ticks <= p.cpu_ticks_total * reader.num_cores() as u64);
    }
}

#[test]
fn read_processes_respects_top_n() {
    let mut reader = ProcReader::new();
    let infos = reader
        .process_infos(&vec![
            raw(1, "a", 1, 0, 1),
            raw(2, "b", 2, 0, 1),
            raw(3, "c", 3, 0, 1),
            raw(4, "d", 4, 0, 1),
        ])
        .unwrap();
    let top = top_by_cpu(infos, 3);
    assert!(top.len() <= 3);
    assert_eq!(top.len(), 3);
}

#[test]
fn read_processes_has_memory() {
    assert_eq!(process_memory(200, 4096), Ok(819_200));
    assert_eq!(process_memory(1_000_000, 4096), Ok(4_096_000_000));
    assert_eq!(process_memory(0, 4096), Ok(0));
    assert_eq!(process_memory(u64::MAX, 4096), Err(ParseFault::Overflow));
}

#[test]
fn device_io_holds_counters() {
    let d = DeviceIo { name: "sda".chars().collect(), read_bytes: 1, write_bytes: 2 };
    assert_eq!(d.read_bytes + d.write_bytes, 3);
}

fn share(pid: u32, ticks: u64, total: u64) -> nazar::metrics::ProcessInfo {
    nazar::metrics::ProcessInfo {
        pid,
        name: format!("p{}", pid),
        state: 'S',
        cpu_ticks: ticks,
        cpu_ticks_total: total,
        memory_bytes: 0,
        memory_total_bytes: 0,
        threads: 1,
    }
}

#[test]
fn top_by_cpu_leaves_out_only_lower_shares() {
    // shares: 1/4, 3/4, 1/2, 1/3, 0
    let infos = vec![share(1, 1, 4), share(2, 3, 4), share(3, 1, 2), share(4, 1, 3), share(5, 0, 0)];
    let top = top_by_cpu(infos, 2);
    let pids: Vec<u32> = top.iter().map(|p| p.pid).collect();
    assert_eq!(pids, vec![2, 3]);
    let all = top_by_cpu(vec![share(1, 1, 4), share(2, 1, 4), share(3, 2, 8)], 10);
    // equal shares keep their input order
    let pids: Vec<u32> = all.iter().map(|p| p.pid).collect();
    assert_eq!(pids, vec![1, 2, 3]);
    assert!(top_by_cpu(vec![share(1, 1, 4)], 0).is_empty());
}

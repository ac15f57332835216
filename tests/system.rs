use sysinfo::cpu::parse_cpu_stat;
use sysinfo::disk::parse_mounts;
use sysinfo::memory::{compute_net_memory, parse_meminfo, MemInfo};
use sysinfo::process::{ProcEntry, ProcIdentity};
use sysinfo::stat::{parse_stat, split_stat, ProcessStatus};
use sysinfo::status::parse_status_ids;
use sysinfo::system::System;
use sysinfo::text::{parse_u64, split_on, split_words, ParseError};

const MEMINFO: &str = "MemTotal:       16318784 kB\nMemFree:         1234567 kB\nMemAvailable:    9876543 kB\nBuffers:          345678 kB\nSwapCached:            0 kB\nSwapTotal:       2097148 kB\nSwapFree:        2000000 kB\n";

const CPU_STAT: &str = "cpu  100 0 50 800 10 0 5 0 0 0\ncpu0 50 0 25 400 5 0 3 0 0 0\ncpu1 50 0 25 400 5 0 2 0 0 0\nintr 12345\n";

const CPU_STAT_LATER: &str = "cpu  150 0 70 1060 10 0 10 0 0 0\ncpu0 75 0 35 530 5 0 5 0 0 0\ncpu1 75 0 35 530 5 0 5 0 0 0\nintr 12345\n";

fn stat_line(pid: u32, name: &str, state: char, ppid: u32, utime: u64, stime: u64, rss: u64) -> Vec<u8> {
    format!(
        "{} ({}) {} {} 1 1 0 -1 4194560 100 0 0 0 {} {} 0 0 20 0 1 0 500 1000000 {} 18446744073709551615 0 0 0 0 0 0 0 0 0 0 0 0 17 0 0 0 0 0 0\n",
        pid, name, state, ppid, utime, stime, rss
    )
    .into_bytes()
}

fn status_text(uid: u32, gid: u32) -> Vec<u8> {
    format!(
        "Name:\tproc\nState:\tS (sleeping)\nUid:\t{} {} {} {}\nGid:\t{} {} {} {}\n",
        uid + 1, uid, uid, uid, gid + 1, gid, gid, gid
    )
    .into_bytes()
}

fn entry(pid: u32, name: &str, utime: u64, rss: u64, tasks: Vec<ProcEntry>) -> ProcEntry {
    ProcEntry {
        dir_name: pid.to_string().into_bytes(),
        stat: Some(stat_line(pid, name, 'S', 1, utime, 3, rss)),
        status: Some(status_text(1000, 100)),
        identity: Some(ProcIdentity {
            cmdline: Some(b"/usr/bin/prog\0--flag\0".to_vec()),
            environ: Some(b"HOME=/root\0".to_vec()),
            exe: b"/usr/bin/prog".to_vec(),
            cwd: b"/tmp".to_vec(),
            root: b"/".to_vec(),
        }),
        tasks,
    }
}

fn thread(tid: u32, utime: u64, rss: u64) -> ProcEntry {
    ProcEntry {
        dir_name: tid.to_string().into_bytes(),
        stat: Some(stat_line(tid, "worker", 'R', 1, utime, 1, rss)),
        status: Some(status_text(1000, 100)),
        identity: None,
        tasks: Vec::new(),
    }
}

fn pids(s: &System) -> Vec<i32> {
    let mut v: Vec<i32> = s.get_process_list().iter().map(|p| p.pid).collect();
    v.sort();
    v
}

#[test]
fn test_refresh_system() {
    let mut sys = System::new(4, 100);
    sys.refresh_system(MEMINFO.as_bytes(), CPU_STAT.as_bytes()).unwrap();
    assert!(sys.mem_total != 0);
    assert!(sys.mem_free != 0);
    assert!(sys.mem_total >= sys.mem_free);
    assert!(sys.swap_total >= sys.swap_free);
}

#[test]
fn meminfo_values_are_read() {
    let zero = MemInfo { mem_total: 0, mem_free: 0, swap_total: 0, swap_free: 0 };
    let m = parse_meminfo(MEMINFO.as_bytes(), zero).unwrap();
    assert_eq!(m.mem_total, 16318784);
    assert_eq!(m.mem_free, 9876543);
    assert_eq!(m.swap_total, 2097148);
    assert_eq!(m.swap_free, 2000000);
}

#[test]
fn meminfo_bad_value_is_malformed() {
    let zero = MemInfo { mem_total: 7, mem_free: 0, swap_total: 0, swap_free: 0 };
    let r = parse_meminfo(b"MemTotal: lots kB\n", zero);
    assert_eq!(r, Err(ParseError::Malformed));
}

#[test]
fn used_memory_is_total_less_free() {
    let mut sys = System::new(4, 100);
    sys.refresh_system(MEMINFO.as_bytes(), CPU_STAT.as_bytes()).unwrap();
    assert_eq!(sys.get_used_memory(), 16318784 - 9876543);
    assert_eq!(sys.get_used_swap(), 97148);
}

#[test]
fn failed_refresh_leaves_state() {
    let mut sys = System::new(4, 100);
    sys.refresh_system(MEMINFO.as_bytes(), CPU_STAT.as_bytes()).unwrap();
    let r = sys.refresh_system(MEMINFO.as_bytes(), b"cpu 1 2 3\n");
    assert_eq!(r, Err(ParseError::Malformed));
    assert_eq!(sys.get_processor_list().len(), 3);
    assert_eq!(sys.get_processor_list()[0].ticks, vec![100, 0, 50, 800, 10, 0, 5, 0, 0, 0]);
}

#[test]
fn cpu_lines_are_parsed() {
    let v = parse_cpu_stat(CPU_STAT.as_bytes()).unwrap();
    assert_eq!(v.len(), 3);
    assert_eq!(v[0].name, b"cpu".to_vec());
    assert_eq!(v[1].name, b"cpu0".to_vec());
    assert_eq!(v[2].ticks, vec![50, 0, 25, 400, 5, 0, 2, 0, 0, 0]);
}

#[test]
fn core_usage_after_two_samples() {
    let mut sys = System::new(4, 100);
    sys.refresh_system(MEMINFO.as_bytes(), CPU_STAT.as_bytes()).unwrap();
    assert_eq!(sys.get_processor_list()[0].elapsed_ticks(), 1);
    sys.refresh_system(MEMINFO.as_bytes(), CPU_STAT_LATER.as_bytes()).unwrap();
    let cpu = &sys.get_processor_list()[0];
    assert_eq!(cpu.elapsed_ticks(), 335);
    assert_eq!(cpu.busy_delta, 75);
    assert_eq!(cpu.usage_hundredths(), 2238);
}

#[test]
fn stat_name_takes_last_paren() {
    let rec = b"42 (weird (name))) R 123 456 1 0 -1 0 0 0 0 0 7 8 0 0 20 0 1 0 900 0 33 0";
    let f = split_stat(rec).unwrap();
    assert_eq!(f.pid, b"42".to_vec());
    assert_eq!(f.name, b"weird (name))".to_vec());
    let r = parse_stat(rec).unwrap();
    assert_eq!(r.name, b"weird (name))".to_vec());
    assert_eq!(r.state, ProcessStatus::Run);
    assert_eq!(r.ppid, 123);
    assert_eq!(r.utime, 7);
    assert_eq!(r.stime, 8);
    assert_eq!(r.start_ticks, 900);
    assert_eq!(r.rss_pages, 33);
}

#[test]
fn stat_short_record_is_malformed() {
    assert_eq!(parse_stat(b"42 (x) R 1 2 3").err(), Some(ParseError::Malformed));
    assert_eq!(parse_stat(b"42 (no close paren R 1").err(), Some(ParseError::Malformed));
    assert_eq!(parse_stat(b"42").err(), Some(ParseError::Malformed));
}

#[test]
fn state_characters_map() {
    assert_eq!(ProcessStatus::from_byte(b'S'), ProcessStatus::Sleep);
    assert_eq!(ProcessStatus::from_byte(b'D'), ProcessStatus::Idle);
    assert_eq!(ProcessStatus::from_byte(b'Z'), ProcessStatus::Zombie);
    assert_eq!(ProcessStatus::from_byte(b'T'), ProcessStatus::Stop);
    assert_eq!(ProcessStatus::from_byte(b't'), ProcessStatus::Tracing);
    assert_eq!(ProcessStatus::from_byte(b'x'), ProcessStatus::Dead);
    assert_eq!(ProcessStatus::from_byte(b'X'), ProcessStatus::Dead);
    assert_eq!(ProcessStatus::from_byte(b'?'), ProcessStatus::Unknown(b'?'));
}

#[test]
fn status_gives_effective_ids() {
    assert_eq!(parse_status_ids(&status_text(1000, 100)), Ok((1000, 100)));
}

#[test]
fn status_without_gid_is_missing() {
    let r = parse_status_ids(b"Name:\tx\nUid:\t1 2 3 4\n");
    assert_eq!(r, Err(ParseError::MissingField));
    let r = parse_status_ids(b"Uid:\t1\nGid:\t1 2 3 4\n");
    assert_eq!(r, Err(ParseError::Malformed));
}

#[test]
fn mount_table_keeps_block_devices() {
    let mounts = b"/dev/sda1 /mnt/data ext4 rw,relatime 0 0\ntmpfs /run tmpfs rw 0 0\nserver:/export /net nfs rw 0 0\n/dev/sdb2 / btrfs rw 0 0\n";
    let d = parse_mounts(mounts);
    assert_eq!(d.len(), 2);
    assert_eq!(d[0].name, b"sda1".to_vec());
    assert_eq!(d[0].mount_point, b"/mnt/data".to_vec());
    assert_eq!(d[0].file_system, b"ext4".to_vec());
    assert_eq!(d[1].name, b"sdb2".to_vec());
}

#[test]
fn disk_list_and_space() {
    let mut sys = System::new(4, 100);
    sys.refresh_disk_list(b"/dev/sda1 /mnt/data ext4 rw 0 0\n");
    assert_eq!(sys.get_disks().len(), 1);
    assert!(sys.set_disk_space(0, 1000, 250));
    assert!(!sys.set_disk_space(1, 1, 1));
    assert_eq!(sys.get_disks()[0].total_space, 1000);
    assert_eq!(sys.get_disks()[0].available_space, 250);
}

#[test]
fn net_memory_of_equal_baseline_is_zero() {
    assert_eq!(compute_net_memory(25, 4, 100), 0);
    assert_eq!(compute_net_memory(25, 4, 150), 0);
    assert_eq!(compute_net_memory(50, 4, 100), 100);
}

#[test]
fn thread_memory_is_net_of_owner() {
    let mut sys = System::new(4, 100);
    let e = vec![entry(10, "prog", 5, 25, vec![thread(11, 1, 25), thread(12, 1, 40), thread(10, 1, 1)])];
    sys.refresh_processes(&e);
    let p = sys.get_process(10).unwrap();
    assert_eq!(p.memory, 100);
    assert_eq!(p.tasks.len(), 2);
    let t11 = p.tasks.iter().find(|t| t.pid == 11).unwrap();
    let t12 = p.tasks.iter().find(|t| t.pid == 12).unwrap();
    assert_eq!(t11.memory, 0);
    assert_eq!(t12.memory, 60);
    assert_eq!(t11.parent, Some(10));
    assert_eq!(t11.cmd, p.cmd);
    assert_eq!(t11.status, ProcessStatus::Run);
    assert_eq!(t11.exe, p.exe);
    assert_eq!(t11.name, p.name);
}

#[test]
fn new_process_identity() {
    let mut sys = System::new(4, 100);
    sys.refresh_processes(&vec![entry(10, "prog", 5, 25, Vec::new())]);
    let p = sys.get_process(10).unwrap();
    assert_eq!(p.name, b"prog".to_vec());
    assert_eq!(p.cmd, vec![b"/usr/bin/prog".to_vec(), b"--flag".to_vec(), Vec::new()]);
    assert_eq!(p.exe, b"/usr/bin/prog".to_vec());
    assert_eq!(p.uid, 1000);
    assert_eq!(p.gid, 100);
    assert_eq!(p.parent, Some(1));
    assert_eq!(p.start_time, 500);
    assert_eq!(p.start_seconds(sys.clock_ticks), 5);
    assert_eq!(sys.get_process_by_name(b"pr").len(), 1);
    assert_eq!(sys.get_process_by_name(b"x").len(), 0);
}

#[test]
fn refresh_twice_keeps_ids_and_identity() {
    let mut sys = System::new(4, 100);
    sys.refresh_system(MEMINFO.as_bytes(), CPU_STAT.as_bytes()).unwrap();
    let e = vec![entry(10, "a", 5, 25, Vec::new()), entry(20, "b", 6, 25, Vec::new())];
    sys.refresh_processes(&e);
    let first = pids(&sys);
    let cwd = sys.get_process(10).unwrap().cwd.clone();
    sys.refresh_processes(&e);
    assert_eq!(pids(&sys), first);
    assert_eq!(first, vec![10, 20]);
    assert_eq!(sys.get_process(10).unwrap().cwd, cwd);
}

#[test]
fn vanished_process_is_pruned() {
    let mut sys = System::new(4, 100);
    sys.refresh_system(MEMINFO.as_bytes(), CPU_STAT.as_bytes()).unwrap();
    sys.refresh_processes(&vec![entry(10, "a", 5, 25, Vec::new()), entry(20, "b", 6, 25, Vec::new())]);
    sys.refresh_processes(&vec![entry(10, "a", 5, 25, Vec::new())]);
    assert_eq!(pids(&sys), vec![10]);
    assert!(sys.get_process(20).is_none());
    assert!(!sys.refresh_process(20, &entry(20, "b", 6, 25, Vec::new())));
    assert!(sys.refresh_process(10, &entry(10, "a", 9, 25, Vec::new())));
    let p = sys.get_process(10).unwrap();
    assert_eq!(p.utime, 9);
    assert_eq!(p.old_utime, 5);
    assert!(!sys.refresh_process(0, &entry(0, "a", 9, 25, Vec::new())));
}

#[test]
fn unreadable_entries_are_skipped() {
    let mut sys = System::new(4, 100);
    let mut bad = entry(30, "c", 1, 1, Vec::new());
    bad.status = None;
    let mut gone = entry(40, "d", 1, 1, Vec::new());
    gone.stat = None;
    let mut self_dir = entry(0, "e", 1, 1, Vec::new());
    self_dir.dir_name = b"self".to_vec();
    sys.refresh_processes(&vec![bad, gone, self_dir, entry(10, "a", 1, 1, Vec::new())]);
    assert_eq!(pids(&sys), vec![10]);
}

#[test]
fn process_usage_is_tick_share() {
    let mut sys = System::new(4, 100);
    sys.refresh_system(MEMINFO.as_bytes(), CPU_STAT.as_bytes()).unwrap();
    sys.refresh_processes(&vec![entry(10, "a", 40, 25, Vec::new())]);
    let p = sys.get_process(10).unwrap();
    assert_eq!(p.cpu_ticks, 0);
    assert_eq!(p.cpu_usage_hundredths(), 0);
    sys.refresh_system(MEMINFO.as_bytes(), CPU_STAT_LATER.as_bytes()).unwrap();
    sys.refresh_processes(&vec![entry(10, "a", 109, 25, Vec::new())]);
    let p = sys.get_process(10).unwrap();
    assert_eq!(p.cpu_ticks, 69);
    assert_eq!(p.cpu_elapsed, 335);
    assert_eq!(p.cpu_usage_hundredths(), 2059);
}

#[test]
fn text_helpers() {
    assert_eq!(parse_u64(b"18446744073709551615"), Some(u64::MAX));
    assert_eq!(parse_u64(b"18446744073709551616"), None);
    assert_eq!(parse_u64(b""), None);
    assert_eq!(parse_u64(b"12a"), None);
    assert_eq!(split_words(b"  a  bc\td "), vec![b"a".to_vec(), b"bc".to_vec(), b"d".to_vec()]);
    assert_eq!(split_on(b"a\0\0b", 0), vec![b"a".to_vec(), Vec::new(), b"b".to_vec()]);
}

#[test]
fn no_cpu_sample_means_no_pruning() {
    let mut sys = System::new(4, 100);
    sys.refresh_processes(&vec![entry(10, "a", 5, 25, Vec::new()), entry(20, "b", 6, 25, Vec::new())]);
    sys.refresh_processes(&vec![entry(10, "a", 7, 25, Vec::new())]);
    assert_eq!(pids(&sys), vec![10, 20]);
    let p = sys.get_process(10).unwrap();
    assert_eq!(p.utime, 7);
    assert_eq!(p.old_utime, 5);
}

#[test]
fn malformed_record_leaves_entry() {
    let mut sys = System::new(4, 100);
    sys.refresh_processes(&vec![entry(10, "a", 5, 25, Vec::new())]);
    let mut bad = entry(10, "a", 9, 50, Vec::new());
    bad.stat = Some(b"10 (a) R 1 2".to_vec());
    assert!(!sys.refresh_process(10, &bad));
    let p = sys.get_process(10).unwrap();
    assert_eq!(p.utime, 5);
    assert_eq!(p.memory, 100);
}

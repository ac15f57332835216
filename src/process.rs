//! The process table: processes and their threads, merged from successive
//! walks of the per-process directories.
use vstd::prelude::*;
use crate::text::{decimal_u64, parse_u64, pieces, split_on, byte_strings};
use crate::stat::{ProcessStatus, parse_stat, stat_valid, state_field};
use crate::status::{status_ids, parse_status_ids};
use crate::memory::{net_memory, compute_net_memory};

verus! {

/// One process or thread.
pub struct Process {
    pub pid: i32,
    /// The owning process for a thread, the reported parent otherwise.
    pub parent: Option<i32>,
    pub name: Vec<u8>,
    pub cmd: Vec<Vec<u8>>,
    pub environ: Vec<Vec<u8>>,
    pub exe: Vec<u8>,
    pub cwd: Vec<u8>,
    pub root: Vec<u8>,
    pub uid: u32,
    pub gid: u32,
    pub status: ProcessStatus,
    /// Resident memory in kilobytes, net of the enclosing entry's.
    pub memory: u64,
    pub utime: u64,
    pub stime: u64,
    pub old_utime: u64,
    pub old_stime: u64,
    /// Clock ticks from boot to the start of the process.
    pub start_time: u64,
    /// Ticks used since the previous sample ...
    pub cpu_ticks: u128,
    /// ... out of the ticks that elapsed on the reference core.
    pub cpu_elapsed: u128,
    /// Set when the latest walk saw this entry.
    pub updated: bool,
    pub tasks: Vec<Process>,
}

/// What a walk of a process directory found for one entry.
pub struct ProcEntry {
    /// The directory's name: the pid, for a process or thread directory.
    pub dir_name: Vec<u8>,
    /// Content of its `stat` file, when it could be read.
    pub stat: Option<Vec<u8>>,
    /// Content of its `status` file, when it could be read.
    pub status: Option<Vec<u8>>,
    /// Identity files; needed only for a process not yet in the table.
    pub identity: Option<ProcIdentity>,
    /// The entries of its `task` directory.
    pub tasks: Vec<ProcEntry>,
}

/// The identity files of a process directory.
pub struct ProcIdentity {
    /// NUL-separated arguments, when readable.
    pub cmdline: Option<Vec<u8>>,
    /// NUL-separated environment, when readable.
    pub environ: Option<Vec<u8>>,
    pub exe: Vec<u8>,
    pub cwd: Vec<u8>,
    pub root: Vec<u8>,
}

/// The pid a directory name stands for.
pub open spec fn entry_pid(e: ProcEntry) -> Option<i32> {
    match decimal_u64(e.dir_name@) {
        Some(v) => if v <= i32::MAX {
            Some(v as i32)
        } else {
            None
        },
        None => None,
    }
}

pub open spec fn entry_stat_ok(e: ProcEntry) -> bool {
    e.stat matches Some(s) && stat_valid(s@)
}

pub open spec fn entry_status_ok(e: ProcEntry) -> bool {
    e.status matches Some(s) && status_ids(s@) is Ok
}

pub open spec fn has_pid(s: Seq<Process>, pid: i32) -> bool {
    exists|i: int| 0 <= i < s.len() && #[trigger] s[i].pid == pid
}

pub open spec fn unique_pids(s: Seq<Process>) -> bool {
    forall|i: int, j: int| 0 <= i < s.len() && 0 <= j < s.len() && i != j ==> s[i].pid != s[j].pid
}

/// Pids are unique among the children of every entry of the tree.
pub open spec fn tree_wf(p: Process) -> bool
    decreases p,
{
    &&& unique_pids(p.tasks@)
    &&& forall|i: int| 0 <= i < p.tasks@.len() ==> tree_wf(#[trigger] p.tasks@[i])
}

/// Fields that are fixed once an entry is created.
pub open spec fn same_identity(a: Process, b: Process) -> bool {
    &&& a.pid == b.pid
    &&& a.parent == b.parent
    &&& a.name@ == b.name@
    &&& a.cmd@ == b.cmd@
    &&& a.environ@ == b.environ@
    &&& a.exe@ == b.exe@
    &&& a.cwd@ == b.cwd@
    &&& a.root@ == b.root@
    &&& a.uid == b.uid
    &&& a.gid == b.gid
    &&& a.start_time == b.start_time
}

/// Everything of an entry but its children.
pub open spec fn same_but_tasks(a: Process, b: Process) -> bool {
    &&& same_identity(a, b)
    &&& a.status == b.status
    &&& a.memory == b.memory
    &&& a.utime == b.utime
    &&& a.stime == b.stime
    &&& a.old_utime == b.old_utime
    &&& a.old_stime == b.old_stime
    &&& a.cpu_ticks == b.cpu_ticks
    &&& a.cpu_elapsed == b.cpu_elapsed
    &&& a.updated == b.updated
}

/// Whether an entry of `entries` for `pid` has a readable, valid `stat`.
pub open spec fn seen_in(entries: Seq<ProcEntry>, pid: i32) -> bool {
    exists|k: int| 0 <= k < entries.len() && entry_pid(#[trigger] entries[k]) == Some(pid)
        && entry_stat_ok(entries[k])
}

/// Whether an entry of `entries` for `pid` can create a new table entry.
pub open spec fn creatable_in(entries: Seq<ProcEntry>, pid: i32) -> bool {
    exists|k: int| 0 <= k < entries.len() && entry_pid(#[trigger] entries[k]) == Some(pid)
        && entry_stat_ok(entries[k]) && entry_status_ok(entries[k])
}

impl Process {
    /// An empty table entry that owns the top-level processes.
    pub fn new_root() -> (r: Process)
        ensures
            r.pid == 0,
            r.memory == 0,
            r.tasks@.len() == 0,
    {
        Process {
            pid: 0,
            parent: None,
            name: Vec::new(),
            cmd: Vec::new(),
            environ: Vec::new(),
            exe: Vec::new(),
            cwd: Vec::new(),
            root: Vec::new(),
            uid: 0,
            gid: 0,
            status: ProcessStatus::Unknown(0u8),
            memory: 0,
            utime: 0,
            stime: 0,
            old_utime: 0,
            old_stime: 0,
            start_time: 0,
            cpu_ticks: 0,
            cpu_elapsed: 1,
            updated: false,
            tasks: Vec::new(),
        }
    }
}

impl Process {
    /// Seconds from boot to the start of the process, at `clock_ticks` ticks
    /// per second.
    pub fn start_seconds(&self, clock_ticks: u64) -> (r: u64)
        requires
            clock_ticks > 0,
        ensures
            r == self.start_time / clock_ticks,
    {
        self.start_time / clock_ticks
    }

    /// CPU usage in hundredths of a percent of one core, rounded down:
    /// `10000 * cpu_ticks / cpu_elapsed`, or zero with no elapsed time.
    pub fn cpu_usage_hundredths(&self) -> (r: u128)
        ensures
            self.cpu_elapsed > 0 && self.cpu_ticks * 10000 <= u128::MAX ==> r as int == self.cpu_ticks
                * 10000 / self.cpu_elapsed as int,
            self.cpu_elapsed == 0 ==> r == 0,
    {
        if self.cpu_elapsed == 0 {
            return 0;
        }
        match self.cpu_ticks.checked_mul(10000) {
            Some(v) => v / self.cpu_elapsed,
            None => u128::MAX,
        }
    }
}

/// Reads a directory name as a pid.
pub fn parse_pid(name: &[u8]) -> (r: Option<i32>)
    ensures
        r == match decimal_u64(name@) {
            Some(v) => if v <= i32::MAX {
                Some(v as i32)
            } else {
                None
            },
            None => None,
        },
{
    match parse_u64(name) {
        Some(v) => if v <= 2147483647u64 {
            Some(v as i32)
        } else {
            None
        },
        None => None,
    }
}

pub(crate) fn find_task(tasks: &Vec<Process>, pid: i32) -> (r: Option<usize>)
    ensures
        r matches Some(i) ==> i < tasks@.len() && tasks@[i as int].pid == pid,
        r is None ==> !has_pid(tasks@, pid),
{
    let mut i: usize = 0;
    while i < tasks.len()
        invariant
            0 <= i <= tasks.len(),
            forall|j: int| 0 <= j < i ==> #[trigger] tasks@[j].pid != pid,
        decreases tasks.len() - i,
    {
        if tasks[i].pid == pid {
            return Some(i);
        }
        i += 1;
    }
    None
}

/// Whether merging `e` into `table` adds a new entry: a valid record for a pid
/// other than the table's own, not yet in the table, with its ids readable.
pub open spec fn creates(table: Process, e: ProcEntry) -> bool {
    &&& entry_pid(e) is Some
    &&& entry_pid(e).unwrap() != table.pid
    &&& entry_stat_ok(e)
    &&& entry_status_ok(e)
    &&& !has_pid(table.tasks@, entry_pid(e).unwrap())
}

/// Whether `e` re-observes the table entry `p`.
pub open spec fn observes(table: Process, e: ProcEntry, p: Process) -> bool {
    &&& entry_pid(e) == Some(p.pid)
    &&& p.pid != table.pid
    &&& entry_stat_ok(e)
}

/// The per-refresh fields of `p` as the record `s` sets them under `table`,
/// the counters of `prev` becoming the previous ones.
pub open spec fn refreshed_from(
    p: Process,
    prev: Process,
    s: Seq<u8>,
    table: Process,
    page_size_kb: u64,
) -> bool {
    &&& p.old_utime == prev.utime
    &&& p.old_stime == prev.stime
    &&& p.status == state_field(crate::stat::stat_split(s).unwrap().2[0])
    &&& p.memory == net_memory(
        crate::stat::stat_number(s, 22).unwrap(),
        page_size_kb,
        table.memory,
    )
    &&& p.utime == crate::stat::stat_number(s, 12).unwrap()
    &&& p.stime == crate::stat::stat_number(s, 13).unwrap()
}

fn split_args(data: &Option<Vec<u8>>) -> (r: Vec<Vec<u8>>)
    ensures
        data is None ==> r@.len() == 0,
        data matches Some(d) ==> byte_strings(r@) == pieces(d@, 0u8),
{
    match data {
        Some(d) => split_on(d.as_slice(), 0u8),
        None => Vec::new(),
    }
}

/// The last `/`-separated component of the first argument.
fn command_name(cmd: &Vec<Vec<u8>>) -> (r: Vec<u8>)
    ensures
        cmd@.len() == 0 ==> r@.len() == 0,
        cmd@.len() > 0 ==> r@ == pieces(cmd@[0]@, 47u8).last(),
{
    if cmd.len() == 0 {
        return Vec::new();
    }
    let parts = split_on(cmd[0].as_slice(), 47u8);
    proof {
        crate::text::lemma_pieces_nonempty(cmd@[0]@, 47u8);
    }
    assert(byte_strings(parts@)[parts@.len() - 1] == parts@[parts@.len() - 1]@);
    parts[parts.len() - 1].clone()
}

/// The identity a new top-level process takes from its identity files:
/// arguments and environment split at NUL bytes, the name being the last
/// `/`-component of the first argument; all empty where nothing was read.
pub open spec fn identity_from(p: Process, id: Option<ProcIdentity>) -> bool {
    match id {
        None => p.name@.len() == 0 && p.cmd@.len() == 0 && p.environ@.len() == 0
            && p.exe@.len() == 0 && p.cwd@.len() == 0 && p.root@.len() == 0,
        Some(id) => {
            &&& match id.cmdline {
                Some(c) => byte_strings(p.cmd@) == pieces(c@, 0u8),
                None => p.cmd@.len() == 0,
            }
            &&& match id.environ {
                Some(c) => byte_strings(p.environ@) == pieces(c@, 0u8),
                None => p.environ@.len() == 0,
            }
            &&& if p.cmd@.len() > 0 {
                p.name@ == pieces(p.cmd@[0]@, 47u8).last()
            } else {
                p.name@.len() == 0
            }
            &&& p.exe@ == id.exe@
            &&& p.cwd@ == id.cwd@
            &&& p.root@ == id.root@
        },
    }
}

/// A thread's metadata, copied from its owning process.
pub open spec fn same_metadata(p: Process, owner: Process) -> bool {
    &&& p.name@ == owner.name@
    &&& p.cmd.deep_view() == owner.cmd.deep_view()
    &&& p.environ.deep_view() == owner.environ.deep_view()
    &&& p.exe@ == owner.exe@
    &&& p.cwd@ == owner.cwd@
    &&& p.root@ == owner.root@
}

/// Identity of an entry created from `e` under `table`: a thread's parent is
/// its owning process, a process's the pid its record names (none for 0).
pub open spec fn created_from(p: Process, e: ProcEntry, table: Process) -> bool {
    let s = e.stat.unwrap()@;
    let ppid = crate::stat::stat_number(s, 2).unwrap();
    &&& p.parent == if table.pid != 0 {
        Some(table.pid)
    } else if ppid == 0 {
        None::<i32>
    } else {
        Some(ppid as i32)
    }
    &&& p.uid == status_ids(e.status.unwrap()@).unwrap().0
    &&& p.gid == status_ids(e.status.unwrap()@).unwrap().1
    &&& p.start_time == crate::stat::stat_number(s, 20).unwrap()
    &&& table.pid == 0 ==> identity_from(p, e.identity)
    &&& table.pid != 0 ==> same_metadata(p, table)
}

/// Merges one directory entry into `table`: updates the entry of that pid in
/// place, or creates it, then merges the entry's threads under it.
pub fn merge_entry(table: &mut Process, e: &ProcEntry, page_size_kb: u64)
    requires
        tree_wf(*old(table)),
    ensures
        same_but_tasks(*final(table), *old(table)),
        tree_wf(*final(table)),
        final(table).tasks@.len() == old(table).tasks@.len() + if creates(*old(table), *e) {
            1int
        } else {
            0int
        },
        forall|i: int|
            0 <= i < old(table).tasks@.len() ==> same_identity(
                #[trigger] final(table).tasks@[i],
                old(table).tasks@[i],
            ),
        forall|i: int|
            0 <= i < old(table).tasks@.len() ==> (#[trigger] final(table).tasks@[i]).updated == (
            old(table).tasks@[i].updated || observes(*old(table), *e, old(table).tasks@[i])),
        forall|i: int|
            0 <= i < old(table).tasks@.len() && !observes(*old(table), *e, old(table).tasks@[i])
                ==> #[trigger] final(table).tasks@[i] == old(table).tasks@[i],
        forall|i: int|
            0 <= i < old(table).tasks@.len() && observes(*old(table), *e, old(table).tasks@[i])
                ==> refreshed_from(
                #[trigger] final(table).tasks@[i],
                old(table).tasks@[i],
                e.stat.unwrap()@,
                *old(table),
                page_size_kb,
            ),
        creates(*old(table), *e) ==> {
            let p = final(table).tasks@.last();
            &&& p.pid == entry_pid(*e).unwrap()
            &&& p.updated
            &&& refreshed_from(p, p, e.stat.unwrap()@, *old(table), page_size_kb)
            &&& created_from(p, *e, *old(table))
            &&& tasks_merged(p, Seq::<Process>::empty(), e.tasks@, p.tasks@, page_size_kb)
        },
        forall|i: int|
            0 <= i < old(table).tasks@.len() && observes(*old(table), *e, old(table).tasks@[i])
                ==> tasks_merged(
                #[trigger] final(table).tasks@[i],
                old(table).tasks@[i].tasks@,
                e.tasks@,
                final(table).tasks@[i].tasks@,
                page_size_kb,
            ),
    decreases e,
{
    let pid = match parse_pid(e.dir_name.as_slice()) {
        Some(p) => p,
        None => return,
    };
    if pid == table.pid {
        return;
    }
    let data = match &e.stat {
        Some(d) => d,
        None => return,
    };
    let rec = match parse_stat(data.as_slice()) {
        Ok(r) => r,
        Err(_) => return,
    };
    let baseline = table.memory;
    match find_task(&table.tasks, pid) {
        Some(idx) => {
            let ghost old_tasks = table.tasks@;
            let child = &mut table.tasks[idx];
            child.status = rec.state;
            child.memory = compute_net_memory(rec.rss_pages, page_size_kb, baseline);
            child.old_utime = child.utime;
            child.old_stime = child.stime;
            child.utime = rec.utime;
            child.stime = rec.stime;
            child.updated = true;
            assert(tree_wf(old_tasks[idx as int]));
            assert(child.tasks == old_tasks[idx as int].tasks);
            merge_dir(child, &e.tasks, page_size_kb);
            proof {
                assert forall|i: int|
                    0 <= i < old_tasks.len() && i != idx implies table.tasks@[i] == old_tasks[i] by {}
                assert forall|i: int| 0 <= i < table.tasks@.len() implies tree_wf(
                    #[trigger] table.tasks@[i],
                ) by {
                    if i != idx {
                        assert(table.tasks@[i] == old_tasks[i]);
                    }
                }
                assert(!creates(*old(table), *e)) by {
                    assert(old_tasks[idx as int].pid == pid);
                }
            }
        },
        None => {
            let ids = match &e.status {
                Some(st) => match parse_status_ids(st.as_slice()) {
                    Ok(ids) => ids,
                    Err(_) => return,
                },
                None => return,
            };
            let parent = if table.pid != 0 {
                Some(table.pid)
            } else if rec.ppid == 0 {
                None
            } else {
                Some(rec.ppid)
            };
            let (name, cmd, environ, exe, cwd, root) = if table.pid != 0 {
                (
                    table.name.clone(),
                    table.cmd.clone(),
                    table.environ.clone(),
                    table.exe.clone(),
                    table.cwd.clone(),
                    table.root.clone(),
                )
            } else {
                match &e.identity {
                    Some(id) => {
                        let cmd = split_args(&id.cmdline);
                        let name = command_name(&cmd);
                        let exe = id.exe.clone();
                        let cwd = id.cwd.clone();
                        let root = id.root.clone();
                        assert(exe@ == id.exe@ && cwd@ == id.cwd@ && root@ == id.root@);
                        (name, cmd, split_args(&id.environ), exe, cwd, root)
                    },
                    None => (Vec::new(), Vec::new(), Vec::new(), Vec::new(), Vec::new(), Vec::new()),
                }
            };
            let mut p = Process {
                pid,
                parent,
                name,
                cmd,
                environ,
                exe,
                cwd,
                root,
                uid: ids.0,
                gid: ids.1,
                status: rec.state,
                memory: compute_net_memory(rec.rss_pages, page_size_kb, baseline),
                utime: rec.utime,
                stime: rec.stime,
                old_utime: rec.utime,
                old_stime: rec.stime,
                start_time: rec.start_ticks,
                cpu_ticks: 0,
                cpu_elapsed: 1,
                updated: true,
                tasks: Vec::new(),
            };
            assert(created_from(p, *e, *table));
            merge_dir(&mut p, &e.tasks, page_size_kb);
            let ghost old_tasks = table.tasks@;
            table.tasks.push(p);
            proof {
                assert forall|i: int|
                    0 <= i < old_tasks.len() implies table.tasks@[i] == old_tasks[i] by {}
                assert forall|i: int, j: int|
                    0 <= i < table.tasks@.len() && 0 <= j < table.tasks@.len() && i != j implies
                    table.tasks@[i].pid != table.tasks@[j].pid by {
                    if i == old_tasks.len() {
                        assert(old_tasks[j].pid != pid);
                    } else if j == old_tasks.len() {
                        assert(old_tasks[i].pid != pid);
                    }
                }
                assert forall|i: int| 0 <= i < table.tasks@.len() implies tree_wf(
                    #[trigger] table.tasks@[i],
                ) by {
                    if i < old_tasks.len() {
                        assert(table.tasks@[i] == old_tasks[i]);
                    }
                }
            }
        },
    }
}

/// Whether `pid` names at most one entry of `entries`.
pub open spec fn listed_once(entries: Seq<ProcEntry>, pid: i32) -> bool {
    forall|a: int, b: int|
        #![trigger entries[a], entries[b]]
        0 <= a < entries.len() && 0 <= b < entries.len() && entry_pid(entries[a]) == Some(pid)
            && entry_pid(entries[b]) == Some(pid) ==> a == b
}

/// What merging the listing `entries` under `owner` makes of the child list
/// `old`: the children the listing does not re-observe stay as they were, the
/// re-observed ones are refreshed from their record, and the new ones are
/// created from theirs, appended after the old ones. Where a pid is listed more
/// than once its fields are stated only as to which entries are kept.
pub open spec fn tasks_merged(
    owner: Process,
    old: Seq<Process>,
    entries: Seq<ProcEntry>,
    new: Seq<Process>,
    page_size_kb: u64,
) -> bool {
    &&& new.len() >= old.len()
    &&& forall|i: int| 0 <= i < old.len() ==> same_identity(#[trigger] new[i], old[i])
    &&& forall|i: int|
        0 <= i < old.len() ==> (#[trigger] new[i]).updated == (old[i].updated || (old[i].pid
            != owner.pid && seen_in(entries, old[i].pid)))
    &&& forall|i: int|
        0 <= i < old.len() && !(old[i].pid != owner.pid && seen_in(entries, old[i].pid))
            ==> #[trigger] new[i] == old[i]
    &&& forall|i: int, k: int|
        0 <= i < old.len() && 0 <= k < entries.len() && old[i].pid != owner.pid && entry_pid(
            #[trigger] entries[k],
        ) == Some(old[i].pid) && entry_stat_ok(entries[k]) && listed_once(entries, old[i].pid)
            ==> refreshed_from(#[trigger] new[i], old[i], entries[k].stat.unwrap()@, owner, page_size_kb)
    &&& forall|i: int|
        old.len() <= i < new.len() ==> {
            let p = #[trigger] new[i];
            &&& p.updated
            &&& p.pid != owner.pid
            &&& creatable_in(entries, p.pid)
            &&& !has_pid(old, p.pid)
        }
    &&& forall|i: int|
        old.len() <= i < new.len() ==> exists|k: int|
            0 <= k < entries.len() && entry_pid(#[trigger] entries[k]) == Some((#[trigger] new[i]).pid)
                && entry_stat_ok(entries[k]) && entry_status_ok(entries[k])
                && created_from(new[i], entries[k], owner)
    &&& forall|i: int, k: int|
        old.len() <= i < new.len() && 0 <= k < entries.len() && entry_pid(#[trigger] entries[k])
            == Some((#[trigger] new[i]).pid) && listed_once(entries, new[i].pid)
            ==> refreshed_from(new[i], new[i], entries[k].stat.unwrap()@, owner, page_size_kb)
    &&& forall|pid: i32|
        pid != owner.pid && #[trigger] creatable_in(entries, pid) ==> has_pid(new, pid)
}

/// Merges every entry of a directory listing into `table`.
pub fn merge_dir(table: &mut Process, entries: &Vec<ProcEntry>, page_size_kb: u64)
    requires
        tree_wf(*old(table)),
    ensures
        same_but_tasks(*final(table), *old(table)),
        tree_wf(*final(table)),
        tasks_merged(*old(table), old(table).tasks@, entries@, final(table).tasks@, page_size_kb),
    decreases entries,
{
    let ghost t0 = *table;
    let mut i: usize = 0;
    while i < entries.len()
        invariant
            0 <= i <= entries.len(),
            same_but_tasks(*table, t0),
            tree_wf(*table),
            tasks_merged(t0, t0.tasks@, entries@.subrange(0, i as int), table.tasks@, page_size_kb),
        decreases entries.len() - i,
    {
        let ghost before = *table;
        let ghost sub = entries@.subrange(0, i as int);
        let ghost sub1 = entries@.subrange(0, i + 1);
        merge_entry(table, &entries[i], page_size_kb);
        proof {
            let e = entries@[i as int];
            assert(sub1[i as int] == e);
            assert forall|pid: i32| seen_in(sub, pid) implies seen_in(sub1, pid) by {
                let k = choose|k: int| 0 <= k < sub.len() && entry_pid(#[trigger] sub[k]) == Some(pid)
                    && entry_stat_ok(sub[k]);
                assert(sub1[k] == sub[k]);
            }
            assert forall|pid: i32| creatable_in(sub, pid) implies creatable_in(sub1, pid) by {
                let k = choose|k: int| 0 <= k < sub.len() && entry_pid(#[trigger] sub[k]) == Some(pid)
                    && entry_stat_ok(sub[k]) && entry_status_ok(sub[k]);
                assert(sub1[k] == sub[k]);
            }
            assert forall|pid: i32| seen_in(sub1, pid) implies seen_in(sub, pid) || (entry_pid(e) == Some(pid) && entry_stat_ok(e)) by {
                let k = choose|k: int| 0 <= k < sub1.len() && entry_pid(#[trigger] sub1[k]) == Some(pid)
                    && entry_stat_ok(sub1[k]);
                if k < i {
                    assert(sub1[k] == sub[k]);
                }
            }
            assert forall|pid: i32| creatable_in(sub1, pid) implies creatable_in(sub, pid) || (
                entry_pid(e) == Some(pid) && entry_stat_ok(e) && entry_status_ok(e)) by {
                let k = choose|k: int| 0 <= k < sub1.len() && entry_pid(#[trigger] sub1[k]) == Some(pid)
                    && entry_stat_ok(sub1[k]) && entry_status_ok(sub1[k]);
                if k < i {
                    assert(sub1[k] == sub[k]);
                }
            }
            assert forall|pid: i32| pid != t0.pid && #[trigger] creatable_in(sub1, pid) implies has_pid(
                table.tasks@,
                pid,
            ) by {
                if creatable_in(sub, pid) {
                    let j = choose|j: int| 0 <= j < before.tasks@.len() && #[trigger] before.tasks@[j].pid == pid;
                    assert(table.tasks@[j].pid == pid);
                } else {
                    if has_pid(before.tasks@, pid) {
                        let j = choose|j: int| 0 <= j < before.tasks@.len() && #[trigger] before.tasks@[j].pid == pid;
                        assert(table.tasks@[j].pid == pid);
                    } else {
                        assert(creates(before, e));
                        assert(table.tasks@[table.tasks@.len() - 1].pid == pid);
                    }
                }
            }
            if creates(before, e) {
                let p = table.tasks@.last();
                assert(creatable_in(sub1, p.pid)) by {
                    assert(sub1[i as int] == e);
                }
                assert(!has_pid(t0.tasks@, p.pid)) by {
                    if has_pid(t0.tasks@, p.pid) {
                        let j = choose|j: int| 0 <= j < t0.tasks@.len() && #[trigger] t0.tasks@[j].pid == p.pid;
                        assert(before.tasks@[j].pid == p.pid);
                    }
                }
            }
        }
        i += 1;
    }
    assert(entries@.subrange(0, entries@.len() as int) == entries@);
}

/// The entries of `s` that the latest walk saw, in order.
pub open spec fn survivors(s: Seq<Process>) -> Seq<Process>
    decreases s.len(),
{
    if s.len() == 0 {
        seq![]
    } else if s.last().updated {
        survivors(s.drop_last()).push(s.last())
    } else {
        survivors(s.drop_last())
    }
}

/// Ticks a process used since its previous sample; a counter that went back
/// counts as zero.
pub open spec fn used_ticks(p: Process) -> int {
    (if p.utime >= p.old_utime { p.utime - p.old_utime } else { 0int }) + (if p.stime
        >= p.old_stime {
        p.stime - p.old_stime
    } else {
        0int
    })
}

/// The fields of `new`, `old` after pruning: as before, the flag cleared, and
/// the usage set to `used_ticks(old)` out of `elapsed`.
pub open spec fn pruned_fields(new: Process, old: Process, elapsed: u128) -> bool {
    &&& same_identity(new, old)
    &&& new.status == old.status
    &&& new.memory == old.memory
    &&& new.utime == old.utime
    &&& new.stime == old.stime
    &&& new.old_utime == old.old_utime
    &&& new.old_stime == old.old_stime
    &&& new.cpu_ticks == used_ticks(old)
    &&& new.cpu_elapsed == elapsed
    &&& !new.updated
}

/// `new` is `old` after pruning, its fields as `pruned_fields` says, and its
/// thread list made of the threads of `old` that the walk saw, each pruned
/// in the same way.
pub open spec fn pruned_from(new: Process, old: Process, elapsed: u128) -> bool {
    &&& pruned_fields(new, old, elapsed)
    &&& new.tasks@.len() == survivors(old.tasks@).len()
    &&& forall|j: int|
        0 <= j < new.tasks@.len() ==> pruned_fields(
            #[trigger] new.tasks@[j],
            survivors(old.tasks@)[j],
            elapsed,
        )
}

/// Whether `x` is an entry of `s` that the latest walk saw.
pub open spec fn seen_entry(s: Seq<Process>, x: Process) -> bool {
    exists|j: int| 0 <= j < s.len() && s[j] == x && x.updated
}

/// Each survivor is a seen entry of `s`, and each seen entry survives.
pub proof fn lemma_survivors(s: Seq<Process>)
    ensures
        forall|i: int| 0 <= i < survivors(s).len() ==> seen_entry(s, #[trigger] survivors(s)[i]),
        forall|j: int|
            #![trigger s[j]]
            0 <= j < s.len() && s[j].updated ==> exists|i: int|
                #![trigger survivors(s)[i]]
                0 <= i < survivors(s).len() && survivors(s)[i] == s[j],
    decreases s.len(),
{
    if s.len() > 0 {
        let d = s.drop_last();
        lemma_survivors(d);
        let sv = survivors(s);
        let sd = survivors(d);
        assert forall|i: int| 0 <= i < sv.len() implies seen_entry(s, #[trigger] sv[i]) by {
            if i < sd.len() {
                assert(sv[i] == sd[i]);
                assert(seen_entry(d, sd[i]));
                let j = choose|j: int| 0 <= j < d.len() && d[j] == sd[i] && sd[i].updated;
                assert(s[j] == d[j]);
            } else {
                assert(sv[i] == s[s.len() - 1]);
            }
        }
        assert forall|j: int| #![trigger s[j]] 0 <= j < s.len() && s[j].updated implies exists|i: int|
            #![trigger sv[i]]
            0 <= i < sv.len() && sv[i] == s[j] by {
            if j < d.len() {
                assert(s[j] == d[j]);
                let i = choose|i: int| #![trigger sd[i]] 0 <= i < sd.len() && sd[i] == d[j];
                assert(sv[i] == sd[i]);
            } else {
                assert(sv[sv.len() - 1] == s[j]);
            }
        }
    }
}

/// Removes the entries that the latest walk did not see, at every level, and
/// sets the usage of the others from `elapsed` ticks of the reference core.
pub fn prune(node: Process, elapsed: u128) -> (r: Process)
    requires
        tree_wf(node),
        elapsed >= 1,
    ensures
        tree_wf(r),
        same_but_tasks(r, node),
        r.tasks@.len() == survivors(node.tasks@).len(),
        forall|i: int|
            0 <= i < r.tasks@.len() ==> pruned_from(
                #[trigger] r.tasks@[i],
                survivors(node.tasks@)[i],
                elapsed,
            ),
    decreases node.tasks,
{
    let mut table = node;
    let ghost t0 = table;
    let mut olds: Vec<Process> = Vec::new();
    core::mem::swap(&mut olds, &mut table.tasks);
    let ghost src = olds@;
    assert(src == t0.tasks@);
    let mut i: usize = 0;
    while i < olds.len()
        invariant
            0 <= i <= olds.len(),
            olds@.len() == src.len(),
            elapsed >= 1,
            tree_wf(t0),
            t0 == node,
            src == t0.tasks@,
            forall|k: int| i <= k < src.len() ==> #[trigger] olds@[k] == src[k],
            same_but_tasks(table, t0),
            table.tasks@.len() == survivors(src.subrange(0, i as int)).len(),
            forall|k: int|
                0 <= k < table.tasks@.len() ==> pruned_from(
                    #[trigger] table.tasks@[k],
                    survivors(src.subrange(0, i as int))[k],
                    elapsed,
                ),
            forall|k: int| 0 <= k < table.tasks@.len() ==> tree_wf(#[trigger] table.tasks@[k]),
            forall|k: int, l: int|
                0 <= k < table.tasks@.len() && 0 <= l < table.tasks@.len() && k != l
                    ==> table.tasks@[k].pid != table.tasks@[l].pid,
            forall|k: int|
                0 <= k < table.tasks@.len() ==> exists|j: int|
                    0 <= j < i && (#[trigger] src[j]).pid == (#[trigger] table.tasks@[k]).pid,
        decreases olds.len() - i,
    {
        assert(src.subrange(0, i + 1).drop_last() =~= src.subrange(0, i as int));
        assert(src.subrange(0, i + 1).last() == src[i as int]);
        let mut c = Process::new_root();
        core::mem::swap(&mut c, &mut olds[i]);
        assert(c == src[i as int]);
        assert(tree_wf(c));
        if c.updated {
            let ghost c0 = c;
            let used = (if c.utime >= c.old_utime { c.utime - c.old_utime } else { 0 }) as u128
                + (if c.stime >= c.old_stime { c.stime - c.old_stime } else { 0 }) as u128;
            c.cpu_ticks = used;
            c.cpu_elapsed = elapsed;
            c.updated = false;
            assert(c.tasks == c0.tasks);
            proof {
                lemma_child_tasks_decrease(t0.tasks, i as int);
            }
            let c = prune(c, elapsed);
            let ghost before = table.tasks@;
            table.tasks.push(c);
            proof {
                assert forall|k: int| 0 <= k < before.len() implies table.tasks@[k] == before[k] by {}
                assert forall|k: int, l: int|
                    0 <= k < table.tasks@.len() && 0 <= l < table.tasks@.len() && k != l
                        implies table.tasks@[k].pid != table.tasks@[l].pid by {
                    if k == before.len() {
                        let j = choose|j: int| 0 <= j < i && (#[trigger] src[j]).pid == before[l].pid;
                        assert(src[j].pid != src[i as int].pid);
                    } else if l == before.len() {
                        let j = choose|j: int| 0 <= j < i && (#[trigger] src[j]).pid == before[k].pid;
                        assert(src[j].pid != src[i as int].pid);
                    }
                }
                assert forall|k: int| 0 <= k < table.tasks@.len() implies exists|j: int|
                    0 <= j < i + 1 && (#[trigger] src[j]).pid == (#[trigger] table.tasks@[k]).pid by {
                    if k == before.len() {
                        assert(src[i as int].pid == table.tasks@[k].pid);
                    } else {
                        let j = choose|j: int| 0 <= j < i && (#[trigger] src[j]).pid == before[k].pid;
                    }
                }
            }
        }
        i += 1;
    }
    assert(src.subrange(0, src.len() as int) == src);
    table
}

proof fn lemma_child_tasks_decrease(tasks: Vec<Process>, i: int)
    requires
        0 <= i < tasks@.len(),
    ensures
        decreases_to!(tasks => tasks@[i].tasks),
{
    assert(decreases_to!(tasks => tasks@));
    assert(decreases_to!(tasks@ => tasks@[i]));
    assert(decreases_to!(tasks@[i] => tasks@[i].tasks));
}

/// `new` is `old` with its seen flag cleared (and those below it).
pub open spec fn stale_of(new: Process, old: Process) -> bool {
    &&& same_identity(new, old)
    &&& new.status == old.status
    &&& new.memory == old.memory
    &&& new.utime == old.utime
    &&& new.stime == old.stime
    &&& new.old_utime == old.old_utime
    &&& new.old_stime == old.old_stime
    &&& new.cpu_ticks == old.cpu_ticks
    &&& new.cpu_elapsed == old.cpu_elapsed
    &&& !new.updated
}

/// Clears the seen flag of every entry below `table`.
pub fn mark_stale(node: Process) -> (r: Process)
    requires
        tree_wf(node),
    ensures
        tree_wf(r),
        same_but_tasks(r, node),
        r.tasks@.len() == node.tasks@.len(),
        forall|i: int| 0 <= i < r.tasks@.len() ==> stale_of(#[trigger] r.tasks@[i], node.tasks@[i]),
    decreases node.tasks,
{
    let mut table = node;
    let ghost t0 = table;
    let mut olds: Vec<Process> = Vec::new();
    core::mem::swap(&mut olds, &mut table.tasks);
    let ghost src = olds@;
    let mut i: usize = 0;
    while i < olds.len()
        invariant
            0 <= i <= olds.len(),
            olds@.len() == src.len(),
            tree_wf(t0),
            t0 == node,
            src == t0.tasks@,
            forall|k: int| i <= k < src.len() ==> #[trigger] olds@[k] == src[k],
            same_but_tasks(table, t0),
            table.tasks@.len() == i,
            forall|k: int|
                0 <= k < i ==> stale_of(#[trigger] table.tasks@[k], src[k]) && tree_wf(
                    table.tasks@[k],
                ),
        decreases olds.len() - i,
    {
        let mut c = Process::new_root();
        core::mem::swap(&mut c, &mut olds[i]);
        assert(c == src[i as int]);
        assert(tree_wf(c));
        let ghost c0 = c;
        c.updated = false;
        assert(c.tasks == c0.tasks);
        proof {
            lemma_child_tasks_decrease(t0.tasks, i as int);
        }
        let c = mark_stale(c);
        let ghost before = table.tasks@;
        table.tasks.push(c);
        assert forall|k: int| 0 <= k < before.len() implies table.tasks@[k] == before[k] by {}
        i += 1;
    }
    proof {
        assert forall|k: int, l: int|
            0 <= k < table.tasks@.len() && 0 <= l < table.tasks@.len() && k != l
                implies table.tasks@[k].pid != table.tasks@[l].pid by {
            assert(t0.tasks@[k].pid != t0.tasks@[l].pid);
        }
    }
    table
}

} // verus!

//! The system state: memory counters, cores, the process table and disks,
//! refreshed from the text the caller reads.
use vstd::prelude::*;
use crate::text::ParseError;
use crate::memory::{MemInfo, meminfo_of, parse_meminfo, net_memory, pages_to_kb};
use crate::cpu::{CpuSample, Processor, cpu_samples, parse_cpu_stat, sample_view, elapsed, TICK_FIELDS};
use crate::disk::{Disk, disk_view, mounted_disks, parse_mounts};
use crate::text::{pieces, has_prefix, starts_with};
use crate::stat::parse_stat;
use crate::process::{
    Process, ProcEntry, tree_wf, has_pid, same_identity, seen_in, creatable_in,
    used_ticks, survivors, pruned_from, lemma_survivors, merge_dir, merge_entry, mark_stale, prune, find_task,
    entry_pid, entry_stat_ok, parse_pid, refreshed_from, tasks_merged, listed_once, stale_of, same_but_tasks,
};

verus! {

/// A host's state as of the latest refreshes.
pub struct System {
    /// The table root: pid 0, owning every top-level process.
    pub process_list: Process,
    pub mem_total: u64,
    pub mem_free: u64,
    pub swap_total: u64,
    pub swap_free: u64,
    /// The aggregate line first, then one per core.
    pub processors: Vec<Processor>,
    pub page_size_kb: u64,
    pub clock_ticks: u64,
    pub disks: Vec<Disk>,
}

/// Whether every core sample in `p` is well formed.
pub open spec fn processors_wf(p: Seq<Processor>) -> bool {
    forall|i: int| 0 <= i < p.len() ==> (#[trigger] p[i]).wf()
}

pub open spec fn mem_of(s: System) -> MemInfo {
    MemInfo {
        mem_total: s.mem_total,
        mem_free: s.mem_free,
        swap_total: s.swap_total,
        swap_free: s.swap_free,
    }
}

/// The processors after a CPU sample: created from the samples on the first
/// one, else each existing core takes the sample at its position.
pub open spec fn cores_sampled(
    old: Seq<Processor>,
    samples: Seq<(Seq<u8>, Seq<u64>)>,
    new: Seq<Processor>,
) -> bool {
    &&& processors_wf(new)
    &&& if old.len() == 0 {
        &&& new.len() == samples.len()
        &&& forall|i: int|
            0 <= i < new.len() ==> (#[trigger] new[i]).name@ == samples[i].0 && new[i].ticks@
                == samples[i].1 && new[i].old_ticks@ == samples[i].1
    } else {
        &&& new.len() == old.len()
        &&& forall|i: int|
            0 <= i < new.len() ==> if i < samples.len() {
                &&& (#[trigger] new[i]).name@ == old[i].name@
                &&& new[i].ticks@ == samples[i].1
                &&& new[i].old_ticks@ == old[i].ticks@
            } else {
                new[i] == old[i]
            }
    }
}

/// Whether a process for `pid` is tracked after a walk of `entries` over the
/// table `old`: its record was read, and it was tracked before or its ids
/// could be read too.
pub open spec fn tracked_after(old: Seq<Process>, entries: Seq<ProcEntry>, pid: i32) -> bool {
    &&& pid != 0
    &&& seen_in(entries, pid)
    &&& (has_pid(old, pid) || creatable_in(entries, pid))
}

/// What a full process refresh does to the top-level table, once a CPU sample
/// exists.
pub open spec fn processes_refreshed(old: System, entries: Seq<ProcEntry>, new: System) -> bool {
    let ot = old.process_list.tasks@;
    let nt = new.process_list.tasks@;
    &&& forall|pid: i32| #[trigger] has_pid(nt, pid) <==> tracked_after(ot, entries, pid)
    &&& forall|i: int, j: int|
        0 <= i < nt.len() && 0 <= j < ot.len() && (#[trigger] nt[i]).pid == (#[trigger] ot[j]).pid
            ==> same_identity(nt[i], ot[j])
    &&& forall|i: int, j: int, k: int|
        0 <= i < nt.len() && 0 <= j < ot.len() && 0 <= k < entries.len() && (#[trigger] nt[i]).pid
            == (#[trigger] ot[j]).pid && entry_pid(#[trigger] entries[k]) == Some(ot[j].pid)
            && entry_stat_ok(entries[k]) && listed_once(entries, ot[j].pid) ==> refreshed_from(
            nt[i],
            ot[j],
            entries[k].stat.unwrap()@,
            old.process_list,
            old.page_size_kb,
        )
    &&& forall|i: int|
        0 <= i < nt.len() && !has_pid(ot, nt[i].pid) && listed_once(entries, nt[i].pid)
            ==> (#[trigger] nt[i]).cpu_ticks == 0
    &&& forall|i: int|
        0 <= i < nt.len() ==> (#[trigger] nt[i]).cpu_ticks == used_ticks(nt[i])
            && nt[i].cpu_elapsed == elapsed(new.processors@[0].ticks@, new.processors@[0].old_ticks@)
            && !nt[i].updated
}

/// `mid` is the table `old` with every seen flag cleared.
pub open spec fn stale_table(old: Process, mid: Process) -> bool {
    &&& same_but_tasks(mid, old)
    &&& mid.tasks@.len() == old.tasks@.len()
    &&& forall|i: int| 0 <= i < mid.tasks@.len() ==> stale_of(#[trigger] mid.tasks@[i], old.tasks@[i])
}

/// Everything but the process table is as before.
pub open spec fn same_but_processes(a: System, b: System) -> bool {
    &&& mem_of(a) == mem_of(b)
    &&& a.processors == b.processors
    &&& a.disks == b.disks
    &&& a.page_size_kb == b.page_size_kb
    &&& a.clock_ticks == b.clock_ticks
}

impl System {
    pub open spec fn wf(&self) -> bool {
        &&& tree_wf(self.process_list)
        &&& self.process_list.pid == 0
        &&& self.process_list.memory == 0
        &&& self.clock_ticks > 0
        &&& processors_wf(self.processors@)
    }

    /// An empty state: no processes, cores or disks until the first refresh.
    pub fn new(page_size_kb: u64, clock_ticks: u64) -> (r: System)
        requires
            clock_ticks > 0,
        ensures
            r.wf(),
            r.process_list.tasks@.len() == 0,
            r.processors@.len() == 0,
            r.disks@.len() == 0,
            mem_of(r) == (MemInfo { mem_total: 0, mem_free: 0, swap_total: 0, swap_free: 0 }),
            r.page_size_kb == page_size_kb,
            r.clock_ticks == clock_ticks,
    {
        System {
            process_list: Process::new_root(),
            mem_total: 0,
            mem_free: 0,
            swap_total: 0,
            swap_free: 0,
            processors: Vec::new(),
            page_size_kb,
            clock_ticks,
            disks: Vec::new(),
        }
    }

    /// Walks the process directories found in `entries`: updates tracked
    /// processes, adds new ones, and, once a CPU sample exists, removes those
    /// not seen and sets the usage of the others.
    pub fn refresh_processes(&mut self, entries: &Vec<ProcEntry>)
        requires
            old(self).wf(),
        ensures
            final(self).wf(),
            same_but_processes(*final(self), *old(self)),
            old(self).processors@.len() > 0 ==> processes_refreshed(*old(self), entries@, *final(self)),
            old(self).processors@.len() == 0 ==> exists|mid: Process|
                stale_table(old(self).process_list, mid) && tasks_merged(
                    mid,
                    mid.tasks@,
                    entries@,
                    final(self).process_list.tasks@,
                    old(self).page_size_kb,
                ) && same_but_tasks(final(self).process_list, old(self).process_list),
    {
        let mut root = Process::new_root();
        core::mem::swap(&mut root, &mut self.process_list);
        let ghost r0 = root;
        let root1 = mark_stale(root);
        let ghost r1 = root1;
        let mut root2 = root1;
        merge_dir(&mut root2, entries, self.page_size_kb);
        let ghost r2 = root2;
        if self.processors.len() > 0 {
            let el = self.processors[0].elapsed_ticks();
            let mut fin = prune(root2, el);
            proof {
                let ot = r0.tasks@;
                let mt = r2.tasks@;
                let nt = fin.tasks@;
                let sv = survivors(mt);
                lemma_survivors(mt);
                assert forall|pid: i32| seen_in(entries@, pid) || !creatable_in(entries@, pid) by {
                    if creatable_in(entries@, pid) {
                        let k = choose|k: int| 0 <= k < entries@.len() && entry_pid(#[trigger] entries@[k]) == Some(pid)
                            && entry_stat_ok(entries@[k]) && crate::process::entry_status_ok(entries@[k]);
                        assert(seen_in(entries@, pid));
                    }
                }
                assert forall|pid: i32| #[trigger] has_pid(nt, pid) <==> tracked_after(ot, entries@, pid) by {
                    if has_pid(nt, pid) {
                        let i = choose|i: int| 0 <= i < nt.len() && #[trigger] nt[i].pid == pid;
                        assert(crate::process::seen_entry(mt, sv[i]));
                        let j = choose|j: int| 0 <= j < mt.len() && mt[j] == sv[i] && sv[i].updated;
                        if j < r1.tasks@.len() {
                            assert(ot[j].pid == pid);
                        }
                    }
                    if tracked_after(ot, entries@, pid) {
                        let j: int = if has_pid(ot, pid) {
                            choose|j: int| 0 <= j < ot.len() && #[trigger] ot[j].pid == pid
                        } else {
                            choose|j: int| 0 <= j < mt.len() && #[trigger] mt[j].pid == pid
                        };
                        assert(mt[j].pid == pid);
                        assert(mt[j].updated);
                        let i = choose|i: int| #![trigger sv[i]] 0 <= i < sv.len() && sv[i] == mt[j];
                        assert(nt[i].pid == pid);
                    }
                }
                assert forall|i: int, j: int|
                    0 <= i < nt.len() && 0 <= j < ot.len() && (#[trigger] nt[i]).pid == (#[trigger] ot[j]).pid
                    implies same_identity(nt[i], ot[j]) by {
                    assert(crate::process::seen_entry(mt, sv[i]));
                    let k = choose|k: int| 0 <= k < mt.len() && mt[k] == sv[i] && sv[i].updated;
                    if k >= r1.tasks@.len() {
                        assert(r1.tasks@[j].pid == ot[j].pid);
                    } else {
                        assert(r1.tasks@[k].pid == ot[k].pid);
                        assert(k == j);
                    }
                }
                let page = self.page_size_kb;
                assert forall|i: int, j: int, k: int|
                    0 <= i < nt.len() && 0 <= j < ot.len() && 0 <= k < entries@.len() && (#[trigger] nt[i]).pid
                        == (#[trigger] ot[j]).pid && entry_pid(#[trigger] entries@[k]) == Some(ot[j].pid)
                        && entry_stat_ok(entries@[k]) && listed_once(entries@, ot[j].pid)
                    implies refreshed_from(nt[i], ot[j], entries@[k].stat.unwrap()@, r0, page) by {
                    assert(crate::process::seen_entry(mt, sv[i]));
                    let k2 = choose|k2: int| 0 <= k2 < mt.len() && mt[k2] == sv[i] && sv[i].updated;
                    assert(has_pid(nt, nt[i].pid));
                    assert(tracked_after(ot, entries@, nt[i].pid));
                    if k2 >= r1.tasks@.len() {
                        assert(r1.tasks@[j].pid == ot[j].pid);
                    } else {
                        assert(r1.tasks@[k2].pid == ot[k2].pid);
                        assert(k2 == j);
                        assert(refreshed_from(mt[j], r1.tasks@[j], entries@[k].stat.unwrap()@, r1, page));
                        assert(pruned_from(nt[i], sv[i], el));
                    }
                }
                assert forall|i: int|
                    0 <= i < nt.len() && !has_pid(ot, nt[i].pid) && listed_once(entries@, nt[i].pid)
                    implies (#[trigger] nt[i]).cpu_ticks == 0 by {
                    assert(crate::process::seen_entry(mt, sv[i]));
                    let k2 = choose|k2: int| 0 <= k2 < mt.len() && mt[k2] == sv[i] && sv[i].updated;
                    if k2 < r1.tasks@.len() {
                        assert(ot[k2].pid == nt[i].pid);
                    } else {
                        let k = choose|k: int| 0 <= k < entries@.len() && entry_pid(#[trigger] entries@[k])
                            == Some((#[trigger] mt[k2]).pid) && entry_stat_ok(entries@[k])
                            && crate::process::entry_status_ok(entries@[k])
                            && crate::process::created_from(mt[k2], entries@[k], r1);
                        assert(refreshed_from(mt[k2], mt[k2], entries@[k].stat.unwrap()@, r1, page));
                        assert(pruned_from(nt[i], sv[i], el));
                    }
                }
                assert forall|i: int| 0 <= i < nt.len() implies (#[trigger] nt[i]).cpu_ticks == used_ticks(nt[i])
                    && nt[i].cpu_elapsed == elapsed(self.processors@[0].ticks@, self.processors@[0].old_ticks@)
                    && !nt[i].updated by {
                    assert(pruned_from(nt[i], sv[i], el));
                }
            }
            core::mem::swap(&mut fin, &mut self.process_list);
        } else {
            core::mem::swap(&mut root2, &mut self.process_list);
            assert(stale_table(r0, r1));
        }
    }
}

fn apply_samples(procs: &mut Vec<Processor>, samples: Vec<CpuSample>)
    requires
        processors_wf(old(procs)@),
        forall|i: int| 0 <= i < samples@.len() ==> (#[trigger] samples@[i]).ticks@.len() == TICK_FIELDS,
    ensures
        cores_sampled(old(procs)@, samples@.map_values(|c: CpuSample| sample_view(c)), final(procs)@),
{
    let ghost sv = samples@.map_values(|c: CpuSample| sample_view(c));
    let ghost prev_procs = procs@;
    let mut samples = samples;
    let ghost s0 = samples@;
    let n = samples.len();
    if procs.len() == 0 {
        let mut i: usize = 0;
        while i < n
            invariant
                0 <= i <= n,
                n == samples@.len(),
                sv == s0.map_values(|c: CpuSample| sample_view(c)),
                samples@.len() == s0.len(),
                forall|k: int| i <= k < s0.len() ==> #[trigger] samples@[k] == s0[k],
                forall|k: int| 0 <= k < s0.len() ==> (#[trigger] s0[k]).ticks@.len() == TICK_FIELDS,
                procs@.len() == i,
                processors_wf(procs@),
                forall|k: int|
                    0 <= k < i ==> (#[trigger] procs@[k]).name@ == sv[k].0 && procs@[k].ticks@
                        == sv[k].1 && procs@[k].old_ticks@ == sv[k].1,
            decreases n - i,
        {
            let mut c = CpuSample { name: Vec::new(), ticks: Vec::new() };
            core::mem::swap(&mut c, &mut samples[i]);
            let ghost before = procs@;
            assert(sample_view(c) == sv[i as int]);
            procs.push(Processor::from_sample(c));
            assert(forall|k: int| 0 <= k < before.len() ==> procs@[k] == before[k]);
            i += 1;
        }
    } else {
        let mut i: usize = 0;
        while i < procs.len() && i < n
            invariant
                0 <= i <= procs@.len(),
                i <= n,
                n == samples@.len(),
                procs@.len() == prev_procs.len(),
                prev_procs.len() > 0,
                sv == s0.map_values(|c: CpuSample| sample_view(c)),
                samples@.len() == s0.len(),
                forall|k: int| i <= k < s0.len() ==> #[trigger] samples@[k] == s0[k],
                forall|k: int| 0 <= k < s0.len() ==> (#[trigger] s0[k]).ticks@.len() == TICK_FIELDS,
                processors_wf(procs@),
                forall|k: int| i <= k < prev_procs.len() ==> #[trigger] procs@[k] == prev_procs[k],
                forall|k: int|
                    0 <= k < i ==> (#[trigger] procs@[k]).name@ == prev_procs[k].name@ && procs@[k].ticks@
                        == sv[k].1 && procs@[k].old_ticks@ == prev_procs[k].ticks@,
            decreases n - i,
        {
            let mut t: Vec<u64> = Vec::new();
            core::mem::swap(&mut t, &mut samples[i].ticks);
            assert(t@ == sv[i as int].1);
            let ghost before = procs@;
            procs[i].set_ticks(t);
            assert(forall|k: int| 0 <= k < before.len() && k != i ==> procs@[k] == before[k]);
            i += 1;
        }
    }
}

impl System {
    /// Reads the memory summary and the CPU counters. Either both parse and
    /// both are applied, or the state is left as it was.
    pub fn refresh_system(&mut self, meminfo: &[u8], stat: &[u8]) -> (r: Result<(), ParseError>)
        requires
            old(self).wf(),
        ensures
            final(self).wf(),
            r is Ok <==> meminfo_of(mem_of(*old(self)), meminfo@) is Ok && cpu_samples(stat@) is Ok,
            r is Ok ==> {
                &&& mem_of(*final(self)) == meminfo_of(mem_of(*old(self)), meminfo@).unwrap()
                &&& cores_sampled(old(self).processors@, cpu_samples(stat@).unwrap(), final(self).processors@)
                &&& final(self).process_list == old(self).process_list
                &&& final(self).disks == old(self).disks
                &&& final(self).page_size_kb == old(self).page_size_kb
                &&& final(self).clock_ticks == old(self).clock_ticks
            },
            r is Err ==> *final(self) == *old(self),
    {
        let mem = match parse_meminfo(meminfo, MemInfo {
            mem_total: self.mem_total,
            mem_free: self.mem_free,
            swap_total: self.swap_total,
            swap_free: self.swap_free,
        }) {
            Ok(m) => m,
            Err(e) => return Err(e),
        };
        let samples = match parse_cpu_stat(stat) {
            Ok(v) => v,
            Err(e) => return Err(e),
        };
        self.mem_total = mem.mem_total;
        self.mem_free = mem.mem_free;
        self.swap_total = mem.swap_total;
        self.swap_free = mem.swap_free;
        apply_samples(&mut self.processors, samples);
        Ok(())
    }

    /// Refreshes the tracked process `pid` from its directory entry `e`:
    /// true when `pid` is tracked and `e` holds a valid record for it.
    pub fn refresh_process(&mut self, pid: i32, e: &ProcEntry) -> (r: bool)
        requires
            old(self).wf(),
        ensures
            final(self).wf(),
            same_but_processes(*final(self), *old(self)),
            r == (pid != 0 && has_pid(old(self).process_list.tasks@, pid) && entry_pid(*e) == Some(pid)
                && entry_stat_ok(*e)),
            !r ==> *final(self) == *old(self),
            final(self).process_list.tasks@.len() == old(self).process_list.tasks@.len(),
            forall|i: int|
                0 <= i < final(self).process_list.tasks@.len() ==> same_identity(
                    #[trigger] final(self).process_list.tasks@[i],
                    old(self).process_list.tasks@[i],
                ),
            forall|i: int|
                0 <= i < final(self).process_list.tasks@.len() && old(self).process_list.tasks@[i].pid
                    != pid ==> #[trigger] final(self).process_list.tasks@[i]
                    == old(self).process_list.tasks@[i],
            forall|i: int|
                0 <= i < final(self).process_list.tasks@.len() && old(self).process_list.tasks@[i].pid
                    == pid && r ==> {
                    let p = #[trigger] final(self).process_list.tasks@[i];
                    let q = old(self).process_list.tasks@[i];
                    &&& p.updated
                    &&& refreshed_from(p, q, e.stat.unwrap()@, old(self).process_list, old(self).page_size_kb)
                    &&& tasks_merged(p, q.tasks@, e.tasks@, p.tasks@, old(self).page_size_kb)
                },
    {
        if pid == 0 || find_task(&self.process_list.tasks, pid).is_none() {
            return false;
        }
        match parse_pid(e.dir_name.as_slice()) {
            Some(p) => if p != pid {
                return false;
            },
            None => return false,
        }
        let data = match &e.stat {
            Some(d) => d,
            None => return false,
        };
        if parse_stat(data.as_slice()).is_err() {
            return false;
        }
        proof {
            let j = choose|j: int| 0 <= j < self.process_list.tasks@.len() && #[trigger] self.process_list.tasks@[j].pid == pid;
        }
        merge_entry(&mut self.process_list, e, self.page_size_kb);
        true
    }

    /// Replaces the disk list with the block devices of the mount table.
    pub fn refresh_disk_list(&mut self, mounts: &[u8])
        ensures
            final(self).disks@.map_values(|d: Disk| disk_view(d)) == mounted_disks(pieces(mounts@, 10u8)),
            final(self).process_list == old(self).process_list,
            final(self).processors == old(self).processors,
            mem_of(*final(self)) == mem_of(*old(self)),
            final(self).page_size_kb == old(self).page_size_kb,
            final(self).clock_ticks == old(self).clock_ticks,
    {
        self.disks = parse_mounts(mounts);
    }

    /// Records the usage counters of disk `i`; false when there is no such disk.
    pub fn set_disk_space(&mut self, i: usize, total: u64, available: u64) -> (r: bool)
        ensures
            r == (i < old(self).disks@.len()),
            final(self).disks@.len() == old(self).disks@.len(),
            r ==> final(self).disks@[i as int].total_space == total
                && final(self).disks@[i as int].available_space == available
                && disk_view(final(self).disks@[i as int]) == disk_view(old(self).disks@[i as int]),
            forall|k: int| 0 <= k < final(self).disks@.len() && k != i ==> #[trigger] final(self).disks@[k] == old(self).disks@[k],
            final(self).process_list == old(self).process_list,
            final(self).processors == old(self).processors,
            mem_of(*final(self)) == mem_of(*old(self)),
    {
        if i >= self.disks.len() {
            return false;
        }
        self.disks[i].update_space(total, available);
        true
    }
}

/// The processes of `s` whose name starts with `name`, in order.
pub open spec fn named(s: Seq<Process>, name: Seq<u8>) -> Seq<Process>
    decreases s.len(),
{
    if s.len() == 0 {
        seq![]
    } else if has_prefix(s.last().name@, name) {
        named(s.drop_last(), name).push(s.last())
    } else {
        named(s.drop_last(), name)
    }
}

impl System {
    pub fn get_process_list(&self) -> (r: &Vec<Process>)
        ensures
            r@ == self.process_list.tasks@,
    {
        &self.process_list.tasks
    }

    /// The tracked process `pid`, if any.
    pub fn get_process(&self, pid: i32) -> (r: Option<&Process>)
        ensures
            r is None <==> !has_pid(self.process_list.tasks@, pid),
            r matches Some(p) ==> exists|i: int|
                0 <= i < self.process_list.tasks@.len() && #[trigger] self.process_list.tasks@[i] == *p
                    && p.pid == pid,
    {
        match find_task(&self.process_list.tasks, pid) {
            Some(i) => Some(&self.process_list.tasks[i]),
            None => None,
        }
    }

    /// Every tracked process whose name starts with `name`.
    pub fn get_process_by_name(&self, name: &[u8]) -> (r: Vec<&Process>)
        ensures
            r@.map_values(|p: &Process| *p) == named(self.process_list.tasks@, name@),
    {
        let tasks = &self.process_list.tasks;
        let mut out: Vec<&Process> = Vec::new();
        let mut i: usize = 0;
        while i < tasks.len()
            invariant
                0 <= i <= tasks@.len(),
                tasks@ == self.process_list.tasks@,
                out@.map_values(|p: &Process| *p) == named(tasks@.subrange(0, i as int), name@),
            decreases tasks@.len() - i,
        {
            assert(tasks@.subrange(0, i + 1).drop_last() =~= tasks@.subrange(0, i as int));
            assert(tasks@.subrange(0, i + 1).last() == tasks@[i as int]);
            if starts_with(tasks[i].name.as_slice(), name) {
                let ghost before = out@.map_values(|p: &Process| *p);
                out.push(&tasks[i]);
                assert(out@.map_values(|p: &Process| *p) =~= before.push(tasks@[i as int]));
            }
            i += 1;
        }
        assert(tasks@.subrange(0, tasks@.len() as int) == tasks@);
        out
    }

    pub fn get_processor_list(&self) -> (r: &[Processor])
        ensures
            r@ == self.processors@,
    {
        self.processors.as_slice()
    }

    pub fn get_total_memory(&self) -> (r: u64)
        ensures
            r == self.mem_total,
    {
        self.mem_total
    }

    pub fn get_free_memory(&self) -> (r: u64)
        ensures
            r == self.mem_free,
    {
        self.mem_free
    }

    /// Total less free memory; zero where the counters say less is total.
    pub fn get_used_memory(&self) -> (r: u64)
        ensures
            r == if self.mem_total >= self.mem_free {
                (self.mem_total - self.mem_free) as u64
            } else {
                0
            },
    {
        if self.mem_total >= self.mem_free {
            self.mem_total - self.mem_free
        } else {
            0
        }
    }

    pub fn get_total_swap(&self) -> (r: u64)
        ensures
            r == self.swap_total,
    {
        self.swap_total
    }

    pub fn get_free_swap(&self) -> (r: u64)
        ensures
            r == self.swap_free,
    {
        self.swap_free
    }

    /// Total less free swap; zero where the counters say less is total.
    pub fn get_used_swap(&self) -> (r: u64)
        ensures
            r == if self.swap_total >= self.swap_free {
                (self.swap_total - self.swap_free) as u64
            } else {
                0
            },
    {
        if self.swap_total >= self.swap_free {
            self.swap_total - self.swap_free
        } else {
            0
        }
    }

    pub fn get_disks(&self) -> (r: &[Disk])
        ensures
            r@ == self.disks@,
    {
        self.disks.as_slice()
    }
}

/// Two process refreshes over the same directory listing track the same pids,
/// and no tracked process changes its identity between them.
pub proof fn lemma_refresh_idempotent(s0: System, s1: System, s2: System, entries: Seq<ProcEntry>)
    requires
        processes_refreshed(s0, entries, s1),
        processes_refreshed(s1, entries, s2),
    ensures
        forall|pid: i32|
            #[trigger] has_pid(s2.process_list.tasks@, pid) <==> has_pid(s1.process_list.tasks@, pid),
        forall|i: int, j: int|
            0 <= i < s2.process_list.tasks@.len() && 0 <= j < s1.process_list.tasks@.len()
                && (#[trigger] s2.process_list.tasks@[i]).pid == (#[trigger] s1.process_list.tasks@[j]).pid
                ==> same_identity(s2.process_list.tasks@[i], s1.process_list.tasks@[j]),
{
    assert forall|pid: i32|
        #[trigger] has_pid(s2.process_list.tasks@, pid) <==> has_pid(s1.process_list.tasks@, pid) by {
        if has_pid(s1.process_list.tasks@, pid) {
            assert(tracked_after(s0.process_list.tasks@, entries, pid));
        }
        if creatable_in(entries, pid) && pid != 0 {
            let k = choose|k: int| 0 <= k < entries.len() && entry_pid(#[trigger] entries[k]) == Some(pid)
                && entry_stat_ok(entries[k]) && crate::process::entry_status_ok(entries[k]);
            assert(seen_in(entries, pid));
        }
    }
}

/// A pid that the latest listing no longer holds is not tracked after the
/// refresh.
pub proof fn lemma_vanished_pruned(s0: System, s1: System, entries: Seq<ProcEntry>, pid: i32)
    requires
        processes_refreshed(s0, entries, s1),
        !seen_in(entries, pid),
    ensures
        !has_pid(s1.process_list.tasks@, pid),
{
}

/// A thread whose memory equals its owner's baseline is left with zero, and
/// netting never yields more than the raw amount.
pub proof fn lemma_net_memory_of_baseline(pages: u64, page_size_kb: u64, baseline: u64)
    ensures
        pages_to_kb(pages, page_size_kb) == baseline ==> net_memory(pages, page_size_kb, baseline) == 0,
        net_memory(pages, page_size_kb, baseline) <= pages_to_kb(pages, page_size_kb),
{
}

/// On a core's first sample the elapsed time is one tick, so usage is defined.
pub proof fn lemma_first_sample_elapsed(t: Seq<u64>)
    ensures
        elapsed(t, t) == 1,
{
}

} // verus!

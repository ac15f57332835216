//! Per-core tick counters and the utilization derived from two samples.
use vstd::prelude::*;
use crate::text::{
    ParseError, words, pieces, decimal_u64, has_prefix, split_on, split_words, parse_u64,
    starts_with, byte_strings,
};

verus! {

/// Number of tick counters on a core line: user, nice, system, idle, io-wait,
/// irq, soft-irq, steal, guest, guest-nice.
pub const TICK_FIELDS: usize = 10;

pub open spec fn cpu_label() -> Seq<u8> {
    seq![99u8, 112u8, 117u8]
}

/// Sum of a sequence of counters.
pub open spec fn tick_sum(s: Seq<u64>) -> int
    decreases s.len(),
{
    if s.len() == 0 {
        0
    } else {
        tick_sum(s.drop_last()) + s.last()
    }
}

/// Ticks spent neither idle nor waiting on I/O.
pub open spec fn busy_sum(s: Seq<u64>) -> int {
    s[0] + s[1] + s[2] + s[5] + s[6] + s[7] + s[8] + s[9]
}

/// A core line: its label and its ten counters.
pub open spec fn cpu_line(line: Seq<u8>) -> Result<(Seq<u8>, Seq<u64>), ParseError> {
    let w = words(line);
    if w.len() >= 11 && forall|k: int| 1 <= k <= 10 ==> (#[trigger] decimal_u64(w[k])) is Some {
        Ok((w[0], Seq::new(10, |k: int| decimal_u64(w[k + 1]).unwrap())))
    } else {
        Err(ParseError::Malformed)
    }
}

/// The core lines from line `i` on: the run of lines that start with `cpu`.
pub open spec fn cpu_lines_from(lines: Seq<Seq<u8>>, i: int) -> Result<
    Seq<(Seq<u8>, Seq<u64>)>,
    ParseError,
>
    decreases lines.len() - i,
{
    if i < 0 || i >= lines.len() || !has_prefix(lines[i], cpu_label()) {
        Ok(seq![])
    } else {
        match cpu_line(lines[i]) {
            Err(e) => Err(e),
            Ok(x) => match cpu_lines_from(lines, i + 1) {
                Err(e) => Err(e),
                Ok(rest) => Ok(seq![x] + rest),
            },
        }
    }
}

/// The core samples of the CPU counters text `s`: the aggregate line first.
pub open spec fn cpu_samples(s: Seq<u8>) -> Result<Seq<(Seq<u8>, Seq<u64>)>, ParseError> {
    cpu_lines_from(pieces(s, 10u8), 0)
}

/// One parsed core line.
pub struct CpuSample {
    pub name: Vec<u8>,
    pub ticks: Vec<u64>,
}

pub open spec fn sample_view(c: CpuSample) -> (Seq<u8>, Seq<u64>) {
    (c.name@, c.ticks@)
}

fn parse_cpu_line(line: &[u8]) -> (r: Result<CpuSample, ParseError>)
    ensures
        r is Ok <==> cpu_line(line@) is Ok,
        r matches Ok(c) ==> cpu_line(line@) == Ok::<_, ParseError>(sample_view(c)),
        r matches Ok(c) ==> c.ticks@.len() == TICK_FIELDS,
        r matches Err(e) ==> e == ParseError::Malformed,
{
    let w = split_words(line);
    let ghost ws = byte_strings(w@);
    if w.len() < 11 {
        return Err(ParseError::Malformed);
    }
    let mut ticks: Vec<u64> = Vec::new();
    let mut k: usize = 1;
    while k <= 10
        invariant
            1 <= k <= 11,
            w.len() >= 11,
            ws == byte_strings(w@),
            ws == words(line@),
            ticks@.len() == k - 1,
            forall|j: int| 1 <= j < k ==> (#[trigger] decimal_u64(ws[j])) is Some,
            forall|j: int| 0 <= j < k - 1 ==> ticks@[j] == decimal_u64(ws[j + 1]).unwrap(),
        decreases 11 - k,
    {
        assert(ws[k as int] == w@[k as int]@);
        match parse_u64(w[k].as_slice()) {
            None => {
                assert(!(forall|j: int| 1 <= j <= 10 ==> (#[trigger] decimal_u64(ws[j])) is Some));
                return Err(ParseError::Malformed);
            },
            Some(v) => {
                ticks.push(v);
            },
        }
        k += 1;
    }
    assert(ws[0] == w@[0]@);
    assert(ticks@ =~= Seq::new(10, |j: int| decimal_u64(ws[j + 1]).unwrap()));
    Ok(CpuSample { name: w[0].clone(), ticks })
}

/// Reads the CPU counters text: one sample per leading `cpu` line.
pub fn parse_cpu_stat(s: &[u8]) -> (r: Result<Vec<CpuSample>, ParseError>)
    ensures
        r is Ok <==> cpu_samples(s@) is Ok,
        r matches Ok(v) ==> cpu_samples(s@) == Ok::<_, ParseError>(
            v@.map_values(|c: CpuSample| sample_view(c)),
        ),
        r matches Err(e) ==> cpu_samples(s@) == Err::<Seq<(Seq<u8>, Seq<u64>)>, _>(e),
        r matches Ok(v) ==> forall|i: int| 0 <= i < v@.len() ==> (#[trigger] v@[i]).ticks@.len()
            == TICK_FIELDS,
{
    let lines = split_on(s, 10u8);
    let ghost ls = byte_strings(lines@);
    let label = vec![99u8, 112u8, 117u8];
    assert(label@ == cpu_label());
    let mut out: Vec<CpuSample> = Vec::new();
    let mut i: usize = 0;
    while i < lines.len() && starts_with(lines[i].as_slice(), label.as_slice())
        invariant
            0 <= i <= lines.len(),
            ls.len() == lines@.len(),
            ls == byte_strings(lines@),
            ls == pieces(s@, 10u8),
            label@ == cpu_label(),
            forall|k: int| 0 <= k < out@.len() ==> (#[trigger] out@[k]).ticks@.len() == TICK_FIELDS,
            cpu_samples(s@) == match cpu_lines_from(ls, i as int) {
                Ok(rest) => Ok(out@.map_values(|c: CpuSample| sample_view(c)) + rest),
                Err(e) => Err(e),
            },
        decreases lines.len() - i,
    {
        assert(ls[i as int] == lines@[i as int]@);
        let ghost before = out@.map_values(|c: CpuSample| sample_view(c));
        match parse_cpu_line(lines[i].as_slice()) {
            Err(e) => return Err(e),
            Ok(c) => {
                let ghost cv = sample_view(c);
                out.push(c);
                assert(out@.map_values(|c: CpuSample| sample_view(c)) =~= before.push(cv));
                proof {
                    match cpu_lines_from(ls, i + 1) {
                        Ok(rest) => {
                            assert(before + (seq![cv] + rest) =~= before.push(cv) + rest);
                        },
                        Err(_) => {},
                    }
                }
            },
        }
        i += 1;
    }
    proof {
        if i < lines.len() {
            assert(ls[i as int] == lines@[i as int]@);
        }
    }
    assert(out@.map_values(|c: CpuSample| sample_view(c)) + Seq::<(Seq<u8>, Seq<u64>)>::empty()
        =~= out@.map_values(
        |c: CpuSample| sample_view(c),
    ));
    Ok(out)
}

/// Sums counters; ten `u64` values always fit `u128`.
pub fn sum_ticks(t: &Vec<u64>) -> (r: u128)
    requires
        t@.len() <= TICK_FIELDS,
    ensures
        r as int == tick_sum(t@),
{
    let mut sum: u128 = 0;
    let mut i: usize = 0;
    while i < t.len()
        invariant
            0 <= i <= t.len() <= 10,
            sum as int == tick_sum(t@.subrange(0, i as int)),
            sum as int <= i * 18446744073709551615,
        decreases t.len() - i,
    {
        assert(t@.subrange(0, i + 1).drop_last() =~= t@.subrange(0, i as int));
        sum = sum + t[i] as u128;
        i += 1;
    }
    assert(t@.subrange(0, t.len() as int) == t@);
    sum
}

/// Elapsed ticks between two samples, never below one.
pub open spec fn elapsed(new: Seq<u64>, old: Seq<u64>) -> int {
    if tick_sum(new) - tick_sum(old) >= 1 {
        tick_sum(new) - tick_sum(old)
    } else {
        1
    }
}

/// One logical core (or the aggregate line): the latest counters, the ones
/// before them, and the utilization between the two as `busy / total`.
pub struct Processor {
    pub name: Vec<u8>,
    pub ticks: Vec<u64>,
    pub old_ticks: Vec<u64>,
    pub busy_delta: u128,
    pub total_delta: u128,
}

fn busy_ticks(t: &Vec<u64>) -> (r: u128)
    requires
        t@.len() == TICK_FIELDS,
    ensures
        r as int == busy_sum(t@),
{
    t[0] as u128 + t[1] as u128 + t[2] as u128 + t[5] as u128 + t[6] as u128 + t[7] as u128
        + t[8] as u128 + t[9] as u128
}

impl Processor {
    /// A core seen for the first time: no previous sample, so the counters
    /// stand for both and the elapsed time is clamped to one tick.
    pub fn from_sample(c: CpuSample) -> (r: Processor)
        requires
            c.ticks@.len() == TICK_FIELDS,
        ensures
            r.wf(),
            r.name@ == c.name@,
            r.ticks@ == c.ticks@,
            r.old_ticks@ == c.ticks@,
    {
        let old_ticks = c.ticks.clone();
        assert(old_ticks@ == c.ticks@);
        let mut p = Processor { name: c.name, ticks: c.ticks, old_ticks, busy_delta: 0, total_delta: 1 };
        p.update_deltas();
        p
    }

    /// Takes a new sample; the current counters become the previous ones.
    pub fn set_ticks(&mut self, ticks: Vec<u64>)
        requires
            old(self).wf(),
            ticks@.len() == TICK_FIELDS,
        ensures
            final(self).wf(),
            final(self).name@ == old(self).name@,
            final(self).ticks@ == ticks@,
            final(self).old_ticks@ == old(self).ticks@,
    {
        let mut t = ticks;
        core::mem::swap(&mut self.ticks, &mut t);
        self.old_ticks = t;
        self.update_deltas();
    }

    fn update_deltas(&mut self)
        requires
            old(self).ticks@.len() == TICK_FIELDS,
            old(self).old_ticks@.len() == TICK_FIELDS,
        ensures
            final(self).wf(),
            final(self).name@ == old(self).name@,
            final(self).ticks@ == old(self).ticks@,
            final(self).old_ticks@ == old(self).old_ticks@,
    {
        let new_sum = sum_ticks(&self.ticks);
        let old_sum = sum_ticks(&self.old_ticks);
        self.total_delta = if new_sum > old_sum { new_sum - old_sum } else { 1 };
        let new_busy = busy_ticks(&self.ticks);
        let old_busy = busy_ticks(&self.old_ticks);
        self.busy_delta = if new_busy >= old_busy { new_busy - old_busy } else { 0 };
    }

    pub open spec fn wf(&self) -> bool {
        &&& self.ticks@.len() == TICK_FIELDS
        &&& self.old_ticks@.len() == TICK_FIELDS
        &&& self.total_delta as int == elapsed(self.ticks@, self.old_ticks@)
        &&& self.busy_delta as int == if busy_sum(self.ticks@) >= busy_sum(self.old_ticks@) {
            busy_sum(self.ticks@) - busy_sum(self.old_ticks@)
        } else {
            0
        }
    }

    /// Ticks elapsed on this core between its two latest samples (at least one).
    pub fn elapsed_ticks(&self) -> (r: u128)
        requires
            self.wf(),
        ensures
            r as int == elapsed(self.ticks@, self.old_ticks@),
    {
        self.total_delta
    }

    /// Utilization in hundredths of a percent, rounded down.
    pub fn usage_hundredths(&self) -> (r: u128)
        requires
            self.wf(),
        ensures
            r as int == self.busy_delta as int * 10000 / self.total_delta as int,
    {
        assert(busy_sum(self.ticks@) <= 18446744073709551615u128 * 8);
        self.busy_delta * 10000 / self.total_delta
    }
}

} // verus!

//! Aggregate memory counters and per-process resident memory.
use vstd::prelude::*;
use crate::text::{
    ParseError, words, pieces, decimal_u64, split_on, split_words, parse_u64,
    starts_with, byte_strings, lemma_pieces_nonempty,
};

verus! {

/// The four counters read from the memory summary, in kilobytes.
#[derive(Debug, Clone, Copy, PartialEq, Eq, Structural)]
pub struct MemInfo {
    pub mem_total: u64,
    pub mem_free: u64,
    pub swap_total: u64,
    pub swap_free: u64,
}

pub open spec fn mem_total_label() -> Seq<u8> {
    seq![77u8, 101u8, 109u8, 84u8, 111u8, 116u8, 97u8, 108u8]
}

pub open spec fn mem_available_label() -> Seq<u8> {
    seq![77u8, 101u8, 109u8, 65u8, 118u8, 97u8, 105u8, 108u8, 97u8, 98u8, 108u8, 101u8]
}

pub open spec fn swap_total_label() -> Seq<u8> {
    seq![83u8, 119u8, 97u8, 112u8, 84u8, 111u8, 116u8, 97u8, 108u8]
}

pub open spec fn swap_free_label() -> Seq<u8> {
    seq![83u8, 119u8, 97u8, 112u8, 70u8, 114u8, 101u8, 101u8]
}

/// `acc` with counter `k` (0 to 3, in field order) set to `v`.
pub open spec fn with_counter(acc: MemInfo, k: int, v: u64) -> MemInfo {
    if k == 0 {
        MemInfo { mem_total: v, ..acc }
    } else if k == 1 {
        MemInfo { mem_free: v, ..acc }
    } else if k == 2 {
        MemInfo { swap_total: v, ..acc }
    } else {
        MemInfo { swap_free: v, ..acc }
    }
}

/// Which counter a label names, if any.
pub open spec fn counter_of(label: Seq<u8>) -> int {
    if label == mem_total_label() {
        0
    } else if label == mem_available_label() {
        1
    } else if label == swap_total_label() {
        2
    } else if label == swap_free_label() {
        3
    } else {
        -1
    }
}

/// One `Label: value kB` line applied to `acc`: the text before `:` picks the
/// counter, the next-to-last word is its value.
pub open spec fn meminfo_step(acc: MemInfo, line: Seq<u8>) -> Result<MemInfo, ParseError> {
    let k = counter_of(pieces(line, 58u8)[0]);
    let w = words(line);
    if k < 0 || w.len() < 2 {
        Ok(acc)
    } else {
        match decimal_u64(w[w.len() - 2]) {
            None => Err(ParseError::Malformed),
            Some(v) => Ok(with_counter(acc, k, v)),
        }
    }
}

pub open spec fn meminfo_fold(acc: MemInfo, lines: Seq<Seq<u8>>) -> Result<MemInfo, ParseError>
    decreases lines.len(),
{
    if lines.len() == 0 {
        Ok(acc)
    } else {
        match meminfo_step(acc, lines[0]) {
            Err(e) => Err(e),
            Ok(a) => meminfo_fold(a, lines.drop_first()),
        }
    }
}

/// Counters as the memory summary `s` sets them, starting from `acc`; a later
/// line for the same label wins.
pub open spec fn meminfo_of(acc: MemInfo, s: Seq<u8>) -> Result<MemInfo, ParseError> {
    meminfo_fold(acc, pieces(s, 10u8))
}

fn same_bytes(a: &[u8], b: &Vec<u8>) -> (r: bool)
    ensures
        r == (a@ == b@),
{
    if a.len() != b.len() {
        return false;
    }
    assert(a@.subrange(0, a@.len() as int) == a@);
    let r = starts_with(a, b.as_slice());
    r
}

fn line_counter(label: &[u8]) -> (r: i8)
    ensures
        r as int == counter_of(label@),
{
    let l0 = vec![77u8, 101u8, 109u8, 84u8, 111u8, 116u8, 97u8, 108u8];
    let l1 = vec![77u8, 101u8, 109u8, 65u8, 118u8, 97u8, 105u8, 108u8, 97u8, 98u8, 108u8, 101u8];
    let l2 = vec![83u8, 119u8, 97u8, 112u8, 84u8, 111u8, 116u8, 97u8, 108u8];
    let l3 = vec![83u8, 119u8, 97u8, 112u8, 70u8, 114u8, 101u8, 101u8];
    assert(l0@ == mem_total_label());
    assert(l1@ == mem_available_label());
    assert(l2@ == swap_total_label());
    assert(l3@ == swap_free_label());
    if same_bytes(label, &l0) {
        0
    } else if same_bytes(label, &l1) {
        1
    } else if same_bytes(label, &l2) {
        2
    } else if same_bytes(label, &l3) {
        3
    } else {
        -1
    }
}

/// Reads the memory summary, updating the counters it names in `acc`.
pub fn parse_meminfo(s: &[u8], acc: MemInfo) -> (r: Result<MemInfo, ParseError>)
    ensures
        r == meminfo_of(acc, s@),
{
    let lines = split_on(s, 10u8);
    let ghost ls = byte_strings(lines@);
    let mut cur = acc;
    let mut i: usize = 0;
    assert(ls.subrange(0, ls.len() as int) == ls);
    while i < lines.len()
        invariant
            0 <= i <= lines.len(),
            ls.len() == lines@.len(),
            ls == byte_strings(lines@),
            ls == pieces(s@, 10u8),
            meminfo_of(acc, s@) == meminfo_fold(cur, ls.subrange(i as int, ls.len() as int)),
        decreases lines.len() - i,
    {
        let ghost tail = ls.subrange(i as int, ls.len() as int);
        assert(tail.drop_first() =~= ls.subrange(i + 1, ls.len() as int));
        assert(tail[0] == lines@[i as int]@);
        let line = lines[i].as_slice();
        let parts = split_on(line, 58u8);
        proof {
            lemma_pieces_nonempty(line@, 58u8);
        }
        assert(byte_strings(parts@)[0] == parts@[0]@);
        let k = line_counter(parts[0].as_slice());
        let w = split_words(line);
        if k >= 0 && w.len() >= 2 {
            assert(byte_strings(w@)[w.len() - 2] == w@[w.len() - 2]@);
            match parse_u64(w[w.len() - 2].as_slice()) {
                None => return Err(ParseError::Malformed),
                Some(v) => {
                    if k == 0 {
                        cur.mem_total = v;
                    } else if k == 1 {
                        cur.mem_free = v;
                    } else if k == 2 {
                        cur.swap_total = v;
                    } else {
                        cur.swap_free = v;
                    }
                },
            }
        }
        i += 1;
    }
    Ok(cur)
}

/// Kilobytes held by `pages` pages of `page_size_kb` each, saturating at the
/// largest `u64`.
pub open spec fn pages_to_kb(pages: u64, page_size_kb: u64) -> u64 {
    if pages * page_size_kb > u64::MAX {
        u64::MAX
    } else {
        (pages * page_size_kb) as u64
    }
}

/// Resident memory of a process net of the enclosing entry's memory: the
/// difference, or zero where the baseline is larger.
pub open spec fn net_memory(pages: u64, page_size_kb: u64, baseline: u64) -> u64 {
    let raw = pages_to_kb(pages, page_size_kb);
    if raw >= baseline {
        (raw - baseline) as u64
    } else {
        0
    }
}

pub fn compute_net_memory(pages: u64, page_size_kb: u64, baseline: u64) -> (r: u64)
    ensures
        r == net_memory(pages, page_size_kb, baseline),
{
    let raw = match pages.checked_mul(page_size_kb) {
        Some(v) => v,
        None => u64::MAX,
    };
    if raw >= baseline {
        raw - baseline
    } else {
        0
    }
}

} // verus!

//! The per-process `stat` record: `<pid> (<name>) <state> <f2> ... <fN>`.
use vstd::prelude::*;
use crate::text::{
    ParseError, is_space, is_space_byte, words, split_words, decimal_u64, parse_u64,
    byte_strings,
};

verus! {

/// Lifecycle state of a process, from its one-character state field.
#[derive(Debug, Clone, Copy, PartialEq, Eq, Structural)]
pub enum ProcessStatus {
    Run,
    Sleep,
    Idle,
    Zombie,
    Stop,
    Tracing,
    Dead,
    Unknown(u8),
}

pub open spec fn status_of(c: u8) -> ProcessStatus {
    if c == 82u8 {
        ProcessStatus::Run
    } else if c == 83u8 {
        ProcessStatus::Sleep
    } else if c == 68u8 {
        ProcessStatus::Idle
    } else if c == 90u8 {
        ProcessStatus::Zombie
    } else if c == 84u8 {
        ProcessStatus::Stop
    } else if c == 116u8 {
        ProcessStatus::Tracing
    } else if c == 88u8 || c == 120u8 {
        ProcessStatus::Dead
    } else {
        ProcessStatus::Unknown(c)
    }
}

impl ProcessStatus {
    /// Maps a state character (`R`, `S`, `D`, `Z`, `T`, `t`, `X`/`x`) to a status.
    pub fn from_byte(c: u8) -> (r: ProcessStatus)
        ensures
            r == status_of(c),
    {
        if c == 82u8 {
            ProcessStatus::Run
        } else if c == 83u8 {
            ProcessStatus::Sleep
        } else if c == 68u8 {
            ProcessStatus::Idle
        } else if c == 90u8 {
            ProcessStatus::Zombie
        } else if c == 84u8 {
            ProcessStatus::Stop
        } else if c == 116u8 {
            ProcessStatus::Tracing
        } else if c == 88u8 || c == 120u8 {
            ProcessStatus::Dead
        } else {
            ProcessStatus::Unknown(c)
        }
    }
}

pub open spec fn is_first_space(s: Seq<u8>, k: int) -> bool {
    0 <= k < s.len() && is_space(s[k]) && forall|j: int| 0 <= j < k ==> !is_space(#[trigger] s[j])
}

pub open spec fn is_last_close(s: Seq<u8>, k: int) -> bool {
    0 <= k < s.len() && s[k] == 41u8 && forall|j: int| k < j < s.len() ==> #[trigger] s[j] != 41u8
}

/// Index of the first whitespace byte, if any.
pub open spec fn first_space(s: Seq<u8>) -> Option<int> {
    if exists|k: int| is_first_space(s, k) {
        Some(choose|k: int| is_first_space(s, k))
    } else {
        None
    }
}

/// Index of the last `)`, if any.
pub open spec fn last_close(s: Seq<u8>) -> Option<int> {
    if exists|k: int| is_last_close(s, k) {
        Some(choose|k: int| is_last_close(s, k))
    } else {
        None
    }
}

pub open spec fn strip_open(s: Seq<u8>) -> Seq<u8> {
    if s.len() > 0 && s[0] == 40u8 {
        s.drop_first()
    } else {
        s
    }
}

/// The record cut into its pid field, its name (everything up to the last `)`,
/// without the opening `(`), and the whitespace-separated fields after it.
pub open spec fn stat_split(s: Seq<u8>) -> Option<(Seq<u8>, Seq<u8>, Seq<Seq<u8>>)> {
    match first_space(s) {
        None => None,
        Some(k) => {
            let rest = s.subrange(k + 1, s.len() as int);
            match last_close(rest) {
                None => None,
                Some(j) => Some(
                    (
                        s.subrange(0, k),
                        strip_open(rest.subrange(0, j)),
                        words(rest.subrange(j + 1, rest.len() as int)),
                    ),
                ),
            }
        },
    }
}

/// The record's fields, split as `stat_split` does.
pub struct StatFields {
    pub pid: Vec<u8>,
    pub name: Vec<u8>,
    /// `fields[0]` is the state, `fields[1]` the parent pid, and so on.
    pub fields: Vec<Vec<u8>>,
}

fn find_first_space(s: &[u8]) -> (r: Option<usize>)
    ensures
        r matches Some(k) ==> k < s.len() && first_space(s@) == Some(k as int),
        r is None ==> first_space(s@) is None,
{
    let mut i: usize = 0;
    while i < s.len()
        invariant
            0 <= i <= s.len(),
            forall|j: int| 0 <= j < i ==> !is_space(#[trigger] s@[j]),
        decreases s.len() - i,
    {
        if is_space_byte(s[i]) {
            assert(is_first_space(s@, i as int));
            let ghost c = choose|k: int| is_first_space(s@, k);
            assert(c == i as int) by {
                if c < i {
                    assert(!is_space(s@[c]));
                } else if c > i {
                    assert(!is_space(s@[i as int]));
                }
            }
            return Some(i);
        }
        i += 1;
    }
    assert(!exists|k: int| is_first_space(s@, k));
    None
}

fn find_last_close(s: &[u8]) -> (r: Option<usize>)
    ensures
        r matches Some(k) ==> k < s.len() && last_close(s@) == Some(k as int),
        r is None ==> last_close(s@) is None,
{
    let mut i: usize = s.len();
    while i > 0
        invariant
            0 <= i <= s.len(),
            forall|j: int| i <= j < s.len() ==> #[trigger] s@[j] != 41u8,
        decreases i,
    {
        i -= 1;
        if s[i] == 41u8 {
            assert(is_last_close(s@, i as int));
            let ghost c = choose|k: int| is_last_close(s@, k);
            assert(c == i as int) by {
                if c < i {
                    assert(s@[i as int] != 41u8);
                } else if c > i {
                    assert(s@[c] != 41u8);
                }
            }
            return Some(i);
        }
    }
    assert(!exists|k: int| is_last_close(s@, k));
    None
}

fn copy_range(s: &[u8], a: usize, b: usize) -> (r: Vec<u8>)
    requires
        a <= b <= s.len(),
    ensures
        r@ == s@.subrange(a as int, b as int),
{
    let mut out: Vec<u8> = Vec::new();
    let mut i: usize = a;
    while i < b
        invariant
            a <= i <= b <= s.len(),
            out@ == s@.subrange(a as int, i as int),
        decreases b - i,
    {
        out.push(s[i]);
        i += 1;
        assert(out@ =~= s@.subrange(a as int, i as int));
    }
    out
}

/// Splits a `stat` record; the name is everything up to the *last* `)`, so a
/// name may itself hold spaces and parentheses.
pub fn split_stat(s: &[u8]) -> (r: Option<StatFields>)
    ensures
        r is None <==> stat_split(s@) is None,
        r matches Some(f) ==> stat_split(s@) == Some((f.pid@, f.name@, byte_strings(f.fields@))),
{
    let k = match find_first_space(s) {
        None => return None,
        Some(k) => k,
    };
    let rest = copy_range(s, k + 1, s.len());
    let j = match find_last_close(rest.as_slice()) {
        None => return None,
        Some(j) => j,
    };
    let pid = copy_range(s, 0, k);
    let name = if j > 0 && rest[0] == 40u8 {
        let n = copy_range(rest.as_slice(), 1, j);
        assert(n@ =~= rest@.subrange(0, j as int).drop_first());
        n
    } else {
        copy_range(rest.as_slice(), 0, j)
    };
    let tail = copy_range(rest.as_slice(), j + 1, rest.len());
    let fields = split_words(tail.as_slice());
    Some(StatFields { pid, name, fields })
}

/// The `stat` fields this library consumes.
pub struct StatRecord {
    pub name: Vec<u8>,
    pub state: ProcessStatus,
    pub ppid: i32,
    pub utime: u64,
    pub stime: u64,
    pub start_ticks: u64,
    pub rss_pages: u64,
}

/// The status that a state field stands for (its first character decides).
pub open spec fn state_field(f: Seq<u8>) -> ProcessStatus {
    if f.len() > 0 {
        status_of(f[0])
    } else {
        ProcessStatus::Unknown(0u8)
    }
}

/// Field `n` after the name (the state is field 1), as a number.
pub open spec fn stat_number(s: Seq<u8>, n: int) -> Option<u64> {
    decimal_u64(stat_split(s).unwrap().2[n - 1])
}

/// A record holds every consumed field: enough fields, each numeric one a
/// decimal number, and a parent pid that fits a pid.
pub open spec fn stat_valid(s: Seq<u8>) -> bool {
    &&& stat_split(s) is Some
    &&& stat_split(s).unwrap().2.len() >= 22
    &&& stat_number(s, 2) is Some
    &&& stat_number(s, 2).unwrap() <= i32::MAX
    &&& stat_number(s, 12) is Some
    &&& stat_number(s, 13) is Some
    &&& stat_number(s, 20) is Some
    &&& stat_number(s, 22) is Some
}

/// What a valid record says, field by field.
pub open spec fn stat_record_of(s: Seq<u8>, r: StatRecord) -> bool {
    &&& r.name@ == stat_split(s).unwrap().1
    &&& r.state == state_field(stat_split(s).unwrap().2[0])
    &&& r.ppid as int == stat_number(s, 2).unwrap() as int
    &&& r.utime == stat_number(s, 12).unwrap()
    &&& r.stime == stat_number(s, 13).unwrap()
    &&& r.start_ticks == stat_number(s, 20).unwrap()
    &&& r.rss_pages == stat_number(s, 22).unwrap()
}

/// Parses a `stat` record into the fields this library consumes.
pub fn parse_stat(s: &[u8]) -> (r: Result<StatRecord, ParseError>)
    ensures
        r is Ok <==> stat_valid(s@),
        r matches Ok(rec) ==> stat_record_of(s@, rec),
        r matches Err(e) ==> e == ParseError::Malformed,
{
    let f = match split_stat(s) {
        None => return Err(ParseError::Malformed),
        Some(f) => f,
    };
    if f.fields.len() < 22 {
        return Err(ParseError::Malformed);
    }
    let ppid = match parse_u64(f.fields[1].as_slice()) {
        Some(v) => v,
        None => return Err(ParseError::Malformed),
    };
    if ppid > 2147483647u64 {
        return Err(ParseError::Malformed);
    }
    let utime = match parse_u64(f.fields[11].as_slice()) {
        Some(v) => v,
        None => return Err(ParseError::Malformed),
    };
    let stime = match parse_u64(f.fields[12].as_slice()) {
        Some(v) => v,
        None => return Err(ParseError::Malformed),
    };
    let start_ticks = match parse_u64(f.fields[19].as_slice()) {
        Some(v) => v,
        None => return Err(ParseError::Malformed),
    };
    let rss_pages = match parse_u64(f.fields[21].as_slice()) {
        Some(v) => v,
        None => return Err(ParseError::Malformed),
    };
    let state = if f.fields[0].len() > 0 {
        ProcessStatus::from_byte(f.fields[0][0])
    } else {
        ProcessStatus::Unknown(0u8)
    };
    Ok(StatRecord { name: f.name, state, ppid: ppid as i32, utime, stime, start_ticks, rss_pages })
}

} // verus!

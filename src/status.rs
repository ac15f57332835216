//! Effective user and group ids from a process's `status` file.
use vstd::prelude::*;
use crate::text::{
    ParseError, words, pieces, decimal_u64, has_prefix, split_on, split_words, parse_u64,
    starts_with, byte_strings,
};

verus! {

pub open spec fn uid_label() -> Seq<u8> {
    seq![85u8, 105u8, 100u8, 58u8]
}

pub open spec fn gid_label() -> Seq<u8> {
    seq![71u8, 105u8, 100u8, 58u8]
}

/// The effective id on an `Uid:`/`Gid:` line: the second number after the label.
pub open spec fn effective_id(line: Seq<u8>) -> Result<u32, ParseError> {
    let w = words(line);
    if w.len() >= 3 && decimal_u64(w[2]) is Some && decimal_u64(w[2]).unwrap() <= u32::MAX {
        Ok(decimal_u64(w[2]).unwrap() as u32)
    } else {
        Err(ParseError::Malformed)
    }
}

/// The id given by the first line that starts with `label`.
pub open spec fn labelled_id(lines: Seq<Seq<u8>>, label: Seq<u8>) -> Result<u32, ParseError>
    decreases lines.len(),
{
    if lines.len() == 0 {
        Err(ParseError::MissingField)
    } else if has_prefix(lines[0], label) {
        effective_id(lines[0])
    } else {
        labelled_id(lines.drop_first(), label)
    }
}

pub open spec fn status_ids(s: Seq<u8>) -> Result<(u32, u32), ParseError> {
    let lines = pieces(s, 10u8);
    match labelled_id(lines, uid_label()) {
        Err(e) => Err(e),
        Ok(u) => match labelled_id(lines, gid_label()) {
            Err(e) => Err(e),
            Ok(g) => Ok((u, g)),
        },
    }
}

fn find_id(lines: &Vec<Vec<u8>>, label: &[u8]) -> (r: Result<u32, ParseError>)
    ensures
        r == labelled_id(byte_strings(lines@), label@),
{
    let ghost ls = byte_strings(lines@);
    let mut i: usize = 0;
    assert(ls.subrange(0, ls.len() as int) == ls);
    while i < lines.len()
        invariant
            0 <= i <= lines.len(),
            ls.len() == lines@.len(),
            ls == byte_strings(lines@),
            labelled_id(ls, label@) == labelled_id(ls.subrange(i as int, ls.len() as int), label@),
        decreases lines.len() - i,
    {
        let ghost tail = ls.subrange(i as int, ls.len() as int);
        assert(tail.drop_first() =~= ls.subrange(i + 1, ls.len() as int));
        assert(tail[0] == lines@[i as int]@);
        if starts_with(lines[i].as_slice(), label) {
            let w = split_words(lines[i].as_slice());
            if w.len() < 3 {
                return Err(ParseError::Malformed);
            }
            assert(byte_strings(w@)[2] == w@[2]@);
            return match parse_u64(w[2].as_slice()) {
                Some(v) => if v <= 4294967295u64 {
                    Ok(v as u32)
                } else {
                    Err(ParseError::Malformed)
                },
                None => Err(ParseError::Malformed),
            };
        }
        i += 1;
    }
    Err(ParseError::MissingField)
}

/// Reads the effective uid and gid from `status` content; both are required.
pub fn parse_status_ids(s: &[u8]) -> (r: Result<(u32, u32), ParseError>)
    ensures
        r == status_ids(s@),
{
    let lines = split_on(s, 10u8);
    let ul = vec![85u8, 105u8, 100u8, 58u8];
    let gl = vec![71u8, 105u8, 100u8, 58u8];
    assert(ul@ == uid_label());
    assert(gl@ == gid_label());
    let u = match find_id(&lines, ul.as_slice()) {
        Err(e) => return Err(e),
        Ok(u) => u,
    };
    let g = match find_id(&lines, gl.as_slice()) {
        Err(e) => return Err(e),
        Ok(g) => g,
    };
    Ok((u, g))
}

} // verus!

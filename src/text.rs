//! Byte-level text helpers shared by the parsers.
use vstd::prelude::*;

verus! {

/// Why a record could not be read.
#[derive(Debug, Clone, Copy, PartialEq, Eq, Structural)]
pub enum ParseError {
    /// A field is missing or does not have the expected type.
    Malformed,
    /// A line that the record must hold is absent.
    MissingField,
}

/// ASCII whitespace, as the kernel's text files use it.
pub open spec fn is_space(b: u8) -> bool {
    b == 32u8 || b == 9u8 || b == 10u8 || b == 11u8 || b == 12u8 || b == 13u8
}

pub open spec fn is_digit(b: u8) -> bool {
    48u8 <= b && b <= 57u8
}

/// The words of `s`: its maximal runs of non-whitespace bytes, in order.
pub open spec fn words(s: Seq<u8>) -> Seq<Seq<u8>>
    decreases s.len(),
{
    if s.len() == 0 {
        seq![]
    } else {
        let pre = s.drop_last();
        let w = words(pre);
        if is_space(s.last()) {
            w
        } else if pre.len() > 0 && !is_space(pre.last()) {
            w.update(w.len() - 1, w.last().push(s.last()))
        } else {
            w.push(seq![s.last()])
        }
    }
}

/// The pieces of `s` between occurrences of the byte `d`; always at least one.
pub open spec fn pieces(s: Seq<u8>, d: u8) -> Seq<Seq<u8>>
    decreases s.len(),
{
    if s.len() == 0 {
        seq![seq![]]
    } else {
        let p = pieces(s.drop_last(), d);
        if s.last() == d {
            p.push(seq![])
        } else {
            p.update(p.len() - 1, p.last().push(s.last()))
        }
    }
}

/// The value of a run of decimal digits.
pub open spec fn decimal_value(s: Seq<u8>) -> nat
    decreases s.len(),
{
    if s.len() == 0 {
        0
    } else {
        decimal_value(s.drop_last()) * 10 + (s.last() - 48) as nat
    }
}

pub open spec fn all_digits(s: Seq<u8>) -> bool {
    forall|i: int| 0 <= i < s.len() ==> is_digit(#[trigger] s[i])
}

/// What a decimal field reads as: a non-empty run of digits whose value fits `u64`.
pub open spec fn decimal_u64(s: Seq<u8>) -> Option<u64> {
    if s.len() > 0 && all_digits(s) && decimal_value(s) <= u64::MAX {
        Some(decimal_value(s) as u64)
    } else {
        None
    }
}

pub open spec fn byte_strings(v: Seq<Vec<u8>>) -> Seq<Seq<u8>> {
    v.map_values(|x: Vec<u8>| x@)
}

pub proof fn lemma_pieces_nonempty(s: Seq<u8>, d: u8)
    ensures
        pieces(s, d).len() > 0,
    decreases s.len(),
{
    if s.len() > 0 {
        lemma_pieces_nonempty(s.drop_last(), d);
    }
}

pub fn is_space_byte(b: u8) -> (r: bool)
    ensures
        r == is_space(b),
{
    b == 32u8 || b == 9u8 || b == 10u8 || b == 11u8 || b == 12u8 || b == 13u8
}

/// Splits `s` on runs of whitespace.
pub fn split_words(s: &[u8]) -> (r: Vec<Vec<u8>>)
    ensures
        byte_strings(r@) == words(s@),
{
    let mut out: Vec<Vec<u8>> = Vec::new();
    let mut cur: Vec<u8> = Vec::new();
    let mut i: usize = 0;
    while i < s.len()
        invariant
            0 <= i <= s.len(),
            cur@.len() > 0 ==> byte_strings(out@).push(cur@) == words(s@.subrange(0, i as int)),
            cur@.len() == 0 ==> byte_strings(out@) == words(s@.subrange(0, i as int)),
            cur@.len() > 0 <==> (i > 0 && !is_space(s@[i - 1])),
        decreases s.len() - i,
    {
        let b = s[i];
        let ghost pre = s@.subrange(0, i as int);
        assert(s@.subrange(0, i + 1).drop_last() == pre);
        if is_space_byte(b) {
            if cur.len() > 0 {
                let w = cur;
                let ghost prev = out@;
                out.push(w);
                cur = Vec::new();
                assert(out@.drop_last() == prev);
                assert(byte_strings(out@) =~= byte_strings(prev).push(w@));
            }
        } else {
            let ghost oc = cur@;
            cur.push(b);
            proof {
                if i > 0 {
                    assert(pre.last() == s@[i - 1]);
                }
                if oc.len() > 0 {
                    let w = byte_strings(out@).push(oc);
                    assert(w.update(w.len() - 1, w.last().push(b)) =~= byte_strings(out@).push(cur@));
                } else {
                    assert(cur@ =~= seq![b]);
                }
            }
        }
        i += 1;
    }
    if cur.len() > 0 {
        let ghost prev = out@;
        let ghost c = cur@;
        out.push(cur);
        assert(out@.drop_last() == prev);
        assert(byte_strings(out@) =~= byte_strings(prev).push(c));
    }
    assert(s@.subrange(0, s.len() as int) == s@);
    out
}

/// Splits `s` at every occurrence of `d`, keeping empty pieces.
pub fn split_on(s: &[u8], d: u8) -> (r: Vec<Vec<u8>>)
    ensures
        byte_strings(r@) == pieces(s@, d),
{
    let mut out: Vec<Vec<u8>> = Vec::new();
    let mut cur: Vec<u8> = Vec::new();
    let mut i: usize = 0;
    while i < s.len()
        invariant
            0 <= i <= s.len(),
            byte_strings(out@).push(cur@) == pieces(s@.subrange(0, i as int), d),
        decreases s.len() - i,
    {
        let b = s[i];
        let ghost pre = s@.subrange(0, i as int);
        let ghost po = byte_strings(out@);
        let ghost oc = cur@;
        assert(s@.subrange(0, i + 1).drop_last() == pre);
        if b == d {
            let w = cur;
            let ghost prev = out@;
            out.push(w);
            cur = Vec::new();
            assert(out@.drop_last() == prev);
            assert(byte_strings(out@).push(cur@) =~= po.push(oc).push(seq![]));
        } else {
            cur.push(b);
            let ghost w = po.push(oc);
            assert(w.update(w.len() - 1, w.last().push(b)) =~= po.push(cur@));
        }
        i += 1;
    }
    let ghost prev = out@;
    let ghost c = cur@;
    out.push(cur);
    assert(out@.drop_last() == prev);
    assert(byte_strings(out@) =~= byte_strings(prev).push(c));
    assert(s@.subrange(0, s.len() as int) == s@);
    out
}

/// Reads a non-empty run of decimal digits as a `u64`.
pub fn parse_u64(s: &[u8]) -> (r: Option<u64>)
    ensures
        r == decimal_u64(s@),
{
    if s.len() == 0 {
        return None;
    }
    let mut v: u64 = 0;
    let mut i: usize = 0;
    while i < s.len()
        invariant
            0 <= i <= s.len(),
            all_digits(s@.subrange(0, i as int)),
            v as nat == decimal_value(s@.subrange(0, i as int)),
        decreases s.len() - i,
    {
        let b = s[i];
        assert(s@.subrange(0, i + 1).drop_last() == s@.subrange(0, i as int));
        if b < 48u8 || b > 57u8 {
            assert(!is_digit(s@[i as int]));
            assert(!all_digits(s@));
            return None;
        }
        if v > 1844674407370955161u64 || (v == 1844674407370955161u64 && b > 53u8) {
            proof {
                lemma_decimal_grows(s@, i as int + 1);
            }
            return None;
        }
        v = v * 10 + (b - 48u8) as u64;
        i += 1;
        assert(all_digits(s@.subrange(0, i as int))) by {
            assert forall|k: int| 0 <= k < i implies is_digit(#[trigger] s@.subrange(0, i as int)[k]) by {
                if k < i - 1 {
                    assert(s@.subrange(0, i as int)[k] == s@.subrange(0, i - 1)[k]);
                }
            }
        }
    }
    assert(s@.subrange(0, s.len() as int) == s@);
    Some(v)
}

proof fn lemma_decimal_grows(s: Seq<u8>, k: int)
    requires
        0 < k <= s.len(),
    ensures
        all_digits(s) ==> decimal_value(s) >= decimal_value(s.subrange(0, k)),
    decreases s.len() - k,
{
    if k < s.len() && all_digits(s) {
        lemma_decimal_grows(s, k + 1);
        assert(s.subrange(0, k + 1).drop_last() == s.subrange(0, k));
        assert(is_digit(s[k]));
    }
    if k == s.len() {
        assert(s.subrange(0, k) == s);
    }
}

/// The prefix relation on byte strings.
pub open spec fn has_prefix(s: Seq<u8>, p: Seq<u8>) -> bool {
    p.len() <= s.len() && s.subrange(0, p.len() as int) == p
}

pub fn starts_with(s: &[u8], p: &[u8]) -> (r: bool)
    ensures
        r == has_prefix(s@, p@),
{
    if p.len() > s.len() {
        return false;
    }
    let mut i: usize = 0;
    while i < p.len()
        invariant
            p.len() <= s.len(),
            0 <= i <= p.len(),
            forall|k: int| 0 <= k < i ==> s@[k] == p@[k],
        decreases p.len() - i,
    {
        if s[i] != p[i] {
            assert(s@.subrange(0, p.len() as int)[i as int] != p@[i as int]);
            return false;
        }
        i += 1;
    }
    assert(s@.subrange(0, p.len() as int) =~= p@);
    true
}

} // verus!

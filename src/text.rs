//! Byte-level scanning: finding separators and reading unsigned decimals.
use vstd::prelude::*;

verus! {

/// Index of the first `sep` at or after `pos`, or `s.len()` when there is none.
pub open spec fn next_sep(s: Seq<u8>, sep: u8, pos: int) -> int
    decreases s.len() - pos,
{
    if pos >= s.len() {
        s.len() as int
    } else if s[pos] == sep {
        pos
    } else {
        next_sep(s, sep, pos + 1)
    }
}

pub proof fn lemma_next_sep_bounds(s: Seq<u8>, sep: u8, pos: int)
    requires
        0 <= pos <= s.len(),
    ensures
        pos <= next_sep(s, sep, pos) <= s.len(),
        next_sep(s, sep, pos) < s.len() ==> s[next_sep(s, sep, pos)] == sep,
        forall|i: int| pos <= i < next_sep(s, sep, pos) ==> s[i] != sep,
    decreases s.len() - pos,
{
    if pos < s.len() && s[pos] != sep {
        lemma_next_sep_bounds(s, sep, pos + 1);
    }
}

pub open spec fn is_digit(b: u8) -> bool {
    48 <= b <= 57
}

/// The number that a run of decimal digits spells, most significant first.
pub open spec fn digits_value(d: Seq<u8>) -> nat
    decreases d.len(),
{
    if d.len() == 0 {
        0
    } else {
        digits_value(d.drop_last()) * 10 + (d.last() - 48) as nat
    }
}

/// The digits of an unsigned decimal: the text without one leading `+`.
pub open spec fn unsigned_digits(s: Seq<u8>) -> Seq<u8> {
    if s.len() > 0 && s[0] == 43 {
        s.subrange(1, s.len() as int)
    } else {
        s
    }
}

/// `s` is an unsigned decimal: an optional `+`, then one or more digits.
pub open spec fn is_unsigned(s: Seq<u8>) -> bool {
    let d = unsigned_digits(s);
    d.len() > 0 && forall|i: int| 0 <= i < d.len() ==> is_digit(d[i])
}

pub open spec fn unsigned_value(s: Seq<u8>) -> nat {
    digits_value(unsigned_digits(s))
}

/// `s` is an unsigned decimal whose value is at most `limit`.
pub open spec fn parses_within(s: Seq<u8>, limit: nat) -> bool {
    is_unsigned(s) && unsigned_value(s) <= limit
}

proof fn lemma_prefix_value_le(d: Seq<u8>, k: int)
    requires
        0 <= k <= d.len(),
    ensures
        digits_value(d.subrange(0, k)) <= digits_value(d),
    decreases d.len() - k,
{
    if k == d.len() {
        assert(d.subrange(0, k) =~= d);
    } else {
        lemma_prefix_value_le(d, k + 1);
        assert(d.subrange(0, k + 1).drop_last() =~= d.subrange(0, k));
    }
}

/// Index of the first `sep` in `s` at or after `pos`, or `s.len()`.
pub fn find_byte(s: &[u8], sep: u8, pos: usize) -> (r: usize)
    requires
        pos <= s@.len(),
    ensures
        r == next_sep(s@, sep, pos as int),
{
    let mut i: usize = pos;
    while i < s.len() && s[i] != sep
        invariant
            pos <= i <= s@.len(),
            next_sep(s@, sep, i as int) == next_sep(s@, sep, pos as int),
        decreases s@.len() - i,
    {
        i = i + 1;
    }
    i
}

/// Reads `s[lo..hi]` as an unsigned decimal no greater than `limit`.
pub fn parse_unsigned(s: &[u8], lo: usize, hi: usize, limit: u32) -> (r: Option<u32>)
    requires
        lo <= hi <= s@.len(),
    ensures
        r.is_some() <==> parses_within(s@.subrange(lo as int, hi as int), limit as nat),
        r.is_some() ==> r.unwrap() as nat == unsigned_value(s@.subrange(lo as int, hi as int)),
{
    let ghost t = s@.subrange(lo as int, hi as int);
    let start: usize = if lo < hi && s[lo] == 43 { lo + 1 } else { lo };
    let ghost d = s@.subrange(start as int, hi as int);
    assert(unsigned_digits(t) =~= d);
    if start == hi {
        return None;
    }
    let mut acc: u64 = 0;
    let mut i: usize = start;
    while i < hi
        invariant
            lo <= start <= i <= hi <= s@.len(),
            d == s@.subrange(start as int, hi as int),
            t == s@.subrange(lo as int, hi as int),
            unsigned_digits(t) == d,
            acc as nat == digits_value(d.subrange(0, i - start)),
            acc <= limit,
            forall|j: int| 0 <= j < i - start ==> is_digit(d[j]),
        decreases hi - i,
    {
        let b = s[i];
        assert(d[i - start] == b);
        if b < 48 || b > 57 {
            assert(!is_digit(d[i - start]));
            return None;
        }
        let next: u64 = acc * 10 + (b - 48) as u64;
        proof {
            let pre = d.subrange(0, i + 1 - start);
            assert(pre.drop_last() =~= d.subrange(0, i - start));
            assert(pre.last() == b);
            assert(digits_value(pre) == next as nat);
        }
        if next > limit as u64 {
            proof {
                if forall|j: int| 0 <= j < d.len() ==> is_digit(d[j]) {
                    lemma_prefix_value_le(d, i + 1 - start);
                }
            }
            return None;
        }
        acc = next;
        i = i + 1;
    }
    assert(d.subrange(0, hi - start) =~= d);
    Some(acc as u32)
}

} // verus!

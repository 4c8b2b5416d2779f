//! Character classes and text scanning shared by the literal grammars.

use vstd::prelude::*;

verus! {

/// `c` is an ASCII hexadecimal digit.
pub open spec fn is_hex_digit(c: char) -> bool {
    ('0' <= c && c <= '9') || ('a' <= c && c <= 'f') || ('A' <= c && c <= 'F')
}

/// Numeric value of a hexadecimal digit.
pub open spec fn hex_val(c: char) -> u8 {
    if '0' <= c && c <= '9' {
        ((c as u8) - ('0' as u8)) as u8
    } else if 'a' <= c && c <= 'f' {
        ((c as u8) - ('a' as u8) + 10) as u8
    } else {
        ((c as u8) - ('A' as u8) + 10) as u8
    }
}

/// Numeric value of one hexadecimal digit character, or none.
pub fn hex_digit_value(c: char) -> (r: Option<u8>)
    ensures
        r is Some <==> is_hex_digit(c),
        r matches Some(v) ==> v == hex_val(c) && v < 16,
{
    let u = c as u32;
    if 48 <= u && u <= 57 {
        Some((u - 48) as u8)
    } else if 97 <= u && u <= 102 {
        Some((u - 97 + 10) as u8)
    } else if 65 <= u && u <= 70 {
        Some((u - 65 + 10) as u8)
    } else {
        None
    }
}

/// Position of the first `sep` in `s`, or `s.len()` if there is none.
pub open spec fn first_sep(s: Seq<char>, sep: char) -> int
    decreases s.len(),
{
    if s.len() == 0 {
        0
    } else if s[0] == sep {
        0
    } else {
        1 + first_sep(s.skip(1), sep)
    }
}

pub proof fn lemma_first_sep_props(s: Seq<char>, sep: char)
    ensures
        0 <= first_sep(s, sep) <= s.len(),
        forall|t: int| 0 <= t < first_sep(s, sep) ==> s[t] != sep,
        first_sep(s, sep) < s.len() ==> s[first_sep(s, sep)] == sep,
    decreases s.len(),
{
    if s.len() > 0 && s[0] != sep {
        lemma_first_sep_props(s.skip(1), sep);
        assert forall|t: int| 0 <= t < first_sep(s, sep) implies s[t] != sep by {
            if t > 0 {
                assert(s.skip(1)[t - 1] == s[t]);
            }
        }
    }
}

pub proof fn lemma_first_sep_at(s: Seq<char>, sep: char, k: int)
    requires
        0 <= k <= s.len(),
        forall|t: int| 0 <= t < k ==> s[t] != sep,
        k < s.len() ==> s[k] == sep,
    ensures
        first_sep(s, sep) == k,
    decreases s.len(),
{
    if k > 0 {
        lemma_first_sep_at(s.skip(1), sep, k - 1);
    }
}

/// Scans `s` within `[from, to)` for the first occurrence of `sep`.
pub fn scan_sep(s: &str, from: usize, to: usize, sep: char) -> (p: usize)
    requires
        from <= to <= s@.len(),
    ensures
        from <= p <= to,
        forall|t: int| from <= t < p ==> s@[t] != sep,
        p < to ==> s@[p as int] == sep,
        first_sep(s@.subrange(from as int, to as int), sep) == p - from,
{
    let mut i: usize = from;
    let mut found: usize = to;
    let mut done: bool = false;
    while i < to && !done
        invariant
            from <= i <= to <= s@.len(),
            !done ==> found == to && forall|t: int| from <= t < i ==> s@[t] != sep,
            done ==> from <= found < to && s@[found as int] == sep && forall|t: int|
                from <= t < found ==> s@[t] != sep,
        decreases to - i + if done { 0int } else { 1int },
    {
        if s.get_char(i) == sep {
            found = i;
            done = true;
        } else {
            i = i + 1;
        }
    }
    let p = if done {
        found
    } else {
        to
    };
    proof {
        let w = s@.subrange(from as int, to as int);
        assert forall|t: int| 0 <= t < p - from implies w[t] != sep by {
            assert(w[t] == s@[from + t]);
        }
        if p < to {
            assert(w[p - from] == s@[p as int]);
        }
        lemma_first_sep_at(w, sep, p - from);
    }
    p
}

} // verus!

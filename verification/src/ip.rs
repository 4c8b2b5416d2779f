//! IP address literals.
//!
//! Port health checks name their target by an IP literal, so the validator
//! must recognise exactly the textual forms of IPv4 and IPv6 addresses:
//!
//! - IPv4: four decimal octets `0..=255` separated by dots, without leading
//!   zeroes (`192.168.1.1`, but neither `01.2.3.4` nor `256.1.1.1`);
//! - IPv6: groups of one to four hexadecimal digits separated by colons —
//!   eight groups written out, or fewer with one `::` standing for the
//!   elided zero groups — where the last two groups may instead be written
//!   as an embedded IPv4 literal (`2001:db8::1`, `::`, `::ffff:1.2.3.4`).
//!
//! The grammar is given by spec functions; [`is_valid_ip`] is the verified
//! recogniser.

use vstd::prelude::*;

use crate::chars::{first_sep, is_hex_digit, lemma_first_sep_props, scan_sep};

verus! {

/// `c` is an ASCII decimal digit.
pub open spec fn is_digit(c: char) -> bool {
    '0' <= c && c <= '9'
}

/// Numeric value of a decimal digit.
pub open spec fn digit_val(c: char) -> int {
    (c as int) - ('0' as int)
}

/// Every character of `s` is a decimal digit.
pub open spec fn all_digits(s: Seq<char>) -> bool {
    forall|t: int| 0 <= t < s.len() ==> is_digit(#[trigger] s[t])
}

/// The number denoted by a string of decimal digits.
pub open spec fn dec_value(s: Seq<char>) -> int
    decreases s.len(),
{
    if s.len() == 0 {
        0
    } else {
        10 * dec_value(s.drop_last()) + digit_val(s.last())
    }
}

/// A decimal octet as it may stand in an IPv4 literal: one to three
/// digits, no leading zero, value at most 255.
pub open spec fn is_dec_octet(s: Seq<char>) -> bool {
    &&& 1 <= s.len() <= 3
    &&& all_digits(s)
    &&& (s.len() > 1 ==> s[0] != '0')
    &&& dec_value(s) <= 255
}

/// `s` consists of `parts` decimal octets separated by dots.
pub open spec fn is_ipv4_parts(s: Seq<char>, parts: int) -> bool
    decreases parts,
{
    let p = first_sep(s, '.');
    if parts <= 1 {
        is_dec_octet(s)
    } else if p < s.len() {
        is_dec_octet(s.subrange(0, p)) && is_ipv4_parts(s.skip(p + 1), parts - 1)
    } else {
        false
    }
}

/// The IPv4 literal grammar: a dotted quad of decimal octets.
pub open spec fn is_ipv4(s: Seq<char>) -> bool {
    is_ipv4_parts(s, 4)
}

/// Whether `c` is a decimal digit, and its value.
fn digit_value(c: char) -> (r: Option<u8>)
    ensures
        r is Some <==> is_digit(c),
        r matches Some(v) ==> v == digit_val(c) && v <= 9,
{
    let u = c as u32;
    if 48 <= u && u <= 57 {
        Some((u - 48) as u8)
    } else {
        None
    }
}

/// Recognises a decimal octet in `s` within `[from, to)`.
fn octet_ok(s: &str, from: usize, to: usize) -> (r: bool)
    requires
        from <= to <= s@.len(),
    ensures
        r == is_dec_octet(s@.subrange(from as int, to as int)),
{
    let ghost w = s@.subrange(from as int, to as int);
    let len = to - from;
    if len < 1 || len > 3 {
        return false;
    }
    if len > 1 {
        if s.get_char(from) == '0' {
            assert(w[0] == s@[from as int]);
            return false;
        }
    }
    let mut i: usize = from;
    let mut val: u32 = 0;
    while i < to
        invariant
            from <= i <= to <= s@.len(),
            w == s@.subrange(from as int, to as int),
            to - from <= 3,
            val == dec_value(s@.subrange(from as int, i as int)),
            i - from == 0 ==> val == 0,
            i - from <= 1 ==> val <= 9,
            i - from <= 2 ==> val <= 99,
            val <= 999,
            forall|t: int| 0 <= t < i - from ==> is_digit(#[trigger] w[t]),
        decreases to - i,
    {
        let c = s.get_char(i);
        let d = match digit_value(c) {
            Some(d) => d,
            None => {
                assert(w[i - from] == s@[i as int]);
                return false;
            },
        };
        proof {
            assert(s@.subrange(from as int, i + 1).drop_last() =~= s@.subrange(
                from as int,
                i as int,
            ));
            assert(s@.subrange(from as int, i + 1).last() == c);
            assert(w[i - from] == s@[i as int]);
        }
        val = val * 10 + (d as u32);
        i = i + 1;
    }
    proof {
        assert(s@.subrange(from as int, to as int) =~= w);
    }
    val <= 255
}

/// Recognises `parts` dot-separated decimal octets in `s` within
/// `[from, to)`.
fn ipv4_parts_ok(s: &str, from: usize, to: usize, parts: u8) -> (r: bool)
    requires
        from <= to <= s@.len(),
        1 <= parts,
    ensures
        r == is_ipv4_parts(s@.subrange(from as int, to as int), parts as int),
    decreases parts,
{
    let ghost w = s@.subrange(from as int, to as int);
    let p = scan_sep(s, from, to, '.');
    if parts == 1 {
        octet_ok(s, from, to)
    } else if p < to {
        proof {
            assert(w.subrange(0, p - from) =~= s@.subrange(from as int, p as int));
            assert(w.skip(p - from + 1) =~= s@.subrange(p + 1, to as int));
        }
        let first = octet_ok(s, from, p);
        if !first {
            false
        } else {
            ipv4_parts_ok(s, p + 1, to, parts - 1)
        }
    } else {
        false
    }
}

/// A group of an IPv6 literal: one to four hexadecimal digits.
pub open spec fn is_h16(s: Seq<char>) -> bool {
    1 <= s.len() <= 4 && forall|t: int| 0 <= t < s.len() ==> is_hex_digit(#[trigger] s[t])
}

/// Groups denoted by a nonempty colon-separated tail of an IPv6 literal,
/// whose last group may instead be an embedded IPv4 literal standing for
/// two groups; none if the tail is malformed.
pub open spec fn tail_groups(s: Seq<char>) -> Option<int>
    decreases s.len(),
{
    let p = first_sep(s, ':');
    if p == s.len() {
        if is_h16(s) {
            Some(1)
        } else if is_ipv4(s) {
            Some(2)
        } else {
            None
        }
    } else if 0 <= p < s.len() && is_h16(s.subrange(0, p)) {
        match tail_groups(s.skip(p + 1)) {
            Some(k) => Some(k + 1),
            None => None,
        }
    } else {
        None
    }
}

/// Groups denoted by a nonempty colon-separated run of plain h16 groups,
/// as they may stand left of a `::`; none if malformed.
pub open spec fn left_groups_ne(s: Seq<char>) -> Option<int>
    decreases s.len(),
{
    let p = first_sep(s, ':');
    if p == s.len() {
        if is_h16(s) {
            Some(1)
        } else {
            None
        }
    } else if 0 <= p < s.len() && is_h16(s.subrange(0, p)) {
        match left_groups_ne(s.skip(p + 1)) {
            Some(k) => Some(k + 1),
            None => None,
        }
    } else {
        None
    }
}

/// Groups left of a `::`: possibly nothing at all.
pub open spec fn left_groups(s: Seq<char>) -> Option<int> {
    if s.len() == 0 {
        Some(0)
    } else {
        left_groups_ne(s)
    }
}

/// Groups right of a `::`: possibly nothing at all.
pub open spec fn right_groups(s: Seq<char>) -> Option<int> {
    if s.len() == 0 {
        Some(0)
    } else {
        tail_groups(s)
    }
}

/// `s` is an IPv6 literal whose one `::` stands at position `d`: what is
/// left of it is a plain group run, what is right of it a tail, and
/// together they leave at least one group elided.
pub open spec fn is_compressed_at(s: Seq<char>, d: int) -> bool {
    &&& 0 <= d
    &&& d + 2 <= s.len()
    &&& s[d] == ':'
    &&& s[d + 1] == ':'
    &&& left_groups(s.subrange(0, d)) matches Some(l) && right_groups(s.skip(d + 2)) matches Some(
        r,
    ) && l + r <= 7
}

/// The IPv6 literal grammar: eight groups written out, or one `::` with at
/// most seven groups around it.
pub open spec fn is_ipv6(s: Seq<char>) -> bool {
    tail_groups(s) == Some(8int) || exists|d: int| is_compressed_at(s, d)
}

/// The accepted IP literal syntax of the configuration.
pub open spec fn is_ip_literal(s: Seq<char>) -> bool {
    is_ipv4(s) || is_ipv6(s)
}

/// There is no `::` in `s`.
spec fn no_dc(s: Seq<char>) -> bool {
    forall|t: int| 0 <= t < s.len() - 1 ==> !(s[t] == ':' && #[trigger] s[t + 1] == ':')
}

proof fn lemma_ipv4_no_colon(s: Seq<char>, parts: int)
    requires
        is_ipv4_parts(s, parts),
        parts >= 1,
    ensures
        s.len() > 0,
        forall|t: int| 0 <= t < s.len() ==> s[t] != ':',
    decreases parts,
{
    let p = first_sep(s, ':');
    let q = first_sep(s, '.');
    lemma_first_sep_props(s, '.');
    if parts <= 1 {
    } else {
        lemma_ipv4_no_colon(s.skip(q + 1), parts - 1);
        assert forall|t: int| 0 <= t < s.len() implies s[t] != ':' by {
            if t < q {
                assert(s.subrange(0, q)[t] == s[t]);
                assert(is_digit(s.subrange(0, q)[t]));
            } else if t == q {
            } else {
                assert(s.skip(q + 1)[t - q - 1] == s[t]);
            }
        }
    }
}

/// A well-formed tail neither begins nor ends with a colon and contains no
/// `::`.
proof fn lemma_tail_shape(s: Seq<char>)
    requires
        tail_groups(s) is Some,
    ensures
        s.len() > 0,
        s[0] != ':',
        s[s.len() - 1] != ':',
        no_dc(s),
    decreases s.len(),
{
    let p = first_sep(s, ':');
    lemma_first_sep_props(s, ':');
    if p == s.len() {
        if is_h16(s) {
        } else {
            lemma_ipv4_no_colon(s, 4);
        }
    } else {
        assert(is_h16(s.subrange(0, p)));
        assert(tail_groups(s.skip(p + 1)) is Some);
        let rest = s.skip(p + 1);
        lemma_tail_shape(rest);
        assert(rest[0] != ':');
        assert(s[s.len() - 1] == rest[s.len() - 1 - p - 1]);
        assert(is_hex_digit(s.subrange(0, p)[0]));
        assert(s.subrange(0, p)[0] == s[0]);
        assert forall|t: int| 0 <= t < s.len() - 1 implies !(s[t] == ':' && #[trigger] s[t + 1]
            == ':') by {
            if t < p {
                // s[t] lies in the leading group, which is hexadecimal
                assert(s.subrange(0, p)[t] == s[t]);
                assert(is_hex_digit(s.subrange(0, p)[t]));
                assert(s[t] != ':');
            } else if t == p {
                assert(s[t + 1] == rest[0]);
                assert(s[t + 1] != ':');
            } else {
                let w = t - p - 1;
                assert(s[t] == rest[w]);
                assert(s[t + 1] == rest[w + 1]);
            }
        }
    }
}

/// A well-formed plain group run neither begins nor ends with a colon and
/// contains no `::`.
proof fn lemma_left_shape(s: Seq<char>)
    requires
        left_groups_ne(s) is Some,
    ensures
        s.len() > 0,
        s[0] != ':',
        s[s.len() - 1] != ':',
        no_dc(s),
    decreases s.len(),
{
    let p = first_sep(s, ':');
    lemma_first_sep_props(s, ':');
    if p == s.len() {
    } else {
        let rest = s.skip(p + 1);
        lemma_left_shape(rest);
        assert(s[s.len() - 1] == rest[s.len() - 1 - p - 1]);
        assert(is_hex_digit(s.subrange(0, p)[0]));
        assert(s.subrange(0, p)[0] == s[0]);
        assert forall|t: int| 0 <= t < s.len() - 1 implies !(s[t] == ':' && #[trigger] s[t + 1]
            == ':') by {
            if t < p {
                assert(s.subrange(0, p)[t] == s[t]);
                assert(is_hex_digit(s.subrange(0, p)[t]));
            } else if t == p {
                assert(s[t + 1] == rest[0]);
            } else {
                let w = t - p - 1;
                assert(s[t] == rest[w]);
                assert(s[t + 1] == rest[w + 1]);
            }
        }
    }
}

/// Recognises an h16 group in `s` within `[from, to)`.
fn h16_ok(s: &str, from: usize, to: usize) -> (r: bool)
    requires
        from <= to <= s@.len(),
    ensures
        r == is_h16(s@.subrange(from as int, to as int)),
{
    let ghost w = s@.subrange(from as int, to as int);
    let len = to - from;
    if len < 1 || len > 4 {
        return false;
    }
    let mut i: usize = from;
    while i < to
        invariant
            from <= i <= to <= s@.len(),
            w == s@.subrange(from as int, to as int),
            forall|t: int| 0 <= t < i - from ==> is_hex_digit(#[trigger] w[t]),
        decreases to - i,
    {
        let c = s.get_char(i);
        let u = c as u32;
        let hex = (48 <= u && u <= 57) || (97 <= u && u <= 102) || (65 <= u && u <= 70);
        proof {
            assert(w[i - from] == s@[i as int]);
        }
        if !hex {
            return false;
        }
        i = i + 1;
    }
    true
}

/// Recognises a tail of colon-separated groups in `s` within `[from, to)`,
/// returning how many groups it denotes.
fn tail_groups_from(s: &str, from: usize, to: usize) -> (r: Option<usize>)
    requires
        from <= to <= s@.len(),
    ensures
        r matches Some(k) ==> tail_groups(s@.subrange(from as int, to as int)) == Some(k as int)
            && 1 <= k && 2 * k <= (to - from) + 4,
        r is None ==> tail_groups(s@.subrange(from as int, to as int)) is None,
    decreases to - from,
{
    let ghost w = s@.subrange(from as int, to as int);
    let p = scan_sep(s, from, to, ':');
    if p == to {
        if h16_ok(s, from, to) {
            Some(1)
        } else if ipv4_parts_ok(s, from, to, 4) {
            Some(2)
        } else {
            None
        }
    } else {
        proof {
            assert(w.subrange(0, p - from) =~= s@.subrange(from as int, p as int));
            assert(w.skip(p - from + 1) =~= s@.subrange(p + 1, to as int));
        }
        if !h16_ok(s, from, p) {
            return None;
        }
        match tail_groups_from(s, p + 1, to) {
            Some(k) => Some(k + 1),
            None => None,
        }
    }
}

/// Recognises a plain run of colon-separated groups in `s` within
/// `[from, to)`, returning how many groups it holds.
fn left_groups_from(s: &str, from: usize, to: usize) -> (r: Option<usize>)
    requires
        from <= to <= s@.len(),
    ensures
        r matches Some(k) ==> left_groups(s@.subrange(from as int, to as int)) == Some(k as int)
            && 2 * k <= (to - from) + 4,
        r is None ==> left_groups(s@.subrange(from as int, to as int)) is None,
    decreases to - from,
{
    let ghost w = s@.subrange(from as int, to as int);
    if from == to {
        return Some(0);
    }
    let p = scan_sep(s, from, to, ':');
    if p == to {
        if h16_ok(s, from, to) {
            Some(1)
        } else {
            None
        }
    } else {
        proof {
            assert(w.subrange(0, p - from) =~= s@.subrange(from as int, p as int));
            assert(w.skip(p - from + 1) =~= s@.subrange(p + 1, to as int));
        }
        if !h16_ok(s, from, p) {
            return None;
        }
        if p + 1 == to {
            // a trailing colon is malformed
            proof {
                assert(w.skip(p - from + 1).len() == 0);
                assert(left_groups_ne(w.skip(p - from + 1)) is None);
            }
            return None;
        }
        match left_groups_from(s, p + 1, to) {
            Some(k) => Some(k + 1),
            None => None,
        }
    }
}

/// Position of the first `::` in `s`, if any.
fn find_dc(s: &str) -> (r: Option<usize>)
    ensures
        r matches Some(d) ==> d + 1 < s@.len() && s@[d as int] == ':' && s@[d + 1] == ':'
            && forall|t: int| 0 <= t < d ==> !(s@[t] == ':' && #[trigger] s@[t + 1] == ':'),
        r is None ==> no_dc(s@),
{
    let n = s.unicode_len();
    if n < 2 {
        return None;
    }
    let mut i: usize = 0;
    while i < n - 1
        invariant
            n == s@.len(),
            2 <= n,
            i <= n - 1,
            forall|t: int| 0 <= t < i ==> !(s@[t] == ':' && #[trigger] s@[t + 1] == ':'),
        decreases n - i,
    {
        if s.get_char(i) == ':' {
            if s.get_char(i + 1) == ':' {
                return Some(i);
            }
        }
        i = i + 1;
    }
    None
}

/// Recognises an IPv6 literal.
fn is_ipv6_literal(s: &str) -> (r: bool)
    ensures
        r == is_ipv6(s@),
{
    let n = s.unicode_len();
    proof {
        assert(s@.subrange(0, n as int) =~= s@);
    }
    match find_dc(s) {
        None => {
            // without a `::` only the eight-group form remains
            let r = match tail_groups_from(s, 0, n) {
                Some(k) => k == 8,
                None => false,
            };
            proof {
                if exists|d: int| is_compressed_at(s@, d) {
                    let d = choose|d: int| is_compressed_at(s@, d);
                    assert(s@[d] == ':' && s@[d + 1] == ':');
                    assert(false);
                }
            }
            r
        },
        Some(d) => {
            // a witness of the compressed form can only name the first `::`
            proof {
                assert forall|d2: int| is_compressed_at(s@, d2) implies d2 == d as int by {
                    if d2 < d as int {
                        assert(s@[d2] == ':' && s@[d2 + 1] == ':');
                    } else if d2 > d as int {
                        let left = s@.subrange(0, d2);
                        assert(left_groups(left) is Some);
                        assert(left.len() > 0);
                        lemma_left_shape(left);
                        if d + 1 < d2 {
                            assert(left[d as int] == s@[d as int]);
                            assert(left[d + 1] == s@[d + 1]);
                        } else {
                            assert(left[left.len() - 1] == s@[d2 - 1]);
                            assert(d2 - 1 == d + 1);
                        }
                        assert(false);
                    }
                }
                if tail_groups(s@) is Some {
                    lemma_tail_shape(s@);
                    assert(false);
                }
            }
            let l = match left_groups_from(s, 0, d) {
                Some(l) => l,
                None => {
                    return false;
                },
            };
            let r = if d + 2 == n {
                Some(0)
            } else {
                tail_groups_from(s, d + 2, n)
            };
            proof {
                assert(s@.subrange(d + 2, n as int) =~= s@.skip(d + 2));
            }
            match r {
                Some(rg) => {
                    let ok = l + rg <= 7;
                    proof {
                        if ok {
                            assert(is_compressed_at(s@, d as int));
                        } else {
                            assert(!is_compressed_at(s@, d as int));
                        }
                    }
                    ok
                },
                None => {
                    proof {
                        assert(s@.skip(d + 2).len() > 0);
                        assert(right_groups(s@.skip(d + 2)) is None);
                        assert(!is_compressed_at(s@, d as int));
                    }
                    false
                },
            }
        },
    }
}

/// Decides whether `s` is a textual IPv4 or IPv6 address.
pub fn is_valid_ip(s: &str) -> (r: bool)
    ensures
        r == is_ip_literal(s@),
{
    let n = s.unicode_len();
    proof {
        assert(s@.subrange(0, n as int) =~= s@);
    }
    if ipv4_parts_ok(s, 0, n, 4) {
        true
    } else {
        is_ipv6_literal(s)
    }
}

} // verus!

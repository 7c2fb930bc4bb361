//! The textual form of IPv6 addresses: eight 16-bit groups in hexadecimal,
//! separated by colons, where one `::` may stand for one or more zero groups
//! and the last two groups may be written as a dotted IPv4 address.

use crate::text::{
    is_space, lemma_split_first_char, lemma_split_last_char, lemma_split_nonempty,
    lemma_split_prefix, lemma_trimmed_is_identity, split_fields, to_chars, trimmed,
};
use vstd::prelude::*;

verus! {

/// A decimal digit.
pub open spec fn is_dec_digit(c: char) -> bool {
    '0' <= c && c <= '9'
}

/// A hexadecimal digit, of either case.
pub open spec fn is_hex_digit(c: char) -> bool {
    is_dec_digit(c) || ('a' <= c && c <= 'f') || ('A' <= c && c <= 'F')
}

/// One group: one to four hexadecimal digits.
pub open spec fn is_hextet(f: Seq<char>) -> bool {
    &&& 1 <= f.len() <= 4
    &&& forall|i: int| 0 <= i < f.len() ==> is_hex_digit(#[trigger] f[i])
}

/// A decimal number from 0 to 255 without leading zeros.
pub open spec fn is_dec_octet(f: Seq<char>) -> bool {
    if f.len() == 1 {
        is_dec_digit(f[0])
    } else if f.len() == 2 {
        '1' <= f[0] && f[0] <= '9' && is_dec_digit(f[1])
    } else if f.len() == 3 {
        ||| f[0] == '1' && is_dec_digit(f[1]) && is_dec_digit(f[2])
        ||| f[0] == '2' && '0' <= f[1] && f[1] <= '4' && is_dec_digit(f[2])
        ||| f[0] == '2' && f[1] == '5' && '0' <= f[2] && f[2] <= '5'
    } else {
        false
    }
}

/// An IPv4 address in dotted form: four decimal octets.
pub open spec fn is_dotted_quad(f: Seq<char>) -> bool {
    let parts = split_fields(f, '.');
    &&& parts.len() == 4
    &&& forall|i: int| 0 <= i < 4 ==> is_dec_octet(#[trigger] parts[i])
}

/// The number of 16-bit groups that a colon-separated run of groups spells
/// out, or `None` where `s` is no such run. Every field is a hextet, but for
/// the last, which may be a dotted quad (two groups) where `allow_v4` is set.
pub open spec fn run_units(s: Seq<char>, allow_v4: bool) -> Option<nat> {
    let fields = split_fields(s, ':');
    if forall|j: int| 0 <= j < fields.len() - 1 ==> is_hextet(#[trigger] fields[j]) {
        if is_hextet(fields.last()) {
            Some(fields.len())
        } else if allow_v4 && is_dotted_quad(fields.last()) {
            Some(fields.len() + 1)
        } else {
            None
        }
    } else {
        None
    }
}

/// The groups on one side of `::`: none where that side is empty.
pub open spec fn side_units(part: Seq<char>, allow_v4: bool) -> Option<nat> {
    if part.len() == 0 {
        Some(0)
    } else {
        run_units(part, allow_v4)
    }
}

/// `s` has `::` at position `k`, with at most seven groups around it in all.
/// A dotted quad may only end the literal.
pub open spec fn is_compressed_at(s: Seq<char>, k: int) -> bool {
    &&& 0 <= k <= s.len() - 2
    &&& s[k] == ':'
    &&& s[k + 1] == ':'
    &&& side_units(s.take(k), false) is Some
    &&& side_units(s.skip(k + 2), true) is Some
    &&& side_units(s.take(k), false).unwrap() + side_units(s.skip(k + 2), true).unwrap() <= 7
}

/// `s` is an IPv6 address literal: either all eight groups are written out,
/// or a single `::` stands for the groups that are left out.
pub open spec fn is_ipv6_literal(s: Seq<char>) -> bool {
    ||| run_units(s, true) == Some(8nat)
    ||| exists|k: int| is_compressed_at(s, k)
}

/// A run of groups is not empty, neither starts nor ends with a colon and
/// has no two colons in a row.
pub proof fn lemma_run_has_no_gap(x: Seq<char>, allow_v4: bool)
    requires
        run_units(x, allow_v4) is Some,
    ensures
        x.len() > 0,
        x[0] != ':',
        x.last() != ':',
        forall|i: int| 0 <= i < x.len() - 1 ==> !(x[i] == ':' && #[trigger] x[i + 1] == ':'),
{
    let fields = split_fields(x, ':');
    lemma_split_nonempty(x, ':');
    assert(split_fields(Seq::<char>::empty(), '.') =~= seq![Seq::<char>::empty()]);
    if x.len() == 0 {
        assert(fields =~= seq![Seq::<char>::empty()]);
        assert(false);
    }
    lemma_split_first_char(x, ':');
    lemma_split_last_char(x, ':');
    assert forall|i: int| 0 <= i < x.len() - 1 implies !(x[i] == ':' && #[trigger] x[i + 1]
        == ':') by {
        if x[i] == ':' && x[i + 1] == ':' {
            let p = x.take(i + 2);
            let q = x.take(i + 1);
            assert(p.drop_last() =~= q);
            assert(q.drop_last() =~= x.take(i));
            lemma_split_nonempty(x.take(i), ':');
            let m = split_fields(x.take(i), ':').len() as int;
            assert(split_fields(q, ':').len() == m + 1);
            assert(split_fields(p, ':').len() == m + 2);
            assert(split_fields(p, ':')[m] =~= Seq::<char>::empty());
            lemma_split_prefix(x, i + 2, ':');
            assert(split_fields(p, ':')[m] == fields[m]);
            assert(is_hextet(fields[m]));
            assert(false);
        }
    }
}

/// The value of a hexadecimal digit.
pub open spec fn hex_digit_value(c: char) -> nat {
    if is_dec_digit(c) {
        (c as int - 48) as nat
    } else if 'a' <= c && c <= 'f' {
        (c as int - 87) as nat
    } else {
        (c as int - 55) as nat
    }
}

/// The number that a text of hexadecimal digits spells.
pub open spec fn hex_value(f: Seq<char>) -> nat
    decreases f.len(),
{
    if f.len() == 0 {
        0
    } else {
        hex_value(f.drop_last()) * 16 + hex_digit_value(f.last())
    }
}

/// The number that a text of decimal digits spells.
pub open spec fn decimal_value(f: Seq<char>) -> nat
    decreases f.len(),
{
    if f.len() == 0 {
        0
    } else {
        decimal_value(f.drop_last()) * 10 + (f.last() as int - 48) as nat
    }
}

/// The group that a hextet spells.
pub open spec fn hextet_group(f: Seq<char>) -> u16 {
    hex_value(f) as u16
}

/// The two groups that a dotted quad spells.
pub open spec fn quad_groups(f: Seq<char>) -> Seq<u16> {
    let parts = split_fields(f, '.');
    seq![
        (decimal_value(parts[0]) * 256 + decimal_value(parts[1])) as u16,
        (decimal_value(parts[2]) * 256 + decimal_value(parts[3])) as u16,
    ]
}

/// The groups that a run of groups spells.
pub open spec fn run_groups(s: Seq<char>) -> Seq<u16> {
    let fields = split_fields(s, ':');
    if is_hextet(fields.last()) {
        fields.map_values(|f: Seq<char>| hextet_group(f))
    } else {
        fields.drop_last().map_values(|f: Seq<char>| hextet_group(f)) + quad_groups(fields.last())
    }
}

/// The groups on one side of `::`.
pub open spec fn side_groups(part: Seq<char>) -> Seq<u16> {
    if part.len() == 0 {
        Seq::<u16>::empty()
    } else {
        run_groups(part)
    }
}

/// The eight groups of the address that an IPv6 address literal denotes:
/// the groups that are written, with as many zero groups in place of `::`
/// as make eight.
pub open spec fn literal_groups(s: Seq<char>) -> Seq<u16> {
    if run_units(s, true) == Some(8nat) {
        run_groups(s)
    } else {
        let k = choose|k: int| is_compressed_at(s, k);
        let head = side_groups(s.take(k));
        let tail = side_groups(s.skip(k + 2));
        head + zero_groups((8 - head.len() - tail.len()) as nat) + tail
    }
}

/// `n` zero groups.
pub open spec fn zero_groups(n: nat) -> Seq<u16> {
    Seq::new(n, |i: int| 0u16)
}

/// A literal has its `::` in one place only.
pub proof fn lemma_compression_is_unique(s: Seq<char>, k1: int, k2: int)
    requires
        is_compressed_at(s, k1),
        is_compressed_at(s, k2),
    ensures
        k1 == k2,
{
    if k1 < k2 {
        let part = s.take(k2);
        lemma_run_has_no_gap(part, false);
        if k1 + 1 == k2 {
            assert(part.last() == s[k1]);
        } else {
            assert(part[k1] == s[k1]);
            assert(part[k1 + 1] == ':');
        }
    } else if k2 < k1 {
        let part = s.take(k1);
        lemma_run_has_no_gap(part, false);
        if k2 + 1 == k1 {
            assert(part.last() == s[k2]);
        } else {
            assert(part[k2] == s[k2]);
            assert(part[k2 + 1] == ':');
        }
    }
}

/// A literal with `::` is no run of eight groups.
pub proof fn lemma_compressed_is_not_full(s: Seq<char>, k: int)
    requires
        is_compressed_at(s, k),
    ensures
        run_units(s, true) is None,
{
    if run_units(s, true) is Some {
        lemma_run_has_no_gap(s, true);
        assert(s[k + 1] == ':');
    }
}

/// A text made of a side, `::` and another side, with at most seven groups
/// in all, is a literal, and denotes the groups of the two sides with zero
/// groups between them.
pub proof fn lemma_sides_make_literal(head: Seq<char>, tail: Seq<char>)
    requires
        side_units(head, false) is Some,
        side_units(tail, true) is Some,
        side_units(head, false).unwrap() + side_units(tail, true).unwrap() <= 7,
    ensures
        is_compressed_at(head + seq![':', ':'] + tail, head.len() as int),
        is_ipv6_literal(head + seq![':', ':'] + tail),
        literal_groups(head + seq![':', ':'] + tail) == side_groups(head) + zero_groups(
            (8 - side_groups(head).len() - side_groups(tail).len()) as nat,
        ) + side_groups(tail),
{
    let text = head + seq![':', ':'] + tail;
    let at = head.len() as int;
    assert(text.take(at) =~= head);
    assert(text.skip(at + 2) =~= tail);
    assert(text[at] == ':');
    assert(text[at + 1] == ':');
    assert(is_compressed_at(text, at));
    lemma_compressed_is_not_full(text, at);
    let k = choose|k: int| is_compressed_at(text, k);
    lemma_compression_is_unique(text, k, at);
}

/// A run spells as many groups as it counts.
pub proof fn lemma_run_groups_len(x: Seq<char>, allow_v4: bool)
    requires
        run_units(x, allow_v4) is Some,
    ensures
        run_groups(x).len() == run_units(x, allow_v4).unwrap(),
{
    lemma_split_nonempty(x, ':');
}

/// A literal denotes eight groups.
pub proof fn lemma_literal_has_eight_groups(s: Seq<char>)
    requires
        is_ipv6_literal(s),
    ensures
        literal_groups(s).len() == 8,
{
    if run_units(s, true) == Some(8nat) {
        lemma_run_groups_len(s, true);
    } else {
        let k = choose|k: int| is_compressed_at(s, k);
        if s.take(k).len() > 0 {
            lemma_run_groups_len(s.take(k), false);
        }
        if s.skip(k + 2).len() > 0 {
            lemma_run_groups_len(s.skip(k + 2), true);
        }
    }
}

/// A run of groups neither starts nor ends with white space.
pub proof fn lemma_run_has_no_space_at_ends(x: Seq<char>, allow_v4: bool)
    requires
        run_units(x, allow_v4) is Some,
    ensures
        x.len() > 0,
        !is_space(x[0]),
        !is_space(x.last()),
{
    lemma_run_has_no_gap(x, allow_v4);
    let fields = split_fields(x, ':');
    lemma_split_first_char(x, ':');
    lemma_split_last_char(x, ':');
    let first = fields[0];
    if is_hextet(first) {
        assert(is_hex_digit(first[0]));
    } else {
        assert(fields.len() == 1);
        lemma_split_first_char(first, '.');
        assert(is_dec_octet(split_fields(first, '.')[0]));
    }
    let last = fields.last();
    if is_hextet(last) {
        assert(is_hex_digit(last.last()));
    } else {
        lemma_split_last_char(last, '.');
        let parts = split_fields(last, '.');
        assert(is_dec_octet(parts[3]));
        assert(parts[3] == parts.last());
    }
}

/// An IPv6 address literal has no white space at its ends: trimming leaves
/// it as it is.
pub proof fn lemma_literal_is_trimmed(s: Seq<char>)
    requires
        is_ipv6_literal(s),
    ensures
        s.len() > 0,
        trimmed(s) == s,
{
    if run_units(s, true) == Some(8nat) {
        lemma_run_has_no_space_at_ends(s, true);
    } else {
        let k = choose|k: int| is_compressed_at(s, k);
        if k > 0 {
            lemma_run_has_no_space_at_ends(s.take(k), false);
            assert(s.take(k)[0] == s[0]);
        }
        if k + 2 < s.len() {
            lemma_run_has_no_space_at_ends(s.skip(k + 2), true);
            assert(s.skip(k + 2).last() == s.last());
        }
    }
    lemma_trimmed_is_identity(s);
}

/// Tells whether `c` is a decimal digit.
pub fn dec_digit(c: char) -> (b: bool)
    ensures
        b == is_dec_digit(c),
{
    '0' <= c && c <= '9'
}

/// Tells whether `c` is a hexadecimal digit, of either case.
pub fn hex_digit(c: char) -> (b: bool)
    ensures
        b == is_hex_digit(c),
{
    dec_digit(c) || ('a' <= c && c <= 'f') || ('A' <= c && c <= 'F')
}

/// Tells whether `chars[lo..hi]` is a hextet.
pub fn check_hextet(chars: &Vec<char>, lo: usize, hi: usize) -> (b: bool)
    requires
        lo <= hi <= chars.len(),
    ensures
        b == is_hextet(chars@.subrange(lo as int, hi as int)),
{
    let ghost f = chars@.subrange(lo as int, hi as int);
    if hi - lo < 1 || hi - lo > 4 {
        return false;
    }
    let mut i: usize = lo;
    while i < hi
        invariant
            lo <= i <= hi <= chars.len(),
            f == chars@.subrange(lo as int, hi as int),
            forall|j: int| 0 <= j < i - lo ==> is_hex_digit(#[trigger] f[j]),
        decreases hi - i,
    {
        if !hex_digit(chars[i]) {
            assert(f[i - lo] == chars@[i as int]);
            return false;
        }
        assert(f[i - lo] == chars@[i as int]);
        i = i + 1;
    }
    true
}

/// Tells whether `chars[lo..hi]` is a decimal octet.
pub fn check_dec_octet(chars: &Vec<char>, lo: usize, hi: usize) -> (b: bool)
    requires
        lo <= hi <= chars.len(),
    ensures
        b == is_dec_octet(chars@.subrange(lo as int, hi as int)),
{
    let ghost f = chars@.subrange(lo as int, hi as int);
    let len: usize = hi - lo;
    if len == 1 {
        assert(f[0] == chars@[lo as int]);
        dec_digit(chars[lo])
    } else if len == 2 {
        assert(f[0] == chars@[lo as int]);
        assert(f[1] == chars@[lo + 1]);
        '1' <= chars[lo] && chars[lo] <= '9' && dec_digit(chars[lo + 1])
    } else if len == 3 {
        assert(f[0] == chars@[lo as int]);
        assert(f[1] == chars@[lo + 1]);
        assert(f[2] == chars@[lo + 2]);
        let a = chars[lo];
        let b = chars[lo + 1];
        let c = chars[lo + 2];
        (a == '1' && dec_digit(b) && dec_digit(c)) || (a == '2' && '0' <= b && b <= '4'
            && dec_digit(c)) || (a == '2' && b == '5' && '0' <= c && c <= '5')
    } else {
        false
    }
}

/// Tells whether `chars[lo..hi]` is a dotted quad.
pub fn check_dotted_quad(chars: &Vec<char>, lo: usize, hi: usize) -> (b: bool)
    requires
        lo <= hi <= chars.len(),
    ensures
        b == is_dotted_quad(chars@.subrange(lo as int, hi as int)),
        b ==> hi - lo >= 4,
{
    let ghost s = chars@.subrange(lo as int, hi as int);
    let mut closed: usize = 0;
    let mut start: usize = lo;
    let mut i: usize = lo;
    proof {
        assert(s.take(0) =~= Seq::<char>::empty());
    }
    while i < hi
        invariant
            lo <= start <= i <= hi <= chars.len(),
            s == chars@.subrange(lo as int, hi as int),
            closed <= 3,
            closed + (i - start) <= i - lo,
            split_fields(s.take(i - lo), '.').len() == closed + 1,
            split_fields(s.take(i - lo), '.').last() == chars@.subrange(start as int, i as int),
            forall|j: int|
                0 <= j < closed ==> is_dec_octet(#[trigger] split_fields(s.take(i - lo), '.')[j]),
        decreases hi - i,
    {
        let ghost before = split_fields(s.take(i - lo), '.');
        let ghost next = s.take(i - lo + 1);
        proof {
            assert(next.drop_last() =~= s.take(i - lo));
            assert(next.last() == chars@[i as int]);
            lemma_split_prefix(s, i - lo + 1, '.');
        }
        if chars[i] == '.' {
            let ok = check_dec_octet(chars, start, i);
            if !ok || closed == 3 {
                proof {
                    let after = split_fields(next, '.');
                    assert(after == before.push(Seq::<char>::empty()));
                    assert(after[closed as int] == before.last());
                    assert(split_fields(s, '.')[closed as int] == after[closed as int]);
                }
                return false;
            }
            proof {
                let after = split_fields(next, '.');
                assert(after == before.push(Seq::<char>::empty()));
                assert(after.last() =~= chars@.subrange(i + 1, i + 1));
                assert forall|j: int| 0 <= j < closed + 1 implies is_dec_octet(
                    #[trigger] after[j],
                ) by {
                    if j < closed {
                        assert(after[j] == before[j]);
                    }
                }
            }
            closed = closed + 1;
            start = i + 1;
        } else {
            proof {
                let after = split_fields(next, '.');
                assert(after == before.drop_last().push(before.last().push(chars@[i as int])));
                assert(after.last() =~= chars@.subrange(start as int, i + 1));
                assert forall|j: int| 0 <= j < closed implies is_dec_octet(#[trigger] after[j]) by {
                    assert(after[j] == before[j]);
                }
            }
        }
        i = i + 1;
    }
    proof {
        assert(s.take(hi - lo) =~= s);
    }
    let last_ok = check_dec_octet(chars, start, hi);
    proof {
        let parts = split_fields(s, '.');
        if closed == 3 && last_ok {
            assert forall|j: int| 0 <= j < 4 implies is_dec_octet(#[trigger] parts[j]) by {
                if j == 3 {
                    assert(parts[3] == parts.last());
                }
            }
        } else if closed == 3 {
            assert(parts[3] == parts.last());
        }
    }
    closed == 3 && last_ok
}

/// Counts the groups of the run `chars[lo..hi]`, or returns `None` where it
/// is no run of groups.
pub fn scan_run(chars: &Vec<char>, lo: usize, hi: usize, allow_v4: bool) -> (units: Option<usize>)
    requires
        lo <= hi <= chars.len(),
    ensures
        match units {
            Some(n) => run_units(chars@.subrange(lo as int, hi as int), allow_v4) == Some(
                n as nat,
            ),
            None => run_units(chars@.subrange(lo as int, hi as int), allow_v4) is None,
        },
{
    let ghost s = chars@.subrange(lo as int, hi as int);
    let mut closed: usize = 0;
    let mut start: usize = lo;
    let mut i: usize = lo;
    proof {
        assert(s.take(0) =~= Seq::<char>::empty());
    }
    while i < hi
        invariant
            lo <= start <= i <= hi <= chars.len(),
            s == chars@.subrange(lo as int, hi as int),
            closed + (i - start) <= i - lo,
            split_fields(s.take(i - lo), ':').len() == closed + 1,
            split_fields(s.take(i - lo), ':').last() == chars@.subrange(start as int, i as int),
            forall|j: int|
                0 <= j < closed ==> is_hextet(#[trigger] split_fields(s.take(i - lo), ':')[j]),
        decreases hi - i,
    {
        let ghost before = split_fields(s.take(i - lo), ':');
        let ghost next = s.take(i - lo + 1);
        proof {
            assert(next.drop_last() =~= s.take(i - lo));
            assert(next.last() == chars@[i as int]);
            lemma_split_prefix(s, i - lo + 1, ':');
        }
        if chars[i] == ':' {
            if !check_hextet(chars, start, i) {
                proof {
                    let after = split_fields(next, ':');
                    assert(after == before.push(Seq::<char>::empty()));
                    assert(after[closed as int] == before.last());
                    assert(split_fields(s, ':')[closed as int] == after[closed as int]);
                }
                return None;
            }
            proof {
                let after = split_fields(next, ':');
                assert(after == before.push(Seq::<char>::empty()));
                assert(after.last() =~= chars@.subrange(i + 1, i + 1));
                assert forall|j: int| 0 <= j < closed + 1 implies is_hextet(#[trigger] after[j]) by {
                    if j < closed {
                        assert(after[j] == before[j]);
                    }
                }
            }
            closed = closed + 1;
            start = i + 1;
        } else {
            proof {
                let after = split_fields(next, ':');
                assert(after == before.drop_last().push(before.last().push(chars@[i as int])));
                assert(after.last() =~= chars@.subrange(start as int, i + 1));
                assert forall|j: int| 0 <= j < closed implies is_hextet(#[trigger] after[j]) by {
                    assert(after[j] == before[j]);
                }
            }
        }
        i = i + 1;
    }
    proof {
        assert(s.take(hi - lo) =~= s);
    }
    if check_hextet(chars, start, hi) {
        Some(closed + 1)
    } else if allow_v4 && check_dotted_quad(chars, start, hi) {
        Some(closed + 2)
    } else {
        None
    }
}

/// The position of the first `::` in `chars`, if there is one.
pub fn find_double_colon(chars: &Vec<char>) -> (at: Option<usize>)
    ensures
        match at {
            Some(k) => {
                &&& k + 2 <= chars.len()
                &&& chars[k as int] == ':'
                &&& chars[k + 1] == ':'
                &&& forall|i: int| 0 <= i < k ==> !(chars[i] == ':' && #[trigger] chars[i + 1] == ':')
            },
            None => forall|i: int|
                0 <= i < chars.len() - 1 ==> !(chars[i] == ':' && #[trigger] chars[i + 1] == ':'),
        },
{
    if chars.len() < 2 {
        return None;
    }
    let mut k: usize = 0;
    while k + 1 < chars.len()
        invariant
            k + 1 <= chars.len(),
            forall|i: int| 0 <= i < k ==> !(chars[i] == ':' && #[trigger] chars[i + 1] == ':'),
        decreases chars.len() - k,
    {
        if chars[k] == ':' && chars[k + 1] == ':' {
            return Some(k);
        }
        k = k + 1;
    }
    None
}

/// Tells whether the characters form an IPv6 address literal.
pub fn check_ipv6_literal(chars: &Vec<char>) -> (b: bool)
    ensures
        b == is_ipv6_literal(chars@),
{
    let len = chars.len();
    let ghost s = chars@;
    match find_double_colon(chars) {
        None => {
            let units = scan_run(chars, 0, len, true);
            proof {
                assert(s.subrange(0, len as int) =~= s);
                assert forall|k: int| !is_compressed_at(s, k) by {
                    if 0 <= k <= s.len() - 2 {
                        assert(!(s[k] == ':' && s[k + 1] == ':'));
                    }
                }
            }
            match units {
                Some(n) => n == 8,
                None => false,
            }
        },
        Some(at) => {
            let head = if at == 0 {
                Some(0)
            } else {
                scan_run(chars, 0, at, false)
            };
            let tail = if at + 2 == len {
                Some(0)
            } else {
                scan_run(chars, at + 2, len, true)
            };
            let found = match (head, tail) {
                (Some(h), Some(t)) => h <= 7 && t <= 7 && h + t <= 7,
                _ => false,
            };
            proof {
                let k0 = at as int;
                assert(s.take(k0) =~= s.subrange(0, k0));
                assert(s.skip(k0 + 2) =~= s.subrange(k0 + 2, len as int));
                assert(found == is_compressed_at(s, k0));
                if run_units(s, true) is Some {
                    lemma_run_has_no_gap(s, true);
                    assert(s[k0 + 1] == ':');
                    assert(false);
                }
                if !found {
                    assert forall|k: int| !is_compressed_at(s, k) by {
                        if is_compressed_at(s, k) {
                            if k < k0 {
                                assert(s[k + 1] == ':');
                                assert(false);
                            } else if k > k0 {
                                let part = s.take(k);
                                lemma_run_has_no_gap(part, false);
                                if k0 + 1 == k {
                                    assert(part.last() == s[k0]);
                                } else {
                                    assert(part[k0] == s[k0]);
                                    assert(part[k0 + 1] == ':');
                                }
                                assert(false);
                            }
                        }
                    }
                }
            }
            found
        },
    }
}

/// Tells whether `s` is an IPv6 address literal.
pub fn is_ipv6_text(s: &str) -> (b: bool)
    ensures
        b == is_ipv6_literal(s@),
{
    let chars = to_chars(s);
    check_ipv6_literal(&chars)
}

} // verus!

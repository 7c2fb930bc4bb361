//! The canonical text of an IPv6 address: lower-case groups without leading
//! zeros, the leftmost longest run of two or more zero groups written `::`,
//! and IPv4-mapped addresses with a dotted tail.

use crate::ipv6::{
    decimal_value, hex_value, hextet_group, is_compressed_at, is_dec_octet, is_dotted_quad,
    is_hextet, is_ipv6_literal, lemma_run_has_no_gap, lemma_sides_make_literal,
    literal_groups, quad_groups, run_groups, run_units, side_groups, side_units, zero_groups,
};
use crate::text::{
    decimal_text, digit_str, format_decimal, hex_char, join_fields, lemma_split_concat,
    lemma_split_join, lemma_split_single, split_fields,
};
use vstd::prelude::*;
use vstd::string::*;

verus! {

/// A group in hexadecimal, without leading zeros.
pub open spec fn hex_text(v: u16) -> Seq<char> {
    let n = v as int;
    if n < 0x10 {
        seq![hex_char(n)]
    } else if n < 0x100 {
        seq![hex_char(n / 16), hex_char(n % 16)]
    } else if n < 0x1000 {
        seq![hex_char(n / 256), hex_char(n / 16 % 16), hex_char(n % 16)]
    } else {
        seq![hex_char(n / 4096), hex_char(n / 256 % 16), hex_char(n / 16 % 16), hex_char(n % 16)]
    }
}

/// The groups in hexadecimal with colons between them; empty for no group.
pub open spec fn groups_text(groups: Seq<u16>) -> Seq<char> {
    join_fields(groups.map_values(|g: u16| hex_text(g)), ':')
}

/// Two groups written as the four octets of an IPv4 address.
pub open spec fn dotted_text(high: u16, low: u16) -> Seq<char> {
    join_fields(
        seq![
            decimal_text((high / 256) as nat),
            decimal_text((high % 256) as nat),
            decimal_text((low / 256) as nat),
            decimal_text((low % 256) as nat),
        ],
        '.',
    )
}

/// The groups from `start` on, `len` of them, are all zero.
pub open spec fn is_zero_run(groups: Seq<u16>, start: int, len: int) -> bool {
    &&& 0 <= start
    &&& 0 <= len
    &&& start + len <= groups.len()
    &&& forall|i: int| start <= i < start + len ==> groups[i] == 0
}

/// `(start, len)` is a run of zeros that no other run exceeds in length, and
/// the leftmost of that length.
pub open spec fn is_longest_zero_run(groups: Seq<u16>, start: int, len: int) -> bool {
    &&& is_zero_run(groups, start, len)
    &&& forall|s: int, l: int| #[trigger] is_zero_run(groups, s, l) ==> l <= len
    &&& forall|s: int| len > 0 && #[trigger] is_zero_run(groups, s, len) ==> start <= s
}

/// The leftmost longest run of zero groups, as start and length.
pub open spec fn longest_zero_run(groups: Seq<u16>) -> (int, int) {
    choose|run: (int, int)| is_longest_zero_run(groups, run.0, run.1)
}

/// The address is an IPv4 address mapped into IPv6: `::ffff:a.b.c.d`.
pub open spec fn is_v4_mapped(groups: Seq<u16>) -> bool {
    &&& groups.len() == 8
    &&& groups[0] == 0
    &&& groups[1] == 0
    &&& groups[2] == 0
    &&& groups[3] == 0
    &&& groups[4] == 0
    &&& groups[5] == 0xffff
}

/// The canonical text of the address with the eight `groups`.
pub open spec fn canonical_text(groups: Seq<u16>) -> Seq<char> {
    if is_v4_mapped(groups) {
        "::ffff:"@ + dotted_text(groups[6], groups[7])
    } else {
        let run = longest_zero_run(groups);
        if run.1 >= 2 {
            groups_text(groups.take(run.0)) + "::"@ + groups_text(groups.skip(run.0 + run.1))
        } else {
            groups_text(groups)
        }
    }
}

/// Two longest zero runs have the same length and, unless empty, the same
/// start.
pub proof fn lemma_longest_zero_run_unique(groups: Seq<u16>, s1: int, l1: int, s2: int, l2: int)
    requires
        is_longest_zero_run(groups, s1, l1),
        is_longest_zero_run(groups, s2, l2),
    ensures
        l1 == l2,
        l1 > 0 ==> s1 == s2,
{
}

/// A group's hexadecimal text is a hextet.
pub proof fn lemma_hex_text_is_hextet(v: u16)
    ensures
        is_hextet(hex_text(v)),
        forall|i: int| 0 <= i < hex_text(v).len() ==> hex_text(v)[i] != ':',
{
}

/// The decimal text of a number below 256 is a decimal octet.
pub proof fn lemma_decimal_text_is_octet(v: nat)
    requires
        v < 256,
    ensures
        is_dec_octet(decimal_text(v)),
        forall|i: int|
            0 <= i < decimal_text(v).len() ==> decimal_text(v)[i] != '.' && decimal_text(v)[i]
                != ':',
{
    reveal_with_fuel(decimal_text, 3);
}

/// One or more groups written out are a run of as many groups.
pub proof fn lemma_groups_text_is_run(groups: Seq<u16>, allow_v4: bool)
    requires
        groups.len() >= 1,
    ensures
        run_units(groups_text(groups), allow_v4) == Some(groups.len()),
{
    let fields = groups.map_values(|g: u16| hex_text(g));
    assert forall|j: int, i: int| 0 <= j < fields.len() && 0 <= i < fields[j].len() implies #[trigger] fields[j][i]
        != ':' by {
        lemma_hex_text_is_hextet(groups[j]);
    }
    lemma_split_join(fields, ':');
    assert forall|j: int| 0 <= j < fields.len() implies is_hextet(#[trigger] fields[j]) by {
        lemma_hex_text_is_hextet(groups[j]);
    }
}

/// The dotted text of two groups is a dotted quad, and holds no colon.
pub proof fn lemma_dotted_text_is_quad(high: u16, low: u16)
    ensures
        is_dotted_quad(dotted_text(high, low)),
        forall|i: int| 0 <= i < dotted_text(high, low).len() ==> dotted_text(high, low)[i] != ':',
{
    let a = decimal_text((high / 256) as nat);
    let b = decimal_text((high % 256) as nat);
    let c = decimal_text((low / 256) as nat);
    let d = decimal_text((low % 256) as nat);
    lemma_decimal_text_is_octet((high / 256) as nat);
    lemma_decimal_text_is_octet((high % 256) as nat);
    lemma_decimal_text_is_octet((low / 256) as nat);
    lemma_decimal_text_is_octet((low % 256) as nat);
    let parts = seq![a, b, c, d];
    lemma_split_join(parts, '.');
    assert(parts.drop_last() =~= seq![a, b, c]);
    assert(parts.drop_last().drop_last() =~= seq![a, b]);
    assert(parts.drop_last().drop_last().drop_last() =~= seq![a]);
    assert(join_fields(seq![a], '.') == a);
    assert(join_fields(seq![a, b], '.') =~= a + seq!['.'] + b);
    assert(join_fields(seq![a, b, c], '.') =~= a + seq!['.'] + b + seq!['.'] + c);
    assert(dotted_text(high, low) =~= a + seq!['.'] + b + seq!['.'] + c + seq!['.'] + d);
}

/// Every sequence of groups has a leftmost longest run of zeros.
pub proof fn lemma_longest_zero_run_exists(groups: Seq<u16>)
    ensures
        is_longest_zero_run(groups, longest_zero_run(groups).0, longest_zero_run(groups).1),
{
    let found = lemma_zero_run_scan(groups, groups.len() as int);
    assert forall|s: int, l: int| #[trigger] is_zero_run(groups, s, l) implies l <= found.1 by {
        assert(s + l <= groups.len());
    }
    assert(is_longest_zero_run(groups, found.0, found.1));
    let pair = (found.0, found.1);
    assert(is_longest_zero_run(groups, pair.0, pair.1));
}

/// The leftmost longest run of zeros among the first `n` groups, with the
/// run of zeros that ends at `n`.
proof fn lemma_zero_run_scan(groups: Seq<u16>, n: int) -> (found: (int, int, int, int))
    requires
        0 <= n <= groups.len(),
    ensures
        is_zero_run(groups, found.0, found.1),
        found.0 + found.1 <= n,
        forall|s: int, l: int| #[trigger] is_zero_run(groups, s, l) && s + l <= n ==> l <= found.1,
        forall|s: int|
            found.1 > 0 && #[trigger] is_zero_run(groups, s, found.1) && s + found.1 <= n
                ==> found.0 <= s,
        is_zero_run(groups, found.2, found.3),
        found.2 + found.3 == n,
        found.2 > 0 ==> groups[found.2 - 1] != 0,
        found.3 <= found.1,
    decreases n,
{
    if n == 0 {
        (0, 0, 0, 0)
    } else {
        let prev = lemma_zero_run_scan(groups, n - 1);
        let i = n - 1;
        let cur = if groups[i] == 0 {
            (prev.2, prev.3 + 1)
        } else {
            (n, 0int)
        };
        let best = if cur.1 > prev.1 {
            cur
        } else {
            (prev.0, prev.1)
        };
        assert forall|s: int, l: int| #[trigger] is_zero_run(groups, s, l) && s + l <= n implies l
            <= best.1 by {
            if s + l == n && l > 0 {
                if groups[i] == 0 {
                    if s < prev.2 {
                        assert(groups[prev.2 - 1] == 0);
                    }
                } else {
                    assert(groups[i] == 0);
                }
            } else if l > 0 {
                assert(is_zero_run(groups, s, l) && s + l <= n - 1);
            }
        }
        assert forall|s: int|
            best.1 > 0 && #[trigger] is_zero_run(groups, s, best.1) && s + best.1
                <= n implies best.0 <= s by {
            if best.1 > prev.1 {
                if s + best.1 <= n - 1 {
                    assert(is_zero_run(groups, s, best.1) && s + best.1 <= n - 1);
                }
            } else {
                if s + best.1 == n {
                    if groups[i] == 0 {
                        if s < prev.2 {
                            assert(groups[prev.2 - 1] == 0);
                        }
                    } else {
                        assert(groups[i] == 0);
                    }
                }
            }
        }
        (best.0, best.1, cur.0, cur.1)
    }
}

/// A group's hexadecimal text spells the group.
pub proof fn lemma_hex_text_value(v: u16)
    ensures
        hex_value(hex_text(v)) == v,
        hextet_group(hex_text(v)) == v,
{
    reveal_with_fuel(hex_value, 5);
    let t = hex_text(v);
    if v < 0x10 {
        assert(t.drop_last() =~= Seq::<char>::empty());
    } else if v < 0x100 {
        assert(t.drop_last() =~= seq![t[0]]);
        assert(t.drop_last().drop_last() =~= Seq::<char>::empty());
    } else if v < 0x1000 {
        assert(t.drop_last() =~= seq![t[0], t[1]]);
        assert(t.drop_last().drop_last() =~= seq![t[0]]);
        assert(t.drop_last().drop_last().drop_last() =~= Seq::<char>::empty());
    } else {
        assert(t.drop_last() =~= seq![t[0], t[1], t[2]]);
        assert(t.drop_last().drop_last() =~= seq![t[0], t[1]]);
        assert(t.drop_last().drop_last().drop_last() =~= seq![t[0]]);
        assert(t.drop_last().drop_last().drop_last().drop_last() =~= Seq::<char>::empty());
    }
}

/// A number's decimal text spells the number.
pub proof fn lemma_decimal_text_value(n: nat)
    ensures
        decimal_value(decimal_text(n)) == n,
    decreases n,
{
    let t = decimal_text(n);
    if n < 10 {
        assert(t.drop_last() =~= Seq::<char>::empty());
        assert(decimal_value(t.drop_last()) == 0);
    } else {
        lemma_decimal_text_value(n / 10);
        assert(t.drop_last() =~= decimal_text(n / 10));
    }
}

/// Groups written out spell themselves.
pub proof fn lemma_groups_text_value(groups: Seq<u16>)
    requires
        groups.len() >= 1,
    ensures
        run_groups(groups_text(groups)) == groups,
{
    lemma_groups_text_is_run(groups, false);
    let fields = groups.map_values(|g: u16| hex_text(g));
    assert forall|j: int, i: int| 0 <= j < fields.len() && 0 <= i < fields[j].len() implies #[trigger] fields[j][i]
        != ':' by {
        lemma_hex_text_is_hextet(groups[j]);
    }
    lemma_split_join(fields, ':');
    lemma_hex_text_is_hextet(groups.last());
    assert(fields.last() == hex_text(groups.last()));
    assert forall|j: int| 0 <= j < groups.len() implies hextet_group(#[trigger] fields[j])
        == groups[j] by {
        lemma_hex_text_value(groups[j]);
    }
    assert(fields.map_values(|f: Seq<char>| hextet_group(f)) =~= groups);
}

/// The dotted text of two groups spells the two groups.
pub proof fn lemma_dotted_text_value(high: u16, low: u16)
    ensures
        quad_groups(dotted_text(high, low)) == seq![high, low],
        !is_hextet(dotted_text(high, low)),
{
    let a = decimal_text((high / 256) as nat);
    let b = decimal_text((high % 256) as nat);
    let c = decimal_text((low / 256) as nat);
    let d = decimal_text((low % 256) as nat);
    lemma_decimal_text_is_octet((high / 256) as nat);
    lemma_decimal_text_is_octet((high % 256) as nat);
    lemma_decimal_text_is_octet((low / 256) as nat);
    lemma_decimal_text_is_octet((low % 256) as nat);
    lemma_decimal_text_value((high / 256) as nat);
    lemma_decimal_text_value((high % 256) as nat);
    lemma_decimal_text_value((low / 256) as nat);
    lemma_decimal_text_value((low % 256) as nat);
    let parts = seq![a, b, c, d];
    lemma_split_join(parts, '.');
    assert(quad_groups(dotted_text(high, low)) =~= seq![high, low]);
    lemma_dotted_text_is_quad(high, low);
    let quad = dotted_text(high, low);
    if is_hextet(quad) {
        lemma_split_single(quad, '.');
        assert(false);
    }
}

/// What groups written out come to as one side of `::`.
proof fn lemma_groups_text_side(groups: Seq<u16>, allow_v4: bool)
    ensures
        side_units(groups_text(groups), allow_v4) == Some(groups.len()),
        side_groups(groups_text(groups)) == groups,
{
    if groups.len() == 0 {
        assert(groups.map_values(|g: u16| hex_text(g)) =~= Seq::<Seq<char>>::empty());
        assert(groups =~= Seq::<u16>::empty());
    } else {
        lemma_groups_text_is_run(groups, allow_v4);
        lemma_run_has_no_gap(groups_text(groups), allow_v4);
        lemma_groups_text_value(groups);
    }
}

/// What `ffff`, a colon and the dotted text of two groups come to as the
/// side after `::`.
proof fn lemma_mapped_tail_side(high: u16, low: u16)
    ensures
        side_units(seq!['f', 'f', 'f', 'f', ':'] + dotted_text(high, low), true) == Some(3nat),
        side_groups(seq!['f', 'f', 'f', 'f', ':'] + dotted_text(high, low)) == seq![
            0xffffu16,
            high,
            low,
        ],
{
    let quad = dotted_text(high, low);
    let ffff = seq!['f', 'f', 'f', 'f'];
    let tail = seq!['f', 'f', 'f', 'f', ':'] + quad;
    assert(tail =~= ffff + seq![':'] + quad);
    lemma_dotted_text_is_quad(high, low);
    lemma_dotted_text_value(high, low);
    lemma_split_concat(ffff, quad, ':');
    lemma_split_single(ffff, ':');
    lemma_split_single(quad, ':');
    let fields = split_fields(tail, ':');
    assert(fields =~= seq![ffff, quad]);
    assert(fields.last() == quad);
    assert(fields.drop_last() =~= seq![ffff]);
    assert(is_hextet(ffff));
    lemma_hex_text_value(0xffff);
    assert(hex_text(0xffff) =~= ffff);
    assert(fields.drop_last().map_values(|f: Seq<char>| hextet_group(f)) =~= seq![0xffffu16]);
    assert(run_groups(tail) =~= seq![0xffffu16, high, low]);
}

/// The canonical text of an IPv4-mapped address is a literal that denotes
/// the address.
proof fn lemma_mapped_denotes_address(groups: Seq<u16>)
    requires
        is_v4_mapped(groups),
    ensures
        is_ipv6_literal(canonical_text(groups)),
        literal_groups(canonical_text(groups)) == groups,
{
    reveal_strlit("::ffff:");
    let head = Seq::<char>::empty();
    let tail = seq!['f', 'f', 'f', 'f', ':'] + dotted_text(groups[6], groups[7]);
    lemma_mapped_tail_side(groups[6], groups[7]);
    lemma_sides_make_literal(head, tail);
    assert(canonical_text(groups) =~= head + seq![':', ':'] + tail);
    assert(side_groups(head) + zero_groups(5) + side_groups(tail) =~= groups);
}

/// The canonical text with `::` in it is a literal that denotes the address.
proof fn lemma_compressed_denotes_address(groups: Seq<u16>, start: int, len: int)
    requires
        groups.len() == 8,
        is_zero_run(groups, start, len),
        len >= 2,
    ensures
        is_ipv6_literal(
            groups_text(groups.take(start)) + "::"@ + groups_text(groups.skip(start + len)),
        ),
        literal_groups(
            groups_text(groups.take(start)) + "::"@ + groups_text(groups.skip(start + len)),
        ) == groups,
{
    reveal_strlit("::");
    let front = groups.take(start);
    let back = groups.skip(start + len);
    let head = groups_text(front);
    let tail = groups_text(back);
    lemma_groups_text_side(front, false);
    lemma_groups_text_side(back, true);
    lemma_sides_make_literal(head, tail);
    assert("::"@ =~= seq![':', ':']);
    assert(front + zero_groups(len as nat) + back =~= groups);
}

/// The canonical text of any address is an IPv6 address literal, and denotes
/// that address.
pub proof fn lemma_canonical_denotes_address(groups: Seq<u16>)
    requires
        groups.len() == 8,
    ensures
        is_ipv6_literal(canonical_text(groups)),
        literal_groups(canonical_text(groups)) == groups,
{
    if is_v4_mapped(groups) {
        lemma_mapped_denotes_address(groups);
    } else {
        lemma_longest_zero_run_exists(groups);
        let run = longest_zero_run(groups);
        if run.1 >= 2 {
            lemma_compressed_denotes_address(groups, run.0, run.1);
        } else {
            lemma_groups_text_is_run(groups, true);
            lemma_groups_text_value(groups);
        }
    }
}

/// Writes a group in hexadecimal, without leading zeros.
pub fn format_hex(v: u16) -> (out: String)
    ensures
        out@ == hex_text(v),
{
    let mut out = String::new();
    if v >= 0x1000 {
        out.append(digit_str((v / 4096) as u8));
    }
    if v >= 0x100 {
        out.append(digit_str((v / 256 % 16) as u8));
    }
    if v >= 0x10 {
        out.append(digit_str((v / 16 % 16) as u8));
    }
    out.append(digit_str((v % 16) as u8));
    assert(out@ =~= hex_text(v));
    out
}

/// Writes the groups `groups[lo..hi]` with colons between them.
pub fn format_groups(groups: &[u16; 8], lo: usize, hi: usize) -> (out: String)
    requires
        lo <= hi <= 8,
    ensures
        out@ == groups_text(groups@.subrange(lo as int, hi as int)),
{
    let mut out = String::new();
    let mut i: usize = lo;
    proof {
        assert(groups@.subrange(lo as int, lo as int).map_values(|g: u16| hex_text(g)) =~= Seq::<
            Seq<char>,
        >::empty());
    }
    while i < hi
        invariant
            lo <= i <= hi <= 8,
            out@ == groups_text(groups@.subrange(lo as int, i as int)),
        decreases hi - i,
    {
        let ghost before = groups@.subrange(lo as int, i as int).map_values(|g: u16| hex_text(g));
        let ghost after = groups@.subrange(lo as int, i + 1).map_values(|g: u16| hex_text(g));
        proof {
            assert(after.drop_last() =~= before);
            assert(after.last() == hex_text(groups@[i as int]));
        }
        if i > lo {
            proof {
                reveal_strlit(":");
            }
            out.append(":");
        }
        let group = format_hex(groups[i]);
        out.append(group.as_str());
        proof {
            if i == lo {
                assert(out@ =~= after[0]);
            } else {
                assert(out@ =~= join_fields(before, ':') + seq![':'] + after.last());
            }
        }
        i = i + 1;
    }
    out
}

/// Writes two groups as a dotted IPv4 address.
pub fn format_dotted(high: u16, low: u16) -> (out: String)
    ensures
        out@ == dotted_text(high, low),
{
    proof {
        reveal_strlit(".");
    }
    let a = format_decimal(high / 256);
    let b = format_decimal(high % 256);
    let c = format_decimal(low / 256);
    let d = format_decimal(low % 256);
    let mut out = String::new();
    out.append(a.as_str());
    out.append(".");
    out.append(b.as_str());
    out.append(".");
    out.append(c.as_str());
    out.append(".");
    out.append(d.as_str());
    proof {
        let parts = seq![a@, b@, c@, d@];
        assert(parts.drop_last() =~= seq![a@, b@, c@]);
        assert(parts.drop_last().drop_last() =~= seq![a@, b@]);
        assert(parts.drop_last().drop_last().drop_last() =~= seq![a@]);
        assert(join_fields(seq![a@], '.') == a@);
        assert(join_fields(seq![a@, b@], '.') =~= a@ + seq!['.'] + b@);
        assert(join_fields(seq![a@, b@, c@], '.') =~= a@ + seq!['.'] + b@ + seq!['.'] + c@);
        assert(out@ =~= join_fields(parts, '.'));
    }
    out
}

/// Finds the leftmost longest run of zero groups.
pub fn find_zero_run(groups: &[u16; 8]) -> (run: (usize, usize))
    ensures
        is_longest_zero_run(groups@, run.0 as int, run.1 as int),
{
    let mut best_start: usize = 0;
    let mut best_len: usize = 0;
    let mut cur_start: usize = 0;
    let mut cur_len: usize = 0;
    let mut i: usize = 0;
    while i < 8
        invariant
            i <= 8,
            groups@.len() == 8,
            cur_start + cur_len == i,
            is_zero_run(groups@, cur_start as int, cur_len as int),
            cur_start > 0 ==> groups@[cur_start - 1] != 0,
            is_zero_run(groups@, best_start as int, best_len as int),
            best_start + best_len <= i,
            cur_len <= best_len,
            forall|s: int, l: int| #[trigger] is_zero_run(groups@, s, l) && s + l <= i ==> l <= best_len,
            forall|s: int|
                best_len > 0 && #[trigger] is_zero_run(groups@, s, best_len as int) && s + best_len
                    <= i ==> best_start <= s,
        decreases 8 - i,
    {
        let ghost old_best_len = best_len;
        let ghost old_best_start = best_start;
        let ghost old_cur_start = cur_start;
        let ghost old_cur_len = cur_len;
        if groups[i] == 0 {
            cur_len = cur_len + 1;
            if cur_len > best_len {
                best_start = cur_start;
                best_len = cur_len;
            }
        } else {
            cur_start = i + 1;
            cur_len = 0;
        }
        proof {
            assert forall|s: int, l: int| #[trigger]
                is_zero_run(groups@, s, l) && s + l <= i + 1 implies l <= best_len by {
                if s + l == i + 1 && l > 0 {
                    if groups@[i as int] == 0 {
                        if s < old_cur_start {
                            assert(groups@[old_cur_start - 1] == 0);
                        }
                    } else {
                        assert(groups@[i as int] == 0);
                    }
                } else if l > 0 {
                    assert(is_zero_run(groups@, s, l) && s + l <= i);
                }
            }
            assert forall|s: int|
                best_len > 0 && #[trigger] is_zero_run(groups@, s, best_len as int) && s + best_len
                    <= i + 1 implies best_start <= s by {
                if best_len > old_best_len {
                    if s + best_len <= i {
                        assert(is_zero_run(groups@, s, best_len as int) && s + best_len <= i);
                    }
                } else {
                    if s + best_len == i + 1 {
                        if groups@[i as int] == 0 {
                            if s < old_cur_start {
                                assert(groups@[old_cur_start - 1] == 0);
                            }
                        } else {
                            assert(groups@[i as int] == 0);
                        }
                    }
                }
            }
        }
        i = i + 1;
    }
    proof {
        assert forall|s: int, l: int| #[trigger] is_zero_run(groups@, s, l) implies l <= best_len by {
            assert(s + l <= 8);
        }
    }
    (best_start, best_len)
}

/// Writes the address with the eight `groups` in its canonical text.
pub fn format_ipv6(groups: &[u16; 8]) -> (out: String)
    ensures
        out@ == canonical_text(groups@),
        is_ipv6_literal(out@),
        literal_groups(out@) == groups@,
{
    proof {
        lemma_canonical_denotes_address(groups@);
    }
    if groups[0] == 0 && groups[1] == 0 && groups[2] == 0 && groups[3] == 0 && groups[4] == 0
        && groups[5] == 0xffff {
        let mut out = String::from_str("::ffff:");
        let tail = format_dotted(groups[6], groups[7]);
        out.append(tail.as_str());
        return out;
    }
    let (start, len) = find_zero_run(groups);
    proof {
        let run = longest_zero_run(groups@);
        lemma_longest_zero_run_unique(groups@, start as int, len as int, run.0, run.1);
        assert(groups@.take(start as int) =~= groups@.subrange(0, start as int));
        assert(groups@.skip(start + len) =~= groups@.subrange(start + len, 8));
        assert(groups@.subrange(0, 8) =~= groups@);
    }
    if len >= 2 {
        let mut out = format_groups(groups, 0, start);
        let tail = format_groups(groups, start + len, 8);
        out.append("::");
        out.append(tail.as_str());
        out
    } else {
        format_groups(groups, 0, 8)
    }
}

} // verus!

//! Character sequences: splitting on a separator and trimming white space.

use vstd::prelude::*;
use vstd::string::*;

verus! {

/// The fields of `s` between occurrences of `sep`. A text with `n` separators
/// has `n + 1` fields, some of them possibly empty.
pub open spec fn split_fields(s: Seq<char>, sep: char) -> Seq<Seq<char>>
    decreases s.len(),
{
    if s.len() == 0 {
        seq![Seq::<char>::empty()]
    } else {
        let before = split_fields(s.drop_last(), sep);
        if s.last() == sep {
            before.push(Seq::<char>::empty())
        } else {
            before.drop_last().push(before.last().push(s.last()))
        }
    }
}

/// The fields joined again, with `sep` between neighbours.
pub open spec fn join_fields(fields: Seq<Seq<char>>, sep: char) -> Seq<char>
    decreases fields.len(),
{
    if fields.len() == 0 {
        Seq::<char>::empty()
    } else if fields.len() == 1 {
        fields[0]
    } else {
        join_fields(fields.drop_last(), sep) + seq![sep] + fields.last()
    }
}

/// Splitting always yields at least one field.
pub proof fn lemma_split_nonempty(s: Seq<char>, sep: char)
    ensures
        split_fields(s, sep).len() >= 1,
    decreases s.len(),
{
    if s.len() > 0 {
        lemma_split_nonempty(s.drop_last(), sep);
    }
}

/// The fields of a prefix are the fields of the whole text, except that the
/// last field of the prefix may go on in the whole text.
pub proof fn lemma_split_prefix(s: Seq<char>, n: int, sep: char)
    requires
        0 <= n <= s.len(),
    ensures
        1 <= split_fields(s.take(n), sep).len() <= split_fields(s, sep).len(),
        forall|j: int|
            0 <= j < split_fields(s.take(n), sep).len() - 1 ==> split_fields(s.take(n), sep)[j]
                == #[trigger] split_fields(s, sep)[j],
        split_fields(s.take(n), sep).last().is_prefix_of(
            split_fields(s, sep)[split_fields(s.take(n), sep).len() - 1],
        ),
    decreases s.len(),
{
    lemma_split_nonempty(s.take(n), sep);
    if n == s.len() {
        assert(s.take(n) =~= s);
    } else {
        let shorter = s.drop_last();
        assert(shorter.take(n) =~= s.take(n));
        lemma_split_prefix(shorter, n, sep);
        lemma_split_nonempty(shorter, sep);
    }
}

/// No field holds the separator.
pub proof fn lemma_split_fields_free(s: Seq<char>, sep: char)
    ensures
        forall|j: int, i: int|
            0 <= j < split_fields(s, sep).len() && 0 <= i < split_fields(s, sep)[j].len()
                ==> #[trigger] split_fields(s, sep)[j][i] != sep,
    decreases s.len(),
{
    if s.len() > 0 {
        lemma_split_fields_free(s.drop_last(), sep);
        lemma_split_nonempty(s.drop_last(), sep);
    }
}

/// A text without the separator is one field.
pub proof fn lemma_split_single(s: Seq<char>, sep: char)
    requires
        forall|i: int| 0 <= i < s.len() ==> s[i] != sep,
    ensures
        split_fields(s, sep) == seq![s],
    decreases s.len(),
{
    if s.len() == 0 {
        assert(s =~= Seq::<char>::empty());
    } else {
        lemma_split_single(s.drop_last(), sep);
        assert(s.drop_last().push(s.last()) =~= s);
        assert(split_fields(s, sep) =~= seq![s]);
    }
}

/// Splitting `a`, a separator and `b` gives the fields of `a` followed by
/// those of `b`.
pub proof fn lemma_split_concat(a: Seq<char>, b: Seq<char>, sep: char)
    ensures
        split_fields(a + seq![sep] + b, sep) == split_fields(a, sep) + split_fields(b, sep),
    decreases b.len(),
{
    let whole = a + seq![sep] + b;
    if b.len() == 0 {
        assert(whole.drop_last() =~= a);
        assert(split_fields(whole, sep) =~= split_fields(a, sep) + split_fields(b, sep));
    } else {
        lemma_split_concat(a, b.drop_last(), sep);
        lemma_split_nonempty(b.drop_last(), sep);
        assert(whole.drop_last() =~= a + seq![sep] + b.drop_last());
        assert(whole.last() == b.last());
        assert(split_fields(whole, sep) =~= split_fields(a, sep) + split_fields(b, sep));
    }
}

/// Splitting undoes joining, where no field holds the separator.
pub proof fn lemma_split_join(fields: Seq<Seq<char>>, sep: char)
    requires
        fields.len() >= 1,
        forall|j: int, i: int|
            0 <= j < fields.len() && 0 <= i < fields[j].len() ==> #[trigger] fields[j][i] != sep,
    ensures
        split_fields(join_fields(fields, sep), sep) == fields,
    decreases fields.len(),
{
    if fields.len() == 1 {
        lemma_split_single(fields[0], sep);
        assert(seq![fields[0]] =~= fields);
    } else {
        let front = fields.drop_last();
        lemma_split_join(front, sep);
        lemma_split_concat(join_fields(front, sep), fields.last(), sep);
        lemma_split_single(fields.last(), sep);
        assert(front + seq![fields.last()] =~= fields);
    }
}

/// Joining undoes splitting.
pub proof fn lemma_join_split(s: Seq<char>, sep: char)
    ensures
        join_fields(split_fields(s, sep), sep) == s,
    decreases s.len(),
{
    if s.len() == 0 {
        assert(s =~= Seq::<char>::empty());
    } else {
        let shorter = s.drop_last();
        let before = split_fields(shorter, sep);
        lemma_join_split(shorter, sep);
        lemma_split_nonempty(shorter, sep);
        let after = split_fields(s, sep);
        if s.last() == sep {
            assert(after.drop_last() =~= before);
            assert(join_fields(after, sep) =~= shorter + seq![sep]);
        } else if before.len() == 1 {
            assert(join_fields(after, sep) =~= shorter.push(s.last()));
        } else {
            assert(after.drop_last() =~= before.drop_last());
            assert(join_fields(after, sep) =~= join_fields(before.drop_last(), sep) + seq![sep]
                + before.last().push(s.last()));
            assert(join_fields(after, sep) =~= shorter.push(s.last()));
        }
        assert(shorter.push(s.last()) =~= s);
    }
}

/// A text that does not start with the separator starts its first field;
/// otherwise the first field is empty.
pub proof fn lemma_split_first_char(s: Seq<char>, sep: char)
    requires
        s.len() > 0,
    ensures
        s[0] == sep ==> split_fields(s, sep)[0].len() == 0,
        s[0] != sep ==> split_fields(s, sep)[0].len() > 0 && split_fields(s, sep)[0][0] == s[0],
{
    let p = s.take(1);
    assert(p.drop_last() =~= Seq::<char>::empty());
    assert(split_fields(p.drop_last(), sep) =~= seq![Seq::<char>::empty()]);
    assert(p.last() == s[0]);
    lemma_split_prefix(s, 1, sep);
    lemma_split_nonempty(s, sep);
    if s[0] == sep {
        assert(split_fields(p, sep) =~= seq![Seq::<char>::empty(), Seq::<char>::empty()]);
        assert(split_fields(p, sep)[0] == split_fields(s, sep)[0]);
    } else {
        assert(split_fields(p, sep) =~= seq![seq![s[0]]]);
        let head = split_fields(p, sep).last();
        let field = split_fields(s, sep)[0];
        assert(head =~= seq![s[0]]);
        assert(head.is_prefix_of(field));
        assert(head[0] == field.subrange(0, 1)[0]);
    }
}

/// A text that does not end with the separator ends its last field;
/// otherwise the last field is empty.
pub proof fn lemma_split_last_char(s: Seq<char>, sep: char)
    requires
        s.len() > 0,
    ensures
        split_fields(s, sep).len() >= 1,
        s.last() == sep ==> split_fields(s, sep).last().len() == 0,
        s.last() != sep ==> split_fields(s, sep).last().len() > 0 && split_fields(
            s,
            sep,
        ).last().last() == s.last(),
{
    lemma_split_nonempty(s.drop_last(), sep);
    lemma_split_nonempty(s, sep);
}

/// White space, as Unicode's `White_Space` property has it.
pub open spec fn is_space(c: char) -> bool {
    ||| '\u{9}' <= c && c <= '\u{d}'
    ||| c == ' '
    ||| c == '\u{85}'
    ||| c == '\u{a0}'
    ||| c == '\u{1680}'
    ||| '\u{2000}' <= c && c <= '\u{200a}'
    ||| c == '\u{2028}'
    ||| c == '\u{2029}'
    ||| c == '\u{202f}'
    ||| c == '\u{205f}'
    ||| c == '\u{3000}'
}

/// The number of white-space characters that `s` starts with.
pub open spec fn leading_spaces(s: Seq<char>) -> nat
    decreases s.len(),
{
    if s.len() > 0 && is_space(s[0]) {
        1 + leading_spaces(s.drop_first())
    } else {
        0
    }
}

/// The number of white-space characters that `s` ends with.
pub open spec fn trailing_spaces(s: Seq<char>) -> nat
    decreases s.len(),
{
    if s.len() > 0 && is_space(s.last()) {
        1 + trailing_spaces(s.drop_last())
    } else {
        0
    }
}

/// `s` without the white space at its two ends.
pub open spec fn trimmed(s: Seq<char>) -> Seq<char> {
    if leading_spaces(s) == s.len() {
        Seq::<char>::empty()
    } else {
        s.subrange(leading_spaces(s) as int, s.len() - trailing_spaces(s))
    }
}

/// Where the first `n` characters are white space and the next is not, `n`
/// is the number of leading spaces.
pub proof fn lemma_leading_spaces(s: Seq<char>, n: int)
    requires
        0 <= n <= s.len(),
        forall|j: int| 0 <= j < n ==> is_space(#[trigger] s[j]),
        n < s.len() ==> !is_space(s[n]),
    ensures
        leading_spaces(s) == n,
    decreases n,
{
    if n > 0 {
        let rest = s.drop_first();
        assert forall|j: int| 0 <= j < n - 1 implies is_space(#[trigger] rest[j]) by {
            assert(rest[j] == s[j + 1]);
        }
        lemma_leading_spaces(rest, n - 1);
    }
}

/// Where the last `n` characters are white space and the one before them is
/// not, `n` is the number of trailing spaces.
pub proof fn lemma_trailing_spaces(s: Seq<char>, n: int)
    requires
        0 <= n <= s.len(),
        forall|j: int| s.len() - n <= j < s.len() ==> is_space(#[trigger] s[j]),
        n < s.len() ==> !is_space(s[s.len() - n - 1]),
    ensures
        trailing_spaces(s) == n,
    decreases n,
{
    if n > 0 {
        let rest = s.drop_last();
        assert forall|j: int| rest.len() - (n - 1) <= j < rest.len() implies is_space(
            #[trigger] rest[j],
        ) by {
            assert(rest[j] == s[j]);
        }
        lemma_trailing_spaces(rest, n - 1);
    }
}

/// A text with no white space at its ends is its own trimmed form.
pub proof fn lemma_trimmed_is_identity(s: Seq<char>)
    requires
        s.len() > 0,
        !is_space(s[0]),
        !is_space(s.last()),
    ensures
        trimmed(s) == s,
{
    assert(s.subrange(0, s.len() as int) =~= s);
}

/// Tells whether `c` is white space.
pub fn space_char(c: char) -> (b: bool)
    ensures
        b == is_space(c),
{
    ('\u{9}' <= c && c <= '\u{d}') || c == ' ' || c == '\u{85}' || c == '\u{a0}' || c
        == '\u{1680}' || ('\u{2000}' <= c && c <= '\u{200a}') || c == '\u{2028}' || c
        == '\u{2029}' || c == '\u{202f}' || c == '\u{205f}' || c == '\u{3000}'
}

/// Copies `s` without the white space at its two ends.
pub fn trim(s: &str) -> (out: String)
    ensures
        out@ == trimmed(s@),
{
    let chars = to_chars(s);
    let len = chars.len();
    let mut lo: usize = 0;
    while lo < len && space_char(chars[lo])
        invariant
            lo <= len == chars.len(),
            forall|j: int| 0 <= j < lo ==> is_space(#[trigger] chars@[j]),
        decreases len - lo,
    {
        lo = lo + 1;
    }
    proof {
        lemma_leading_spaces(chars@, lo as int);
    }
    if lo == len {
        return String::new();
    }
    let mut hi: usize = len;
    while space_char(chars[hi - 1])
        invariant
            lo < hi <= len == chars.len(),
            !is_space(chars@[lo as int]),
            forall|j: int| hi <= j < len ==> is_space(#[trigger] chars@[j]),
        decreases hi,
    {
        hi = hi - 1;
    }
    proof {
        lemma_trailing_spaces(chars@, len - hi);
    }
    String::from_str(s.substring_char(lo, hi))
}

/// The lower-case hexadecimal digit of value `d`, for `d` below 16.
pub open spec fn hex_char(d: int) -> char {
    if d < 10 {
        (48 + d) as char
    } else {
        (87 + d) as char
    }
}

/// The decimal digit of value `d`, for `d` below 10.
pub open spec fn dec_char(d: int) -> char {
    (48 + d) as char
}

/// A number in decimal, without leading zeros.
pub open spec fn decimal_text(n: nat) -> Seq<char>
    decreases n,
{
    if n < 10 {
        seq![dec_char(n as int)]
    } else {
        decimal_text(n / 10).push(dec_char((n % 10) as int))
    }
}

/// One digit as a text.
pub fn digit_str(d: u8) -> (s: &'static str)
    requires
        d < 16,
    ensures
        s@ == seq![hex_char(d as int)],
        d < 10 ==> s@ == seq![dec_char(d as int)],
{
    proof {
        reveal_strlit("0");
        reveal_strlit("1");
        reveal_strlit("2");
        reveal_strlit("3");
        reveal_strlit("4");
        reveal_strlit("5");
        reveal_strlit("6");
        reveal_strlit("7");
        reveal_strlit("8");
        reveal_strlit("9");
        reveal_strlit("a");
        reveal_strlit("b");
        reveal_strlit("c");
        reveal_strlit("d");
        reveal_strlit("e");
        reveal_strlit("f");
    }
    let s = match d {
        0 => "0",
        1 => "1",
        2 => "2",
        3 => "3",
        4 => "4",
        5 => "5",
        6 => "6",
        7 => "7",
        8 => "8",
        9 => "9",
        10 => "a",
        11 => "b",
        12 => "c",
        13 => "d",
        14 => "e",
        _ => "f",
    };
    assert(s@ =~= seq![hex_char(d as int)]);
    s
}

/// Writes a number in decimal, without leading zeros.
pub fn format_decimal(n: u16) -> (out: String)
    ensures
        out@ == decimal_text(n as nat),
    decreases n,
{
    if n < 10 {
        String::from_str(digit_str(n as u8))
    } else {
        let mut out = format_decimal(n / 10);
        out.append(digit_str((n % 10) as u8));
        assert(out@ =~= decimal_text(n as nat));
        out
    }
}

/// The characters of `s`, one element each.
pub fn to_chars(s: &str) -> (chars: Vec<char>)
    ensures
        chars@ == s@,
{
    let mut chars: Vec<char> = Vec::new();
    for c in it: s.chars()
        invariant
            chars@ == it.seq().take(it.index() as int),
    {
        chars.push(c);
    }
    chars
}

} // verus!

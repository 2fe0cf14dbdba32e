//! Text helpers for the line-oriented, tab-separated manifest format:
//! splitting on a separator character, joining with a separator, and
//! decimal reading and writing of byte counts.

use vstd::prelude::*;

verus! {

/// The sequence does not contain the character.
pub open spec fn no_char(s: Seq<char>, c: char) -> bool {
    forall|i: int| 0 <= i < s.len() ==> s[i] != c
}

/// Split on a separator character.  The result always has one part
/// more than there are separators; an empty input gives one empty part.
/// A closing separator character opens a new empty part, any other
/// closing character extends the last part.
pub open spec fn spec_split(s: Seq<char>, sep: char) -> Seq<Seq<char>>
    decreases s.len(),
{
    if s.len() == 0 {
        seq![Seq::empty()]
    } else if s.last() == sep {
        spec_split(s.drop_last(), sep).push(Seq::empty())
    } else {
        let p = spec_split(s.drop_last(), sep);
        p.update(p.len() - 1, p.last().push(s.last()))
    }
}

/// A split has at least one part.
pub proof fn lemma_split_len(s: Seq<char>, sep: char)
    ensures
        spec_split(s, sep).len() >= 1,
    decreases s.len(),
{
    if s.len() == 0 {
    } else {
        lemma_split_len(s.drop_last(), sep);
    }
}

/// No part of a split contains the separator.
pub proof fn lemma_split_no_sep(s: Seq<char>, sep: char)
    ensures
        forall|k: int|
            0 <= k < spec_split(s, sep).len() ==> no_char(#[trigger] spec_split(s, sep)[k], sep),
    decreases s.len(),
{
    if s.len() == 0 {
    } else {
        lemma_split_no_sep(s.drop_last(), sep);
        lemma_split_len(s.drop_last(), sep);
        let p = spec_split(s.drop_last(), sep);
        if s.last() == sep {
        } else {
            assert(no_char(p.last().push(s.last()), sep));
        }
    }
}

/// A character that the text does not contain is in no part of its
/// split either.
pub proof fn lemma_split_parts_no_char(s: Seq<char>, sep: char, c: char)
    requires
        no_char(s, c),
    ensures
        forall|k: int|
            0 <= k < spec_split(s, sep).len() ==> no_char(#[trigger] spec_split(s, sep)[k], c),
    decreases s.len(),
{
    if s.len() == 0 {
    } else {
        assert(no_char(s.drop_last(), c));
        lemma_split_parts_no_char(s.drop_last(), sep, c);
        lemma_split_len(s.drop_last(), sep);
        let p = spec_split(s.drop_last(), sep);
        if s.last() == sep {
        } else {
            assert(no_char(p.last().push(s.last()), c));
        }
    }
}

/// Appending one character to the text either opens a new empty part
/// (the separator) or extends the last part (any other character).
pub proof fn lemma_split_push(s: Seq<char>, sep: char, c: char)
    ensures
        c == sep ==> spec_split(s.push(c), sep) =~~= spec_split(s, sep).push(Seq::empty()),
        c != sep ==> spec_split(s.push(c), sep) =~~= spec_split(s, sep).update(
            spec_split(s, sep).len() - 1,
            spec_split(s, sep).last().push(c),
        ),
{
    assert(s.push(c).last() == c);
    assert(s.push(c).drop_last() =~= s);
}

/// Splits a string on a separator character.
pub fn split_by(s: &str, sep: char) -> (r: Vec<String>)
    ensures
        r.deep_view() =~~= spec_split(s@, sep),
{
    let n = s.unicode_len();
    let mut parts: Vec<String> = Vec::new();
    let mut start: usize = 0;
    let mut i: usize = 0;
    while i < n
        invariant
            0 <= start <= i <= n,
            n == s@.len(),
            parts.deep_view().push(s@.subrange(start as int, i as int)) =~~= spec_split(
                s@.subrange(0, i as int),
                sep,
            ),
        decreases n - i,
    {
        let ghost prefix = s@.subrange(0, i as int);
        proof {
            lemma_split_push(prefix, sep, s@[i as int]);
            assert(s@.subrange(0, i as int + 1) =~= prefix.push(s@[i as int]));
            lemma_split_len(prefix, sep);
        }
        let c = s.get_char(i);
        if c == sep {
            let part = s.substring_char(start, i).to_owned();
            parts.push(part);
            start = i + 1;
            proof {
                assert(parts.deep_view().push(s@.subrange(start as int, i as int + 1))
                    =~~= spec_split(prefix, sep).push(Seq::empty()));
            }
        } else {
            proof {
                let p = spec_split(prefix, sep);
                assert(p.update(p.len() - 1, p.last().push(s@[i as int])) =~~= p.drop_last().push(
                    p.last().push(s@[i as int]),
                ));
                assert(parts.deep_view() =~~= p.drop_last());
                assert(s@.subrange(start as int, i as int + 1) =~= s@.subrange(
                    start as int,
                    i as int,
                ).push(s@[i as int]));
            }
        }
        i = i + 1;
    }
    let last = s.substring_char(start, n).to_owned();
    parts.push(last);
    proof {
        assert(s@.subrange(0, n as int) =~= s@);
    }
    parts
}

/// Join with a separator: the parts in order, the separator between
/// each neighbouring two.
pub open spec fn spec_join(parts: Seq<Seq<char>>, sep: Seq<char>) -> Seq<char>
    decreases parts.len(),
{
    if parts.len() == 0 {
        Seq::empty()
    } else if parts.len() == 1 {
        parts[0]
    } else {
        spec_join(parts.drop_last(), sep) + sep + parts.last()
    }
}

/// Joins strings with a separator.
pub fn join_with(parts: &Vec<String>, sep: &str) -> (r: String)
    ensures
        r@ =~~= spec_join(parts.deep_view(), sep@),
{
    let mut acc = String::new();
    let mut i: usize = 0;
    while i < parts.len()
        invariant
            0 <= i <= parts.len(),
            acc@ =~~= spec_join(parts.deep_view().subrange(0, i as int), sep@),
        decreases parts.len() - i,
    {
        if i > 0 {
            acc.append(sep);
        }
        acc.append(parts[i].as_str());
        proof {
            let dv = parts.deep_view();
            assert(dv.subrange(0, i as int + 1).drop_last() =~= dv.subrange(0, i as int));
            assert(dv.subrange(0, i as int + 1).last() == dv[i as int]);
        }
        i = i + 1;
    }
    proof {
        assert(parts.deep_view().subrange(0, parts.deep_view().len() as int) =~= parts.deep_view());
    }
    acc
}

/// Character of one decimal digit.
pub open spec fn char_of_digit(d: int) -> char {
    if d == 0 {
        '0'
    } else if d == 1 {
        '1'
    } else if d == 2 {
        '2'
    } else if d == 3 {
        '3'
    } else if d == 4 {
        '4'
    } else if d == 5 {
        '5'
    } else if d == 6 {
        '6'
    } else if d == 7 {
        '7'
    } else if d == 8 {
        '8'
    } else {
        '9'
    }
}

/// Canonical decimal digits of a non-negative number: no sign, no
/// leading zero except for the number zero itself.
pub open spec fn dec_digits(n: int) -> Seq<char>
    decreases n,
{
    if n < 10 {
        seq![char_of_digit(n)]
    } else {
        dec_digits(n / 10) + seq![char_of_digit(n % 10)]
    }
}

/// Value of a sequence of decimal digit characters.
pub open spec fn dec_val(s: Seq<char>) -> int
    decreases s.len(),
{
    if s.len() == 0 {
        0
    } else {
        dec_val(s.drop_last()) * 10 + crate::timestamp::digit_val(s.last())
    }
}

/// A canonical decimal byte count: all digits, not empty, no leading
/// zero except for `0` itself, and at most nineteen digits so that the
/// value always fits in 64 bits.
pub open spec fn valid_size(s: Seq<char>) -> bool {
    &&& 1 <= s.len() <= 19
    &&& forall|i: int| 0 <= i < s.len() ==> crate::timestamp::is_digit(s[i])
    &&& (s[0] != '0' || s.len() == 1)
}

/// Ten to a non-negative power.
pub open spec fn pow10(n: int) -> int
    decreases n,
{
    if n <= 0 {
        1
    } else {
        10 * pow10(n - 1)
    }
}

/// A digit sequence is worth less than ten to its length.
pub proof fn lemma_dec_val_bound(s: Seq<char>)
    requires
        forall|i: int| 0 <= i < s.len() ==> crate::timestamp::is_digit(s[i]),
    ensures
        0 <= dec_val(s) < pow10(s.len() as int),
    decreases s.len(),
{
    if s.len() == 0 {
    } else {
        lemma_dec_val_bound(s.drop_last());
    }
}

/// Nineteen digits stay below two to the sixty-fourth.
pub proof fn lemma_pow10_19_bound()
    ensures
        pow10(19) < 0x10000000000000000,
{
    reveal_with_fuel(pow10, 21);
}

/// The value of ten to the nineteenth.
pub proof fn lemma_pow10_19_value()
    ensures
        pow10(19) == 10_000_000_000_000_000_000,
{
    reveal_with_fuel(pow10, 21);
}

/// The single character of one decimal digit.
fn digit_str(d: u8) -> (r: &'static str)
    requires
        d < 10,
    ensures
        r@ =~= seq![char_of_digit(d as int)],
{
    proof {
        reveal_strlit("0");
        reveal_strlit("1");
        reveal_strlit("2");
        reveal_strlit("3");
        reveal_strlit("4");
        reveal_strlit("5");
        reveal_strlit("6");
        reveal_strlit("7");
        reveal_strlit("8");
        reveal_strlit("9");
    }
    match d {
        0 => "0",
        1 => "1",
        2 => "2",
        3 => "3",
        4 => "4",
        5 => "5",
        6 => "6",
        7 => "7",
        8 => "8",
        _ => "9",
    }
}

/// Writes a number as its canonical decimal digits.
pub fn u64_to_string(n: u64) -> (r: String)
    ensures
        r@ =~~= dec_digits(n as int),
    decreases n,
{
    if n < 10 {
        digit_str(n as u8).to_owned()
    } else {
        let mut s = u64_to_string(n / 10);
        s.append(digit_str((n % 10) as u8));
        s
    }
}

/// Reads a canonical decimal byte count.
///
/// Returns the value exactly when the text is a canonical decimal
/// count of at most nineteen digits, and `None` on any other text.
pub fn parse_u64(s: &str) -> (r: Option<u64>)
    ensures
        r is Some <==> valid_size(s@),
        r is Some ==> r->0 as int == dec_val(s@),
{
    let n = s.unicode_len();
    if n == 0 || n > 19 {
        return None;
    }
    if n > 1 && s.get_char(0) == '0' {
        return None;
    }
    let mut acc: u64 = 0;
    let mut i: usize = 0;
    while i < n
        invariant
            0 <= i <= n,
            1 <= n <= 19,
            n == s@.len(),
            forall|k: int| 0 <= k < i ==> crate::timestamp::is_digit(s@[k]),
            acc as int == dec_val(s@.subrange(0, i as int)),
            (acc as int) < pow10(i as int),
        decreases n - i,
    {
        let c = s.get_char(i);
        let v = c as u32;
        if !(48 <= v && v <= 57) {
            return None;
        }
        proof {
            assert(s@.subrange(0, i as int + 1).drop_last() =~= s@.subrange(0, i as int));
            assert(s@.subrange(0, i as int + 1).last() == s@[i as int]);
            lemma_pow10_19_bound();
            lemma_pow10_monotonic(i as int + 1, 19);
            lemma_dec_val_bound(s@.subrange(0, i as int + 1));
        }
        acc = acc * 10 + (v - 48) as u64;
        i = i + 1;
    }
    proof {
        assert(s@.subrange(0, n as int) =~= s@);
    }
    Some(acc)
}

/// Ten-to-the-power is monotonic in the exponent.
pub proof fn lemma_pow10_monotonic(a: int, b: int)
    requires
        a <= b,
    ensures
        pow10(a) <= pow10(b),
    decreases b - a,
{
    if a < b {
        lemma_pow10_monotonic(a, b - 1);
        lemma_pow10_positive(b - 1);
    }
}

/// Ten-to-the-power is positive.
pub proof fn lemma_pow10_positive(n: int)
    ensures
        pow10(n) >= 1,
    decreases n,
{
    if n > 0 {
        lemma_pow10_positive(n - 1);
    }
}

/// Writing a number and reading the digits back is the identity.
pub proof fn lemma_dec_round_trip(n: int)
    requires
        n >= 0,
    ensures
        dec_val(dec_digits(n)) == n,
        forall|i: int|
            0 <= i < dec_digits(n).len() ==> crate::timestamp::is_digit(#[trigger] dec_digits(n)[i]),
        dec_digits(n).len() >= 1,
        dec_digits(n)[0] != '0' || dec_digits(n).len() == 1,
    decreases n,
{
    if n < 10 {
        assert(dec_digits(n) =~= seq![char_of_digit(n)]);
        assert(dec_digits(n).drop_last() =~= Seq::<char>::empty());
        assert(dec_val(Seq::<char>::empty()) == 0);
        assert(crate::timestamp::digit_val(char_of_digit(n)) == n);
        assert(dec_val(dec_digits(n)) == n);
    } else {
        lemma_dec_round_trip(n / 10);
        assert(dec_digits(n).drop_last() =~= dec_digits(n / 10));
        assert(dec_digits(n).last() == char_of_digit(n % 10));
        assert(crate::timestamp::digit_val(char_of_digit(n % 10)) == n % 10);
        assert(dec_val(dec_digits(n)) == dec_val(dec_digits(n / 10)) * 10 + n % 10);
        assert(dec_digits(n)[0] == dec_digits(n / 10)[0]);
        if n / 10 < 10 {
            assert(dec_digits(n / 10) =~= seq![char_of_digit(n / 10)]);
            assert(n / 10 >= 1);
            assert(char_of_digit(n / 10) != '0');
        } else {
            assert(dec_digits(n / 10).len() == dec_digits(n / 10 / 10).len() + 1 >= 2);
        }
        assert(dec_digits(n / 10)[0] != '0');
    }
}

} // verus!

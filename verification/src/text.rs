//! Text as sequences of characters: splitting at a separator and decimal numbers.

use vstd::prelude::*;
use vstd::std_specs::iter::IteratorSpec;

verus! {

/// The fields of `s`: the stretches between the occurrences of `sep`.
/// A text without `sep` is one field; `n` separators make `n + 1` fields.
pub open spec fn split(s: Seq<char>, sep: char) -> Seq<Seq<char>>
    decreases s.len(),
{
    if s.len() == 0 {
        seq![Seq::empty()]
    } else {
        let before = split(s.drop_last(), sep);
        if s.last() == sep {
            before.push(Seq::empty())
        } else {
            before.drop_last().push(before.last().push(s.last()))
        }
    }
}

/// The fields in a row with `sep` between each two.
pub open spec fn join(fields: Seq<Seq<char>>, sep: char) -> Seq<char>
    decreases fields.len(),
{
    if fields.len() == 0 {
        Seq::empty()
    } else if fields.len() == 1 {
        fields[0]
    } else {
        join(fields.drop_last(), sep).push(sep) + fields.last()
    }
}

/// The texts that a vector of vectors holds.
pub open spec fn texts(v: Seq<Vec<char>>) -> Seq<Seq<char>> {
    Seq::new(v.len(), |i: int| v[i]@)
}

pub open spec fn is_digit(c: char) -> bool {
    '0' <= c <= '9'
}

/// The number that a digit stands for.
pub open spec fn digit_value(c: char) -> nat {
    (c as int - '0' as int) as nat
}

/// The digit that stands for a number below ten.
pub open spec fn digit_char(d: nat) -> char {
    (d + '0' as int) as char
}

pub open spec fn all_digits(s: Seq<char>) -> bool {
    forall|i: int| 0 <= i < s.len() ==> is_digit(#[trigger] s[i])
}

/// The number that a row of digits stands for in base ten.
pub open spec fn digits_value(s: Seq<char>) -> nat
    decreases s.len(),
{
    if s.len() == 0 {
        0
    } else {
        digits_value(s.drop_last()) * 10 + digit_value(s.last())
    }
}

/// A number in base ten, without leading zeros.
pub open spec fn decimal(n: nat) -> Seq<char>
    decreases n,
{
    if n < 10 {
        seq![digit_char(n)]
    } else {
        decimal(n / 10).push(digit_char(n % 10))
    }
}

/// The number that a text stands for: an optional `+`, then one or more
/// digits that make a number within `u64`. Any other text stands for none.
pub open spec fn parse_decimal(s: Seq<char>) -> Option<u64> {
    let digits = if s.len() > 0 && s[0] == '+' {
        s.drop_first()
    } else {
        s
    };
    if digits.len() > 0 && all_digits(digits) && digits_value(digits) <= u64::MAX {
        Some(digits_value(digits) as u64)
    } else {
        None
    }
}

/// Joining the fields of a text gives the text back.
pub proof fn lemma_join_split(s: Seq<char>, sep: char)
    ensures
        join(split(s, sep), sep) == s,
    decreases s.len(),
{
    if s.len() > 0 {
        let before = split(s.drop_last(), sep);
        lemma_join_split(s.drop_last(), sep);
        if s.last() == sep {
            let all = before.push(Seq::empty());
            assert(all.drop_last() =~= before);
        } else {
            let all = before.drop_last().push(before.last().push(s.last()));
            if before.len() != 1 {
                assert(all.drop_last() =~= before.drop_last());
                assert(join(all, sep) =~= join(before, sep).push(s.last()));
            }
        }
    }
}

/// Splitting a text that ends with a field free of the separator: the
/// fields of what stands before the last separator, and that field.
pub proof fn lemma_split_append(head: Seq<char>, sep: char, field: Seq<char>)
    requires
        !field.contains(sep),
    ensures
        split(head.push(sep) + field, sep) == split(head, sep).push(field),
    decreases field.len(),
{
    let whole = head.push(sep) + field;
    if field.len() == 0 {
        assert(field =~= Seq::empty());
        assert(whole.drop_last() =~= head);
    } else {
        let shorter = field.drop_last();
        lemma_split_append(head, sep, shorter);
        assert(whole.drop_last() =~= head.push(sep) + shorter);
        assert(shorter.push(field.last()) =~= field);
    }
}

/// Splitting the join of fields that are free of the separator gives the
/// fields back.
pub proof fn lemma_split_join(fields: Seq<Seq<char>>, sep: char)
    requires
        fields.len() >= 1,
        forall|i: int| 0 <= i < fields.len() ==> !(#[trigger] fields[i]).contains(sep),
    ensures
        split(join(fields, sep), sep) == fields,
    decreases fields.len(),
{
    if fields.len() == 1 {
        lemma_split_single(fields[0], sep);
    } else {
        let front = fields.drop_last();
        assert forall|i: int| 0 <= i < front.len() implies !(#[trigger] front[i]).contains(
            sep,
        ) by {}
        lemma_split_join(front, sep);
        lemma_split_append(join(front, sep), sep, fields.last());
    }
}

/// A text free of the separator is its own single field.
pub proof fn lemma_split_single(s: Seq<char>, sep: char)
    requires
        !s.contains(sep),
    ensures
        split(s, sep) == seq![s],
    decreases s.len(),
{
    if s.len() == 0 {
        assert(s =~= Seq::empty());
    } else {
        let shorter = s.drop_last();
        lemma_split_single(shorter, sep);
        assert(seq![shorter].drop_last().push(seq![shorter].last().push(s.last())) =~= seq![s]) by {
            assert(shorter.push(s.last()) =~= s);
        }
    }
}

/// The value of a row of digits is at least the value of each of its prefixes.
pub proof fn lemma_digits_value_grows(s: Seq<char>, n: int)
    requires
        0 <= n <= s.len(),
    ensures
        digits_value(s.take(n)) <= digits_value(s),
    decreases s.len() - n,
{
    if n == s.len() {
        assert(s.take(n) =~= s);
    } else {
        lemma_digits_value_grows(s, n + 1);
        assert(s.take(n + 1).drop_last() =~= s.take(n));
    }
}

/// A number written in base ten is a row of digits that does not start
/// with a zero, unless it is the single digit zero.
pub proof fn lemma_decimal_shape(n: nat)
    ensures
        decimal(n).len() >= 1,
        all_digits(decimal(n)),
        decimal(n).len() > 1 ==> decimal(n)[0] != '0',
        n > 0 ==> decimal(n)[0] != '0',
    decreases n,
{
    if n >= 10 {
        lemma_decimal_shape(n / 10);
    }
}

/// Reading a number written in base ten gives the number back.
pub proof fn lemma_decimal_value(n: nat)
    ensures
        digits_value(decimal(n)) == n,
    decreases n,
{
    if n < 10 {
        assert(digits_value(decimal(n).drop_last()) == 0);
    } else {
        lemma_decimal_value(n / 10);
        assert(decimal(n).drop_last() =~= decimal(n / 10));
    }
}

/// A number within `u64` written in base ten parses to itself.
pub proof fn lemma_parse_decimal(n: u64)
    ensures
        parse_decimal(decimal(n as nat)) == Some(n),
{
    lemma_decimal_shape(n as nat);
    lemma_decimal_value(n as nat);
}

/// A row of digits without a leading zero is the base ten form of its value.
pub proof fn lemma_decimal_of_value(s: Seq<char>)
    requires
        s.len() >= 1,
        all_digits(s),
        s.len() > 1 ==> s[0] != '0',
    ensures
        decimal(digits_value(s)) == s,
    decreases s.len(),
{
    let front = s.drop_last();
    if s.len() == 1 {
        assert(digits_value(front) == 0);
    } else {
        lemma_decimal_of_value(front);
    }
}

/// The characters of a string, in a vector.
pub(crate) fn chars_of(s: &str) -> (r: Vec<char>)
    ensures
        r@ == s@,
{
    broadcast use vstd::string::group_string_axioms;

    let mut out: Vec<char> = Vec::new();
    let mut rest = s.chars();
    loop
        invariant
            out@ + rest.remaining() == s@,
            rest.decrease() is Some,
        ensures
            out@ == s@,
        decreases rest.decrease()->0,
    {
        match rest.next() {
            Some(c) => {
                out.push(c);
            },
            None => {
                break ;
            },
        }
    }
    out
}

/// Splits a text at every occurrence of `sep`.
pub(crate) fn split_chars(s: &Vec<char>, sep: char) -> (r: Vec<Vec<char>>)
    ensures
        texts(r@) == split(s@, sep),
{
    let mut fields: Vec<Vec<char>> = Vec::new();
    let mut field: Vec<char> = Vec::new();
    let mut i: usize = 0;
    while i < s.len()
        invariant
            i <= s@.len(),
            texts(fields@).push(field@) == split(s@.take(i as int), sep),
        decreases s@.len() - i,
    {
        let c = s[i];
        assert(s@.take(i + 1).drop_last() =~= s@.take(i as int));
        if c == sep {
            fields.push(field);
            field = Vec::new();
        } else {
            field.push(c);
        }
        i = i + 1;
    }
    assert(s@.take(s@.len() as int) =~= s@);
    fields.push(field);
    fields
}

/// Reads a number: an optional `+`, then digits.
pub(crate) fn parse_u64(s: &Vec<char>) -> (r: Option<u64>)
    ensures
        r == parse_decimal(s@),
{
    let start: usize = if s.len() > 0 && s[0] == '+' {
        1
    } else {
        0
    };
    let ghost digits = s@.subrange(start as int, s@.len() as int);
    assert(digits =~= if s@.len() > 0 && s@[0] == '+' {
        s@.drop_first()
    } else {
        s@
    });
    if s.len() == start {
        return None;
    }
    let mut value: u64 = 0;
    let mut i: usize = start;
    while i < s.len()
        invariant
            start <= i <= s@.len(),
            digits == s@.subrange(start as int, s@.len() as int),
            digits == (if s@.len() > 0 && s@[0] == '+' {
                s@.drop_first()
            } else {
                s@
            }),
            all_digits(digits.take(i - start)),
            value == digits_value(digits.take(i - start)),
        decreases s@.len() - i,
    {
        let c = s[i];
        let ghost seen = digits.take(i - start);
        let ghost more = digits.take(i - start + 1);
        assert(more.drop_last() =~= seen);
        assert(more.last() == c);
        if !('0' <= c && c <= '9') {
            return None;
        }
        let d: u64 = (c as u32 - '0' as u32) as u64;
        if value > (u64::MAX - d) / 10 {
            proof {
                lemma_digits_value_grows(digits, i - start + 1);
            }
            return None;
        }
        value = value * 10 + d;
        assert forall|j: int| 0 <= j < more.len() implies is_digit(#[trigger] more[j]) by {
            assert(j < seen.len() ==> more[j] == seen[j]);
        }
        i = i + 1;
    }
    assert(digits.take(digits.len() as int) =~= digits);
    Some(value)
}

/// Appends a number in base ten.
pub(crate) fn push_decimal(out: &mut Vec<char>, n: u64)
    ensures
        final(out)@ == old(out)@ + decimal(n as nat),
    decreases n,
{
    if n >= 10 {
        push_decimal(out, n / 10);
    }
    let digit: char = ((n % 10) as u8 + '0' as u8) as char;
    out.push(digit);
}

} // verus!

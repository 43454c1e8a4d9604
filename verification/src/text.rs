//! Reading the puzzle inputs: decimal integers, and text cut into fields
//! at a separator.
use vstd::prelude::*;

verus! {

/// Whether `c` is one of the ten decimal digits.
pub open spec fn is_digit(c: char) -> bool {
    '0' <= c <= '9'
}

/// Whether `s` holds decimal digits only.
pub open spec fn all_digits(s: Seq<char>) -> bool {
    forall|i: int| 0 <= i < s.len() ==> is_digit(#[trigger] s[i])
}

/// The number that a sequence of decimal digits writes.
pub open spec fn decimal_value(digits: Seq<char>) -> int
    decreases digits.len(),
{
    if digits.len() == 0 {
        0
    } else {
        10 * decimal_value(digits.drop_last()) + (digits.last() as int - '0' as int)
    }
}

/// The integer that `s` writes: one or more decimal digits, with `+` or
/// `-` before them or without a sign. Anything else writes none.
pub open spec fn integer_of(s: Seq<char>) -> Option<int> {
    if s.len() > 0 && (s[0] == '+' || s[0] == '-') {
        if s.len() > 1 && all_digits(s.skip(1)) {
            Some(
                if s[0] == '-' {
                    -decimal_value(s.skip(1))
                } else {
                    decimal_value(s.skip(1))
                },
            )
        } else {
            None
        }
    } else if s.len() > 0 && all_digits(s) {
        Some(decimal_value(s))
    } else {
        None
    }
}

/// The `i32` that `s` writes, if it writes an integer that is one.
pub open spec fn i32_of(s: Seq<char>) -> Option<i32> {
    match integer_of(s) {
        Some(value) => if i32::MIN <= value <= i32::MAX {
            Some(value as i32)
        } else {
            None
        },
        None => None,
    }
}

/// The number that digits write is not negative, and no smaller than the
/// number that the first `count` of them write.
pub proof fn lemma_decimal_grows(digits: Seq<char>, count: int)
    requires
        all_digits(digits),
        0 <= count <= digits.len(),
    ensures
        0 <= decimal_value(digits.take(count)) <= decimal_value(digits),
    decreases digits.len() - count,
{
    if count == digits.len() {
        assert(digits.take(count) =~= digits);
        lemma_decimal_not_negative(digits);
    } else {
        lemma_decimal_grows(digits, count + 1);
        assert(digits.take(count + 1).drop_last() =~= digits.take(count));
        assert(is_digit(digits[count]));
        assert(digits.take(count + 1).last() == digits[count]);
        lemma_decimal_not_negative(digits.take(count));
    }
}

/// The number that digits write is not negative.
pub proof fn lemma_decimal_not_negative(digits: Seq<char>)
    requires
        all_digits(digits),
    ensures
        0 <= decimal_value(digits),
    decreases digits.len(),
{
    if digits.len() > 0 {
        assert(is_digit(digits.last()));
        lemma_decimal_not_negative(digits.drop_last());
    }
}

/// Reads the characters of `text` from `from` up to `to` as an `i32`.
pub fn parse_i32(text: &str, from: usize, to: usize) -> (result: Option<i32>)
    requires
        from <= to <= text@.len(),
    ensures
        result == i32_of(text@.subrange(from as int, to as int)),
{
    let ghost s = text@.subrange(from as int, to as int);
    if from == to {
        return None;
    }
    let first: char = text.get_char(from);
    assert(first == s[0]);
    let signed: bool = first == '+' || first == '-';
    let negative: bool = first == '-';
    let start: usize = if signed {
        from + 1
    } else {
        from
    };
    if start == to {
        return None;
    }
    let ghost digits = text@.subrange(start as int, to as int);
    assert(digits =~= if signed {
        s.skip(1)
    } else {
        s
    });
    let mut magnitude: i64 = 0;
    let mut i: usize = start;
    while i < to
        invariant
            start <= i <= to <= text@.len(),
            s == text@.subrange(from as int, to as int),
            s.len() > 0,
            signed == (s[0] == '+' || s[0] == '-'),
            negative == (s[0] == '-'),
            digits == text@.subrange(start as int, to as int),
            digits == if signed {
                s.skip(1)
            } else {
                s
            },
            all_digits(digits.take(i - start)),
            magnitude == decimal_value(digits.take(i - start)),
            0 <= magnitude <= 2147483648,
        decreases to - i,
    {
        let c: char = text.get_char(i);
        assert(c == digits[i - start]);
        if !(c >= '0' && c <= '9') {
            assert(!is_digit(digits[i - start]));
            return None;
        }
        let digit: i64 = (c as u32 - '0' as u32) as i64;
        proof {
            assert(digits.take(i + 1 - start).drop_last() =~= digits.take(i - start));
            assert(digits.take(i + 1 - start).last() == c);
            if all_digits(digits) {
                lemma_decimal_grows(digits, i + 1 - start);
            }
        }
        magnitude = magnitude * 10 + digit;
        if magnitude > 2147483648 {
            return None;
        }
        i += 1;
    }
    assert(digits.take(to - start) =~= digits);
    if negative {
        Some((0 - magnitude) as i32)
    } else if magnitude <= 2147483647 {
        Some(magnitude as i32)
    } else {
        None
    }
}

/// How many characters of `s` come before its first `separator`; all of
/// them where it holds none.
pub open spec fn first_cut(s: Seq<char>, separator: char) -> nat
    decreases s.len(),
{
    if s.len() == 0 || s[0] == separator {
        0
    } else {
        1 + first_cut(s.skip(1), separator)
    }
}

/// The fields of `s`: what stands before the first `separator`, between
/// each two that follow one another, and after the last. Text without a
/// separator is one field, the empty text too.
pub open spec fn fields(s: Seq<char>, separator: char) -> Seq<Seq<char>>
    decreases s.len(),
{
    let cut = first_cut(s, separator);
    if cut >= s.len() {
        seq![s]
    } else {
        seq![s.take(cut as int)] + fields(s.skip(cut as int + 1), separator)
    }
}

/// The first cut is where the first separator stands.
pub proof fn lemma_first_cut(s: Seq<char>, separator: char, cut: int)
    requires
        0 <= cut <= s.len(),
        forall|i: int| 0 <= i < cut ==> s[i] != separator,
        cut == s.len() || s[cut] == separator,
    ensures
        first_cut(s, separator) == cut,
    decreases cut,
{
    if cut > 0 {
        assert forall|i: int| 0 <= i < cut - 1 implies s.skip(1)[i] != separator by {
            assert(s.skip(1)[i] == s[i + 1]);
        }
        lemma_first_cut(s.skip(1), separator, cut - 1);
    }
}

/// Whether `ranges` are the places of the fields in `s`, one by one.
pub open spec fn ranges_of_fields(
    s: Seq<char>,
    ranges: Seq<(usize, usize)>,
    found: Seq<Seq<char>>,
) -> bool {
    &&& ranges.len() == found.len()
    &&& forall|k: int|
        0 <= k < ranges.len() ==> {
            &&& (#[trigger] ranges[k]).0 <= ranges[k].1 <= s.len()
            &&& s.subrange(ranges[k].0 as int, ranges[k].1 as int) == found[k]
        }
}

/// Cuts `text` at each `separator`: for each field, where it begins and
/// where it ends, counted in characters.
pub fn split_ranges(text: &str, separator: char) -> (ranges: Vec<(usize, usize)>)
    ensures
        ranges_of_fields(text@, ranges@, fields(text@, separator)),
{
    let count: usize = text.unicode_len();
    let mut ranges: Vec<(usize, usize)> = Vec::new();
    let ghost mut found: Seq<Seq<char>> = Seq::empty();
    let mut start: usize = 0;
    let mut i: usize = 0;
    assert(text@.skip(0) =~= text@);
    while i < count
        invariant
            start <= i <= count == text@.len(),
            forall|j: int| start <= j < i ==> text@[j] != separator,
            ranges_of_fields(text@, ranges@, found),
            fields(text@, separator) == found + fields(text@.skip(start as int), separator),
        decreases count - i,
    {
        if text.get_char(i) == separator {
            proof {
                let rest = text@.skip(start as int);
                lemma_first_cut(rest, separator, i - start);
                assert(rest.take(i - start) =~= text@.subrange(start as int, i as int));
                assert(rest.skip(i - start + 1) =~= text@.skip(i + 1));
                found = found.push(text@.subrange(start as int, i as int));
                assert(found + fields(text@.skip(i + 1), separator) =~= found.drop_last() + fields(
                    rest,
                    separator,
                ));
            }
            ranges.push((start, i));
            start = i + 1;
        }
        i += 1;
    }
    proof {
        let rest = text@.skip(start as int);
        lemma_first_cut(rest, separator, count - start);
        assert(rest =~= text@.subrange(start as int, count as int));
        found = found.push(rest);
    }
    ranges.push((start, count));
    ranges
}

/// The `i32`s that the fields of `s` write, if each of them writes one.
pub open spec fn i32_list_of(s: Seq<char>, separator: char) -> Option<Seq<i32>> {
    let found = fields(s, separator);
    if forall|k: int| 0 <= k < found.len() ==> i32_of(#[trigger] found[k]) is Some {
        Some(Seq::new(found.len(), |k: int| i32_of(found[k]).unwrap()))
    } else {
        None
    }
}

/// Reads `text` as `i32`s with `separator` between them. One field that
/// writes no `i32` fails the whole.
pub fn parse_i32_list(text: &str, separator: char) -> (result: Option<Vec<i32>>)
    ensures
        match (result, i32_list_of(text@, separator)) {
            (Some(values), Some(expected)) => values@ == expected,
            (None, None) => true,
            _ => false,
        },
{
    let ranges = split_ranges(text, separator);
    let ghost found = fields(text@, separator);
    let mut values: Vec<i32> = Vec::new();
    let mut k: usize = 0;
    while k < ranges.len()
        invariant
            k <= ranges@.len(),
            found == fields(text@, separator),
            ranges_of_fields(text@, ranges@, found),
            values@.len() == k,
            forall|j: int| 0 <= j < k ==> i32_of(#[trigger] found[j]) == Some(values@[j]),
        decreases ranges@.len() - k,
    {
        let range: (usize, usize) = ranges[k];
        match parse_i32(text, range.0, range.1) {
            Some(value) => {
                values.push(value);
            },
            None => {
                assert(i32_of(found[k as int]) is None);
                return None;
            },
        }
        k += 1;
    }
    assert(values@ =~= Seq::new(found.len(), |j: int| i32_of(found[j]).unwrap()));
    Some(values)
}

/// A field without the carriage return at its end, if it has one there.
pub open spec fn without_return(field: Seq<char>) -> Seq<char> {
    if field.len() > 0 && field.last() == '\r' {
        field.drop_last()
    } else {
        field
    }
}

/// The lines of `s`. A line ends at a line feed, or at a carriage return
/// and a line feed; neither belongs to the line. What follows the last
/// line feed is a line as it stands, unless it is empty.
pub open spec fn lines_of(s: Seq<char>) -> Seq<Seq<char>> {
    let found = fields(s, '\n');
    let ended = Seq::new((found.len() - 1) as nat, |k: int| without_return(found[k]));
    if found.last().len() == 0 {
        ended
    } else {
        ended.push(found.last())
    }
}

/// There is always a field.
pub proof fn lemma_fields_not_empty(s: Seq<char>, separator: char)
    ensures
        fields(s, separator).len() >= 1,
    decreases s.len(),
{
    let cut = first_cut(s, separator);
    if cut < s.len() {
        lemma_fields_not_empty(s.skip(cut as int + 1), separator);
    }
}

/// Cuts `text` into its lines: for each line, where it begins and where
/// it ends, counted in characters.
pub fn line_ranges(text: &str) -> (ranges: Vec<(usize, usize)>)
    ensures
        ranges_of_fields(text@, ranges@, lines_of(text@)),
{
    let found_ranges = split_ranges(text, '\n');
    let ghost found = fields(text@, '\n');
    proof {
        lemma_fields_not_empty(text@, '\n');
    }
    let mut ranges: Vec<(usize, usize)> = Vec::new();
    let last: usize = found_ranges.len() - 1;
    let mut k: usize = 0;
    while k < last
        invariant
            k <= last == found.len() - 1,
            found == fields(text@, '\n'),
            ranges_of_fields(text@, found_ranges@, found),
            ranges_of_fields(
                text@,
                ranges@,
                Seq::new(k as nat, |j: int| without_return(found[j])),
            ),
        decreases last - k,
    {
        let range: (usize, usize) = found_ranges[k];
        let ghost field = found[k as int];
        assert(field == text@.subrange(range.0 as int, range.1 as int));
        let end: usize = if range.1 > range.0 && text.get_char(range.1 - 1) == '\r' {
            assert(field.last() == '\r');
            assert(field.drop_last() =~= text@.subrange(range.0 as int, range.1 - 1));
            range.1 - 1
        } else {
            assert(field.len() > 0 ==> field.last() == text@[range.1 - 1]);
            range.1
        };
        ranges.push((range.0, end));
        k += 1;
    }
    let range: (usize, usize) = found_ranges[last];
    if range.1 > range.0 {
        ranges.push(range);
    }
    assert(ranges_of_fields(text@, ranges@, lines_of(text@)));
    ranges
}

/// The `i32`s that the lines of `s` write, if each of them writes one.
pub open spec fn i32_lines_of(s: Seq<char>) -> Option<Seq<i32>> {
    let lines = lines_of(s);
    if forall|k: int| 0 <= k < lines.len() ==> i32_of(#[trigger] lines[k]) is Some {
        Some(Seq::new(lines.len(), |k: int| i32_of(lines[k]).unwrap()))
    } else {
        None
    }
}

/// Reads `text` as `i32`s, one on each line. One line that writes no
/// `i32` fails the whole.
pub fn parse_i32_lines(text: &str) -> (result: Option<Vec<i32>>)
    ensures
        match (result, i32_lines_of(text@)) {
            (Some(values), Some(expected)) => values@ == expected,
            (None, None) => true,
            _ => false,
        },
{
    let ranges = line_ranges(text);
    let ghost lines = lines_of(text@);
    let mut values: Vec<i32> = Vec::new();
    let mut k: usize = 0;
    while k < ranges.len()
        invariant
            k <= ranges@.len(),
            lines == lines_of(text@),
            ranges_of_fields(text@, ranges@, lines),
            values@.len() == k,
            forall|j: int| 0 <= j < k ==> i32_of(#[trigger] lines[j]) == Some(values@[j]),
        decreases ranges@.len() - k,
    {
        let range: (usize, usize) = ranges[k];
        match parse_i32(text, range.0, range.1) {
            Some(value) => {
                values.push(value);
            },
            None => {
                assert(i32_of(lines[k as int]) is None);
                return None;
            },
        }
        k += 1;
    }
    assert(values@ =~= Seq::new(lines.len(), |j: int| i32_of(lines[j]).unwrap()));
    Some(values)
}

/// The `usize` that `s` writes: one or more decimal digits, with `+`
/// before them or without a sign, of a value that is one.
pub open spec fn usize_of(s: Seq<char>) -> Option<usize> {
    match integer_of(s) {
        Some(value) => if s[0] != '-' && value <= usize::MAX {
            Some(value as usize)
        } else {
            None
        },
        None => None,
    }
}

/// Reads the characters of `text` from `from` up to `to` as a `usize`.
pub fn parse_usize(text: &str, from: usize, to: usize) -> (result: Option<usize>)
    requires
        from <= to <= text@.len(),
    ensures
        result == usize_of(text@.subrange(from as int, to as int)),
{
    let ghost s = text@.subrange(from as int, to as int);
    if from == to {
        return None;
    }
    let first: char = text.get_char(from);
    assert(first == s[0]);
    if first == '-' {
        return None;
    }
    let signed: bool = first == '+';
    let start: usize = if signed {
        from + 1
    } else {
        from
    };
    if start == to {
        return None;
    }
    let ghost digits = text@.subrange(start as int, to as int);
    assert(digits =~= if signed {
        s.skip(1)
    } else {
        s
    });
    let mut value: usize = 0;
    let mut i: usize = start;
    while i < to
        invariant
            start <= i <= to <= text@.len(),
            s == text@.subrange(from as int, to as int),
            s.len() > 0,
            s[0] != '-',
            signed == (s[0] == '+'),
            digits == text@.subrange(start as int, to as int),
            digits == if signed {
                s.skip(1)
            } else {
                s
            },
            all_digits(digits.take(i - start)),
            value == decimal_value(digits.take(i - start)),
        decreases to - i,
    {
        let c: char = text.get_char(i);
        assert(c == digits[i - start]);
        if !(c >= '0' && c <= '9') {
            assert(!is_digit(digits[i - start]));
            return None;
        }
        let digit: usize = (c as u32 - '0' as u32) as usize;
        proof {
            assert(digits.take(i + 1 - start).drop_last() =~= digits.take(i - start));
            assert(digits.take(i + 1 - start).last() == c);
            if all_digits(digits) {
                lemma_decimal_grows(digits, i + 1 - start);
            }
        }
        value = match value.checked_mul(10) {
            Some(tens) => match tens.checked_add(digit) {
                Some(next) => next,
                None => {
                    return None;
                },
            },
            None => {
                return None;
            },
        };
        i += 1;
    }
    assert(digits.take(to - start) =~= digits);
    Some(value)
}

/// Whether `s` is the decimal writing of `n`: digits only, at least one,
/// none of them a zero in front of others.
pub open spec fn writes_number(s: Seq<char>, n: int) -> bool {
    &&& s.len() >= 1
    &&& all_digits(s)
    &&& decimal_value(s) == n
    &&& s.len() == 1 || s[0] != '0'
}

/// The decimal writing of `n`, made by `ToString::to_string` of std on a
/// `usize`. Taken on trust: that the text holds decimal digits only, that
/// they write `n`, and that no zero stands in front of other digits.
#[verifier::external_body]
pub(crate) fn usize_to_string(n: usize) -> (written: String)
    ensures
        writes_number(written@, n as int),
{
    n.to_string()
}

} // verus!

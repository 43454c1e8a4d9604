//! Day 4: which strings can be the password.
use crate::text::{
    fields, is_digit, parse_usize, split_ranges, usize_of, usize_to_string, writes_number,
};
use std::collections::HashMap;
use vstd::prelude::*;

verus! {

/// A string of six characters that reads as a decimal integer: six digits,
/// or a sign and five digits.
pub open spec fn six_digit_number(s: Seq<char>) -> bool {
    &&& s.len() == 6
    &&& is_digit(s[0]) || s[0] == '+' || s[0] == '-'
    &&& forall|i: int| 1 <= i < 6 ==> is_digit(#[trigger] s[i])
}

/// Whether some character of `s` is the same as the one before it.
pub open spec fn has_adjacent_pair(s: Seq<char>) -> bool {
    exists|i: int| 1 <= i < s.len() && s[i - 1] == #[trigger] s[i]
}

/// The value of a decimal digit; `None` for any other character.
pub open spec fn digit_of(c: char) -> Option<u32> {
    if is_digit(c) {
        Some((c as u32 - '0' as u32) as u32)
    } else {
        None
    }
}

/// Whether `left` stands above `right`: a digit stands above every
/// smaller digit and above every character that is no digit.
pub open spec fn stands_above(left: char, right: char) -> bool {
    match (digit_of(left), digit_of(right)) {
        (Some(above), Some(below)) => above > below,
        (Some(_), None) => true,
        (None, _) => false,
    }
}

/// Whether no character of `s` stands above the one after it.
pub open spec fn never_decreases(s: Seq<char>) -> bool {
    forall|i: int| 1 <= i < s.len() ==> !stands_above(s[i - 1], #[trigger] s[i])
}

/// Whether the two characters at `at` and `at + 1` are the same, the one
/// before them is another, and that character does not come again after
/// them: the last group of that character is exactly two long.
pub open spec fn is_final_pair(s: Seq<char>, at: int) -> bool {
    &&& 0 <= at
    &&& at + 1 < s.len()
    &&& s[at] == s[at + 1]
    &&& at == 0 || s[at - 1] != s[at]
    &&& forall|later: int| at + 2 <= later < s.len() ==> #[trigger] s[later] != s[at]
}

/// Whether some character's last group is exactly two long.
pub open spec fn has_exact_pair(s: Seq<char>) -> bool {
    exists|at: int| is_final_pair(s, at)
}

/// The value of `c` as a decimal digit, if it is one.
pub fn digit_value(c: char) -> (digit: Option<u32>)
    ensures
        digit == digit_of(c),
{
    if c >= '0' && c <= '9' {
        Some(c as u32 - '0' as u32)
    } else {
        None
    }
}

/// Whether `input` is six characters long and reads as an integer.
pub fn is_6_digit_number(input: &str) -> (result: bool)
    ensures
        result == six_digit_number(input@),
{
    if input.unicode_len() != 6 {
        return false;
    }
    let first: char = input.get_char(0);
    if digit_value(first).is_none() && first != '+' && first != '-' {
        return false;
    }
    let mut i: usize = 1;
    while i < 6
        invariant
            1 <= i <= 6,
            input@.len() == 6,
            forall|j: int| 1 <= j < i ==> is_digit(#[trigger] input@[j]),
        decreases 6 - i,
    {
        if digit_value(input.get_char(i)).is_none() {
            return false;
        }
        i += 1;
    }
    true
}

/// Whether two characters that stand side by side are the same.
pub fn is_two_adjacent_digit_the_same(input: &str) -> (result: bool)
    ensures
        result == has_adjacent_pair(input@),
{
    let count: usize = input.unicode_len();
    if count == 0 {
        return false;
    }
    let mut i: usize = 1;
    let mut previous_char: char = input.get_char(0);
    while i < count
        invariant
            1 <= i <= count == input@.len(),
            previous_char == input@[i - 1],
            forall|j: int| 1 <= j < i ==> input@[j - 1] != #[trigger] input@[j],
        decreases count - i,
    {
        let c: char = input.get_char(i);
        if c == previous_char {
            return true;
        }
        previous_char = c;
        i += 1;
    }
    return false;
}

/// Whether the digits never decrease from left to right.
pub fn are_digits_ordered(input: &str) -> (result: bool)
    requires
        input@.len() >= 1,
    ensures
        result == never_decreases(input@),
{
    let count: usize = input.unicode_len();
    let mut i: usize = 1;
    let mut previous_char: char = input.get_char(0);
    while i < count
        invariant
            1 <= i <= count == input@.len(),
            previous_char == input@[i - 1],
            forall|j: int| 1 <= j < i ==> !stands_above(input@[j - 1], #[trigger] input@[j]),
        decreases count - i,
    {
        let c: char = input.get_char(i);
        let above: bool = match (digit_value(previous_char), digit_value(c)) {
            (Some(left), Some(right)) => left > right,
            (Some(_), None) => true,
            (None, _) => false,
        };
        if above {
            return false;
        }
        previous_char = c;
        i += 1;
    }
    return true;
}

/// Whether `input` meets the three rules of a password.
pub fn is_possible_password(input: &str) -> (result: bool)
    ensures
        result == (six_digit_number(input@) && has_adjacent_pair(input@) && never_decreases(
            input@,
        )),
{
    return is_6_digit_number(input) && is_two_adjacent_digit_the_same(input) && are_digits_ordered(
        input,
    );
}

/// Two characters with the same code are the same character.
pub proof fn lemma_code_tells_character(left: char, right: char)
    requires
        left as u32 == right as u32,
    ensures
        left == right,
{
    assert(left as u32 as char == left);
    assert(right as u32 as char == right);
}

/// The code of a character, by which the groups are kept.
pub open spec fn code_at(s: Seq<char>, at: int) -> u32 {
    s[at] as u32
}

/// What the table of groups holds once the groups that end at or before
/// `start` are entered: a length for each character met so far, and that
/// length is the length of the character's last group, which ends at
/// `ends[..]`.
#[verifier::opaque]
pub open spec fn groups_entered(
    s: Seq<char>,
    start: int,
    lengths: Map<u32, usize>,
    ends: Map<u32, int>,
) -> bool {
    &&& forall|at: int| 0 <= at < start ==> lengths.contains_key(#[trigger] code_at(s, at))
    &&& forall|code: u32| #[trigger]
        lengths.contains_key(code) ==> {
            &&& 0 <= ends[code] - lengths[code] < ends[code] <= start
            &&& forall|at: int|
                ends[code] - lengths[code] <= at < ends[code] ==> #[trigger] code_at(s, at) == code
            &&& ends[code] - lengths[code] == 0 || code_at(s, ends[code] - lengths[code] - 1)
                != code
            &&& forall|at: int| ends[code] <= at < start ==> #[trigger] code_at(s, at) != code
        }
}

/// A character whose entered group is two long ends in a final pair.
pub proof fn lemma_exact_group_is_final_pair(
    s: Seq<char>,
    lengths: Map<u32, usize>,
    ends: Map<u32, int>,
    code: u32,
)
    requires
        groups_entered(s, s.len() as int, lengths, ends),
        lengths.contains_key(code),
        lengths[code] == 2,
    ensures
        is_final_pair(s, ends[code] - 2),
{
    reveal(groups_entered);
    let first: int = ends[code] - 2;
    assert(code_at(s, first) == code);
    assert(code_at(s, first + 1) == code);
    lemma_code_tells_character(s[first], s[first + 1]);
    assert forall|later: int| first + 2 <= later < s.len() implies #[trigger] s[later]
        != s[first] by {
        assert(code_at(s, later) != code);
    }
    if first > 0 {
        assert(code_at(s, first - 1) != code);
    }
}

/// A final pair is the group that was entered for its character.
pub proof fn lemma_final_pair_is_entered(
    s: Seq<char>,
    lengths: Map<u32, usize>,
    ends: Map<u32, int>,
    first: int,
)
    requires
        groups_entered(s, s.len() as int, lengths, ends),
        is_final_pair(s, first),
    ensures
        lengths.contains_key(code_at(s, first)),
        lengths[code_at(s, first)] == 2,
{
    reveal(groups_entered);
    let code = code_at(s, first);
    assert(lengths.contains_key(code));
    let end = ends[code];
    let begin = end - lengths[code];
    assert(code_at(s, first + 1) == code);
    assert(first + 1 < end);
    assert(code_at(s, end - 1) == code);
    lemma_code_tells_character(s[end - 1], s[first]);
    if end - 1 >= first + 2 {
        assert(s[end - 1] != s[first]);
    }
    assert(end == first + 2);
    if begin < first {
        assert(code_at(s, first - 1) == code);
        lemma_code_tells_character(s[first - 1], s[first]);
    }
    if begin > first {
        assert(begin == first + 1);
        assert(code_at(s, begin - 1) == code);
    }
}

/// Whether some character's last group is exactly two long. The groups
/// are entered in a table by character, a later group over an earlier one
/// of the same character.
pub fn two_adjacent_matching_digits_not_part_larger_group(input: &str) -> (result: bool)
    requires
        input@.len() >= 1,
    ensures
        result == has_exact_pair(input@),
{
    broadcast use vstd::std_specs::hash::group_hash_axioms;

    let count: usize = input.unicode_len();
    let mut occurence_found: usize = 1;
    let mut occurences_found: HashMap<u32, usize> = HashMap::new();
    let mut previous_char: char = input.get_char(0);
    let ghost mut ends: Map<u32, int> = Map::empty();
    let mut i: usize = 1;
    proof {
        reveal(groups_entered);
    }
    while i < count
        invariant
            1 <= i <= count == input@.len(),
            1 <= occurence_found <= i,
            previous_char == input@[i - 1],
            forall|at: int|
                i - occurence_found <= at < i ==> #[trigger] code_at(input@, at)
                    == previous_char as u32,
            i - occurence_found == 0 || code_at(input@, i - occurence_found - 1)
                != previous_char as u32,
            groups_entered(input@, i - occurence_found, occurences_found@, ends),
        decreases count - i,
    {
        proof {
            reveal(groups_entered);
        }
        let c: char = input.get_char(i);
        if c == previous_char {
            occurence_found += 1;
        } else {
            assert(code_at(input@, i as int) != previous_char as u32);
            occurences_found.insert(previous_char as u32, occurence_found);
            proof {
                ends = ends.insert(previous_char as u32, i as int);
            }
            occurence_found = 1;
        }
        previous_char = c;
        i += 1;
    }
    occurences_found.insert(previous_char as u32, occurence_found);
    proof {
        ends = ends.insert(previous_char as u32, count as int);
    }
    assert(groups_entered(input@, count as int, occurences_found@, ends)) by {
        reveal(groups_entered);
    }
    assert forall|at: int| 0 <= at < count implies occurences_found@.contains_key(
        #[trigger] code_at(input@, at),
    ) by {
        reveal(groups_entered);
    }

    let mut at: usize = 0;
    while at < count
        invariant
            at <= count == input@.len(),
            groups_entered(input@, count as int, occurences_found@, ends),
            forall|any: int|
                0 <= any < count ==> occurences_found@.contains_key(
                    #[trigger] code_at(input@, any),
                ),
            forall|seen: int|
                0 <= seen < at ==> occurences_found@[#[trigger] code_at(input@, seen)] != 2,
        decreases count - at,
    {
        let code: u32 = input.get_char(at) as u32;
        assert(code == code_at(input@, at as int));
        match occurences_found.get(&code) {
            Some(occurences) => {
                if *occurences == 2 {
                    proof {
                        lemma_exact_group_is_final_pair(input@, occurences_found@, ends, code);
                    }
                    return true;
                }
            },
            None => {},
        }
        at += 1;
    }
    proof {
        assert forall|first: int| !is_final_pair(input@, first) by {
            if is_final_pair(input@, first) {
                lemma_final_pair_is_entered(input@, occurences_found@, ends, first);
            }
        }
    }
    return false;
}

/// How many of the strings can be the password.
pub open spec fn count_possible(inputs: Seq<String>) -> nat
    decreases inputs.len(),
{
    if inputs.len() == 0 {
        0
    } else {
        count_possible(inputs.drop_last()) + if six_digit_number(inputs.last()@)
            && has_adjacent_pair(inputs.last()@) && never_decreases(inputs.last()@) {
            1nat
        } else {
            0nat
        }
    }
}

/// How many of the strings can be the password and hold a character
/// whose last group is exactly two long.
pub open spec fn count_strict(inputs: Seq<String>) -> nat
    decreases inputs.len(),
{
    if inputs.len() == 0 {
        0
    } else {
        count_strict(inputs.drop_last()) + if six_digit_number(inputs.last()@)
            && has_adjacent_pair(inputs.last()@) && never_decreases(inputs.last()@)
            && has_exact_pair(inputs.last()@) {
            1nat
        } else {
            0nat
        }
    }
}

/// Counts the strings that can be the password.
pub fn part1(inputs: &[String]) -> (res: u32)
    requires
        inputs@.len() <= u32::MAX,
    ensures
        res == count_possible(inputs@),
{
    let mut res: u32 = 0;
    let mut index: usize = 0;
    while index < inputs.len()
        invariant
            index <= inputs@.len() <= u32::MAX,
            res <= index,
            res == count_possible(inputs@.take(index as int)),
        decreases inputs@.len() - index,
    {
        proof {
            assert(inputs@.take(index + 1).drop_last() == inputs@.take(index as int));
        }
        if is_possible_password(inputs[index].as_str()) {
            res += 1;
        }
        index += 1;
    }
    proof {
        assert(inputs@.take(index as int) == inputs@);
    }
    return res;
}

/// Counts the strings that can be the password and hold an exact pair.
pub fn part2(inputs: &[String]) -> (res: u32)
    requires
        inputs@.len() <= u32::MAX,
    ensures
        res == count_strict(inputs@),
{
    let mut res: u32 = 0;
    let mut index: usize = 0;
    while index < inputs.len()
        invariant
            index <= inputs@.len() <= u32::MAX,
            res <= index,
            res == count_strict(inputs@.take(index as int)),
        decreases inputs@.len() - index,
    {
        proof {
            assert(inputs@.take(index + 1).drop_last() == inputs@.take(index as int));
        }
        let input: &str = inputs[index].as_str();
        if is_possible_password(input) && two_adjacent_matching_digits_not_part_larger_group(
            input,
        ) {
            res += 1;
        }
        index += 1;
    }
    proof {
        assert(inputs@.take(index as int) == inputs@);
    }
    return res;
}

/// The bounds that `s` writes: two numbers with `-` between them. What
/// follows a second `-` is not looked at. The upper bound is less than
/// the largest `usize`.
pub open spec fn bounds_of(s: Seq<char>) -> Option<(usize, usize)> {
    let found = fields(s, '-');
    if found.len() < 2 {
        None
    } else {
        match (usize_of(found[0]), usize_of(found[1])) {
            (Some(start), Some(end)) => if end < usize::MAX {
                Some((start, end))
            } else {
                None
            },
            _ => None,
        }
    }
}

/// Reads the two bounds of a range.
pub fn parse_bounds(input: &str) -> (result: Option<(usize, usize)>)
    ensures
        result == bounds_of(input@),
{
    let ranges = split_ranges(input, '-');
    if ranges.len() < 2 {
        return None;
    }
    let first: (usize, usize) = ranges[0];
    let second: (usize, usize) = ranges[1];
    match (parse_usize(input, first.0, first.1), parse_usize(input, second.0, second.1)) {
        (Some(start), Some(end)) => if end < usize::MAX {
            Some((start, end))
        } else {
            None
        },
        _ => None,
    }
}

/// Every number from the lower bound to the upper bound that the text
/// writes, both included, in order and each in decimal writing; `None`
/// where the text writes no bounds.
pub fn parse_input_day4(input: &str) -> (result: Option<Vec<String>>)
    ensures
        result is Some <==> bounds_of(input@) is Some,
        match (result, bounds_of(input@)) {
            (Some(res), Some((start, end))) => {
                &&& res@.len() == if start <= end {
                    end - start + 1
                } else {
                    0
                }
                &&& forall|k: int|
                    0 <= k < res@.len() ==> writes_number((#[trigger] res@[k])@, start + k)
            },
            _ => true,
        },
{
    let (first, end) = match parse_bounds(input) {
        Some(bounds) => bounds,
        None => {
            return None;
        },
    };
    let mut res: Vec<String> = Vec::new();
    let mut start: usize = first;
    while start <= end
        invariant
            end < usize::MAX,
            first <= start,
            first <= end ==> start <= end + 1,
            first > end ==> start == first,
            res@.len() == start - first,
            forall|k: int| 0 <= k < res@.len() ==> writes_number((#[trigger] res@[k])@, first + k),
        decreases end + 1 - start,
    {
        res.push(usize_to_string(start));
        start += 1;
    }
    return Some(res);
}

} // verus!

use aoc2019::day4::{
    are_digits_ordered, digit_value, is_6_digit_number, is_possible_password,
    is_two_adjacent_digit_the_same, parse_bounds, parse_input_day4, part1, part2,
    two_adjacent_matching_digits_not_part_larger_group,
};
use aoc2019::text::parse_usize;

#[test]
fn is_6_digit_number_with_6digit_number() {
    assert!(is_6_digit_number("888888"));
    assert!(is_6_digit_number("111111"));
    assert!(is_6_digit_number("123456"));
}

#[test]
fn is_6_digit_number_with_6chars() {
    assert!(!is_6_digit_number("cccccc"));
    assert!(!is_6_digit_number("11dc12"));
    assert!(!is_6_digit_number("abcdef"));
}

#[test]
fn is_two_adjacent_digit_the_same_with_two_digit_adjacent() {
    assert!(is_two_adjacent_digit_the_same("11"));
    assert!(is_two_adjacent_digit_the_same("137877"));
}

#[test]
fn is_two_adjacent_digit_the_same_without_two_digit_adjacent() {
    assert!(!is_two_adjacent_digit_the_same("12"));
    assert!(!is_two_adjacent_digit_the_same("137897"));
}

#[test]
fn are_digit_ordered_with_ordered_digit() {
    assert!(are_digits_ordered("12"));
    assert!(are_digits_ordered("3489"));
    assert!(are_digits_ordered("1"));
    assert!(are_digits_ordered("89"));
}

#[test]
fn are_digit_ordered_with_unordered_digit() {
    assert!(!are_digits_ordered("90"));
    assert!(!are_digits_ordered("13429"));
    assert!(!are_digits_ordered("73"));
}

#[test]
fn is_possible_password_with_6_same_chars() {
    assert!(is_possible_password("111111"));
}

#[test]
fn is_possible_password_with_unordered_digit() {
    assert!(!is_possible_password("223450"));
}

#[test]
fn is_possible_password_with_no_two_same_digit_adjacent() {
    assert!(!is_possible_password("123789"));
}

#[test]
fn part1_with_empty_vec() {
    assert_eq!(part1(&vec![]), 0);
}

#[test]
fn part1_with_one_possible_password() {
    assert_eq!(part1(&vec![String::from("111111")]), 1);
    assert_eq!(part1(&vec![String::from("111111"), String::from("121110")]), 1);
    assert_eq!(part1(&vec![String::from("121110"), String::from("111111")]), 1);
}

#[test]
fn part_of_bigger_group() {
    assert_eq!(two_adjacent_matching_digits_not_part_larger_group("112233"), true);
    assert_eq!(two_adjacent_matching_digits_not_part_larger_group("123444"), false);
    assert_eq!(two_adjacent_matching_digits_not_part_larger_group("111122"), true);
}

#[test]
fn six_characters_that_read_as_a_number() {
    assert!(is_6_digit_number("000000"));
    assert!(is_6_digit_number("+12345"));
    assert!(is_6_digit_number("-12345"));
    assert!(!is_6_digit_number("12345"));
    assert!(!is_6_digit_number("1234567"));
    assert!(!is_6_digit_number(""));
    assert!(!is_6_digit_number("12345+"));
    assert!(!is_6_digit_number("+-1234"));
    assert!(!is_6_digit_number(" 12345"));
    assert!(!is_6_digit_number("12 345"));
    assert!(!is_6_digit_number("١٢٣٤٥٦"));
    assert!(!is_6_digit_number("é1234"));
    assert_eq!(is_6_digit_number("+12345"), "+12345".len() == 6 && "+12345".parse::<i32>().is_ok());
    assert_eq!(is_6_digit_number("é1234"), "é1234".len() == 6 && "é1234".parse::<i32>().is_ok());
}

#[test]
fn digits_have_values() {
    assert_eq!(digit_value('0'), Some(0));
    assert_eq!(digit_value('7'), Some(7));
    assert_eq!(digit_value('9'), Some(9));
    assert_eq!(digit_value('a'), None);
    assert_eq!(digit_value('/'), None);
    assert_eq!(digit_value(':'), None);
    assert_eq!(digit_value('٣'), None);
}

#[test]
fn adjacent_pair_edge_cases() {
    assert!(!is_two_adjacent_digit_the_same(""));
    assert!(!is_two_adjacent_digit_the_same("1"));
    assert!(is_two_adjacent_digit_the_same("aa"));
    assert!(is_two_adjacent_digit_the_same("abcc"));
    assert!(!is_two_adjacent_digit_the_same("abab"));
}

#[test]
fn a_digit_stands_above_what_is_no_digit() {
    assert!(!are_digits_ordered("1a"));
    assert!(are_digits_ordered("a1"));
    assert!(are_digits_ordered("ab"));
    assert!(are_digits_ordered("ba"));
    assert!(are_digits_ordered("11"));
    assert!(!are_digits_ordered("1123450"));
}

#[test]
fn only_the_last_group_of_a_character_counts() {
    assert!(two_adjacent_matching_digits_not_part_larger_group("11"));
    assert!(!two_adjacent_matching_digits_not_part_larger_group("1"));
    assert!(!two_adjacent_matching_digits_not_part_larger_group("111"));
    assert!(!two_adjacent_matching_digits_not_part_larger_group("123456"));
    // the last group of 1 is one long, the last group of 2 is one long
    assert!(!two_adjacent_matching_digits_not_part_larger_group("1121"));
    // the last group of 1 is two long
    assert!(two_adjacent_matching_digits_not_part_larger_group("1211"));
    assert!(two_adjacent_matching_digits_not_part_larger_group("111211"));
    assert!(!two_adjacent_matching_digits_not_part_larger_group("112111"));
    assert!(two_adjacent_matching_digits_not_part_larger_group("111223"));
}

#[test]
fn part2_counts_passwords_with_an_exact_pair() {
    assert_eq!(part2(&vec![]), 0);
    let inputs = vec![
        String::from("112233"),
        String::from("123444"),
        String::from("111122"),
        String::from("111111"),
        String::from("223450"),
        String::from("123789"),
    ];
    assert_eq!(part2(&inputs), 2);
    assert_eq!(part1(&inputs), 4);
}

#[test]
fn the_range_is_written_out_number_by_number() {
    assert_eq!(
        parse_input_day4("8-11"),
        Some(vec![String::from("8"), String::from("9"), String::from("10"), String::from("11")])
    );
    assert_eq!(parse_input_day4("0-0"), Some(vec![String::from("0")]));
    assert_eq!(parse_input_day4("007-+8"), Some(vec![String::from("7"), String::from("8")]));
    assert_eq!(parse_input_day4("5-4"), Some(vec![]));
    assert_eq!(parse_input_day4("3-4-x"), Some(vec![String::from("3"), String::from("4")]));
    assert_eq!(parse_input_day4("34"), None);
    assert_eq!(parse_input_day4(""), None);
    assert_eq!(parse_input_day4("-4"), None);
    assert_eq!(parse_input_day4("3-"), None);
    assert_eq!(parse_input_day4("a-4"), None);
    assert_eq!(parse_input_day4("3 - 4"), None);
    let written = parse_input_day4("171309-171400").unwrap();
    assert_eq!(written.len(), 92);
    assert_eq!(written[0], "171309");
    assert_eq!(written[91], "171400");
    assert_eq!(part1(&written), 0);
    let written = parse_input_day4("111110-111125").unwrap();
    assert_eq!(part1(&written), 13);
    assert_eq!(part2(&written), 1);
}

#[test]
fn bounds_of_a_range() {
    assert_eq!(parse_bounds("171309-643603"), Some((171309, 643603)));
    assert_eq!(parse_bounds("1-18446744073709551614"), Some((1, usize::MAX - 1)));
    assert_eq!(parse_bounds("1-18446744073709551615"), None);
    assert_eq!(parse_bounds("1-18446744073709551616"), None);
}

#[test]
fn unsigned_numbers_are_read_as_std_reads_them() {
    for text in ["0", "7", "-7", "+7", "007", "-0", "18446744073709551615", "18446744073709551616",
        "99999999999999999999999", "0000000000000000000000000012", "", "+", "-", "1-", " 1", "1 ",
        "1_000", "0x10"] {
        let count = text.chars().count();
        assert_eq!(parse_usize(text, 0, count), text.parse::<usize>().ok());
    }
}

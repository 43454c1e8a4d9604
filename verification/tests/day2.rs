use aoc2019::day2::{
    apply_operation, find_noun_verb, intcode_program, operation_from_opcode, parse_input_day2,
    part1, part2, store, Found, Operation,
};
use aoc2019::machine::VmError;

#[test]
fn day2_test_intcode_program() {
    assert_eq!(intcode_program(vec![1, 0, 0, 0, 99], 0, 0), Ok(vec![2, 0, 0, 0, 99]));
    assert_eq!(intcode_program(vec![2, 3, 0, 3, 99], 3, 0), Ok(vec![2, 3, 0, 6, 99]));
    assert_eq!(intcode_program(vec![2, 4, 4, 5, 99, 0], 4, 4), Ok(vec![2, 4, 4, 5, 99, 9801]));
    assert_eq!(
        intcode_program(vec![1, 1, 1, 4, 99, 5, 6, 0, 99], 1, 1),
        Ok(vec![30, 1, 1, 4, 2, 5, 6, 0, 99])
    );
}

#[test]
fn test_store() {
    assert_eq!(store(&mut [1, 2, 3, 3], Operation::Add, 2, 3, 3).unwrap(), &[1, 2, 3, 5]);
}

#[test]
fn store_outside_the_memory_is_malformed() {
    assert_eq!(store(&[1, 2, 3, 3], Operation::Add, 2, 3, 4), Err(VmError::MalformedInstruction));
    assert_eq!(store(&[], Operation::Mul, 2, 3, 0), Err(VmError::MalformedInstruction));
}

#[test]
fn opcodes_select_operations() {
    assert_eq!(operation_from_opcode(1), Ok(Operation::Add));
    assert_eq!(operation_from_opcode(2), Ok(Operation::Mul));
    assert_eq!(operation_from_opcode(99), Ok(Operation::Halt));
    assert_eq!(operation_from_opcode(5), Err(VmError::UnknownOpcode(5)));
    assert_eq!(operation_from_opcode(1002), Err(VmError::UnknownOpcode(1002)));
    assert_eq!(operation_from_opcode(-1), Err(VmError::UnknownOpcode(-1)));
}

#[test]
fn operations_compute_and_wrap() {
    assert_eq!(apply_operation(Operation::Add, 2, 3), 5);
    assert_eq!(apply_operation(Operation::Mul, 2, 3), 6);
    assert_eq!(apply_operation(Operation::Halt, 2, 3), 0);
    assert_eq!(apply_operation(Operation::Add, i32::MAX, 1), i32::MIN);
    assert_eq!(apply_operation(Operation::Mul, 65536, 65536), 0);
    assert_eq!(apply_operation(Operation::Mul, i32::MIN, -1), i32::MIN);
}

#[test]
fn patch_goes_to_cells_one_and_two() {
    assert_eq!(intcode_program(vec![99, 7, 8], 12, 2), Ok(vec![99, 12, 2]));
    assert_eq!(part1(&[99, 7, 8, 9]), Ok(vec![99, 12, 2, 9]));
}

#[test]
fn short_programs_are_malformed() {
    assert_eq!(intcode_program(vec![], 0, 0), Err(VmError::MalformedInstruction));
    assert_eq!(intcode_program(vec![99], 0, 0), Err(VmError::MalformedInstruction));
    assert_eq!(intcode_program(vec![99, 0], 0, 0), Err(VmError::MalformedInstruction));
}

#[test]
fn running_off_the_end_is_malformed() {
    assert_eq!(intcode_program(vec![1, 0, 0, 0], 0, 0), Err(VmError::MalformedInstruction));
    assert_eq!(intcode_program(vec![1, 0, 0], 0, 0), Err(VmError::MalformedInstruction));
    assert_eq!(intcode_program(vec![1, 0, 0, 0, 2, 0, 0], 0, 0), Err(VmError::MalformedInstruction));
}

#[test]
fn addresses_outside_the_memory_are_malformed() {
    assert_eq!(intcode_program(vec![1, 0, 0, 0, 99], 5, 0), Err(VmError::MalformedInstruction));
    assert_eq!(intcode_program(vec![1, 0, 0, 0, 99], 0, -1), Err(VmError::MalformedInstruction));
    assert_eq!(intcode_program(vec![1, 0, 0, 5, 99], 0, 0), Err(VmError::MalformedInstruction));
    assert_eq!(intcode_program(vec![1, 0, 0, -1, 99], 0, 0), Err(VmError::MalformedInstruction));
}

#[test]
fn unknown_opcode_is_told_not_skipped() {
    assert_eq!(intcode_program(vec![5, 0, 0, 0, 99], 0, 0), Err(VmError::UnknownOpcode(5)));
    assert_eq!(intcode_program(vec![1, 0, 0, 0, 3, 0, 0, 0, 99], 0, 0), Err(VmError::UnknownOpcode(3)));
}

#[test]
fn halt_returns_memory_untouched() {
    assert_eq!(intcode_program(vec![99, 1, 2, 3, 4, 5], 1, 2), Ok(vec![99, 1, 2, 3, 4, 5]));
}

fn sweep_program() -> Vec<i32> {
    // cell 0 becomes the sum of the cells that noun and verb name
    let mut program = vec![1, 0, 0, 0, 99];
    while program.len() < 100 {
        program.push(0);
    }
    program[50] = 7000;
    program[60] = 500;
    program
}

#[test]
fn search_finds_the_only_pair() {
    let program = sweep_program();
    assert_eq!(
        find_noun_verb(&program, 14000),
        Ok(Some(Found { noun: 50, verb: 50, solution: 5050 }))
    );
    assert_eq!(find_noun_verb(&program, 123456), Ok(None));
}

#[test]
fn search_returns_the_first_of_two_pairs() {
    let program = sweep_program();
    assert_eq!(
        find_noun_verb(&program, 7500),
        Ok(Some(Found { noun: 50, verb: 60, solution: 5060 }))
    );
}

#[test]
fn search_goes_noun_first_then_verb() {
    // every pair halts at once and leaves 99 in cell 0
    assert_eq!(find_noun_verb(&[99, 0, 0], 99), Ok(Some(Found { noun: 0, verb: 0, solution: 0 })));
    assert_eq!(find_noun_verb(&[99, 0, 0], 98), Ok(None));
    // cell 0 becomes [noun] + [verb], where cells 1 and 2 hold noun and verb:
    // (0, 0) gives 1 + 1, (0, 1) gives 1 + 0, (0, 2) gives 1 + 2
    let program = [1, 0, 0, 0, 99];
    assert_eq!(find_noun_verb(&program, 3), Ok(Some(Found { noun: 0, verb: 2, solution: 2 })));
}

#[test]
fn search_stops_at_the_first_failure() {
    // (0, 5) reads cell 5 of five cells
    assert_eq!(find_noun_verb(&[1, 0, 0, 0, 99], 1000), Err(VmError::MalformedInstruction));
    assert_eq!(find_noun_verb(&[7, 0, 0], 7), Err(VmError::UnknownOpcode(7)));
    assert_eq!(find_noun_verb(&[99], 99), Err(VmError::MalformedInstruction));
}

#[test]
fn part2_looks_for_the_fixed_value() {
    assert_eq!(part2(&[99, 0, 0]), Ok(None));
    assert_eq!(part2(&[19690720, 0, 0]), Err(VmError::UnknownOpcode(19690720)));
}

#[test]
fn program_text_seeds_the_memory() {
    assert_eq!(parse_input_day2("1,0,0,0,99"), Ok(vec![1, 0, 0, 0, 99]));
    assert_eq!(parse_input_day2("1,-5,+3"), Ok(vec![1, -5, 3]));
    assert_eq!(parse_input_day2("1,0,x,0,99"), Err(VmError::ExternalIOError));
    assert_eq!(parse_input_day2("1, 0"), Err(VmError::ExternalIOError));
    assert_eq!(parse_input_day2(""), Err(VmError::ExternalIOError));
    assert_eq!(parse_input_day2("1,0\n"), Err(VmError::ExternalIOError));
    assert_eq!(parse_input_day2("3000000000"), Err(VmError::ExternalIOError));
}

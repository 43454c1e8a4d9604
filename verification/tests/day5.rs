use aoc2019::day5::{
    add, cycle, halt, ins, intcode_program, mul, output, parse_input, part1, read_arguments,
    run_with_patch, wants_input, Operation,
};
use aoc2019::machine::{parse_program, store_at, VmError};

#[test]
fn test_add_operation() {
    let op = Operation::Add;
    assert_eq!(op.apply(vec![1, 1, 1], vec![4, 1, 2], None).unwrap().0, vec![1, 1, 5]);
}

#[test]
fn test_mul_operation() {
    let op = Operation::Mul;
    assert_eq!(op.apply(vec![1, 1, 1], vec![4, 2, 0], None).unwrap().0, vec![8, 1, 1]);
}

#[test]
fn test_read_arguments() {
    let (operation, instruction_args, index) = read_arguments(&vec![1002, 1, 2, 3], 0).unwrap();
    assert_eq!(instruction_args, vec![1, 2, 3]);
    assert_eq!(operation, Operation::Mul);
    assert_eq!(index, 4);
}

#[test]
fn test_read_arguments_with_one_opcode() {
    let (operation, instruction_args, index) = read_arguments(&vec![1, 2, 0, 2], 0).unwrap();
    assert_eq!(instruction_args, vec![0, 1, 2]);
    assert_eq!(operation, Operation::Add);
    assert_eq!(index, 4);
}

#[test]
fn day5_test_intcode_program() {
    assert_eq!(intcode_program(vec![1, 0, 0, 0, 99], vec![]).unwrap().memory, vec![2, 0, 0, 0, 99]);
    assert_eq!(intcode_program(vec![2, 3, 0, 3, 99], vec![]).unwrap().memory, vec![2, 3, 0, 6, 99]);
    assert_eq!(
        intcode_program(vec![2, 4, 4, 5, 99, 0], vec![]).unwrap().memory,
        vec![2, 4, 4, 5, 99, 9801]
    );
    assert_eq!(
        intcode_program(vec![1, 1, 1, 4, 99, 5, 6, 0, 99], vec![]).unwrap().memory,
        vec![30, 1, 1, 4, 2, 5, 6, 0, 99]
    );
}

#[test]
fn catalog_holds_five_operations() {
    assert_eq!(Operation::from_opcode(1), Ok(Operation::Add));
    assert_eq!(Operation::from_opcode(2), Ok(Operation::Mul));
    assert_eq!(Operation::from_opcode(3), Ok(Operation::Ins));
    assert_eq!(Operation::from_opcode(4), Ok(Operation::Out));
    assert_eq!(Operation::from_opcode(99), Ok(Operation::Halt));
    assert_eq!(Operation::from_opcode(5), Err(VmError::UnknownOpcode(5)));
    assert_eq!(Operation::from_opcode(0), Err(VmError::UnknownOpcode(0)));
    assert_eq!(Operation::Add.get_args_expected(), 3);
    assert_eq!(Operation::Mul.get_args_expected(), 3);
    assert_eq!(Operation::Ins.get_args_expected(), 1);
    assert_eq!(Operation::Out.get_args_expected(), 1);
    assert_eq!(Operation::Halt.get_args_expected(), 0);
}

#[test]
fn write_positions_of_the_catalog() {
    assert!(Operation::Add.is_write_parameter(2));
    assert!(!Operation::Add.is_write_parameter(0));
    assert!(!Operation::Add.is_write_parameter(1));
    assert!(Operation::Mul.is_write_parameter(2));
    assert!(!Operation::Mul.is_write_parameter(3));
    assert!(Operation::Ins.is_write_parameter(0));
    assert!(!Operation::Ins.is_write_parameter(1));
    assert!(!Operation::Out.is_write_parameter(0));
    assert!(!Operation::Halt.is_write_parameter(0));
}

#[test]
fn effects_one_by_one() {
    assert_eq!(add(vec![1, 1, 1], vec![4, 1, 2]), Ok(vec![1, 1, 5]));
    assert_eq!(mul(vec![1, 1, 1], vec![4, 2, 0]), Ok(vec![8, 1, 1]));
    assert_eq!(ins(vec![1, 1, 1], vec![1], 42), Ok(vec![1, 42, 1]));
    assert_eq!(output(vec![1, 2, 3], vec![7]), vec![1, 2, 3]);
    assert_eq!(halt(vec![1, 2, 3], vec![]), vec![1, 2, 3]);
    assert_eq!(add(vec![0], vec![i32::MAX, 1, 0]), Ok(vec![i32::MIN]));
    assert_eq!(mul(vec![5], vec![65536, 65536, 0]), Ok(vec![0]));
    assert_eq!(store_at(vec![1, 2, 3], 1, 9), Ok(vec![1, 9, 3]));
}

#[test]
fn writes_outside_the_memory_are_malformed() {
    assert_eq!(add(vec![1, 1, 1], vec![4, 1, 3]), Err(VmError::MalformedInstruction));
    assert_eq!(mul(vec![1, 1, 1], vec![4, 1, -1]), Err(VmError::MalformedInstruction));
    assert_eq!(ins(vec![], vec![0], 1), Err(VmError::MalformedInstruction));
    assert_eq!(store_at(vec![1, 2, 3], 3, 9), Err(VmError::MalformedInstruction));
    assert_eq!(store_at(vec![1, 2, 3], i32::MIN, 9), Err(VmError::MalformedInstruction));
}

#[test]
fn apply_hands_input_in_and_output_out() {
    assert_eq!(Operation::Ins.apply(vec![3, 0, 99], vec![1], Some(7)), Ok((vec![3, 7, 99], None)));
    assert_eq!(Operation::Ins.apply(vec![3, 0, 99], vec![1], None), Err(VmError::ExternalIOError));
    assert_eq!(Operation::Out.apply(vec![4, 0, 99], vec![4], None), Ok((vec![4, 0, 99], Some(4))));
    assert_eq!(Operation::Out.apply(vec![4, 0, 99], vec![4], Some(1)), Ok((vec![4, 0, 99], Some(4))));
    assert_eq!(Operation::Halt.apply(vec![99], vec![], Some(1)), Ok((vec![99], None)));
}

#[test]
fn decoding_resolves_by_mode() {
    // both reads immediate
    assert_eq!(read_arguments(&vec![1101, 100, -1, 4, 0], 0), Ok((Operation::Add, vec![100, -1, 4], 4)));
    // first positional, second immediate
    assert_eq!(read_arguments(&vec![1001, 4, 3, 4, 33], 0), Ok((Operation::Add, vec![33, 3, 4], 4)));
    // the mode digit of a write target is not looked at
    assert_eq!(read_arguments(&vec![10001, 0, 0, 2], 0), Ok((Operation::Add, vec![10001, 10001, 2], 4)));
    assert_eq!(read_arguments(&vec![90001, 0, 0, 2], 0), Ok((Operation::Add, vec![90001, 90001, 2], 4)));
    assert_eq!(read_arguments(&vec![103, 50], 0), Ok((Operation::Ins, vec![50], 2)));
    assert_eq!(read_arguments(&vec![3, 50], 0), Ok((Operation::Ins, vec![50], 2)));
    assert_eq!(read_arguments(&vec![4, 1], 0), Ok((Operation::Out, vec![1], 2)));
    assert_eq!(read_arguments(&vec![104, 1], 0), Ok((Operation::Out, vec![1], 2)));
    assert_eq!(read_arguments(&vec![0, 0, 99], 2), Ok((Operation::Halt, vec![], 3)));
    assert_eq!(read_arguments(&vec![0, 1002, 1, 2, 3], 1), Ok((Operation::Mul, vec![1002, 2, 3], 5)));
}

#[test]
fn decoding_out_of_bounds_is_malformed() {
    assert_eq!(read_arguments(&vec![], 0), Err(VmError::MalformedInstruction));
    assert_eq!(read_arguments(&vec![99], 1), Err(VmError::MalformedInstruction));
    assert_eq!(read_arguments(&vec![99], usize::MAX), Err(VmError::MalformedInstruction));
    assert_eq!(read_arguments(&vec![1, 0, 0], 0), Err(VmError::MalformedInstruction));
    assert_eq!(read_arguments(&vec![1], 0), Err(VmError::MalformedInstruction));
    assert_eq!(read_arguments(&vec![1, 4, 0, 0], 0), Err(VmError::MalformedInstruction));
    assert_eq!(read_arguments(&vec![1, 0, -1, 0], 0), Err(VmError::MalformedInstruction));
    assert_eq!(read_arguments(&vec![4, 2], 0), Err(VmError::MalformedInstruction));
    assert_eq!(read_arguments(&vec![3], 0), Err(VmError::MalformedInstruction));
}

#[test]
fn decoding_unknown_opcode_is_told() {
    assert_eq!(read_arguments(&vec![5, 0, 0, 0], 0), Err(VmError::UnknownOpcode(5)));
    assert_eq!(read_arguments(&vec![1098], 0), Err(VmError::UnknownOpcode(98)));
    assert_eq!(read_arguments(&vec![0], 0), Err(VmError::UnknownOpcode(0)));
    assert_eq!(read_arguments(&vec![-1], 0), Err(VmError::UnknownOpcode(-1)));
    assert_eq!(read_arguments(&vec![-101], 0), Err(VmError::UnknownOpcode(-1)));
}

#[test]
fn decoding_invalid_mode_is_told() {
    assert_eq!(read_arguments(&vec![201, 0, 0, 0], 0), Err(VmError::InvalidAddressingMode(2)));
    assert_eq!(read_arguments(&vec![9001, 0, 0, 0], 0), Err(VmError::InvalidAddressingMode(9)));
    assert_eq!(read_arguments(&vec![504, 0], 0), Err(VmError::InvalidAddressingMode(5)));
    // the first argument fails before the second is looked at
    assert_eq!(read_arguments(&vec![2001, 9, 0, 0], 0), Err(VmError::MalformedInstruction));
    assert_eq!(read_arguments(&vec![301, 0, 9, 0], 0), Err(VmError::InvalidAddressingMode(3)));
}

#[test]
fn cycle_by_cycle() {
    let after = cycle(vec![1101, 2, 3, 0, 99], 0, None).unwrap();
    assert_eq!(after.memory, vec![5, 2, 3, 0, 99]);
    assert_eq!(after.next, Some(4));
    assert_eq!(after.emitted, None);
    let after = cycle(after.memory, 4, None).unwrap();
    assert_eq!(after.memory, vec![5, 2, 3, 0, 99]);
    assert_eq!(after.next, None);
    assert_eq!(after.emitted, None);
    let after = cycle(vec![104, 77, 99], 0, None).unwrap();
    assert_eq!(after.memory, vec![104, 77, 99]);
    assert_eq!(after.next, Some(2));
    assert_eq!(after.emitted, Some(77));
    let after = cycle(vec![3, 2, 0], 0, Some(99)).unwrap();
    assert_eq!(after.memory, vec![3, 2, 99]);
    assert_eq!(after.next, Some(2));
    assert!(cycle(vec![3, 2, 0], 0, None).is_err());
    assert!(cycle(vec![99], 1, None).is_err());
}

#[test]
fn input_is_wanted_by_ins_only() {
    assert!(wants_input(&vec![3, 0], 0));
    assert!(wants_input(&vec![103, 0], 0));
    assert!(!wants_input(&vec![3], 0));
    assert!(!wants_input(&vec![4, 0], 0));
    assert!(!wants_input(&vec![99], 0));
    assert!(!wants_input(&vec![3, 0], 2));
}

#[test]
fn halt_ends_the_run_with_memory_unchanged() {
    let done = intcode_program(vec![99, 1, 0, 0, 0], vec![5]).unwrap();
    assert_eq!(done.memory, vec![99, 1, 0, 0, 0]);
    assert_eq!(done.output, vec![]);
}

#[test]
fn run_takes_input_and_emits_in_order() {
    // read to cell 0, emit cell 0, emit 11 directly, halt
    let done = intcode_program(vec![3, 0, 4, 0, 104, 11, 99], vec![42]).unwrap();
    assert_eq!(done.memory, vec![42, 0, 4, 0, 104, 11, 99]);
    assert_eq!(done.output, vec![42, 11]);
    let done = intcode_program(vec![3, 0, 3, 1, 1, 0, 1, 0, 4, 0, 99], vec![20, 22, 5]).unwrap();
    assert_eq!(done.output, vec![42]);
    assert_eq!(done.memory[0], 42);
    assert_eq!(done.memory[1], 22);
}

#[test]
fn run_fails_as_its_cycles_do() {
    assert_eq!(intcode_program(vec![], vec![]).err(), Some(VmError::MalformedInstruction));
    assert_eq!(intcode_program(vec![1, 0, 0, 0], vec![]).err(), Some(VmError::MalformedInstruction));
    assert_eq!(intcode_program(vec![1101, 1, 1, 7, 99], vec![]).err(), Some(VmError::MalformedInstruction));
    assert_eq!(intcode_program(vec![5, 0, 0, 0, 99], vec![]).err(), Some(VmError::UnknownOpcode(5)));
    assert_eq!(intcode_program(vec![1201, 0, 0, 0, 99], vec![]).err(), Some(VmError::InvalidAddressingMode(2)));
    assert_eq!(intcode_program(vec![3, 0, 99], vec![]).err(), Some(VmError::ExternalIOError));
    assert_eq!(intcode_program(vec![3, 0, 3, 0, 99], vec![1]).err(), Some(VmError::ExternalIOError));
    assert_eq!(intcode_program(vec![1002, 4, 3, 4, 33], vec![]).unwrap().memory, vec![1002, 4, 3, 4, 99]);
}

#[test]
fn program_text_is_parsed_then_run() {
    let memory = parse_input("1002,4,3,4,33").unwrap();
    assert_eq!(memory, vec![1002, 4, 3, 4, 33]);
    assert_eq!(intcode_program(memory, vec![]).unwrap().memory, vec![1002, 4, 3, 4, 99]);
    assert_eq!(parse_input("1002,4,3,4,"), Err(VmError::ExternalIOError));
    assert_eq!(parse_input("1002;4"), Err(VmError::ExternalIOError));
}

#[test]
fn two_cells_are_patched_before_the_first_cycle() {
    let done = run_with_patch(vec![1, 0, 0, 0, 99, 30, 12], 1, 5, 2, 6, vec![]).unwrap();
    assert_eq!(done.memory, vec![42, 5, 6, 0, 99, 30, 12]);
    // the second patch is made after the first
    let done = run_with_patch(vec![99, 0], 1, 7, 1, 8, vec![]).unwrap();
    assert_eq!(done.memory, vec![99, 8]);
    // a patch may change the instruction itself
    let done = run_with_patch(vec![1, 0, 0, 0, 99], 0, 99, 4, 5, vec![]).unwrap();
    assert_eq!(done.memory, vec![99, 0, 0, 0, 5]);
    assert_eq!(
        run_with_patch(vec![99, 0], 2, 7, 1, 8, vec![]).err(),
        Some(VmError::MalformedInstruction)
    );
    assert_eq!(
        run_with_patch(vec![99, 0], 1, 7, usize::MAX, 8, vec![]).err(),
        Some(VmError::MalformedInstruction)
    );
    let done = run_with_patch(vec![3, 7, 4, 7, 99], 1, 0, 3, 0, vec![9]).unwrap();
    assert_eq!(done.memory, vec![9, 0, 4, 0, 99]);
    assert_eq!(done.output, vec![9]);
}

#[test]
fn a_program_is_integers_and_commas() {
    assert_eq!(parse_program("3,0,4,0,99"), Ok(vec![3, 0, 4, 0, 99]));
    assert_eq!(parse_program("99"), Ok(vec![99]));
    assert_eq!(parse_program("-2147483648,2147483647"), Ok(vec![i32::MIN, i32::MAX]));
    assert_eq!(parse_program("2147483648"), Err(VmError::ExternalIOError));
    assert_eq!(parse_program("3,0 ,4"), Err(VmError::ExternalIOError));
    assert_eq!(parse_program(","), Err(VmError::ExternalIOError));
}

#[test]
fn part1_runs_a_copy_of_the_program() {
    let program = [3, 9, 1001, 9, 5, 9, 4, 9, 99, 0];
    let done = part1(&program, vec![37]).unwrap();
    assert_eq!(done.output, vec![42]);
    assert_eq!(done.memory, vec![3, 9, 1001, 9, 5, 9, 4, 9, 99, 42]);
    assert_eq!(program[9], 0);
    assert_eq!(part1(&program, vec![]).err(), Some(VmError::ExternalIOError));
}

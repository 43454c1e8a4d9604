//! Day 2: the first Intcode machine. Every instruction takes four cells,
//! all arguments are addresses, and two cells of the program are patched
//! before the run. Sums and products that leave the range of a cell wrap
//! around.
use crate::machine::{memory_matches, parse_program, program_of, store_spec, VmError};
use vstd::prelude::*;
use vstd::slice::slice_to_vec;

verus! {

/// OPCODE_ELEMENTS_NUMBER represents the number of elements to define an opcode.
pub const OPCODE_ELEMENTS_NUMBER: usize = 4;

/// The value that the parameter search looks for in the first cell.
pub const PART2_MISTERY_OUTPUT: i32 = 19690720;

/// The operations of this machine.
#[derive(Debug, Clone, Copy, PartialEq, Eq, Structural)]
pub enum Operation {
    Add,
    Mul,
    Halt,
}

/// The operation that an opcode selects, if any.
pub open spec fn operation_of(opcode: int) -> Option<Operation> {
    if opcode == 1 {
        Some(Operation::Add)
    } else if opcode == 2 {
        Some(Operation::Mul)
    } else if opcode == 99 {
        Some(Operation::Halt)
    } else {
        None
    }
}

/// What an operation makes of its two inputs.
pub open spec fn operation_result(operation: Operation, input1: i32, input2: i32) -> i32 {
    match operation {
        Operation::Add => input1.wrapping_add(input2),
        Operation::Mul => input1.wrapping_mul(input2),
        Operation::Halt => 0,
    }
}

/// Looks an opcode up; one that names no operation is an error.
pub fn operation_from_opcode(opcode: i32) -> (result: Result<Operation, VmError>)
    ensures
        result == match operation_of(opcode as int) {
            Some(operation) => Ok::<Operation, VmError>(operation),
            None => Err(VmError::UnknownOpcode(opcode)),
        },
{
    match opcode {
        1 => Ok(Operation::Add),
        2 => Ok(Operation::Mul),
        99 => Ok(Operation::Halt),
        _ => Err(VmError::UnknownOpcode(opcode)),
    }
}

/// The wrapping sum or product of the two inputs; 0 for a halt. Where
/// the exact sum or product fits in an `i32`, it is the result.
pub fn apply_operation(operation: Operation, input1: i32, input2: i32) -> (result: i32)
    ensures
        result == operation_result(operation, input1, input2),
        i32::MIN <= input1 + input2 <= i32::MAX && operation == Operation::Add ==> result == input1
            + input2,
        i32::MIN <= input1 * input2 <= i32::MAX && operation == Operation::Mul ==> result == input1
            * input2,
{
    proof {
        let product: int = input1 * input2;
        if i32::MIN <= product <= i32::MAX {
            assert(vstd::wrapping::i32_specs::signed_crop(product) == product);
        }
    }
    match operation {
        Operation::Add => input1.wrapping_add(input2),
        Operation::Mul => input1.wrapping_mul(input2),
        Operation::Halt => 0,
    }
}

/// A copy of `input` with the operation's result at `output`.
pub fn store(
    input: &[i32],
    operation: Operation,
    input1: i32,
    input2: i32,
    output: usize,
) -> (result: Result<Vec<i32>, VmError>)
    ensures
        memory_matches(
            result,
            store_spec(input@, output as int, operation_result(operation, input1, input2)),
        ),
{
    let operation_result: i32 = apply_operation(operation, input1, input2);
    let mut result: Vec<i32> = slice_to_vec(input);
    if output >= result.len() {
        return Err(VmError::MalformedInstruction);
    }
    result[output] = operation_result;
    Ok(result)
}

/// Whether `address` names a cell of `memory`.
pub open spec fn in_bounds(memory: Seq<i32>, address: int) -> bool {
    0 <= address < memory.len()
}

/// The run from the instruction at `pc` on, to the memory at the halt.
pub open spec fn run_from(memory: Seq<i32>, pc: int) -> Result<Seq<i32>, VmError>
    decreases memory.len() - pc,
{
    if !in_bounds(memory, pc) {
        Err(VmError::MalformedInstruction)
    } else {
        match operation_of(memory[pc] as int) {
            None => Err(VmError::UnknownOpcode(memory[pc])),
            Some(Operation::Halt) => Ok(memory),
            Some(operation) => if !in_bounds(memory, pc + 3) {
                Err(VmError::MalformedInstruction)
            } else if !in_bounds(memory, memory[pc + 1] as int) || !in_bounds(
                memory,
                memory[pc + 2] as int,
            ) || !in_bounds(memory, memory[pc + 3] as int) {
                Err(VmError::MalformedInstruction)
            } else {
                run_from(
                    memory.update(
                        memory[pc + 3] as int,
                        operation_result(
                            operation,
                            memory[memory[pc + 1] as int],
                            memory[memory[pc + 2] as int],
                        ),
                    ),
                    pc + 4,
                )
            },
        }
    }
}

/// The run of a program after `noun` went to cell 1 and `verb` to cell 2.
pub open spec fn program_spec(memory: Seq<i32>, noun: i32, verb: i32) -> Result<Seq<i32>, VmError> {
    if memory.len() < 3 {
        Err(VmError::MalformedInstruction)
    } else {
        run_from(memory.update(1, noun).update(2, verb), 0)
    }
}

/// Patches cells 1 and 2, then runs the program from offset 0 until it
/// halts, and returns the memory as the halt found it.
pub fn intcode_program(input: Vec<i32>, noun: i32, verb: i32) -> (result: Result<Vec<i32>, VmError>)
    ensures
        memory_matches(result, program_spec(input@, noun, verb)),
{
    let mut memory: Vec<i32> = input;
    if memory.len() < 3 {
        return Err(VmError::MalformedInstruction);
    }
    memory[1] = noun;
    memory[2] = verb;
    let mut line_start_index: usize = 0;
    loop
        invariant
            program_spec(input@, noun, verb) == run_from(memory@, line_start_index as int),
        decreases memory@.len() - line_start_index,
    {
        if line_start_index >= memory.len() {
            return Err(VmError::MalformedInstruction);
        }
        let operation_opcode: i32 = memory[line_start_index];
        let operation: Operation = match operation_from_opcode(operation_opcode) {
            Ok(operation) => operation,
            Err(e) => {
                return Err(e);
            },
        };
        match operation {
            Operation::Halt => {
                return Ok(memory);
            },
            _ => {
                if memory.len() - line_start_index < OPCODE_ELEMENTS_NUMBER {
                    return Err(VmError::MalformedInstruction);
                }
                let first_input_position: i32 = memory[line_start_index + 1];
                let second_input_position: i32 = memory[line_start_index + 2];
                let output: i32 = memory[line_start_index + 3];
                if first_input_position < 0 || first_input_position as usize >= memory.len() {
                    return Err(VmError::MalformedInstruction);
                }
                if second_input_position < 0 || second_input_position as usize >= memory.len() {
                    return Err(VmError::MalformedInstruction);
                }
                if output < 0 {
                    return Err(VmError::MalformedInstruction);
                }
                let first_input: i32 = memory[first_input_position as usize];
                let second_input: i32 = memory[second_input_position as usize];
                memory = match store(
                    memory.as_slice(),
                    operation,
                    first_input,
                    second_input,
                    output as usize,
                ) {
                    Ok(stored) => stored,
                    Err(e) => {
                        return Err(e);
                    },
                };
            },
        }
        line_start_index += OPCODE_ELEMENTS_NUMBER;
    }
}

/// The exact sum or product that an operation is meant to store.
pub open spec fn exact_result(operation: Operation, input1: i32, input2: i32) -> int {
    match operation {
        Operation::Add => input1 + input2,
        Operation::Mul => input1 * input2,
        Operation::Halt => 0,
    }
}

/// An addition or a multiplication whose addresses lie in the memory and
/// whose exact result fits in a cell stores that very result, changes no
/// other cell, and the run goes on four cells further.
pub proof fn lemma_arithmetic_is_exact(memory: Seq<i32>, pc: int, operation: Operation)
    requires
        in_bounds(memory, pc) && in_bounds(memory, pc + 3),
        operation_of(memory[pc] as int) == Some(operation),
        operation != Operation::Halt,
        in_bounds(memory, memory[pc + 1] as int),
        in_bounds(memory, memory[pc + 2] as int),
        in_bounds(memory, memory[pc + 3] as int),
        i32::MIN <= exact_result(
            operation,
            memory[memory[pc + 1] as int],
            memory[memory[pc + 2] as int],
        ) <= i32::MAX,
    ensures
        run_from(memory, pc) == run_from(
            memory.update(
                memory[pc + 3] as int,
                exact_result(
                    operation,
                    memory[memory[pc + 1] as int],
                    memory[memory[pc + 2] as int],
                ) as i32,
            ),
            pc + 4,
        ),
{
    let product: int = memory[memory[pc + 1] as int] * memory[memory[pc + 2] as int];
    if operation == Operation::Mul {
        assert(vstd::wrapping::i32_specs::signed_crop(product) == product);
    }
}

/// A halt ends the run with the memory as it is.
pub proof fn lemma_halt_keeps_memory(memory: Seq<i32>, pc: int)
    requires
        in_bounds(memory, pc),
        memory[pc] == 99,
    ensures
        run_from(memory, pc) == Ok::<Seq<i32>, VmError>(memory),
{
}

/// A run that halts leaves a memory of the length it began with.
pub proof fn lemma_run_keeps_length(memory: Seq<i32>, pc: int)
    ensures
        match run_from(memory, pc) {
            Ok(cells) => cells.len() == memory.len(),
            Err(_) => true,
        },
    decreases memory.len() - pc,
{
    if in_bounds(memory, pc) && in_bounds(memory, pc + 3) && in_bounds(
        memory,
        memory[pc + 3] as int,
    ) {
        match operation_of(memory[pc] as int) {
            Some(operation) => {
                lemma_run_keeps_length(
                    memory.update(
                        memory[pc + 3] as int,
                        operation_result(
                            operation,
                            memory[memory[pc + 1] as int],
                            memory[memory[pc + 2] as int],
                        ),
                    ),
                    pc + 4,
                );
            },
            None => {},
        }
    }
}

/// Runs the program with noun 12 and verb 2.
pub fn part1(input: &[i32]) -> (result: Result<Vec<i32>, VmError>)
    ensures
        memory_matches(result, program_spec(input@, 12, 2)),
{
    let result: Vec<i32> = slice_to_vec(input);
    intcode_program(result, 12, 2)
}

/// A pair of parameters that makes the program leave the wanted value in
/// its first cell.
#[derive(Debug, Clone, Copy, PartialEq, Eq, Structural)]
pub struct Found {
    pub noun: i32,
    pub verb: i32,
    /// `100 * noun + verb`
    pub solution: i32,
}

/// The run with the pair of rank `rank`: the pairs `(noun, verb)` of
/// `0..=99` are ranked with the noun first, so that the pair of rank
/// `100 * noun + verb` follows all pairs with a smaller noun and all pairs
/// with the same noun and a smaller verb.
pub open spec fn ranked_run(memory: Seq<i32>, rank: int) -> Result<Seq<i32>, VmError> {
    program_spec(memory, (rank / 100) as i32, (rank % 100) as i32)
}

/// Whether the run with the pair of rank `rank` halts with `target` in the
/// first cell.
pub open spec fn hits(memory: Seq<i32>, target: i32, rank: int) -> bool {
    match ranked_run(memory, rank) {
        Ok(cells) => cells[0] == target,
        Err(_) => false,
    }
}

/// Whether the run with the pair of rank `rank` halts with another value
/// than `target` in the first cell.
pub open spec fn misses(memory: Seq<i32>, target: i32, rank: int) -> bool {
    match ranked_run(memory, rank) {
        Ok(cells) => cells[0] != target,
        Err(_) => false,
    }
}

/// Whether every pair of a rank below `rank` runs to a halt and misses
/// `target`.
pub open spec fn all_miss_before(memory: Seq<i32>, target: i32, rank: int) -> bool {
    forall|earlier: int| 0 <= earlier < rank ==> #[trigger] misses(memory, target, earlier)
}

/// What the search owes: the first pair in rank that hits, if all before
/// it ran and missed; the error of the first run that fails, if all before
/// it ran and missed; nothing, if all ten thousand pairs ran and missed.
pub open spec fn search_outcome(
    memory: Seq<i32>,
    target: i32,
    result: Result<Option<Found>, VmError>,
) -> bool {
    match result {
        Ok(Some(found)) => {
            &&& 0 <= found.noun <= 99
            &&& 0 <= found.verb <= 99
            &&& found.solution == 100 * found.noun + found.verb
            &&& hits(memory, target, found.solution as int)
            &&& all_miss_before(memory, target, found.solution as int)
        },
        Ok(None) => all_miss_before(memory, target, 10000),
        Err(e) => exists|rank: int|
            0 <= rank < 10000 && #[trigger] ranked_run(memory, rank) == Err::<Seq<i32>, VmError>(e)
                && all_miss_before(memory, target, rank),
    }
}

/// Tries every pair of noun and verb in `0..=99`, noun by noun and for
/// each noun verb by verb, both ascending, each on a copy of `input` of
/// its own, and stops at the first run that leaves `target` in the first
/// cell or that fails.
pub fn find_noun_verb(input: &[i32], target: i32) -> (result: Result<Option<Found>, VmError>)
    ensures
        search_outcome(input@, target, result),
{
    let mut noun: i32 = 0;
    while noun <= 99
        invariant
            0 <= noun <= 100,
            all_miss_before(input@, target, 100 * noun),
        decreases 100 - noun,
    {
        let mut verb: i32 = 0;
        while verb <= 99
            invariant
                0 <= noun <= 99,
                0 <= verb <= 100,
                all_miss_before(input@, target, 100 * noun + verb),
            decreases 100 - verb,
        {
            let copy: Vec<i32> = slice_to_vec(input);
            let ghost rank: int = 100 * noun + verb;
            assert(rank / 100 == noun && rank % 100 == verb);
            proof {
                if input@.len() >= 3 {
                    lemma_run_keeps_length(input@.update(1, noun).update(2, verb), 0);
                }
            }
            match intcode_program(copy, noun, verb) {
                Err(e) => {
                    assert(ranked_run(input@, rank) == Err::<Seq<i32>, VmError>(e));
                    return Err(e);
                },
                Ok(cells) => {
                    if cells[0] == target {
                        return Ok(Some(Found { noun, verb, solution: noun * 100 + verb }));
                    }
                },
            }
            assert(misses(input@, target, rank));
            verb += 1;
        }
        noun += 1;
    }
    Ok(None)
}

/// Searches for the pair that makes the program leave 19690720 in its
/// first cell.
pub fn part2(input: &[i32]) -> (result: Result<Option<Found>, VmError>)
    ensures
        search_outcome(input@, PART2_MISTERY_OUTPUT, result),
{
    find_noun_verb(input, PART2_MISTERY_OUTPUT)
}

/// The search has one answer only: two results that both meet what the
/// search owes are the same.
pub proof fn lemma_search_is_deterministic(
    memory: Seq<i32>,
    target: i32,
    first: Result<Option<Found>, VmError>,
    second: Result<Option<Found>, VmError>,
)
    requires
        search_outcome(memory, target, first),
        search_outcome(memory, target, second),
    ensures
        first == second,
{
    let first_rank = stopping_rank(memory, target, first);
    let second_rank = stopping_rank(memory, target, second);
    assert(all_miss_before(memory, target, first_rank));
    assert(all_miss_before(memory, target, second_rank));
    if first_rank < second_rank {
        assert(misses(memory, target, first_rank));
    } else if second_rank < first_rank {
        assert(misses(memory, target, second_rank));
    }
    assert(first_rank == second_rank);
    assert((100 * (first_rank / 100) + first_rank % 100) == first_rank);
}

/// The rank at which a search with this result stopped; 10000 where it
/// went through all pairs.
pub open spec fn stopping_rank(
    memory: Seq<i32>,
    target: i32,
    result: Result<Option<Found>, VmError>,
) -> int {
    match result {
        Ok(Some(found)) => found.solution as int,
        Ok(None) => 10000,
        Err(e) => choose|rank: int|
            0 <= rank < 10000 && #[trigger] ranked_run(memory, rank) == Err::<Seq<i32>, VmError>(e)
                && all_miss_before(memory, target, rank),
    }
}

/// Where exactly one pair hits and every other pair runs to a halt and
/// misses, the search finds that pair.
pub proof fn lemma_single_hit_is_found(
    memory: Seq<i32>,
    target: i32,
    rank: int,
    result: Result<Option<Found>, VmError>,
)
    requires
        0 <= rank < 10000,
        hits(memory, target, rank),
        forall|other: int|
            0 <= other < 10000 && other != rank ==> #[trigger] misses(memory, target, other),
        search_outcome(memory, target, result),
    ensures
        result == Ok::<Option<Found>, VmError>(
            Some(
                Found {
                    noun: (rank / 100) as i32,
                    verb: (rank % 100) as i32,
                    solution: rank as i32,
                },
            ),
        ),
{
    match result {
        Ok(Some(found)) => {
            if found.solution != rank {
                assert(misses(memory, target, found.solution as int));
            }
        },
        Ok(None) => {
            assert(misses(memory, target, rank));
        },
        Err(e) => {
            let failed = stopping_rank(memory, target, result);
            assert(!misses(memory, target, failed));
        },
    }
}

/// Reads the initial memory from the text of a program.
pub fn parse_input_day2(input: &str) -> (result: Result<Vec<i32>, VmError>)
    ensures
        memory_matches(result, program_of(input@)),
{
    parse_program(input)
}

} // verus!

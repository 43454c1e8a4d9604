//! Day 5: the Intcode machine with addressing modes, input and output.
//!
//! The memory is a fixed-length sequence of `i32` cells that holds program
//! and data alike. One cycle decodes the instruction at the program counter
//! and applies it. Sums and products that leave the range of a cell wrap
//! around. Input values are handed to the machine and output values are
//! handed back, so that the caller alone talks to the outside world.
use crate::machine::{
    memory_matches, parse_program, program_of, store_at, store_spec, trunc_div, trunc_rem, VmError,
};
use vstd::arithmetic::div_mod::{
    lemma_breakdown, lemma_div_denominator, lemma_fundamental_div_mod_converse_div,
};
use vstd::arithmetic::power::{lemma_pow_positive, pow};
use vstd::prelude::*;
use vstd::slice::slice_to_vec;

verus! {

/// The operations of the machine.
#[derive(Debug, Clone, Copy, PartialEq, Eq, Structural)]
pub enum Operation {
    Add,
    Mul,
    Ins,
    Out,
    Halt,
}

impl Operation {
    /// The number of argument cells that follow the instruction cell.
    pub open spec fn arity(self) -> nat {
        match self {
            Operation::Add => 3,
            Operation::Mul => 3,
            Operation::Ins => 1,
            Operation::Out => 1,
            Operation::Halt => 0,
        }
    }

    /// Whether the argument at `position` is an address to write to.
    pub open spec fn writes_to(self, position: int) -> bool {
        match self {
            Operation::Add => position == 2,
            Operation::Mul => position == 2,
            Operation::Ins => position == 0,
            Operation::Out => false,
            Operation::Halt => false,
        }
    }

    /// The operation that an opcode selects, if any.
    pub open spec fn of_opcode(opcode: int) -> Option<Operation> {
        if opcode == 1 {
            Some(Operation::Add)
        } else if opcode == 2 {
            Some(Operation::Mul)
        } else if opcode == 3 {
            Some(Operation::Ins)
        } else if opcode == 4 {
            Some(Operation::Out)
        } else if opcode == 99 {
            Some(Operation::Halt)
        } else {
            None
        }
    }

    /// Looks an opcode up in the catalog.
    pub fn from_opcode(opcode: i32) -> (result: Result<Operation, VmError>)
        ensures
            result == match Operation::of_opcode(opcode as int) {
                Some(operation) => Ok::<Operation, VmError>(operation),
                None => Err(VmError::UnknownOpcode(opcode)),
            },
    {
        match opcode {
            1 => Ok(Operation::Add),
            2 => Ok(Operation::Mul),
            3 => Ok(Operation::Ins),
            4 => Ok(Operation::Out),
            99 => Ok(Operation::Halt),
            _ => Err(VmError::UnknownOpcode(opcode)),
        }
    }

    /// The number of arguments of the operation.
    pub fn get_args_expected(&self) -> (count: usize)
        ensures
            count == self.arity(),
    {
        match self {
            Operation::Add => 3,
            Operation::Mul => 3,
            Operation::Ins => 1,
            Operation::Out => 1,
            Operation::Halt => 0,
        }
    }

    /// Whether the argument at `parameter_position` is a write target,
    /// which is taken as an address whatever its mode digit.
    pub fn is_write_parameter(&self, parameter_position: usize) -> (is_write: bool)
        ensures
            is_write == self.writes_to(parameter_position as int),
    {
        match self {
            Operation::Add => parameter_position == 2,
            Operation::Mul => parameter_position == 2,
            Operation::Ins => parameter_position == 0,
            Operation::Out => false,
            Operation::Halt => false,
        }
    }

    /// Applies the operation to `memory`. `input` is what the input source
    /// gave for this cycle, `None` if it had nothing; only `Ins` looks at
    /// it. Returns the new memory and the value to emit, if any.
    pub fn apply(&self, memory: Vec<i32>, args: Vec<i32>, input: Option<i32>) -> (result: Result<
        (Vec<i32>, Option<i32>),
        VmError,
    >)
        requires
            args@.len() == self.arity(),
        ensures
            effect_matches(result, effect_spec(*self, memory@, args@, input)),
    {
        match self {
            Operation::Add => match self::add(memory, args) {
                Ok(cells) => Ok((cells, None)),
                Err(e) => Err(e),
            },
            Operation::Mul => match self::mul(memory, args) {
                Ok(cells) => Ok((cells, None)),
                Err(e) => Err(e),
            },
            Operation::Ins => match input {
                Some(value) => match ins(memory, args, value) {
                    Ok(cells) => Ok((cells, None)),
                    Err(e) => Err(e),
                },
                None => Err(VmError::ExternalIOError),
            },
            Operation::Out => {
                let emitted: i32 = args[0];
                Ok((output(memory, args), Some(emitted)))
            },
            Operation::Halt => Ok((halt(memory, args), None)),
        }
    }
}

/// What one application does: the new memory and the value emitted.
pub open spec fn effect_spec(
    operation: Operation,
    memory: Seq<i32>,
    args: Seq<i32>,
    input: Option<i32>,
) -> Result<(Seq<i32>, Option<i32>), VmError> {
    match operation {
        Operation::Add => match store_spec(memory, args[2] as int, args[0].wrapping_add(args[1])) {
            Ok(cells) => Ok((cells, None)),
            Err(e) => Err(e),
        },
        Operation::Mul => match store_spec(memory, args[2] as int, args[0].wrapping_mul(args[1])) {
            Ok(cells) => Ok((cells, None)),
            Err(e) => Err(e),
        },
        Operation::Ins => match input {
            Some(value) => match store_spec(memory, args[0] as int, value) {
                Ok(cells) => Ok((cells, None)),
                Err(e) => Err(e),
            },
            None => Err(VmError::ExternalIOError),
        },
        Operation::Out => Ok((memory, Some(args[0]))),
        Operation::Halt => Ok((memory, None)),
    }
}

/// Whether an executable effect and its model agree.
pub open spec fn effect_matches(
    got: Result<(Vec<i32>, Option<i32>), VmError>,
    model: Result<(Seq<i32>, Option<i32>), VmError>,
) -> bool {
    match (got, model) {
        (Ok((cells, emitted)), Ok((expected, expected_emitted))) => cells@ == expected && emitted
            == expected_emitted,
        (Err(e), Err(expected)) => e == expected,
        _ => false,
    }
}

/// Stores the wrapping sum of the first two arguments at the third.
pub fn add(instructions: Vec<i32>, args: Vec<i32>) -> (result: Result<Vec<i32>, VmError>)
    requires
        args@.len() == 3,
    ensures
        memory_matches(
            result,
            store_spec(instructions@, args@[2] as int, args@[0].wrapping_add(args@[1])),
        ),
{
    let input1: i32 = args[0];
    let input2: i32 = args[1];
    store_at(instructions, args[2], input1.wrapping_add(input2))
}

/// Stores the wrapping product of the first two arguments at the third.
pub fn mul(instructions: Vec<i32>, args: Vec<i32>) -> (result: Result<Vec<i32>, VmError>)
    requires
        args@.len() == 3,
    ensures
        memory_matches(
            result,
            store_spec(instructions@, args@[2] as int, args@[0].wrapping_mul(args@[1])),
        ),
{
    let input1: i32 = args[0];
    let input2: i32 = args[1];
    store_at(instructions, args[2], input1.wrapping_mul(input2))
}

/// Stores `value`, which the input source gave, at the only argument.
pub fn ins(instructions: Vec<i32>, args: Vec<i32>, value: i32) -> (result: Result<
    Vec<i32>,
    VmError,
>)
    requires
        args@.len() == 1,
    ensures
        memory_matches(result, store_spec(instructions@, args@[0] as int, value)),
{
    store_at(instructions, args[0], value)
}

/// Leaves the memory as it is: the caller emits the argument.
pub fn output(instructions: Vec<i32>, args: Vec<i32>) -> (result: Vec<i32>)
    ensures
        result@ == instructions@,
{
    instructions
}

/// Leaves the memory as it is.
pub fn halt(instructions: Vec<i32>, _inputs: Vec<i32>) -> (result: Vec<i32>)
    ensures
        result@ == instructions@,
{
    instructions
}

/// The opcode of an instruction cell: its two lowest decimal digits.
pub open spec fn opcode_of(cell: int) -> int {
    trunc_rem(cell, 100)
}

/// The mode digits of an instruction cell after `count` of them were
/// taken off at the low end.
pub open spec fn modes_after(cell: int, count: nat) -> int
    decreases count,
{
    if count == 0 {
        trunc_div(cell, 100)
    } else {
        trunc_div(modes_after(cell, (count - 1) as nat), 10)
    }
}

/// The addressing mode of the argument at `position`.
pub open spec fn mode_digit(cell: int, position: nat) -> int {
    trunc_rem(modes_after(cell, position), 10)
}

/// The value handed to `operation` for the argument at `position` of the
/// instruction at `pc`.
pub open spec fn resolve_argument(
    memory: Seq<i32>,
    pc: int,
    operation: Operation,
    position: nat,
) -> Result<i32, VmError> {
    let at = pc + 1 + position;
    if !(0 <= at < memory.len()) {
        Err(VmError::MalformedInstruction)
    } else {
        let raw = memory[at];
        let mode = mode_digit(memory[pc] as int, position);
        if operation.writes_to(position as int) {
            Ok(raw)
        } else if mode == 0 {
            if 0 <= raw < memory.len() {
                Ok(memory[raw as int])
            } else {
                Err(VmError::MalformedInstruction)
            }
        } else if mode == 1 {
            Ok(raw)
        } else {
            Err(VmError::InvalidAddressingMode(mode as i32))
        }
    }
}

/// The first `count` arguments, resolved from left to right; the first
/// one that fails decides the error.
pub open spec fn resolve_arguments(
    memory: Seq<i32>,
    pc: int,
    operation: Operation,
    count: nat,
) -> Result<Seq<i32>, VmError>
    decreases count,
{
    if count == 0 {
        Ok(Seq::empty())
    } else {
        match resolve_arguments(memory, pc, operation, (count - 1) as nat) {
            Err(e) => Err(e),
            Ok(earlier) => match resolve_argument(memory, pc, operation, (count - 1) as nat) {
                Err(e) => Err(e),
                Ok(value) => Ok(earlier.push(value)),
            },
        }
    }
}

/// The instruction at `pc`: its operation, its resolved arguments and the
/// offset of the instruction after it.
pub open spec fn decode_spec(memory: Seq<i32>, pc: int) -> Result<
    (Operation, Seq<i32>, int),
    VmError,
> {
    if !(0 <= pc < memory.len()) {
        Err(VmError::MalformedInstruction)
    } else {
        match Operation::of_opcode(opcode_of(memory[pc] as int)) {
            None => Err(VmError::UnknownOpcode(opcode_of(memory[pc] as int) as i32)),
            Some(operation) => match resolve_arguments(memory, pc, operation, operation.arity()) {
                Err(e) => Err(e),
                Ok(args) => Ok((operation, args, pc + 1 + operation.arity())),
            },
        }
    }
}

/// Whether a decoded instruction and its model agree.
pub open spec fn decoded_matches(
    got: Result<(Operation, Vec<i32>, usize), VmError>,
    model: Result<(Operation, Seq<i32>, int), VmError>,
) -> bool {
    match (got, model) {
        (Ok((operation, args, next)), Ok((expected, expected_args, expected_next))) => operation
            == expected && args@ == expected_args && next == expected_next,
        (Err(e), Err(expected)) => e == expected,
        _ => false,
    }
}

/// An error among the first arguments is the error of any longer prefix.
pub proof fn lemma_first_failure_decides(
    memory: Seq<i32>,
    pc: int,
    operation: Operation,
    failed: nat,
    count: nat,
)
    requires
        failed <= count,
        resolve_arguments(memory, pc, operation, failed) is Err,
    ensures
        resolve_arguments(memory, pc, operation, count) == resolve_arguments(
            memory,
            pc,
            operation,
            failed,
        ),
    decreases count,
{
    if failed < count {
        lemma_first_failure_decides(memory, pc, operation, failed, (count - 1) as nat);
    }
}

/// Every successful resolution yields one value for each argument.
pub proof fn lemma_resolved_length(memory: Seq<i32>, pc: int, operation: Operation, count: nat)
    ensures
        match resolve_arguments(memory, pc, operation, count) {
            Ok(args) => args.len() == count,
            Err(_) => true,
        },
    decreases count,
{
    if count > 0 {
        lemma_resolved_length(memory, pc, operation, (count - 1) as nat);
    }
}

/// Decodes the instruction at `progress` without touching the memory.
pub fn read_arguments(inputs: &Vec<i32>, progress: usize) -> (result: Result<
    (Operation, Vec<i32>, usize),
    VmError,
>)
    ensures
        decoded_matches(result, decode_spec(inputs@, progress as int)),
{
    if progress >= inputs.len() {
        return Err(VmError::MalformedInstruction);
    }
    // hole contains opcode + instruction mode
    let hole: i32 = inputs[progress];
    let opcode: i32 = hole % 100;
    let mut instruction_modes: i32 = hole / 100;
    let operation: Operation = match Operation::from_opcode(opcode) {
        Ok(operation) => operation,
        Err(e) => {
            return Err(e);
        },
    };
    let args_expected: usize = operation.get_args_expected();
    let mut position: usize = 0;
    let mut res: Vec<i32> = Vec::new();
    while position < args_expected
        invariant
            progress < inputs.len(),
            hole == inputs@[progress as int],
            Operation::of_opcode(opcode_of(hole as int)) == Some(operation),
            args_expected == operation.arity(),
            position <= args_expected,
            instruction_modes == modes_after(hole as int, position as nat),
            resolve_arguments(inputs@, progress as int, operation, position as nat) == Ok::<
                Seq<i32>,
                VmError,
            >(res@),
        decreases args_expected - position,
    {
        let mode: i32 = instruction_modes % 10;
        let ghost before = resolve_arguments(inputs@, progress as int, operation, position as nat);
        assert(resolve_arguments(inputs@, progress as int, operation, (position + 1) as nat)
            == match before {
            Err(e) => Err::<Seq<i32>, VmError>(e),
            Ok(earlier) => match resolve_argument(
                inputs@,
                progress as int,
                operation,
                position as nat,
            ) {
                Err(e) => Err(e),
                Ok(value) => Ok(earlier.push(value)),
            },
        });
        proof {
            if resolve_argument(inputs@, progress as int, operation, position as nat) is Err {
                lemma_first_failure_decides(
                    inputs@,
                    progress as int,
                    operation,
                    (position + 1) as nat,
                    args_expected as nat,
                );
            }
        }
        if position >= inputs.len() - progress - 1 {
            return Err(VmError::MalformedInstruction);
        }
        let input: i32 = inputs[progress + 1 + position];
        if operation.is_write_parameter(position) {
            res.push(input);
        } else if mode == 0 {
            if input < 0 || input as usize >= inputs.len() {
                return Err(VmError::MalformedInstruction);
            }
            res.push(inputs[input as usize]);
        } else if mode == 1 {
            res.push(input);
        } else {
            return Err(VmError::InvalidAddressingMode(mode));
        }
        position += 1;
        instruction_modes = instruction_modes / 10;
    }
    Ok((operation, res, progress + args_expected + 1))
}

/// What one cycle leaves behind.
#[derive(Debug)]
pub struct Cycle {
    /// The memory after the cycle.
    pub memory: Vec<i32>,
    /// The offset of the next instruction, or `None` once the machine has
    /// halted.
    pub next: Option<usize>,
    /// The value that the cycle emits, if it emits one.
    pub emitted: Option<i32>,
}

/// Whether the instruction at `pc` decodes to a request for input.
pub open spec fn wants_input_spec(memory: Seq<i32>, pc: int) -> bool {
    match decode_spec(memory, pc) {
        Ok((operation, _, _)) => operation == Operation::Ins,
        Err(_) => false,
    }
}

/// One decode-and-apply cycle at `pc`: the new memory, the next offset
/// (`None` on halt) and the value emitted.
pub open spec fn cycle_spec(memory: Seq<i32>, pc: int, input: Option<i32>) -> Result<
    (Seq<i32>, Option<int>, Option<i32>),
    VmError,
> {
    match decode_spec(memory, pc) {
        Err(e) => Err(e),
        Ok((operation, args, next)) => if operation == Operation::Halt {
            Ok((memory, None, None))
        } else {
            match effect_spec(operation, memory, args, input) {
                Err(e) => Err(e),
                Ok((cells, emitted)) => Ok((cells, Some(next), emitted)),
            }
        },
    }
}

/// What the input source hands to the cycle at `pc`, when `fed` values of
/// `feed` were consumed before it.
pub open spec fn input_for(memory: Seq<i32>, pc: int, feed: Seq<i32>, fed: nat) -> Option<i32> {
    if wants_input_spec(memory, pc) && fed < feed.len() {
        Some(feed[fed as int])
    } else {
        None
    }
}

/// The run from `pc` on: the final memory and everything emitted, in
/// order, after `emitted`.
pub open spec fn run_spec(
    memory: Seq<i32>,
    pc: int,
    feed: Seq<i32>,
    fed: nat,
    emitted: Seq<i32>,
) -> Result<(Seq<i32>, Seq<i32>), VmError>
    decreases memory.len() - pc,
{
    match cycle_spec(memory, pc, input_for(memory, pc, feed, fed)) {
        Err(e) => Err(e),
        Ok((cells, next, out)) => match next {
            None => Ok((cells, emitted)),
            Some(next_pc) => run_spec(
                cells,
                next_pc,
                feed,
                if wants_input_spec(memory, pc) {
                    fed + 1
                } else {
                    fed
                },
                match out {
                    Some(value) => emitted.push(value),
                    None => emitted,
                },
            ),
        },
    }
}

/// Whether the instruction at `pc` asks for a value from the input source.
pub fn wants_input(memory: &Vec<i32>, pc: usize) -> (wanted: bool)
    ensures
        wanted == wants_input_spec(memory@, pc as int),
{
    match read_arguments(memory, pc) {
        Ok((operation, _, _)) => operation == Operation::Ins,
        Err(_) => false,
    }
}

/// Runs one cycle: decodes the instruction at `pc` and applies it. A halt
/// hands the memory back untouched.
pub fn cycle(memory: Vec<i32>, pc: usize, input: Option<i32>) -> (result: Result<Cycle, VmError>)
    ensures
        match (result, cycle_spec(memory@, pc as int, input)) {
            (Ok(after), Ok((cells, next, emitted))) => {
                &&& after.memory@ == cells
                &&& after.emitted == emitted
                &&& match (after.next, next) {
                    (Some(offset), Some(expected)) => offset == expected,
                    (None, None) => true,
                    _ => false,
                }
            },
            (Err(e), Err(expected)) => e == expected,
            _ => false,
        },
{
    let (operation, args, next) = match read_arguments(&memory, pc) {
        Ok(decoded) => decoded,
        Err(e) => {
            return Err(e);
        },
    };
    proof {
        lemma_resolved_length(memory@, pc as int, operation, operation.arity());
    }
    match operation {
        Operation::Halt => Ok(Cycle { memory, next: None, emitted: None }),
        _ => match operation.apply(memory, args, input) {
            Ok((cells, emitted)) => Ok(Cycle { memory: cells, next: Some(next), emitted }),
            Err(e) => Err(e),
        },
    }
}

/// The outcome of a run that halted.
#[derive(Debug)]
pub struct Execution {
    /// The memory as the halt found it.
    pub memory: Vec<i32>,
    /// The values emitted, in order.
    pub output: Vec<i32>,
}

/// Runs the program in `input` from offset 0 until it halts. Each input
/// instruction takes the next value of `feed`; one that finds `feed` used
/// up fails with `ExternalIOError`.
pub fn intcode_program(input: Vec<i32>, feed: Vec<i32>) -> (result: Result<Execution, VmError>)
    ensures
        match (result, run_spec(input@, 0, feed@, 0, Seq::empty())) {
            (Ok(done), Ok((cells, emitted))) => done.memory@ == cells && done.output@ == emitted,
            (Err(e), Err(expected)) => e == expected,
            _ => false,
        },
{
    let ghost start = input@;
    let mut memory: Vec<i32> = input;
    let mut output: Vec<i32> = Vec::new();
    let mut line_start_index: usize = 0;
    let mut fed: usize = 0;
    loop
        invariant
            start == input@,
            fed <= feed@.len(),
            run_spec(start, 0, feed@, 0, Seq::empty()) == run_spec(
                memory@,
                line_start_index as int,
                feed@,
                fed as nat,
                output@,
            ),
        decreases memory@.len() - line_start_index,
    {
        let wanted = wants_input(&memory, line_start_index);
        let given: Option<i32> = if wanted && fed < feed.len() {
            Some(feed[fed])
        } else {
            None
        };
        let ghost before = memory@;
        match cycle(memory, line_start_index, given) {
            Err(e) => {
                return Err(e);
            },
            Ok(after) => {
                memory = after.memory;
                match after.next {
                    None => {
                        return Ok(Execution { memory, output });
                    },
                    Some(new_index) => {
                        proof {
                            lemma_cycle_advances(before, line_start_index as int, given);
                        }
                        line_start_index = new_index;
                        if wanted {
                            fed += 1;
                        }
                        match after.emitted {
                            Some(value) => {
                                output.push(value);
                            },
                            None => {},
                        }
                    },
                }
            },
        }
    }
}

/// A cycle that does not halt keeps the memory's length and moves the
/// program counter forward, by one cell and the operation's arguments.
pub proof fn lemma_cycle_advances(memory: Seq<i32>, pc: int, input: Option<i32>)
    ensures
        match cycle_spec(memory, pc, input) {
            Ok((cells, Some(next), _)) => {
                &&& cells.len() == memory.len()
                &&& pc < next <= memory.len()
                &&& match decode_spec(memory, pc) {
                    Ok((operation, _, _)) => next == pc + 1 + operation.arity(),
                    Err(_) => false,
                }
                &&& (input is None ==> !wants_input_spec(memory, pc))
            },
            _ => true,
        },
{
    match decode_spec(memory, pc) {
        Ok((operation, args, next)) => {
            lemma_resolved_length(memory, pc, operation, operation.arity());
        },
        Err(_) => {},
    }
}

/// A run that halts leaves a memory of the length it began with, and what
/// was emitted before stays at the front of what it emits.
pub proof fn lemma_run_keeps_length(
    memory: Seq<i32>,
    pc: int,
    feed: Seq<i32>,
    fed: nat,
    emitted: Seq<i32>,
)
    ensures
        match run_spec(memory, pc, feed, fed, emitted) {
            Ok((cells, output)) => {
                &&& cells.len() == memory.len()
                &&& emitted.len() <= output.len()
                &&& output.subrange(0, emitted.len() as int) == emitted
            },
            Err(_) => true,
        },
    decreases memory.len() - pc,
{
    let input = input_for(memory, pc, feed, fed);
    lemma_cycle_advances(memory, pc, input);
    match cycle_spec(memory, pc, input) {
        Ok((cells, Some(next), out)) => {
            let later = match out {
                Some(value) => emitted.push(value),
                None => emitted,
            };
            let consumed = if wants_input_spec(memory, pc) {
                fed + 1
            } else {
                fed
            };
            lemma_run_keeps_length(cells, next, feed, consumed, later);
            match run_spec(cells, next, feed, consumed, later) {
                Ok((_, output)) => {
                    assert(output.subrange(0, emitted.len() as int) =~= output.subrange(
                        0,
                        later.len() as int,
                    ).subrange(0, emitted.len() as int));
                },
                Err(_) => {},
            }
        },
        Ok((cells, None, _)) => {
            assert(emitted.subrange(0, emitted.len() as int) =~= emitted);
        },
        Err(_) => {},
    }
}

/// For an instruction cell that is not negative, the addressing mode of
/// the argument at `position` is the decimal digit of that position in
/// the cell without its two lowest digits.
pub proof fn lemma_mode_digit_is_decimal_digit(cell: int, position: nat)
    requires
        0 <= cell,
    ensures
        pow(10, position) > 0,
        modes_after(cell, position) == (cell / 100) / pow(10, position),
        mode_digit(cell, position) == ((cell / 100) % pow(10, position + 1)) / pow(10, position),
        0 <= mode_digit(cell, position) <= 9,
    decreases position,
{
    let modes = cell / 100;
    let unit = pow(10, position);
    lemma_pow_positive(10, position);
    reveal(pow);
    if position > 0 {
        lemma_mode_digit_is_decimal_digit(cell, (position - 1) as nat);
        let below = pow(10, (position - 1) as nat);
        lemma_div_denominator(modes, below, 10);
        assert(below * 10 == unit) by (nonlinear_arith)
            requires
                unit == 10 * below,
        ;
    }
    assert(modes_after(cell, position) == modes / unit);
    assert(modes / unit >= 0) by (nonlinear_arith)
        requires
            modes >= 0,
            unit > 0,
    ;
    lemma_breakdown(modes, unit, 10);
    assert(pow(10, position + 1) == unit * 10) by {
        assert(pow(10, position + 1) == 10 * pow(10, position));
        assert(10 * unit == unit * 10) by (nonlinear_arith);
    }
    let digit = (modes / unit) % 10;
    let rest = modes % unit;
    assert(modes % (unit * 10) == unit * digit + rest);
    assert(unit * digit == digit * unit) by (nonlinear_arith);
    lemma_fundamental_div_mod_converse_div(digit * unit + rest, unit, digit, rest);
}

/// The exact sum or product that an arithmetic operation is meant to
/// store.
pub open spec fn exact_result(operation: Operation, left: i32, right: i32) -> int {
    if operation == Operation::Mul {
        left * right
    } else {
        left + right
    }
}

/// An addition or a multiplication whose exact result fits in a cell
/// stores that very result at its third argument, changes no other cell,
/// emits nothing and moves the program counter on by four cells.
pub proof fn lemma_arithmetic_is_exact(
    memory: Seq<i32>,
    pc: int,
    input: Option<i32>,
    operation: Operation,
    args: Seq<i32>,
    next: int,
)
    requires
        decode_spec(memory, pc) == Ok::<(Operation, Seq<i32>, int), VmError>(
            (operation, args, next),
        ),
        operation == Operation::Add || operation == Operation::Mul,
        0 <= args[2] < memory.len(),
        i32::MIN <= exact_result(operation, args[0], args[1]) <= i32::MAX,
    ensures
        cycle_spec(memory, pc, input) == Ok::<(Seq<i32>, Option<int>, Option<i32>), VmError>(
            (
                memory.update(args[2] as int, exact_result(operation, args[0], args[1]) as i32),
                Some(pc + 4),
                None,
            ),
        ),
{
    let product: int = args[0] * args[1];
    if operation == Operation::Mul {
        assert(vstd::wrapping::i32_specs::signed_crop(product) == product);
    }
}

/// A halt leaves the memory exactly as the cycle found it, and ends the
/// run there with nothing more emitted.
pub proof fn lemma_halt_keeps_memory(
    memory: Seq<i32>,
    pc: int,
    feed: Seq<i32>,
    fed: nat,
    emitted: Seq<i32>,
    input: Option<i32>,
)
    requires
        0 <= pc < memory.len(),
        opcode_of(memory[pc] as int) == 99,
    ensures
        cycle_spec(memory, pc, input) == Ok::<(Seq<i32>, Option<int>, Option<i32>), VmError>(
            (memory, None, None),
        ),
        run_spec(memory, pc, feed, fed, emitted) == Ok::<(Seq<i32>, Seq<i32>), VmError>(
            (memory, emitted),
        ),
{
    assert(resolve_arguments(memory, pc, Operation::Halt, 0) == Ok::<Seq<i32>, VmError>(
        Seq::empty(),
    ));
}

/// Whatever stops the decoder or the effect stops the run, with the same
/// error: no failure is turned into a result.
pub proof fn lemma_failure_ends_run(
    memory: Seq<i32>,
    pc: int,
    feed: Seq<i32>,
    fed: nat,
    emitted: Seq<i32>,
)
    requires
        cycle_spec(memory, pc, input_for(memory, pc, feed, fed)) is Err,
    ensures
        match (run_spec(memory, pc, feed, fed, emitted), cycle_spec(
            memory,
            pc,
            input_for(memory, pc, feed, fed),
        )) {
            (Err(e), Err(expected)) => e == expected,
            _ => false,
        },
{
}

/// A program counter outside the memory is a malformed instruction, for
/// the decoder, the cycle and the run alike.
pub proof fn lemma_counter_out_of_bounds(
    memory: Seq<i32>,
    pc: int,
    feed: Seq<i32>,
    fed: nat,
    emitted: Seq<i32>,
    input: Option<i32>,
)
    requires
        pc < 0 || pc >= memory.len(),
    ensures
        decode_spec(memory, pc) == Err::<(Operation, Seq<i32>, int), VmError>(
            VmError::MalformedInstruction,
        ),
        cycle_spec(memory, pc, input) == Err::<(Seq<i32>, Option<int>, Option<i32>), VmError>(
            VmError::MalformedInstruction,
        ),
        run_spec(memory, pc, feed, fed, emitted) == Err::<(Seq<i32>, Seq<i32>), VmError>(
            VmError::MalformedInstruction,
        ),
{
}

/// An instruction whose argument cells do not all lie in the memory is
/// malformed, unless an earlier argument has already failed otherwise.
pub proof fn lemma_argument_out_of_bounds(memory: Seq<i32>, pc: int, operation: Operation)
    requires
        0 <= pc < memory.len(),
        Operation::of_opcode(opcode_of(memory[pc] as int)) == Some(operation),
        pc + operation.arity() >= memory.len(),
    ensures
        decode_spec(memory, pc) is Err,
        (forall|position: nat|
            position < operation.arity() && pc + 1 + position < memory.len()
                ==> #[trigger] resolve_argument(memory, pc, operation, position) is Ok)
            ==> decode_spec(memory, pc) == Err::<(Operation, Seq<i32>, int), VmError>(
            VmError::MalformedInstruction,
        ),
{
    let arity = operation.arity();
    let missing: nat = (memory.len() - pc - 1) as nat;
    assert(resolve_argument(memory, pc, operation, missing) == Err::<i32, VmError>(
        VmError::MalformedInstruction,
    ));
    assert(resolve_arguments(memory, pc, operation, missing + 1) is Err);
    lemma_first_failure_decides(memory, pc, operation, missing + 1, arity);
    if forall|position: nat|
        position < operation.arity() && pc + 1 + position < memory.len()
            ==> #[trigger] resolve_argument(memory, pc, operation, position) is Ok {
        lemma_prefix_resolves(memory, pc, operation, missing);
    }
}

/// Where each of the first `count` arguments resolves, so do all of them
/// together.
pub proof fn lemma_prefix_resolves(memory: Seq<i32>, pc: int, operation: Operation, count: nat)
    requires
        forall|position: nat|
            position < count ==> #[trigger] resolve_argument(memory, pc, operation, position) is Ok,
    ensures
        resolve_arguments(memory, pc, operation, count) is Ok,
    decreases count,
{
    if count > 0 {
        lemma_prefix_resolves(memory, pc, operation, (count - 1) as nat);
    }
}

/// An argument that is read through an address outside the memory makes
/// the instruction malformed, where the arguments before it resolve.
pub proof fn lemma_operand_address_out_of_bounds(
    memory: Seq<i32>,
    pc: int,
    operation: Operation,
    position: nat,
)
    requires
        0 <= pc < memory.len(),
        Operation::of_opcode(opcode_of(memory[pc] as int)) == Some(operation),
        position < operation.arity(),
        pc + 1 + position < memory.len(),
        !operation.writes_to(position as int),
        mode_digit(memory[pc] as int, position) == 0,
        memory[pc + 1 + position] < 0 || memory[pc + 1 + position] >= memory.len(),
        resolve_arguments(memory, pc, operation, position) is Ok,
    ensures
        decode_spec(memory, pc) == Err::<(Operation, Seq<i32>, int), VmError>(
            VmError::MalformedInstruction,
        ),
{
    assert(resolve_arguments(memory, pc, operation, position + 1) == Err::<Seq<i32>, VmError>(
        VmError::MalformedInstruction,
    ));
    lemma_first_failure_decides(memory, pc, operation, position + 1, operation.arity());
}

/// An instruction that writes to an address outside the memory fails the
/// cycle as malformed; where it is an input instruction, once it was
/// given its input.
pub proof fn lemma_write_address_out_of_bounds(
    memory: Seq<i32>,
    pc: int,
    input: Option<i32>,
    operation: Operation,
    args: Seq<i32>,
    next: int,
)
    requires
        decode_spec(memory, pc) == Ok::<(Operation, Seq<i32>, int), VmError>(
            (operation, args, next),
        ),
        operation == Operation::Add || operation == Operation::Mul || (operation
            == Operation::Ins && input is Some),
        args.last() < 0 || args.last() >= memory.len(),
    ensures
        cycle_spec(memory, pc, input) == Err::<(Seq<i32>, Option<int>, Option<i32>), VmError>(
            VmError::MalformedInstruction,
        ),
{
    lemma_resolved_length(memory, pc, operation, operation.arity());
}

/// An address outside the memory is a malformed instruction: the store
/// fails, and the memory is not written to at any wrapped or clipped
/// place.
pub proof fn lemma_address_out_of_bounds(memory: Seq<i32>, address: int, value: i32)
    requires
        address < 0 || address >= memory.len(),
    ensures
        store_spec(memory, address, value) == Err::<Seq<i32>, VmError>(
            VmError::MalformedInstruction,
        ),
{
}

/// An opcode that the catalog does not hold fails the decoder, the cycle
/// and the run with `UnknownOpcode` and that opcode: it is neither a halt
/// nor skipped.
pub proof fn lemma_unknown_opcode(
    memory: Seq<i32>,
    pc: int,
    feed: Seq<i32>,
    fed: nat,
    emitted: Seq<i32>,
    input: Option<i32>,
)
    requires
        0 <= pc < memory.len(),
        Operation::of_opcode(opcode_of(memory[pc] as int)) is None,
    ensures
        decode_spec(memory, pc) == Err::<(Operation, Seq<i32>, int), VmError>(
            VmError::UnknownOpcode(opcode_of(memory[pc] as int) as i32),
        ),
        cycle_spec(memory, pc, input) == Err::<(Seq<i32>, Option<int>, Option<i32>), VmError>(
            VmError::UnknownOpcode(opcode_of(memory[pc] as int) as i32),
        ),
        run_spec(memory, pc, feed, fed, emitted) == Err::<(Seq<i32>, Seq<i32>), VmError>(
            VmError::UnknownOpcode(opcode_of(memory[pc] as int) as i32),
        ),
{
}

/// Reads the initial memory from the text of a program.
pub fn parse_input(input: &str) -> (result: Result<Vec<i32>, VmError>)
    ensures
        memory_matches(result, program_of(input@)),
{
    parse_program(input)
}

/// The memory with `val1` at `addr1` and then `val2` at `addr2`; an
/// address outside the memory is a malformed instruction.
pub open spec fn patch_spec(
    memory: Seq<i32>,
    addr1: int,
    val1: i32,
    addr2: int,
    val2: i32,
) -> Result<Seq<i32>, VmError> {
    match store_spec(memory, addr1, val1) {
        Ok(once) => store_spec(once, addr2, val2),
        Err(e) => Err(e),
    }
}

/// The run of a program after two of its cells were overwritten.
pub open spec fn patched_run_spec(
    memory: Seq<i32>,
    addr1: int,
    val1: i32,
    addr2: int,
    val2: i32,
    feed: Seq<i32>,
) -> Result<(Seq<i32>, Seq<i32>), VmError> {
    match patch_spec(memory, addr1, val1, addr2, val2) {
        Ok(patched) => run_spec(patched, 0, feed, 0, Seq::empty()),
        Err(e) => Err(e),
    }
}

/// Overwrites two cells of the program, the one at `addr1` first, and
/// then runs it as `intcode_program` does.
pub fn run_with_patch(
    initial_memory: Vec<i32>,
    addr1: usize,
    val1: i32,
    addr2: usize,
    val2: i32,
    feed: Vec<i32>,
) -> (result: Result<Execution, VmError>)
    ensures
        match (
            result,
            patched_run_spec(initial_memory@, addr1 as int, val1, addr2 as int, val2, feed@),
        ) {
            (Ok(done), Ok((cells, emitted))) => done.memory@ == cells && done.output@ == emitted,
            (Err(e), Err(expected)) => e == expected,
            _ => false,
        },
{
    let mut memory: Vec<i32> = initial_memory;
    if addr1 >= memory.len() || addr2 >= memory.len() {
        return Err(VmError::MalformedInstruction);
    }
    memory[addr1] = val1;
    memory[addr2] = val2;
    self::intcode_program(memory, feed)
}

/// Runs the program on a copy of `input`, which is left as it is.
pub fn part1(input: &[i32], feed: Vec<i32>) -> (result: Result<Execution, VmError>)
    ensures
        match (result, run_spec(input@, 0, feed@, 0, Seq::empty())) {
            (Ok(done), Ok((cells, emitted))) => done.memory@ == cells && done.output@ == emitted,
            (Err(e), Err(expected)) => e == expected,
            _ => false,
        },
{
    let result: Vec<i32> = slice_to_vec(input);
    self::intcode_program(result, feed)
}

} // verus!

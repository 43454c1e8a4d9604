//! What the Intcode machines of day 2 and day 5 share: the ways in which a
//! run can fail, the store into the memory, and the text of a program.
use crate::text::{i32_list_of, parse_i32_list};
use vstd::prelude::*;

verus! {

/// A fatal condition: the run that meets one ends there, with no result.
#[derive(Debug, Clone, Copy, PartialEq, Eq, Structural)]
pub enum VmError {
    /// The program counter, an argument cell, or an address that is read
    /// from or written to lies outside the memory.
    MalformedInstruction,
    /// The opcode of the instruction cell names no operation.
    UnknownOpcode(i32),
    /// A mode digit other than 0 (positional) or 1 (immediate) was met.
    InvalidAddressingMode(i32),
    /// The input source had no integer to give.
    ExternalIOError,
}

/// Quotient of `a` by a positive `b`, rounded towards zero.
pub open spec fn trunc_div(a: int, b: int) -> int {
    if a >= 0 {
        a / b
    } else {
        -((-a) / b)
    }
}

/// Remainder of `a` by a positive `b`, with the sign of `a`.
pub open spec fn trunc_rem(a: int, b: int) -> int {
    if a >= 0 {
        a % b
    } else {
        -((-a) % b)
    }
}

/// The cells of `memory` with the one at `address` replaced by `value`;
/// an address outside the memory is a malformed instruction.
pub open spec fn store_spec(memory: Seq<i32>, address: int, value: i32) -> Result<
    Seq<i32>,
    VmError,
> {
    if 0 <= address < memory.len() {
        Ok(memory.update(address, value))
    } else {
        Err(VmError::MalformedInstruction)
    }
}

/// Whether an executable result and its model agree.
pub open spec fn memory_matches(
    got: Result<Vec<i32>, VmError>,
    model: Result<Seq<i32>, VmError>,
) -> bool {
    match (got, model) {
        (Ok(cells), Ok(expected)) => cells@ == expected,
        (Err(e), Err(expected)) => e == expected,
        _ => false,
    }
}

/// Writes `value` at `address`, or fails where the address is no cell.
pub fn store_at(memory: Vec<i32>, address: i32, value: i32) -> (result: Result<Vec<i32>, VmError>)
    ensures
        memory_matches(result, store_spec(memory@, address as int, value)),
{
    let mut memory = memory;
    if address < 0 || address as usize >= memory.len() {
        return Err(VmError::MalformedInstruction);
    }
    memory[address as usize] = value;
    Ok(memory)
}

/// The memory that a program text seeds: decimal integers with a comma
/// between each two, and nothing else. Text that is not of this form is
/// an `ExternalIOError`.
pub open spec fn program_of(text: Seq<char>) -> Result<Seq<i32>, VmError> {
    match i32_list_of(text, ',') {
        Some(cells) => Ok(cells),
        None => Err(VmError::ExternalIOError),
    }
}

/// Reads the initial memory from the text of a program.
pub fn parse_program(input: &str) -> (result: Result<Vec<i32>, VmError>)
    ensures
        memory_matches(result, program_of(input@)),
{
    match parse_i32_list(input, ',') {
        Some(cells) => Ok(cells),
        None => Err(VmError::ExternalIOError),
    }
}

} // verus!

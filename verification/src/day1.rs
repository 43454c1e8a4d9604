//! Day 1: the fuel that a list of module masses asks for.
use crate::machine::trunc_div;
use crate::text::{i32_lines_of, parse_i32_lines};
use vstd::prelude::*;

verus! {

/// The fuel for one mass: a third of it, rounded towards zero, less two.
pub open spec fn fuel_spec(mass: int) -> int {
    trunc_div(mass, 3) - 2
}

/// The fuel that an amount of fuel asks for in turn, and that fuel again,
/// as long as the amount is positive.
pub open spec fn fuel_for_fuel_spec(fuel: int) -> int
    decreases fuel,
{
    if fuel_spec(fuel) <= 0 {
        0
    } else {
        fuel_spec(fuel) + fuel_for_fuel_spec(fuel_spec(fuel))
    }
}

/// The fuel for a module and for that fuel itself.
pub open spec fn module_total_spec(mass: int) -> int {
    fuel_spec(mass) + fuel_for_fuel_spec(fuel_spec(mass))
}

/// The sum of `fuel_spec` over the masses.
pub open spec fn fuel_sum(masses: Seq<i32>) -> int
    decreases masses.len(),
{
    if masses.len() == 0 {
        0
    } else {
        fuel_sum(masses.drop_last()) + fuel_spec(masses.last() as int)
    }
}

/// The sum of `module_total_spec` over the masses.
pub open spec fn total_sum(masses: Seq<i32>) -> int
    decreases masses.len(),
{
    if masses.len() == 0 {
        0
    } else {
        total_sum(masses.drop_last()) + module_total_spec(masses.last() as int)
    }
}

/// Whether the running sum of `fuel_spec` stays in the range of `i32`
/// after each of the masses.
pub open spec fn fuel_sums_fit(masses: Seq<i32>) -> bool {
    forall|count: int|
        0 <= count <= masses.len() ==> i32::MIN <= #[trigger] fuel_sum(masses.take(count))
            <= i32::MAX
}

/// Whether the running sum of `module_total_spec` stays in the range of
/// `i32` after each of the masses.
pub open spec fn total_sums_fit(masses: Seq<i32>) -> bool {
    forall|count: int|
        0 <= count <= masses.len() ==> i32::MIN <= #[trigger] total_sum(masses.take(count))
            <= i32::MAX
}

/// The fuel asked for by fuel is never negative and at most half the
/// amount it is asked for.
pub proof fn lemma_fuel_for_fuel_bounds(fuel: int)
    ensures
        0 <= fuel_for_fuel_spec(fuel),
        fuel >= 0 ==> 2 * fuel_for_fuel_spec(fuel) <= fuel,
    decreases fuel,
{
    if fuel_spec(fuel) > 0 {
        lemma_fuel_for_fuel_bounds(fuel_spec(fuel));
    }
}

/// Reads the masses, one on each line; `None` where a line is no `i32`.
pub fn parse_input_day1(input: &str) -> (result: Option<Vec<i32>>)
    ensures
        match (result, i32_lines_of(input@)) {
            (Some(values), Some(expected)) => values@ == expected,
            (None, None) => true,
            _ => false,
        },
{
    parse_i32_lines(input)
}

/// The fuel needed for one mass.
pub fn fuel_calculation(mass: i32) -> (fuel: i32)
    ensures
        fuel == fuel_spec(mass as int),
{
    mass / 3 - 2
}

/// The fuel needed to carry an amount of fuel, and the fuel for that fuel
/// in turn.
pub fn fuel_calculation_for_fuel(fuel: i32) -> (total: i32)
    ensures
        total == fuel_for_fuel_spec(fuel as int),
    decreases fuel,
{
    let mut res: i32 = fuel_calculation(fuel);
    if res <= 0 {
        return 0;
    } else {
        proof {
            lemma_fuel_for_fuel_bounds(res as int);
        }
        res += fuel_calculation_for_fuel(res)
    }
    return res;
}

/// The fuel for all modules, each taken by its mass alone.
pub fn part1(input: &[i32]) -> (total: i32)
    requires
        fuel_sums_fit(input@),
    ensures
        total == fuel_sum(input@),
{
    let mut total: i32 = 0;
    let mut index: usize = 0;
    while index < input.len()
        invariant
            index <= input@.len(),
            fuel_sums_fit(input@),
            total == fuel_sum(input@.take(index as int)),
        decreases input@.len() - index,
    {
        let fuel: i32 = fuel_calculation(input[index]);
        proof {
            assert(input@.take(index + 1).drop_last() == input@.take(index as int));
            assert(i32::MIN <= fuel_sum(input@.take(index + 1)) <= i32::MAX);
        }
        total = total + fuel;
        index += 1;
    }
    proof {
        assert(input@.take(index as int) == input@);
    }
    total
}

/// The fuel for all modules, each with the fuel that its fuel asks for.
pub fn part2(input: &[i32]) -> (total: i32)
    requires
        total_sums_fit(input@),
    ensures
        total == total_sum(input@),
{
    let mut total: i32 = 0;
    let mut index: usize = 0;
    while index < input.len()
        invariant
            index <= input@.len(),
            total_sums_fit(input@),
            total == total_sum(input@.take(index as int)),
        decreases input@.len() - index,
    {
        let fuel: i32 = fuel_calculation(input[index]);
        let more: i32 = fuel_calculation_for_fuel(fuel);
        proof {
            lemma_fuel_for_fuel_bounds(fuel as int);
            assert(input@.take(index + 1).drop_last() == input@.take(index as int));
            assert(i32::MIN <= total_sum(input@.take(index + 1)) <= i32::MAX);
        }
        total = total + (fuel + more);
        index += 1;
    }
    proof {
        assert(input@.take(index as int) == input@);
    }
    total
}

/// Whether `part1` can be asked for these masses: whether each running
/// sum fits.
pub fn part1_fits(input: &[i32]) -> (fits: bool)
    ensures
        fits == fuel_sums_fit(input@),
{
    let mut total: i32 = 0;
    let mut index: usize = 0;
    while index < input.len()
        invariant
            index <= input@.len(),
            total == fuel_sum(input@.take(index as int)),
            forall|count: int|
                0 <= count <= index ==> i32::MIN <= #[trigger] fuel_sum(input@.take(count))
                    <= i32::MAX,
        decreases input@.len() - index,
    {
        let fuel: i32 = fuel_calculation(input[index]);
        proof {
            assert(input@.take(index + 1).drop_last() == input@.take(index as int));
        }
        match total.checked_add(fuel) {
            Some(sum) => {
                total = sum;
            },
            None => {
                assert(!(i32::MIN <= fuel_sum(input@.take(index + 1)) <= i32::MAX));
                return false;
            },
        }
        index += 1;
    }
    true
}

/// Whether `part2` can be asked for these masses: whether each running
/// sum fits.
pub fn part2_fits(input: &[i32]) -> (fits: bool)
    ensures
        fits == total_sums_fit(input@),
{
    let mut total: i32 = 0;
    let mut index: usize = 0;
    while index < input.len()
        invariant
            index <= input@.len(),
            total == total_sum(input@.take(index as int)),
            forall|count: int|
                0 <= count <= index ==> i32::MIN <= #[trigger] total_sum(input@.take(count))
                    <= i32::MAX,
        decreases input@.len() - index,
    {
        let fuel: i32 = fuel_calculation(input[index]);
        let more: i32 = fuel_calculation_for_fuel(fuel);
        proof {
            lemma_fuel_for_fuel_bounds(fuel as int);
            assert(input@.take(index + 1).drop_last() == input@.take(index as int));
        }
        match total.checked_add(fuel + more) {
            Some(sum) => {
                total = sum;
            },
            None => {
                assert(!(i32::MIN <= total_sum(input@.take(index + 1)) <= i32::MAX));
                return false;
            },
        }
        index += 1;
    }
    true
}

} // verus!

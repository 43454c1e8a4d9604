//! Solutions to the first five days of Advent of Code 2019, with the
//! Intcode virtual machine at their centre.
pub mod day1;
pub mod day2;
pub mod day3;
pub mod day4;
pub mod day5;
pub mod machine;
pub mod text;

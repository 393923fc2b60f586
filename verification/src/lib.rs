//! Solvers for a set of daily puzzles, with the small parser-combinator
//! library that the expression puzzle is built on.
//!
//! Every function states what it computes over the characters of its input,
//! and Verus proves that it does.

pub mod day01;
pub mod day02;
pub mod day03;
pub mod day04;
pub mod day05;
pub mod day06;
pub mod day07;
pub mod day08;
pub mod day09;
pub mod day10;
pub mod day11;
pub mod day12;
pub mod day13;
pub mod day14;
pub mod day15;
pub mod day16;
pub mod day17;
pub mod day18;
pub mod either;
pub mod math;
pub mod parser_combinators;
pub mod text;

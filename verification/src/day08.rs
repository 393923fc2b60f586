//! A machine with one register that runs a program until it leaves it or
//! comes to an instruction for the second time.

use vstd::prelude::*;
use crate::text::{
    is_text, lemma_unvisited_update, lines, lines_spec, parse_all, parse_all_spec, parse_isize,
    signed_spec, texts, unvisited, words, words_spec,
};

verus! {

/// What the machine can be told to do.
#[derive(Debug, Clone, Copy)]
pub enum Instruction {
    /// Go on with the next instruction.
    Nop(isize),
    /// Add to the register and go on with the next instruction.
    Acc(isize),
    /// Go on with the instruction that many places further on.
    Jmp(isize),
}

impl Instruction {
    pub fn is_nop(&self) -> (b: bool)
        ensures
            b == (self is Nop),
    {
        match self {
            Instruction::Nop(_) => true,
            _ => false,
        }
    }

    pub fn is_jmp(&self) -> (b: bool)
        ensures
            b == (self is Jmp),
    {
        match self {
            Instruction::Jmp(_) => true,
            _ => false,
        }
    }

    /// The instruction that `s` states: one of the words `nop`, `acc` and
    /// `jmp`, followed by a number. What follows the number is passed over.
    pub open spec fn from_str_spec(s: Seq<char>) -> Option<Instruction> {
        let parts = words_spec(s);
        if parts.len() < 2 {
            None
        } else {
            match signed_spec(parts[1], isize::MIN as int, isize::MAX as int) {
                None => None,
                Some(value) => if parts[0] == "nop"@ {
                    Some(Instruction::Nop(value as isize))
                } else if parts[0] == "acc"@ {
                    Some(Instruction::Acc(value as isize))
                } else if parts[0] == "jmp"@ {
                    Some(Instruction::Jmp(value as isize))
                } else {
                    None
                },
            }
        }
    }

    pub fn from_str(s: &Vec<char>) -> (r: Option<Instruction>)
        ensures
            r == Instruction::from_str_spec(s@),
    {
        let parts = words(s);
        if parts.len() < 2 {
            return None;
        }
        assert(texts(parts@)[0] == parts@[0]@);
        assert(texts(parts@)[1] == parts@[1]@);
        let value = match parse_isize(&parts[1]) {
            Some(value) => value,
            None => {
                return None;
            },
        };
        if is_text(&parts[0], "nop") {
            Some(Instruction::Nop(value))
        } else if is_text(&parts[0], "acc") {
            Some(Instruction::Acc(value))
        } else if is_text(&parts[0], "jmp") {
            Some(Instruction::Jmp(value))
        } else {
            None
        }
    }
}

/// Why the machine stopped.
#[derive(Debug, Clone, Copy, PartialEq, Eq)]
pub enum HaltStatus {
    /// It left the program.
    Done,
    /// It came to an instruction for the second time.
    InfiniteLoop,
}

/// Where the machine goes on and what the register holds, after the
/// instruction at `ip` with `acc` in the register. Nothing where one of the
/// two does not fit the machine's numbers.
pub open spec fn step_spec(instruction: Instruction, ip: nat, acc: isize) -> Option<(int, isize)> {
    let (next, value) = match instruction {
        Instruction::Jmp(offset) => (ip + offset, acc as int),
        Instruction::Acc(change) => (ip as int + 1, acc + change),
        Instruction::Nop(_) => (ip as int + 1, acc as int),
    };
    if next <= isize::MAX && isize::MIN <= value <= isize::MAX {
        Some((next, value as isize))
    } else {
        None
    }
}

/// How the machine ends, from the instruction at `ip` on with `acc` in the
/// register and the instructions in `visited` behind it, and what the
/// register then holds. It ends where it leaves the program, at either end,
/// and where it comes to an instruction for the second time, which it does
/// not carry out again.
pub open spec fn run_spec(program: Seq<Instruction>, ip: nat, acc: isize, visited: Seq<bool>) -> Option<
    (HaltStatus, isize),
>
    decreases unvisited(visited),
{
    if ip >= program.len() || visited.len() != program.len() {
        Some((HaltStatus::Done, acc))
    } else {
        match step_spec(program[ip as int], ip, acc) {
            None => None,
            Some((next, value)) => if visited[ip as int] {
                Some((HaltStatus::InfiniteLoop, acc))
            } else if next < 0 {
                Some((HaltStatus::Done, value))
            } else {
                proof {
                    lemma_unvisited_update(visited, ip as int);
                }
                run_spec(program, next as nat, value, visited.update(ip as int, true))
            },
        }
    }
}

/// The machine: its register, its program and the place it is at.
pub struct VM {
    pub acc: isize,
    pub instructions: Vec<Instruction>,
    pub ip: usize,
}

/// No instruction visited, for a program of the length `n`.
pub open spec fn none_visited(n: nat) -> Seq<bool> {
    Seq::new(n, |i: int| false)
}

impl VM {
    pub fn new(instructions: Vec<Instruction>) -> (vm: Self)
        ensures
            vm.acc == 0,
            vm.ip == 0,
            vm.instructions == instructions,
    {
        VM { acc: 0, instructions, ip: 0 }
    }

    /// Runs the machine from where it is until it stops, and says why it
    /// stopped. Nothing where a number did not fit on the way.
    pub fn run_until_done_or_infinite_loop(&mut self) -> (status: Option<HaltStatus>)
        ensures
            final(self).instructions == old(self).instructions,
            match status {
                Some(status) => run_spec(
                    old(self).instructions@,
                    old(self).ip as nat,
                    old(self).acc,
                    none_visited(old(self).instructions@.len()),
                ) == Some((status, final(self).acc)),
                None => run_spec(
                    old(self).instructions@,
                    old(self).ip as nat,
                    old(self).acc,
                    none_visited(old(self).instructions@.len()),
                ) is None,
            },
    {
        let ghost program = self.instructions@;
        let ghost start = run_spec(
            program,
            self.ip as nat,
            self.acc,
            none_visited(self.instructions@.len()),
        );
        let mut visited: Vec<bool> = Vec::new();
        let mut k: usize = 0;
        while k < self.instructions.len()
            invariant
                k <= self.instructions.len(),
                visited@ == none_visited(k as nat),
            decreases self.instructions.len() - k,
        {
            visited.push(false);
            assert(visited@ =~= none_visited((k + 1) as nat));
            k += 1;
        }
        while self.ip < self.instructions.len()
            invariant
                self.instructions@ == program,
                self.instructions == old(self).instructions,
                visited@.len() == program.len(),
                start == run_spec(
                    old(self).instructions@,
                    old(self).ip as nat,
                    old(self).acc,
                    none_visited(old(self).instructions@.len()),
                ),
                start == run_spec(program, self.ip as nat, self.acc, visited@),
            decreases unvisited(visited@),
        {
            let ip = self.ip;
            let (next, value): (i128, i128) = match self.instructions[ip] {
                Instruction::Jmp(offset) => (ip as i128 + offset as i128, self.acc as i128),
                Instruction::Acc(change) => (ip as i128 + 1, self.acc as i128 + change as i128),
                Instruction::Nop(_) => (ip as i128 + 1, self.acc as i128),
            };
            if next > isize::MAX as i128 || value < isize::MIN as i128 || value
                > isize::MAX as i128 {
                return None;
            }
            if visited[ip] {
                return Some(HaltStatus::InfiniteLoop);
            }
            proof {
                lemma_unvisited_update(visited@, ip as int);
            }
            visited.set(ip, true);
            self.acc = value as isize;
            if next < 0 {
                self.ip = self.instructions.len();
                return Some(HaltStatus::Done);
            }
            self.ip = next as usize;
        }
        Some(HaltStatus::Done)
    }
}

/// [`Instruction::from_str_spec`] as a value.
pub open spec fn instruction_fn() -> spec_fn(Seq<char>) -> Option<Instruction> {
    |line: Seq<char>| Instruction::from_str_spec(line)
}

/// The program that the lines of `input` state.
pub open spec fn program_spec(input: Seq<char>) -> Option<Seq<Instruction>> {
    parse_all_spec(lines_spec(input), instruction_fn())
}

/// Reads the program.
pub fn program(input: &str) -> (r: Option<Vec<Instruction>>)
    ensures
        match r {
            Some(found) => program_spec(input@) == Some(found@),
            None => program_spec(input@) is None,
        },
{
    let found = lines(input);
    let read = |line: &Vec<char>| -> (r: Option<Instruction>)
        ensures
            r == Instruction::from_str_spec(line@),
        { Instruction::from_str(line) };
    let r = parse_all::<Instruction, Instruction, _>(
        &found,
        read,
        Ghost(instruction_fn()),
        Ghost(|instruction: Instruction| instruction),
    );
    proof {
        if r is Some {
            assert(r->Some_0@.map_values(|instruction: Instruction| instruction) =~= r->Some_0@);
        }
    }
    r
}

/// What [`star_one`] yields: what the register holds when the machine stops.
pub open spec fn star_one_spec(input: Seq<char>) -> Option<isize> {
    match program_spec(input) {
        Some(program) => match run_spec(program, 0, 0, none_visited(program.len())) {
            Some((_, acc)) => Some(acc),
            None => None,
        },
        None => None,
    }
}

pub fn star_one(input: &str) -> (r: Option<isize>)
    ensures
        r == star_one_spec(input@),
{
    let instructions = match program(input) {
        Some(instructions) => instructions,
        None => {
            return None;
        },
    };
    let mut vm = VM::new(instructions);
    match vm.run_until_done_or_infinite_loop() {
        Some(_) => Some(vm.acc),
        None => None,
    }
}

/// The instruction with `nop` for `jmp` and `jmp` for `nop`.
pub open spec fn flip_spec(instruction: Instruction) -> Instruction {
    match instruction {
        Instruction::Nop(value) => Instruction::Jmp(value),
        Instruction::Jmp(value) => Instruction::Nop(value),
        Instruction::Acc(value) => Instruction::Acc(value),
    }
}

/// What the register holds after the first program that leaves the program
/// among those that differ from `program` in one place, from `idx` on,
/// where a `jmp` stands for a `nop` or a `nop` for a `jmp`. Nothing where
/// there is none, or where a number did not fit on the way.
pub open spec fn first_fix(program: Seq<Instruction>, idx: nat) -> Option<isize>
    decreases program.len() - idx,
{
    if idx >= program.len() {
        None
    } else if program[idx as int] is Acc {
        first_fix(program, idx + 1)
    } else {
        match run_spec(
            program.update(idx as int, flip_spec(program[idx as int])),
            0,
            0,
            none_visited(program.len()),
        ) {
            None => None,
            Some((HaltStatus::Done, acc)) => Some(acc),
            Some((HaltStatus::InfiniteLoop, _)) => first_fix(program, idx + 1),
        }
    }
}

/// What [`star_two`] yields.
pub open spec fn star_two_spec(input: Seq<char>) -> Option<isize> {
    match program_spec(input) {
        Some(program) => first_fix(program, 0),
        None => None,
    }
}

/// `program` with the instruction at `idx` flipped.
pub fn flipped(program: &Vec<Instruction>, idx: usize) -> (changed: Vec<Instruction>)
    requires
        idx < program.len(),
    ensures
        changed@ == program@.update(idx as int, flip_spec(program@[idx as int])),
{
    let mut changed: Vec<Instruction> = Vec::new();
    let mut i: usize = 0;
    while i < program.len()
        invariant
            i <= program.len(),
            idx < program.len(),
            changed@ == program@.update(idx as int, flip_spec(program@[idx as int])).take(
                i as int,
            ),
        decreases program.len() - i,
    {
        let instruction = if i == idx {
            match program[i] {
                Instruction::Nop(value) => Instruction::Jmp(value),
                Instruction::Jmp(value) => Instruction::Nop(value),
                Instruction::Acc(value) => Instruction::Acc(value),
            }
        } else {
            program[i]
        };
        changed.push(instruction);
        assert(changed@ =~= program@.update(idx as int, flip_spec(program@[idx as int])).take(
            i + 1,
        ));
        i += 1;
    }
    assert(changed@ =~= program@.update(idx as int, flip_spec(program@[idx as int])));
    changed
}

pub fn star_two(input: &str) -> (r: Option<isize>)
    ensures
        r == star_two_spec(input@),
{
    let instructions = match program(input) {
        Some(instructions) => instructions,
        None => {
            return None;
        },
    };
    let mut idx: usize = 0;
    while idx < instructions.len()
        invariant
            idx <= instructions.len(),
            program_spec(input@) == Some(instructions@),
            first_fix(instructions@, 0) == first_fix(instructions@, idx as nat),
        decreases instructions.len() - idx,
    {
        if instructions[idx].is_jmp() || instructions[idx].is_nop() {
            let mut vm = VM::new(flipped(&instructions, idx));
            match vm.run_until_done_or_infinite_loop() {
                None => {
                    return None;
                },
                Some(HaltStatus::Done) => {
                    return Some(vm.acc);
                },
                Some(HaltStatus::InfiniteLoop) => {},
            }
        }
        idx += 1;
    }
    None
}

} // verus!

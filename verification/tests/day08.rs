use advent2020::day08::{star_one, star_two, HaltStatus, Instruction, VM};

const DAY08_INPUT: &'static str = "nop +0
acc +1
jmp +4
acc +3
jmp -3
acc -99
acc +1
jmp -4
acc +6";

#[test]
fn day08_test_star_one() {
    assert_eq!(star_one(DAY08_INPUT), Some(5));
}

#[test]
fn day08_test_star_two() {
    assert_eq!(star_two(DAY08_INPUT), Some(8));
}

#[test]
fn day08_programs_at_their_edges() {
    assert_eq!(star_one(""), Some(0));
    assert_eq!(star_one("acc +7\njmp -5\nacc +1"), Some(7));
    assert_eq!(star_one("acc 9223372036854775807\nacc 1"), None);
    assert_eq!(star_one("add 1"), None);
    assert_eq!(star_one("acc x"), None);
    assert_eq!(star_two("jmp +0"), Some(0));
    assert_eq!(star_two("acc +1\njmp -1\n"), Some(1));
    assert_eq!(star_two("acc +1"), None);
    let mut vm = VM::new(vec![Instruction::Acc(2), Instruction::Jmp(-1)]);
    assert_eq!(
        vm.run_until_done_or_infinite_loop(),
        Some(HaltStatus::InfiniteLoop)
    );
    assert_eq!(vm.acc, 2);
    assert!(Instruction::Nop(1).is_nop());
    assert!(!Instruction::Nop(1).is_jmp());
    assert!(Instruction::Jmp(1).is_jmp());
}

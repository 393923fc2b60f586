use advent2020::day14::{star_one, star_two, sum_memory, Assignment, Mask};

const INPUT: &'static str = "mask = XXXXXXXXXXXXXXXXXXXXXXXXXXXXX1XXXX0X
mem[8] = 11
mem[7] = 101
mem[8] = 0";
const INPUT_TWO: &'static str = "mask = 000000000000000000000000000000X1001X
mem[42] = 100
mask = 00000000000000000000000000000000X0XX
mem[26] = 1";

fn text(s: &str) -> Vec<char> {
    s.chars().collect()
}

#[test]
fn day14_test_star_one() {
    assert_eq!(star_one(INPUT), Some(165));
}

#[test]
fn day14_test_star_two() {
    assert_eq!(star_two(INPUT_TWO), Some(208));
}

#[test]
fn day14_masks() {
    let mask = Mask::from_str(&text("mask = XXXXXXXXXXXXXXXXXXXXXXXXXXXXX1XXXX0X")).unwrap();
    assert_eq!(mask.base_value, 64);
    assert_eq!(mask.mask, 0xf_ffff_ffff - 64 - 2);
    assert_eq!(mask.apply_mask(11), Some(73));
    assert_eq!(mask.apply_mask(101), Some(101));
    assert_eq!(mask.apply_mask(0), Some(64));
    assert!(Mask::from_str(&text("mask = 01Y")).is_none());
    assert!(Mask::from_str(&text("mask = ")).is_none());
    assert!(Mask::from_str(&text("mem[8] = 11")).is_none());
    assert_eq!(Mask::new(1, 2, text("X1")).raw, text("X1"));
}

#[test]
fn day14_addresses_come_in_the_order_of_the_product() {
    let mask = Mask::from_str(&text("mask = 000000000000000000000000000000X1001X")).unwrap();
    assert_eq!(mask.apply_address_mask(42), Some(vec![26, 58, 27, 59]));
    let mask = Mask::from_str(&text("mask = 00000000000000000000000000000000X0XX")).unwrap();
    assert_eq!(
        mask.apply_address_mask(26),
        Some(vec![16, 24, 18, 26, 17, 25, 19, 27])
    );
    assert_eq!(Mask::new(0, 0, text("")).apply_address_mask(5), Some(vec![]));
    assert_eq!(Mask::new(0, 0, text("0+")).apply_address_mask(5), None);
    assert_eq!(Mask::new(0, 0, text("00")).apply_address_mask(7), Some(vec![3]));
    let long: String = std::iter::repeat('0').take(65).collect();
    assert_eq!(Mask::new(0, 0, text(&long)).apply_address_mask(7), None);
}

#[test]
fn day14_assignments() {
    let assignment = Assignment::from_str(&text("mem[42] = 100")).unwrap();
    assert_eq!((assignment.address, assignment.value), (42, 100));
    let assignment = Assignment::from_str(&text("mem7=1")).unwrap();
    assert_eq!((assignment.address, assignment.value), (7, 1));
    assert!(Assignment::from_str(&text("mum[7] = 1")).is_none());
    assert!(Assignment::from_str(&text("mem[7] = x")).is_none());
    assert!(Assignment::from_str(&text("mem[7]")).is_none());
    let made = Assignment::new(3, 4);
    assert_eq!((made.address, made.value), (3, 4));
}

#[test]
fn day14_programs() {
    assert_eq!(sum_memory(&vec![(1, 5), (2, 7), (1, 3)]), Some(10));
    assert_eq!(sum_memory(&vec![]), Some(0));
    assert_eq!(sum_memory(&vec![(1, usize::MAX), (2, 1)]), None);
    assert_eq!(star_one("mem[8] = 11"), None);
    assert_eq!(star_one("mem[1] = 5\nmask = X\nmem[2] = 1"), Some(1));
    assert_eq!(star_one("mask = X\nwhat"), None);
    assert_eq!(star_one("mask = 1X\nmem[2] = 1\nmask = 0X\nmem[3] = 1"), Some(4));
}

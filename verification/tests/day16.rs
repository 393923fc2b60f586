use advent2020::day16::{
    merge, parse, parse_range, star_one, star_two, Ticket, Validation,
};

const INPUT: &'static str = "class: 1-3 or 5-7
row: 6-11 or 33-44
seat: 13-40 or 45-50

your ticket:
7,1,14

nearby tickets:
7,3,47
40,4,50
55,2,20
38,6,12";

const DEPARTURES: &'static str = "departure class: 0-1 or 4-19
row: 0-5 or 8-19
departure seat: 0-13 or 16-19

your ticket:
11,12,13

nearby tickets:
3,9,18
15,1,5
5,14,9
99,1,1";

fn text(s: &str) -> Vec<char> {
    s.chars().collect()
}

#[test]
fn day16_test_star_one() {
    assert_eq!(star_one(INPUT), Some(71));
}

#[test]
fn day16_fields_find_their_rules() {
    // row is the first field, class the second, seat the third
    assert_eq!(star_two(DEPARTURES), Some(12 * 13));
    assert_eq!(star_one(DEPARTURES), Some(99));
    // no field is named departure something
    assert_eq!(star_two(INPUT), Some(1));
    assert_eq!(
        star_two("a: 1-3 or 5-7\n\nyour ticket:\n2\n\nnearby tickets:\n3\n9"),
        Some(1)
    );
    assert_eq!(
        star_two("departure: 1-3 or 5-7\n\nyour ticket:\n2\n\nnearby tickets:\n3"),
        Some(2)
    );
    assert_eq!(star_two("departure: 1-3 or 5-7\n\nnearby tickets:\n3"), None);
    assert_eq!(
        star_two("a: 1-3 or 5-7\nb: 1-3 or 5-7\n\nyour ticket:\n2,3"),
        None
    );
}

#[test]
fn day16_rules_and_tickets() {
    assert_eq!(merge((Some(1), Some(2))), Some((1, 2)));
    assert_eq!(merge((Some(1), None)), None);
    assert_eq!(merge::<u8>((None, None)), None);
    assert_eq!(parse_range(&text(" 6 - 11 ")), Some((6, 11)));
    assert_eq!(parse_range(&text("6")), None);
    assert_eq!(parse_range(&text("6-x")), None);
    let rule = Validation::from_str(&text("row: 6-11 or 33-44")).unwrap();
    assert_eq!(rule.category, text("row"));
    assert_eq!(rule.valid_ranges, vec![(6, 11), (33, 44)]);
    assert!(rule.is_valid(6));
    assert!(rule.is_valid(44));
    assert!(!rule.is_valid(12));
    assert!(Validation::from_str(&text("row: 6-11")).is_none());
    assert!(Validation::from_str(&text("row 6-11 or 33-44")).is_none());
    let ticket = Ticket::from_str(&text("7,40")).unwrap();
    assert_eq!(ticket.digits, vec![7, 40]);
    assert!(Ticket::from_str(&text("7, 40")).is_none());
    let seat = Validation::from_str(&text("seat: 13-40 or 45-50")).unwrap();
    assert!(ticket.is_valid(&vec![rule.clone(), seat.clone()]));
    assert!(!ticket.is_valid(&vec![seat.clone(), rule.clone()]));
    assert!(!ticket.is_valid(&vec![rule]));
}

#[test]
fn day16_notes() {
    let notes = parse(INPUT).unwrap();
    assert_eq!(notes.validations.len(), 3);
    assert_eq!(notes.yours.len(), 1);
    assert_eq!(notes.nearby.len(), 4);
    assert_eq!(notes.nearby[2].digits, vec![55, 2, 20]);
    assert!(parse("class: 1-3\n").is_none());
    assert!(parse("your ticket:\nx").is_none());
    assert_eq!(star_one(""), Some(0));
    assert_eq!(star_one("what"), None);
}

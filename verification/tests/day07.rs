use advent2020::day07::{
    count, find, normalize_bag_name, parse_bag_list, star_one, star_two, trim_end_matches, Bag,
};

const INPUT: &'static str = "
light red bags contain 1 bright white bag, 2 muted yellow bags.
dark orange bags contain 3 bright white bags, 4 muted yellow bags.
bright white bags contain 1 shiny gold bag.
muted yellow bags contain 2 shiny gold bags, 9 faded blue bags.
shiny gold bags contain 1 dark olive bag, 2 vibrant plum bags.
dark olive bags contain 3 faded blue bags, 4 dotted black bags.
vibrant plum bags contain 5 faded blue bags, 6 dotted black bags.
faded blue bags contain no other bags.
dotted black bags contain no other bags.";
const INPUT_TWO: &'static str = "
shiny gold bags contain 2 dark red bags.
dark red bags contain 2 dark orange bags.
dark orange bags contain 2 dark yellow bags.
dark yellow bags contain 2 dark green bags.
dark green bags contain 2 dark blue bags.
dark blue bags contain 2 dark violet bags.
dark violet bags contain no other bags.";

fn text(s: &str) -> Vec<char> {
    s.chars().collect()
}

#[test]
fn day07_test_star_one() {
    assert_eq!(star_one(INPUT), Some(4));
}

#[test]
fn day07_test_star_two() {
    assert_eq!(star_two(INPUT), Some(32));
    assert_eq!(star_two(INPUT_TWO), Some(126));
}

#[test]
fn day07_names() {
    assert_eq!(normalize_bag_name(&text(" light red bags. ")), text("light red"));
    assert_eq!(normalize_bag_name(&text("shiny gold bag")), text("shiny gold"));
    assert_eq!(normalize_bag_name(&text("bagsbags bagbag..")), text("bagsbags"));
    assert_eq!(normalize_bag_name(&text("bagbag bagsbags.")), text("bagbag"));
    assert_eq!(normalize_bag_name(&text("bagbags")), text(""));
    assert_eq!(normalize_bag_name(&text("old bag bags")), text("old bag"));
    assert_eq!(trim_end_matches(&text("a..."), "."), text("a"));
    assert_eq!(trim_end_matches(&text("a...b"), "."), text("a...b"));
    assert_eq!(trim_end_matches(&text("abab"), "ab"), text(""));
    assert_eq!(trim_end_matches(&text("abab"), ""), text("abab"));
}

#[test]
fn day07_lists() {
    assert_eq!(
        parse_bag_list(&text(" 1 bright white bag, 2 muted yellow bags.")),
        Some(Some(vec![(1, text("bright white")), (2, text("muted yellow"))]))
    );
    assert_eq!(parse_bag_list(&text(" no other bags.")), Some(None));
    assert_eq!(parse_bag_list(&text("1 red bag, no other bags., x")), Some(None));
    assert_eq!(parse_bag_list(&text("1 red bag, x, no other bags.")), None);
    assert_eq!(parse_bag_list(&text("one red bag")), None);
    assert_eq!(parse_bag_list(&text("")), None);
    let bag = Bag::from_str(&text("light red bags contain 1 bright white bag.")).unwrap();
    assert_eq!(bag.name, text("light red"));
    assert_eq!(bag.contents, vec![(1, text("bright white"))]);
    assert!(!bag.is_shiny());
    assert!(Bag::from_str(&text("light red bags hold 1 bright white bag.")).is_none());
    let bag = Bag::from_str(&text("shiny gold bags contain no other bags.")).unwrap();
    assert!(bag.is_shiny());
    assert!(bag.contents.is_empty());
}

#[test]
fn day07_bags_that_are_missing_or_hold_themselves() {
    assert_eq!(star_one("red bags contain 1 blue bag."), None);
    assert_eq!(star_one("red bags contain 1 red bag."), None);
    assert_eq!(
        star_one("red bags contain 1 shiny gold bag, 1 red bag.\nshiny gold bags contain no other bags."),
        Some(1)
    );
    assert_eq!(star_two("red bags contain no other bags."), Some(0));
    assert_eq!(star_two("shiny gold bags contain 1 shiny gold bag."), None);
    assert_eq!(star_two("shiny gold bags contain 2 red bags."), None);
    assert_eq!(star_one(""), Some(0));
    let bags = vec![
        Bag::from_str(&text("a bags contain 2 b bags.")).unwrap(),
        Bag::from_str(&text("b bags contain 3 shiny gold bags.")).unwrap(),
        Bag::from_str(&text("shiny gold bags contain no other bags.")).unwrap(),
    ];
    assert_eq!(find(&text("a"), &bags, 3), Some(true));
    assert_eq!(find(&text("a"), &bags, 2), None);
    assert_eq!(count(&text("a"), &bags, 3), Some(8));
    assert_eq!(count(&text("shiny gold"), &bags, 3), Some(0));
    assert_eq!(count(&text("c"), &bags, 3), None);
}

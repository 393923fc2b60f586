use advent2020::day04::{
    any_fields, ecl_valid, fields_valid, hair_color_valid, height_valid, number_valid, pid_valid,
    star_one, star_two, Passport, Props,
};

const INPUT: &'static str = "ecl:gry pid:860033327 eyr:2020 hcl:#fffffd
byr:1937 iyr:2017 cid:147 hgt:183cm

iyr:2013 ecl:amb cid:350 eyr:2023 pid:028048884
hcl:#cfa07d byr:1929

hcl:#ae17e1 iyr:2013
eyr:2024
ecl:brn pid:760753108 byr:1931
hgt:179cm

hcl:#cfa07d eyr:2025 pid:166559648
iyr:2011 ecl:brn hgt:59in";

const INVALID_PART_TWO: &'static str = "
eyr:1972 cid:100
hcl:#18171d ecl:amb hgt:170 pid:186cm iyr:2018 byr:1926

iyr:2019
hcl:#602927 eyr:1967 hgt:170cm
ecl:grn pid:012533040 byr:1946

hcl:dab227 iyr:2012
ecl:brn hgt:182cm pid:021572410 eyr:2020 byr:1992 cid:277

hgt:59cm ecl:zzz
eyr:2038 hcl:74454a iyr:2023
pid:3556412378 byr:2007";

const VALID_PART_TWO: &'static str = "
pid:087499704 hgt:74in ecl:grn iyr:2012 eyr:2030 byr:1980
hcl:#623a2f

eyr:2029 ecl:blu cid:129 byr:1989
iyr:2014 pid:896056539 hcl:#a97842 hgt:165cm

hcl:#888785
hgt:164cm byr:2001 iyr:2015 cid:88
pid:545766238 ecl:hzl
eyr:2022

iyr:2010 hgt:158cm hcl:#b6652a ecl:blu byr:1944 eyr:2021 pid:093154719";

#[test]
fn day04_test_star_one() {
    assert_eq!(star_one(INPUT), 2);
}

#[test]
fn test_invalid_passports() {
    for p in INVALID_PART_TWO
        .split("\n\n")
        .map(str::trim)
        .filter(|l| l.len() > 0)
    {
        assert_eq!(Passport::from_str(p, fields_valid).is_ok(), false);
    }
}

#[test]
fn test_valid_passports() {
    for p in VALID_PART_TWO
        .split("\n\n")
        .map(str::trim)
        .filter(|l| l.len() > 0)
    {
        assert_eq!(
            Passport::from_str(p, fields_valid).is_ok(),
            true,
            "{} should be valid, but wasn't",
            p
        );
    }
}

#[test]
fn day04_counts() {
    assert_eq!(star_two(""), 0);
    assert_eq!(star_one(""), 0);
    assert_eq!(star_two(VALID_PART_TWO), 4);
    assert_eq!(star_two(INVALID_PART_TWO), 0);
    assert_eq!(star_one(INVALID_PART_TWO), 4);
    assert_eq!(star_two(INPUT), 2);
}

#[test]
fn day04_passport_fields() {
    let passport = Passport::from_str(
        "pid:1 hgt:2 ecl:3 iyr:4 eyr:5 byr:6 hcl:7 byr:8 x nothing:",
        any_fields,
    )
    .unwrap();
    assert_eq!(passport.byr, "8");
    assert_eq!(passport.iyr, "4");
    assert_eq!(passport.eyr, "5");
    assert_eq!(passport.hgt, "2");
    assert_eq!(passport.hcl, "7");
    assert_eq!(passport.ecl, "3");
    assert_eq!(passport.pid, "1");
    assert_eq!(passport.cid, None);
    assert_eq!(
        Passport::from_str("pid:1 hgt:2", any_fields).unwrap_err(),
        "Invalid passport `pid:1 hgt:2`"
    );
    let props = Props::from_str(&"a:b:c d e:f a:g".chars().collect());
    assert_eq!(props.get("a"), Some(&vec!['g']));
    assert_eq!(props.get("e"), Some(&vec!['f']));
    assert_eq!(props.get("d"), None);
    assert!(props.contains_key("e"));
}

#[test]
fn day04_field_rules() {
    let text = |s: &str| -> Vec<char> { s.chars().collect() };
    assert!(number_valid(Some(&text("2002")), 1920, 2002));
    assert!(!number_valid(Some(&text("2003")), 1920, 2002));
    assert!(!number_valid(Some(&text("20x3")), 1920, 2002));
    assert!(!number_valid(None, 1920, 2002));
    assert!(height_valid(Some(&text("60in"))));
    assert!(height_valid(Some(&text("190cm"))));
    assert!(!height_valid(Some(&text("190in"))));
    assert!(!height_valid(Some(&text("190"))));
    assert!(!height_valid(Some(&text("cm"))));
    assert!(hair_color_valid(Some(&text("#123abc"))));
    assert!(hair_color_valid(Some(&text("#123ABC"))));
    assert!(!hair_color_valid(Some(&text("#123abz"))));
    assert!(!hair_color_valid(Some(&text("123abc"))));
    assert!(!hair_color_valid(Some(&text("#"))));
    assert!(hair_color_valid(Some(&text("#ffffffff"))));
    assert!(!hair_color_valid(Some(&text("#100000000"))));
    assert!(ecl_valid(Some(&text("brn"))));
    assert!(!ecl_valid(Some(&text("wat"))));
    assert!(pid_valid(Some(&text("000000001"))));
    assert!(!pid_valid(Some(&text("0123456789"))));
    assert!(pid_valid(Some(&text("12345678x9"))));
}

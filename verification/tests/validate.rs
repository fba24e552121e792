use passport_scan::record::Record;
use passport_scan::validate::parse_u32;
use passport_scan::validate::valid_ecl;
use passport_scan::validate::valid_hcl;
use passport_scan::validate::valid_hgt;
use passport_scan::validate::valid_pid;

fn chars(s: &str) -> Vec<char> {
    s.chars().collect()
}

fn record_of(fields: &[(&str, &str)]) -> Record {
    let mut r = Record::new();
    for (k, v) in fields {
        r.insert(chars(k), chars(v));
    }
    r
}

fn seven_required() -> Vec<(&'static str, &'static str)> {
    vec![
        ("byr", "1990"),
        ("iyr", "2015"),
        ("eyr", "2025"),
        ("hgt", "180cm"),
        ("hcl", "#abc123"),
        ("ecl", "blu"),
        ("pid", "123456789"),
    ]
}

#[test]
fn seven_required_fields_pass_the_check() {
    let r = record_of(&seven_required());
    assert!(r.contains_required_fields());
    assert!(r.is_valid());
}

#[test]
fn seven_required_fields_plus_cid_pass_the_check() {
    let mut fields = seven_required();
    fields.push(("cid", "42"));
    let r = record_of(&fields);
    assert!(r.contains_required_fields());
}

#[test]
fn seven_fields_missing_a_required_name_fail_the_check() {
    // cid takes pid's place: still seven fields, but pid is missing.
    let mut fields = seven_required();
    fields.pop();
    fields.push(("cid", "42"));
    let r = record_of(&fields);
    assert_eq!(r.len(), 7);
    assert!(!r.contains_required_fields());
}

#[test]
fn eight_fields_with_an_unexpected_name_fail_the_check() {
    let mut fields = seven_required();
    fields.push(("xyz", "1"));
    let r = record_of(&fields);
    assert_eq!(r.len(), 8);
    assert!(!r.contains_required_fields());
}

#[test]
fn height_rules() {
    assert!(valid_hgt(&chars("190cm")));
    assert!(!valid_hgt(&chars("190in")));
    assert!(!valid_hgt(&chars("190")));
    assert!(valid_hgt(&chars("150cm")));
    assert!(valid_hgt(&chars("193cm")));
    assert!(!valid_hgt(&chars("194cm")));
    assert!(!valid_hgt(&chars("149cm")));
    assert!(valid_hgt(&chars("59in")));
    assert!(valid_hgt(&chars("76in")));
    assert!(!valid_hgt(&chars("77in")));
    assert!(!valid_hgt(&chars("cm")));
    assert!(!valid_hgt(&chars("1m")));
}

#[test]
fn passport_id_rules() {
    assert!(valid_pid(&chars("000000001")));
    assert!(!valid_pid(&chars("0123456789")));
    assert!(!valid_pid(&chars("12345678")));
    assert!(!valid_pid(&chars("12345678a")));
}

#[test]
fn hair_colour_rules() {
    assert!(valid_hcl(&chars("#123abc")));
    assert!(!valid_hcl(&chars("#123abz")));
    assert!(!valid_hcl(&chars("#123ABC")));
    assert!(!valid_hcl(&chars("123abcd")));
    assert!(!valid_hcl(&chars("#123abcd")));
}

#[test]
fn eye_colour_rules() {
    for good in ["amb", "blu", "brn", "gry", "grn", "hzl", "oth"] {
        assert!(valid_ecl(&chars(good)));
    }
    assert!(!valid_ecl(&chars("xyz")));
    assert!(!valid_ecl(&chars("ambb")));
}

#[test]
fn year_range_rules() {
    let byr = chars("byr");
    for (value, expected) in [("1920", true), ("2002", true), ("1919", false), ("2003", false)] {
        let r = record_of(&[("byr", value)]);
        assert_eq!(r.value_in_valid_u32_range(&byr, 1920, 2002), expected);
        assert_eq!(r.is_valid_byr(), expected);
    }
    let r = record_of(&seven_required());
    assert!(r.is_valid_iyr());
    assert!(r.is_valid_eyr());
    assert!(r.is_valid_hgt());
    assert!(r.is_valid_hcl());
    assert!(r.is_valid_ecl());
    assert!(r.is_valid_pid());
}

#[test]
fn integer_parsing() {
    assert_eq!(parse_u32(&chars("1920")), Some(1920));
    assert_eq!(parse_u32(&chars("0001920")), Some(1920));
    assert_eq!(parse_u32(&chars("4294967295")), Some(u32::MAX));
    assert_eq!(parse_u32(&chars("4294967296")), None);
    assert_eq!(parse_u32(&chars("99999999999999999999")), None);
    assert_eq!(parse_u32(&chars("")), None);
    assert_eq!(parse_u32(&chars("12a")), None);
    assert_eq!(parse_u32(&chars("-5")), None);
    assert_eq!(parse_u32(&chars(" 5")), None);
}

use passport_scan::record::Record;
use passport_scan::record::assemble;
use passport_scan::token::tokenize;

fn chars(s: &str) -> Vec<char> {
    s.chars().collect()
}

fn records_of(input: &str) -> Vec<Record> {
    assemble(&tokenize(&chars(input)).unwrap())
}

#[test]
fn one_record_per_nonempty_group() {
    // Three non-empty groups; the doubled blank line collapses.
    let records = records_of("a:1\n\nb:2\n\n\nc:3");
    assert_eq!(records.len(), 3);
}

#[test]
fn trailing_blank_lines_emit_nothing() {
    let records = records_of("a:1\n\n\n");
    assert_eq!(records.len(), 1);
}

#[test]
fn empty_input_has_no_records() {
    let records = records_of("");
    assert_eq!(records.len(), 0);
}

#[test]
fn fields_within_a_record_span_lines() {
    let records = records_of("a:1 b:2\nc:3\n\nd:4");
    assert_eq!(records.len(), 2);
    assert_eq!(records[0].len(), 3);
    assert_eq!(records[1].len(), 1);
}

#[test]
fn duplicate_key_keeps_last_value() {
    let records = records_of("k:1 k:2");
    assert_eq!(records.len(), 1);
    assert_eq!(records[0].len(), 1);
    let key = chars("k");
    let value = records[0].get(&key).unwrap();
    assert_eq!(value.iter().collect::<String>(), "2");
}

#[test]
fn insert_overwrites_and_appends() {
    let mut r = Record::new();
    r.insert(chars("byr"), chars("1980"));
    r.insert(chars("iyr"), chars("2012"));
    assert_eq!(r.len(), 2);
    r.insert(chars("byr"), chars("1999"));
    assert_eq!(r.len(), 2);
    let byr = chars("byr");
    assert_eq!(r.get(&byr).unwrap().iter().collect::<String>(), "1999");
    let eyr = chars("eyr");
    assert!(r.get(&eyr).is_none());
    assert!(!r.contains_key(&eyr));
}

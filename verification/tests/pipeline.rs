use passport_scan::pipeline::run_counts;
use passport_scan::token::LexError;

fn chars(s: &str) -> Vec<char> {
    s.chars().collect()
}

#[test]
fn end_to_end_counts() {
    let input = chars(
        "byr:1990 iyr:2015 eyr:2025\nhgt:180cm hcl:#abc123 ecl:blu pid:123456789\n\nbyr:1990 iyr:2015\n",
    );
    assert_eq!(run_counts(&input), Ok((1, 1)));
}

#[test]
fn required_but_not_valid_is_counted_once() {
    // All seven required fields, but the height has no unit.
    let input = chars(
        "byr:1990 iyr:2015 eyr:2025\nhgt:180 hcl:#abc123 ecl:blu pid:123456789\n",
    );
    assert_eq!(run_counts(&input), Ok((1, 0)));
}

#[test]
fn cid_record_counts_as_valid() {
    let input = chars(
        "byr:1990 iyr:2015 eyr:2025 cid:42\nhgt:180cm hcl:#abc123 ecl:blu pid:123456789\n",
    );
    assert_eq!(run_counts(&input), Ok((1, 1)));
}

#[test]
fn empty_input_counts_nothing() {
    assert_eq!(run_counts(&chars("")), Ok((0, 0)));
}

#[test]
fn malformed_token_aborts_the_run() {
    // A key holding a raw newline before any ':' kills the whole run,
    // even though a complete record stands before it.
    let input = chars(
        "byr:1990 iyr:2015 eyr:2025\nhgt:180cm hcl:#abc123 ecl:blu pid:123456789\n\nbroken\nkey:value\n",
    );
    assert_eq!(run_counts(&input), Err(LexError::NewlineInKey));
}

#[test]
fn colon_in_value_aborts_the_run() {
    assert_eq!(run_counts(&chars("a:b:c\n")), Err(LexError::ColonInValue));
}

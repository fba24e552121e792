//! Per-record validation: the required-field-set check and the per-field
//! syntactic/semantic rules.

use vstd::prelude::*;

use crate::record::FieldsModel;
use crate::record::Record;
use crate::record::has_key;
use crate::record::value_of;

verus! {

/// An ASCII decimal digit.
pub open spec fn is_digit(c: char) -> bool {
    '0' <= c && c <= '9'
}

/// The numeric value of a digit character.
pub open spec fn digit_val(c: char) -> int {
    c as int - '0' as int
}

/// Every character of `s` is a decimal digit.
pub open spec fn all_digits(s: Seq<char>) -> bool {
    forall|i: int| 0 <= i < s.len() ==> is_digit(#[trigger] s[i])
}

/// The base-10 value of a digit string.
pub open spec fn digits_value(s: Seq<char>) -> int
    decreases s.len(),
{
    if s.len() == 0 {
        0
    } else {
        digits_value(s.drop_last()) * 10 + digit_val(s.last())
    }
}

/// What parsing an unsigned 32-bit integer accepts: a non-empty string of
/// decimal digits, no sign and no surrounding whitespace, whose value fits.
pub open spec fn spec_parse_u32(s: Seq<char>) -> Option<u32> {
    if s.len() > 0 && all_digits(s) && digits_value(s) <= u32::MAX {
        Some(digits_value(s) as u32)
    } else {
        None
    }
}

proof fn lemma_digits_value_nonneg(s: Seq<char>)
    requires
        all_digits(s),
    ensures
        digits_value(s) >= 0,
    decreases s.len(),
{
    if s.len() > 0 {
        assert(all_digits(s.drop_last()));
        lemma_digits_value_nonneg(s.drop_last());
    }
}

proof fn lemma_digits_value_take_mono(s: Seq<char>, i: int)
    requires
        0 <= i <= s.len(),
        all_digits(s),
    ensures
        digits_value(s.take(i)) <= digits_value(s),
    decreases s.len() - i,
{
    if i < s.len() {
        assert(s.take(i + 1).drop_last() =~= s.take(i));
        assert(all_digits(s.take(i)));
        lemma_digits_value_nonneg(s.take(i));
        assert(is_digit(s.take(i + 1).last()));
        assert(digits_value(s.take(i)) * 10 >= digits_value(s.take(i)));
        lemma_digits_value_take_mono(s, i + 1);
    } else {
        assert(s.take(i) =~= s);
    }
}

/// Parse the digits of `v` between `start` (inclusive) and `end`
/// (exclusive) as an unsigned 32-bit integer.
pub fn parse_u32_range(v: &Vec<char>, start: usize, end: usize) -> (r: Option<u32>)
    requires
        start <= end <= v@.len(),
    ensures
        r == spec_parse_u32(v@.subrange(start as int, end as int)),
{
    let ghost s = v@.subrange(start as int, end as int);
    if start == end {
        return None;
    }
    let mut val: u64 = 0;
    let mut i: usize = start;
    while i < end
        invariant
            start <= i <= end <= v@.len(),
            s == v@.subrange(start as int, end as int),
            s.len() == end - start,
            all_digits(s.take(i - start)),
            val == digits_value(s.take(i - start)),
            val <= u32::MAX,
        decreases end - i,
    {
        let c = v[i];
        if !(c >= '0' && c <= '9') {
            proof {
                assert(s[i - start] == c);
                assert(!all_digits(s));
            }
            return None;
        }
        let d: u64 = (c as u64) - ('0' as u64);
        let nv: u64 = val * 10 + d;
        proof {
            assert(s.take(i - start + 1).drop_last() =~= s.take(i - start));
            assert(s.take(i - start + 1).last() == s[i - start]);
        }
        if nv > 0xFFFF_FFFF {
            proof {
                if all_digits(s) {
                    lemma_digits_value_take_mono(s, i - start + 1);
                }
                assert(spec_parse_u32(s) is None);
            }
            return None;
        }
        val = nv;
        i = i + 1;
    }
    proof {
        assert(s.take(end - start) =~= s);
    }
    Some(val as u32)
}

/// Parse a whole character vector as an unsigned 32-bit integer.
pub fn parse_u32(v: &Vec<char>) -> (r: Option<u32>)
    ensures
        r == spec_parse_u32(v@),
{
    let r = parse_u32_range(v, 0, v.len());
    proof {
        assert(v@.subrange(0, v@.len() as int) =~= v@);
    }
    r
}

/// The `byr` field name.
pub open spec fn key_byr() -> Seq<char> {
    seq!['b', 'y', 'r']
}

/// The `iyr` field name.
pub open spec fn key_iyr() -> Seq<char> {
    seq!['i', 'y', 'r']
}

/// The `eyr` field name.
pub open spec fn key_eyr() -> Seq<char> {
    seq!['e', 'y', 'r']
}

/// The `hgt` field name.
pub open spec fn key_hgt() -> Seq<char> {
    seq!['h', 'g', 't']
}

/// The `hcl` field name.
pub open spec fn key_hcl() -> Seq<char> {
    seq!['h', 'c', 'l']
}

/// The `ecl` field name.
pub open spec fn key_ecl() -> Seq<char> {
    seq!['e', 'c', 'l']
}

/// The `pid` field name.
pub open spec fn key_pid() -> Seq<char> {
    seq!['p', 'i', 'd']
}

/// The optional `cid` field name.
pub open spec fn key_cid() -> Seq<char> {
    seq!['c', 'i', 'd']
}

/// A three-character field name.
fn key3(a: char, b: char, c: char) -> (r: Vec<char>)
    ensures
        r@ == seq![a, b, c],
{
    let mut r: Vec<char> = Vec::new();
    r.push(a);
    r.push(b);
    r.push(c);
    proof {
        assert(r@ =~= seq![a, b, c]);
    }
    r
}

/// All seven required field names are present.
pub open spec fn spec_required_keys_present(fs: FieldsModel) -> bool {
    has_key(fs, key_byr()) && has_key(fs, key_iyr()) && has_key(fs, key_eyr()) && has_key(
        fs,
        key_hgt(),
    ) && has_key(fs, key_hcl()) && has_key(fs, key_ecl()) && has_key(fs, key_pid())
}

/// The required-field-set check: exactly the seven required fields, or the
/// seven required fields plus `cid`.
pub open spec fn spec_required_check(fs: FieldsModel) -> bool {
    (fs.len() == 8 && spec_required_keys_present(fs) && has_key(fs, key_cid())) || (fs.len() == 7
        && spec_required_keys_present(fs))
}

/// Law: a record of exactly seven fields passes the required-field-set
/// check exactly when the seven required names are all present; a record
/// missing any required name fails it.
pub proof fn lemma_seven_field_record(fs: FieldsModel)
    requires
        fs.len() == 7,
    ensures
        spec_required_check(fs) == spec_required_keys_present(fs),
{
}

/// Law: a record of exactly eight fields passes the required-field-set
/// check exactly when the seven required names and `cid` are all present.
pub proof fn lemma_eight_field_record(fs: FieldsModel)
    requires
        fs.len() == 8,
    ensures
        spec_required_check(fs) == (spec_required_keys_present(fs) && has_key(fs, key_cid())),
{
}

/// The field `k` is present and parses to an integer in `[lo, hi]`.
pub open spec fn spec_value_in_range(fs: FieldsModel, k: Seq<char>, lo: u32, hi: u32) -> bool {
    has_key(fs, k) && match spec_parse_u32(value_of(fs, k)) {
        Some(n) => lo <= n && n <= hi,
        None => false,
    }
}

/// A valid height: digits followed by exactly `cm` or `in`, with the
/// amount in `[150, 193]` centimetres or `[59, 76]` inches.
pub open spec fn spec_valid_hgt(v: Seq<char>) -> bool {
    v.len() >= 3 && {
        let unit = v.skip(v.len() - 2);
        let amount = spec_parse_u32(v.take(v.len() - 2));
        match amount {
            Some(h) => (unit == seq!['c', 'm'] && 150 <= h <= 193) || (unit == seq!['i', 'n'] && 59
                <= h <= 76),
            None => false,
        }
    }
}

/// A lowercase hexadecimal digit.
pub open spec fn is_hex_lower(c: char) -> bool {
    is_digit(c) || ('a' <= c && c <= 'f')
}

/// A valid hair colour: `#` followed by six lowercase hexadecimal digits.
pub open spec fn spec_valid_hcl(v: Seq<char>) -> bool {
    v.len() == 7 && v[0] == '#' && forall|i: int| 1 <= i < 7 ==> is_hex_lower(#[trigger] v[i])
}

/// A valid eye colour: one of the seven literal colour names.
pub open spec fn spec_valid_ecl(v: Seq<char>) -> bool {
    v == seq!['a', 'm', 'b'] || v == seq!['b', 'l', 'u'] || v == seq!['b', 'r', 'n'] || v == seq![
        'g',
        'r',
        'y',
    ] || v == seq!['g', 'r', 'n'] || v == seq!['h', 'z', 'l'] || v == seq!['o', 't', 'h']
}

/// A valid passport id: exactly nine decimal digits.
pub open spec fn spec_valid_pid(v: Seq<char>) -> bool {
    v.len() == 9 && all_digits(v)
}

/// Every per-field rule holds: the four year/height ranges, the hair and
/// eye colour shapes, and the passport-id shape.
pub open spec fn spec_fields_valid(fs: FieldsModel) -> bool {
    spec_value_in_range(fs, key_byr(), 1920, 2002) && spec_value_in_range(
        fs,
        key_iyr(),
        2010,
        2020,
    ) && spec_value_in_range(fs, key_eyr(), 2020, 2030) && (has_key(fs, key_hgt())
        && spec_valid_hgt(value_of(fs, key_hgt()))) && (has_key(fs, key_hcl()) && spec_valid_hcl(
        value_of(fs, key_hcl()),
    )) && (has_key(fs, key_ecl()) && spec_valid_ecl(value_of(fs, key_ecl()))) && (has_key(
        fs,
        key_pid(),
    ) && spec_valid_pid(value_of(fs, key_pid())))
}

/// Whether every character of `v` is a decimal digit.
pub fn digits_only(v: &Vec<char>) -> (b: bool)
    ensures
        b == all_digits(v@),
{
    let mut i: usize = 0;
    while i < v.len()
        invariant
            0 <= i <= v@.len(),
            forall|j: int| 0 <= j < i ==> is_digit(#[trigger] v@[j]),
        decreases v@.len() - i,
    {
        let c = v[i];
        if !(c >= '0' && c <= '9') {
            proof {
                assert(!is_digit(v@[i as int]));
            }
            return false;
        }
        i = i + 1;
    }
    true
}

/// Check a height value against the `hgt` rule.
pub fn valid_hgt(v: &Vec<char>) -> (b: bool)
    ensures
        b == spec_valid_hgt(v@),
{
    let n = v.len();
    if n < 3 {
        return false;
    }
    let ghost unit = v@.skip(n - 2);
    proof {
        assert(unit =~= seq![v@[n - 2], v@[n - 1]]);
    }
    let u0 = v[n - 2];
    let u1 = v[n - 1];
    let is_cm = u0 == 'c' && u1 == 'm';
    let is_in = u0 == 'i' && u1 == 'n';
    proof {
        if is_cm {
            assert(unit =~= seq!['c', 'm']);
        }
        if is_in {
            assert(unit =~= seq!['i', 'n']);
        }
    }
    if !is_cm && !is_in {
        return false;
    }
    match parse_u32_range(v, 0, n - 2) {
        Some(h) => {
            if is_cm {
                150 <= h && h <= 193
            } else {
                59 <= h && h <= 76
            }
        },
        None => false,
    }
}

/// Check a hair-colour value against the `hcl` rule.
pub fn valid_hcl(v: &Vec<char>) -> (b: bool)
    ensures
        b == spec_valid_hcl(v@),
{
    if v.len() != 7 {
        return false;
    }
    if v[0] != '#' {
        return false;
    }
    let mut i: usize = 1;
    while i < 7
        invariant
            1 <= i <= 7,
            v@.len() == 7,
            forall|j: int| 1 <= j < i ==> is_hex_lower(#[trigger] v@[j]),
        decreases 7 - i,
    {
        let c = v[i];
        if !((c >= '0' && c <= '9') || (c >= 'a' && c <= 'f')) {
            proof {
                assert(!is_hex_lower(v@[i as int]));
            }
            return false;
        }
        i = i + 1;
    }
    true
}

/// Whether `v` holds exactly the three characters `a`, `b`, `c`.
fn eq3(v: &Vec<char>, a: char, b: char, c: char) -> (r: bool)
    ensures
        r == (v@ == seq![a, b, c]),
{
    if v.len() == 3 && v[0] == a && v[1] == b && v[2] == c {
        proof {
            assert(v@ =~= seq![a, b, c]);
        }
        true
    } else {
        false
    }
}

/// Check an eye-colour value against the `ecl` rule.
pub fn valid_ecl(v: &Vec<char>) -> (b: bool)
    ensures
        b == spec_valid_ecl(v@),
{
    eq3(v, 'a', 'm', 'b') || eq3(v, 'b', 'l', 'u') || eq3(v, 'b', 'r', 'n') || eq3(
        v,
        'g',
        'r',
        'y',
    ) || eq3(v, 'g', 'r', 'n') || eq3(v, 'h', 'z', 'l') || eq3(v, 'o', 't', 'h')
}

/// Check a passport-id value against the `pid` rule.
pub fn valid_pid(v: &Vec<char>) -> (b: bool)
    ensures
        b == spec_valid_pid(v@),
{
    v.len() == 9 && digits_only(v)
}

impl Record {
    /// The record passes the required-field-set check: the seven required
    /// names with nothing else, or the seven plus `cid`.
    pub fn contains_required_fields(&self) -> (b: bool)
        requires
            self.wf(),
        ensures
            b == spec_required_check(self@),
    {
        self.contains_passport_required_fields() || self.contains_north_pole_required_fields()
    }

    /// Exactly eight fields: the seven required names plus `cid`.
    pub fn contains_passport_required_fields(&self) -> (b: bool)
        requires
            self.wf(),
        ensures
            b == (self@.len() == 8 && spec_required_keys_present(self@) && has_key(
                self@,
                key_cid(),
            )),
    {
        self.len() == 8 && self.contains_min_fields() && self.contains_cid_field()
    }

    /// Exactly the seven required fields, with no `cid`.
    pub fn contains_north_pole_required_fields(&self) -> (b: bool)
        requires
            self.wf(),
        ensures
            b == (self@.len() == 7 && spec_required_keys_present(self@)),
    {
        self.len() == 7 && self.contains_min_fields()
    }

    /// All seven required field names are present.
    pub fn contains_min_fields(&self) -> (b: bool)
        requires
            self.wf(),
        ensures
            b == spec_required_keys_present(self@),
    {
        let byr = key3('b', 'y', 'r');
        let iyr = key3('i', 'y', 'r');
        let eyr = key3('e', 'y', 'r');
        let hgt = key3('h', 'g', 't');
        let hcl = key3('h', 'c', 'l');
        let ecl = key3('e', 'c', 'l');
        let pid = key3('p', 'i', 'd');
        self.contains_key(&byr) && self.contains_key(&iyr) && self.contains_key(&eyr)
            && self.contains_key(&hgt) && self.contains_key(&hcl) && self.contains_key(&ecl)
            && self.contains_key(&pid)
    }

    /// The optional `cid` field is present.
    pub fn contains_cid_field(&self) -> (b: bool)
        requires
            self.wf(),
        ensures
            b == has_key(self@, key_cid()),
    {
        let cid = key3('c', 'i', 'd');
        self.contains_key(&cid)
    }

    /// The field `key` is present and parses to an integer in `[from, to]`.
    pub fn value_in_valid_u32_range(&self, key: &Vec<char>, from: u32, to: u32) -> (b: bool)
        requires
            self.wf(),
        ensures
            b == spec_value_in_range(self@, key@, from, to),
    {
        match self.get(key) {
            Some(v) => match parse_u32(v) {
                Some(n) => from <= n && n <= to,
                None => false,
            },
            None => false,
        }
    }

    /// Every per-field rule holds of this record.
    pub fn is_valid(&self) -> (b: bool)
        requires
            self.wf(),
        ensures
            b == spec_fields_valid(self@),
    {
        self.is_valid_byr() && self.is_valid_iyr() && self.is_valid_eyr() && self.is_valid_hgt()
            && self.is_valid_hcl() && self.is_valid_ecl() && self.is_valid_pid()
    }

    /// `byr` parses to an integer in `[1920, 2002]`.
    pub fn is_valid_byr(&self) -> (b: bool)
        requires
            self.wf(),
        ensures
            b == spec_value_in_range(self@, key_byr(), 1920, 2002),
    {
        let key = key3('b', 'y', 'r');
        self.value_in_valid_u32_range(&key, 1920, 2002)
    }

    /// `iyr` parses to an integer in `[2010, 2020]`.
    pub fn is_valid_iyr(&self) -> (b: bool)
        requires
            self.wf(),
        ensures
            b == spec_value_in_range(self@, key_iyr(), 2010, 2020),
    {
        let key = key3('i', 'y', 'r');
        self.value_in_valid_u32_range(&key, 2010, 2020)
    }

    /// `eyr` parses to an integer in `[2020, 2030]`.
    pub fn is_valid_eyr(&self) -> (b: bool)
        requires
            self.wf(),
        ensures
            b == spec_value_in_range(self@, key_eyr(), 2020, 2030),
    {
        let key = key3('e', 'y', 'r');
        self.value_in_valid_u32_range(&key, 2020, 2030)
    }

    /// `hgt` is present and passes the height rule.
    pub fn is_valid_hgt(&self) -> (b: bool)
        requires
            self.wf(),
        ensures
            b == (has_key(self@, key_hgt()) && spec_valid_hgt(value_of(self@, key_hgt()))),
    {
        let key = key3('h', 'g', 't');
        match self.get(&key) {
            Some(v) => valid_hgt(v),
            None => false,
        }
    }

    /// `hcl` is present and passes the hair-colour rule.
    pub fn is_valid_hcl(&self) -> (b: bool)
        requires
            self.wf(),
        ensures
            b == (has_key(self@, key_hcl()) && spec_valid_hcl(value_of(self@, key_hcl()))),
    {
        let key = key3('h', 'c', 'l');
        match self.get(&key) {
            Some(v) => valid_hcl(v),
            None => false,
        }
    }

    /// `ecl` is present and passes the eye-colour rule.
    pub fn is_valid_ecl(&self) -> (b: bool)
        requires
            self.wf(),
        ensures
            b == (has_key(self@, key_ecl()) && spec_valid_ecl(value_of(self@, key_ecl()))),
    {
        let key = key3('e', 'c', 'l');
        match self.get(&key) {
            Some(v) => valid_ecl(v),
            None => false,
        }
    }

    /// `pid` is present and passes the passport-id rule.
    pub fn is_valid_pid(&self) -> (b: bool)
        requires
            self.wf(),
        ensures
            b == (has_key(self@, key_pid()) && spec_valid_pid(value_of(self@, key_pid()))),
    {
        let key = key3('p', 'i', 'd');
        match self.get(&key) {
            Some(v) => valid_pid(v),
            None => false,
        }
    }
}

} // verus!

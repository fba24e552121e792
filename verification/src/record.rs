//! Records: field mappings assembled from the token stream.
//!
//! The assembler folds `Pair` tokens into an in-progress record and closes
//! it at each `Break` (or at the end of the input); empty groups, from
//! consecutive blank lines, produce no record.

use vstd::prelude::*;

use crate::token::Token;
use crate::token::TokenModel;
use crate::token::token_models;

verus! {

/// The mathematical model of a record: its fields as (key, value) pairs,
/// with pairwise-distinct keys.
pub type FieldsModel = Seq<(Seq<char>, Seq<char>)>;

/// Whether some field of `fs` has the key `k`.
pub open spec fn has_key(fs: FieldsModel, k: Seq<char>) -> bool {
    exists|idx: int| 0 <= idx < fs.len() && fs[idx].0 == k
}

/// The index of the field with key `k` (meaningful when keys are distinct).
pub open spec fn key_at(fs: FieldsModel, k: Seq<char>) -> int {
    choose|idx: int| 0 <= idx < fs.len() && fs[idx].0 == k
}

/// The value stored under key `k` (meaningful when `has_key(fs, k)`).
pub open spec fn value_of(fs: FieldsModel, k: Seq<char>) -> Seq<char> {
    fs[key_at(fs, k)].1
}

/// No two fields share a key.
pub open spec fn distinct_keys(fs: FieldsModel) -> bool {
    forall|i: int, j: int| 0 <= i < j < fs.len() ==> fs[i].0 != fs[j].0
}

/// Insertion with last-write-wins: overwrite the value under an existing
/// key, or append a new field.
pub open spec fn field_insert(fs: FieldsModel, k: Seq<char>, v: Seq<char>) -> FieldsModel {
    if has_key(fs, k) {
        fs.update(key_at(fs, k), (k, v))
    } else {
        fs.push((k, v))
    }
}

/// One field of a record.
pub struct Field {
    pub key: Vec<char>,
    pub value: Vec<char>,
}

/// A record: a mapping from field names to field values, with unique keys
/// and last-write-wins insertion.
pub struct Record {
    fields: Vec<Field>,
}

impl View for Record {
    type V = FieldsModel;

    closed spec fn view(&self) -> FieldsModel {
        self.fields@.map_values(|f: Field| (f.key@, f.value@))
    }
}

impl Record {
    /// Well-formedness: the keys are pairwise distinct.
    pub open spec fn wf(self) -> bool {
        distinct_keys(self@)
    }

    /// An empty record.
    pub fn new() -> (r: Record)
        ensures
            r@ == Seq::<(Seq<char>, Seq<char>)>::empty(),
            r.wf(),
    {
        let r = Record { fields: Vec::new() };
        proof {
            assert(r@ =~= Seq::<(Seq<char>, Seq<char>)>::empty());
        }
        r
    }

    /// The number of fields.
    pub fn len(&self) -> (n: usize)
        ensures
            n == self@.len(),
    {
        self.fields.len()
    }

    /// Insert a field; an existing key keeps its place and takes the new
    /// value, a new key is appended.
    pub fn insert(&mut self, key: Vec<char>, value: Vec<char>)
        requires
            old(self).wf(),
        ensures
            final(self).wf(),
            final(self)@ == field_insert(old(self)@, key@, value@),
    {
        let mut i: usize = 0;
        while i < self.fields.len()
            invariant
                0 <= i <= self.fields@.len(),
                self@ == old(self)@,
                distinct_keys(old(self)@),
                forall|j: int| 0 <= j < i ==> old(self)@[j].0 != key@,
            decreases self.fields@.len() - i,
        {
            if chars_eq(&self.fields[i].key, &key) {
                proof {
                    assert(old(self)@[i as int].0 == key@);
                    assert(has_key(old(self)@, key@));
                    let w = key_at(old(self)@, key@);
                    assert(0 <= w < old(self)@.len() && old(self)@[w].0 == key@);
                    assert(w == i as int);
                }
                let ghost k = key@;
                let ghost v = value@;
                self.fields[i] = Field { key, value };
                proof {
                    let fs1 = old(self)@.update(i as int, (k, v));
                    assert(self@ =~= fs1);
                    assert(field_insert(old(self)@, k, v) == fs1);
                    assert(distinct_keys(fs1));
                }
                return;
            }
            i = i + 1;
        }
        proof {
            assert(!has_key(old(self)@, key@));
        }
        let ghost k = key@;
        let ghost v = value@;
        self.fields.push(Field { key, value });
        proof {
            assert(self@ =~= old(self)@.push((k, v)));
            assert(distinct_keys(self@));
        }
    }

    /// Look up the value stored under `key`.
    pub fn get(&self, key: &Vec<char>) -> (r: Option<&Vec<char>>)
        requires
            self.wf(),
        ensures
            match r {
                Some(v) => has_key(self@, key@) && v@ == value_of(self@, key@),
                None => !has_key(self@, key@),
            },
    {
        let mut i: usize = 0;
        while i < self.fields.len()
            invariant
                0 <= i <= self.fields@.len(),
                self.wf(),
                forall|j: int| 0 <= j < i ==> self@[j].0 != key@,
            decreases self.fields@.len() - i,
        {
            if chars_eq(&self.fields[i].key, key) {
                proof {
                    assert(self@[i as int].0 == key@);
                    assert(has_key(self@, key@));
                    let w = key_at(self@, key@);
                    assert(0 <= w < self@.len() && self@[w].0 == key@);
                    assert(w == i as int);
                }
                return Some(&self.fields[i].value);
            }
            i = i + 1;
        }
        None
    }

    /// Whether the record has a field named `key`.
    pub fn contains_key(&self, key: &Vec<char>) -> (b: bool)
        requires
            self.wf(),
        ensures
            b == has_key(self@, key@),
    {
        match self.get(key) {
            Some(_) => true,
            None => false,
        }
    }
}

/// The models of a sequence of records.
pub open spec fn records_models(rs: Seq<Record>) -> Seq<FieldsModel> {
    rs.map_values(|r: Record| r@)
}

/// The records assembled from the tokens `ts`, with `cur` as the
/// in-progress record.
pub open spec fn spec_assemble_at(ts: Seq<TokenModel>, cur: FieldsModel) -> Seq<FieldsModel>
    decreases ts.len(),
{
    if ts.len() == 0 {
        if cur.len() == 0 {
            Seq::empty()
        } else {
            seq![cur]
        }
    } else {
        match ts[0] {
            TokenModel::Pair(k, v) => spec_assemble_at(ts.drop_first(), field_insert(cur, k, v)),
            TokenModel::Break => {
                if cur.len() == 0 {
                    spec_assemble_at(ts.drop_first(), cur)
                } else {
                    seq![cur] + spec_assemble_at(ts.drop_first(), Seq::empty())
                }
            },
        }
    }
}

/// The records assembled from the whole token stream.
pub open spec fn spec_assemble(ts: Seq<TokenModel>) -> Seq<FieldsModel> {
    spec_assemble_at(ts, Seq::empty())
}

/// The number of groups of `Pair` tokens separated by `Break`s that hold at
/// least one pair; `in_group` says whether a non-empty group is open.
pub open spec fn spec_group_count_at(ts: Seq<TokenModel>, in_group: bool) -> nat
    decreases ts.len(),
{
    if ts.len() == 0 {
        if in_group {
            1
        } else {
            0
        }
    } else {
        match ts[0] {
            TokenModel::Pair(_, _) => spec_group_count_at(ts.drop_first(), true),
            TokenModel::Break => (if in_group {
                1nat
            } else {
                0nat
            }) + spec_group_count_at(ts.drop_first(), false),
        }
    }
}

/// The number of non-empty groups in the whole token stream.
pub open spec fn spec_group_count(ts: Seq<TokenModel>) -> nat {
    spec_group_count_at(ts, false)
}

proof fn lemma_field_insert_nonempty(fs: FieldsModel, k: Seq<char>, v: Seq<char>)
    ensures
        field_insert(fs, k, v).len() > 0,
{
    if has_key(fs, k) {
        let w = key_at(fs, k);
        assert(0 <= w < fs.len() && fs[w].0 == k);
    }
}

proof fn lemma_assemble_at_len(ts: Seq<TokenModel>, cur: FieldsModel)
    ensures
        spec_assemble_at(ts, cur).len() == spec_group_count_at(ts, cur.len() > 0),
    decreases ts.len(),
{
    if ts.len() > 0 {
        match ts[0] {
            TokenModel::Pair(k, v) => {
                lemma_field_insert_nonempty(cur, k, v);
                lemma_assemble_at_len(ts.drop_first(), field_insert(cur, k, v));
            },
            TokenModel::Break => {
                if cur.len() == 0 {
                    lemma_assemble_at_len(ts.drop_first(), cur);
                } else {
                    lemma_assemble_at_len(ts.drop_first(), Seq::empty());
                }
            },
        }
    }
}

/// Law: the assembler emits exactly one record per group of pair tokens
/// that holds at least one pair; blank-line separators, however many in a
/// row, produce no record of their own.
pub proof fn lemma_one_record_per_group(ts: Seq<TokenModel>)
    ensures
        spec_assemble(ts).len() == spec_group_count(ts),
{
    lemma_assemble_at_len(ts, Seq::empty());
}

/// Group the pair tokens into records, with `Break`s (and the end of the
/// input) closing the record under assembly.
pub fn assemble(tokens: &Vec<Token>) -> (r: Vec<Record>)
    ensures
        records_models(r@) == spec_assemble(token_models(tokens@)),
        forall|i: int| 0 <= i < r@.len() ==> (#[trigger] r@[i]).wf(),
{
    let ghost tms = token_models(tokens@);
    let mut out: Vec<Record> = Vec::new();
    let mut cur = Record::new();
    let mut i: usize = 0;
    proof {
        assert(tms.skip(0) =~= tms);
        assert(records_models(out@) + spec_assemble_at(tms, cur@) =~= spec_assemble_at(
            tms,
            cur@,
        ));
    }
    while i < tokens.len()
        invariant
            0 <= i <= tokens@.len(),
            tms == token_models(tokens@),
            tms.len() == tokens@.len(),
            cur.wf(),
            forall|j: int| 0 <= j < out@.len() ==> (#[trigger] out@[j]).wf(),
            spec_assemble(tms) == records_models(out@) + spec_assemble_at(
                tms.skip(i as int),
                cur@,
            ),
        decreases tokens@.len() - i,
    {
        proof {
            assert(tms[i as int] == tokens@[i as int]@);
            assert(tms.skip(i as int)[0] == tms[i as int]);
            assert(tms.skip(i as int).drop_first() =~= tms.skip(i as int + 1));
        }
        match &tokens[i] {
            Token::Pair(p) => {
                let k = clone_chars(&p.key);
                let v = clone_chars(&p.value);
                cur.insert(k, v);
            },
            Token::Break => {
                if cur.len() > 0 {
                    let ghost pre = records_models(out@);
                    let ghost closed = cur@;
                    out.push(cur);
                    cur = Record::new();
                    proof {
                        assert(records_models(out@) =~= pre.push(closed));
                        assert(pre + (seq![closed] + spec_assemble_at(
                            tms.skip(i as int + 1),
                            Seq::empty(),
                        )) =~= pre.push(closed) + spec_assemble_at(
                            tms.skip(i as int + 1),
                            Seq::empty(),
                        ));
                    }
                }
            },
        }
        i = i + 1;
    }
    proof {
        assert(tms.skip(tms.len() as int) =~= Seq::<TokenModel>::empty());
    }
    if cur.len() > 0 {
        let ghost pre = records_models(out@);
        let ghost closed = cur@;
        out.push(cur);
        proof {
            assert(records_models(out@) =~= pre.push(closed));
            assert(pre + seq![closed] =~= pre.push(closed));
        }
    } else {
        proof {
            assert(records_models(out@) + Seq::<FieldsModel>::empty() =~= records_models(out@));
        }
    }
    out
}

/// A copy of a character vector.
fn clone_chars(v: &Vec<char>) -> (r: Vec<char>)
    ensures
        r@ == v@,
{
    let mut r: Vec<char> = Vec::new();
    let mut i: usize = 0;
    while i < v.len()
        invariant
            0 <= i <= v@.len(),
            r@ == v@.take(i as int),
        decreases v@.len() - i,
    {
        r.push(v[i]);
        proof {
            assert(v@.take(i as int).push(v@[i as int]) =~= v@.take(i as int + 1));
        }
        i = i + 1;
    }
    proof {
        assert(v@.take(v@.len() as int) =~= v@);
    }
    r
}

/// Whether two character vectors hold the same characters.
fn chars_eq(a: &Vec<char>, b: &Vec<char>) -> (r: bool)
    ensures
        r == (a@ == b@),
{
    if a.len() != b.len() {
        proof {
            assert(a@ != b@);
        }
        return false;
    }
    let mut i: usize = 0;
    while i < a.len()
        invariant
            0 <= i <= a@.len(),
            a@.len() == b@.len(),
            forall|j: int| 0 <= j < i ==> a@[j] == b@[j],
        decreases a@.len() - i,
    {
        if a[i] != b[i] {
            return false;
        }
        i = i + 1;
    }
    proof {
        assert(a@ =~= b@);
    }
    true
}

} // verus!

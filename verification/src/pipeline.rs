//! The end-to-end pipeline: characters to tokens to records to the two
//! counts the driver reports.

use vstd::prelude::*;

use crate::record::FieldsModel;
use crate::record::Record;
use crate::record::assemble;
use crate::record::records_models;
use crate::record::spec_assemble;
use crate::token::LexError;
use crate::token::TokenModel;
use crate::token::spec_tokenize;
use crate::token::tokenize;
use crate::validate::spec_fields_valid;
use crate::validate::spec_required_check;

verus! {

/// The number of records passing the required-field-set check.
pub open spec fn spec_count_required(rs: Seq<FieldsModel>) -> nat
    decreases rs.len(),
{
    if rs.len() == 0 {
        0
    } else {
        spec_count_required(rs.drop_last()) + if spec_required_check(rs.last()) {
            1nat
        } else {
            0nat
        }
    }
}

/// The number of records passing both the required-field-set check and
/// every per-field rule.
pub open spec fn spec_count_valid(rs: Seq<FieldsModel>) -> nat
    decreases rs.len(),
{
    if rs.len() == 0 {
        0
    } else {
        spec_count_valid(rs.drop_last()) + if spec_required_check(rs.last()) && spec_fields_valid(
            rs.last(),
        ) {
            1nat
        } else {
            0nat
        }
    }
}

/// Count the records that pass the required-field-set check, and those that
/// additionally pass every per-field rule.
pub fn count_records(records: &Vec<Record>) -> (counts: (usize, usize))
    requires
        forall|i: int| 0 <= i < records@.len() ==> (#[trigger] records@[i]).wf(),
    ensures
        counts.0 == spec_count_required(records_models(records@)),
        counts.1 == spec_count_valid(records_models(records@)),
{
    let ghost ms = records_models(records@);
    let mut num_required: usize = 0;
    let mut num_valid: usize = 0;
    let mut i: usize = 0;
    proof {
        assert(ms.take(0) =~= Seq::<FieldsModel>::empty());
    }
    while i < records.len()
        invariant
            0 <= i <= records@.len(),
            ms == records_models(records@),
            ms.len() == records@.len(),
            forall|j: int| 0 <= j < records@.len() ==> (#[trigger] records@[j]).wf(),
            num_required <= i,
            num_valid <= i,
            num_required == spec_count_required(ms.take(i as int)),
            num_valid == spec_count_valid(ms.take(i as int)),
        decreases records@.len() - i,
    {
        let r = &records[i];
        proof {
            assert(ms[i as int] == records@[i as int]@);
            assert(ms.take(i as int + 1).drop_last() =~= ms.take(i as int));
            assert(ms.take(i as int + 1).last() == ms[i as int]);
        }
        if r.contains_required_fields() {
            num_required = num_required + 1;
            if r.is_valid() {
                num_valid = num_valid + 1;
            }
        }
        i = i + 1;
    }
    proof {
        assert(ms.take(ms.len() as int) =~= ms);
    }
    (num_required, num_valid)
}

/// Run the whole pipeline on `input`: tokenize, assemble, count. Returns
/// how many records hold the required field set and how many of those also
/// pass every per-field rule, or the first lexical error, which aborts the
/// run with no counts.
pub fn run_counts(input: &Vec<char>) -> (r: Result<(usize, usize), LexError>)
    ensures
        match r {
            Ok(counts) => match spec_tokenize(input@) {
                Ok(ts) => counts.0 == spec_count_required(spec_assemble(ts)) && counts.1
                    == spec_count_valid(spec_assemble(ts)),
                Err(_) => false,
            },
            Err(e) => spec_tokenize(input@) == Err::<Seq<TokenModel>, LexError>(e),
        },
{
    let toks = match tokenize(input) {
        Ok(t) => t,
        Err(e) => {
            return Err(e);
        },
    };
    let records = assemble(&toks);
    let counts = count_records(&records);
    Ok(counts)
}

} // verus!

//! Materialization stage: turn the validated distinct byte entries into
//! owned text values indexed by identifier, then expand the reference array
//! back into an output sequence in the original input order.

use vstd::prelude::*;
use vstd::utf8::{valid_utf8, encode_utf8};
use crate::validate::utf8_check;
use crate::views::{
    lemma_bytes_deep_view, lemma_byte_rows_deep_view, lemma_byte_rows_deep_view_len,
    lemma_string_rows_deep_view, lemma_string_rows_deep_view_len,
};

verus! {

broadcast use
    lemma_bytes_deep_view,
    lemma_byte_rows_deep_view,
    lemma_byte_rows_deep_view_len,
    lemma_string_rows_deep_view,
    lemma_string_rows_deep_view_len,
    vstd::seq::group_seq_axioms;

/// Materialization stage: convert each validated distinct entry into an
/// owned string (the conversion checks the bytes again: the unchecked
/// reinterpretation would need `unsafe`), then copy one string per
/// reference-array position, preserving the original order. Never fails:
/// every identifier indexes a converted entry.
pub fn materialize(uniques: &Vec<Vec<u8>>, refs: &Vec<usize>) -> (out: Vec<String>)
    requires
        forall|k: int| 0 <= k < uniques@.len() ==> valid_utf8(#[trigger] uniques.deep_view()[k]),
        forall|i: int| 0 <= i < refs@.len() ==> (#[trigger] refs@[i]) < uniques@.len(),
    ensures
        out@.len() == refs@.len(),
        forall|i: int|
            0 <= i < refs@.len() ==> encode_utf8(#[trigger] out.deep_view()[i])
                == uniques.deep_view()[refs@[i] as int],
{
    let mut table: Vec<String> = Vec::new();
    let mut k: usize = 0;
    while k < uniques.len()
        invariant
            k <= uniques@.len(),
            table@.len() == k,
            forall|j: int|
                0 <= j < uniques@.len() ==> valid_utf8(#[trigger] uniques.deep_view()[j]),
            forall|j: int|
                0 <= j < k ==> encode_utf8(#[trigger] table.deep_view()[j])
                    == uniques.deep_view()[j],
        decreases uniques@.len() - k,
    {
        proof {
            assert(valid_utf8(uniques.deep_view()[k as int]));
            assert(uniques.deep_view()[k as int] == uniques@[k as int]@);
        }
        match utf8_check(uniques[k].as_slice()) {
            Ok(s) => {
                let ghost prev_dv = table.deep_view();
                table.push(s.to_owned());
                proof {
                    assert(table.deep_view() =~= prev_dv.push(s@));
                }
            },
            Err(_) => {
                proof {
                    assert(false);
                }
            },
        }
        k += 1;
    }
    let mut out: Vec<String> = Vec::new();
    let mut i: usize = 0;
    while i < refs.len()
        invariant
            i <= refs@.len(),
            out@.len() == i,
            table@.len() == uniques@.len(),
            forall|j: int| 0 <= j < refs@.len() ==> (#[trigger] refs@[j]) < uniques@.len(),
            forall|j: int|
                0 <= j < table@.len() ==> encode_utf8(#[trigger] table.deep_view()[j])
                    == uniques.deep_view()[j],
            forall|j: int|
                0 <= j < i ==> encode_utf8(#[trigger] out.deep_view()[j])
                    == uniques.deep_view()[refs@[j] as int],
        decreases refs@.len() - i,
    {
        let idx = refs[i];
        let ghost prev_dv = out.deep_view();
        out.push(table[idx].clone());
        proof {
            assert(out.deep_view() =~= prev_dv.push(table@[idx as int]@));
            assert(encode_utf8(table.deep_view()[idx as int]) == uniques.deep_view()[idx as int]);
            assert(table.deep_view()[idx as int] == table@[idx as int]@);
        }
        i += 1;
    }
    out
}

} // verus!

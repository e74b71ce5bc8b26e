//! Deduplicating validator for raw byte strings: intern the distinct byte
//! sequences of an input batch into a dictionary, validate each distinct
//! entry as UTF-8 exactly once, and rebuild the batch as owned strings in
//! the original order.

pub mod intern;
pub mod materialize;
pub mod validate;
mod views;

pub use validate::OtlpProcessingError;

use vstd::prelude::*;
use vstd::utf8::{valid_utf8, encode_utf8, decode_utf8, encode_utf8_decode_utf8};
use crate::intern::{distinct_seq, valid_interning, intern_entries, lemma_distinct_seq_contains};
use crate::materialize::materialize;
use crate::validate::validate_distinct;
use crate::views::{
    lemma_bytes_deep_view, lemma_byte_rows_deep_view, lemma_byte_rows_deep_view_len,
    lemma_string_rows_deep_view, lemma_string_rows_deep_view_len,
};

verus! {

broadcast use
    lemma_bytes_deep_view,
    lemma_byte_rows_deep_view,
    lemma_byte_rows_deep_view_len,
    lemma_string_rows_deep_view,
    lemma_string_rows_deep_view_len,
    vstd::seq::group_seq_axioms;

/// All entries of the input are well-formed exactly when all entries of its
/// dictionary are: interning neither loses nor invents content.
proof fn lemma_valid_entries_iff_valid_distinct(
    input: Seq<Seq<u8>>,
    uniques: Seq<Seq<u8>>,
    refs: Seq<usize>,
)
    requires
        uniques == distinct_seq(input),
        valid_interning(input, uniques, refs),
    ensures
        (forall|k: int| 0 <= k < uniques.len() ==> valid_utf8(#[trigger] uniques[k])) <==> (forall|
            i: int,
        |
            0 <= i < input.len() ==> valid_utf8(#[trigger] input[i])),
{
    if forall|k: int| 0 <= k < uniques.len() ==> valid_utf8(#[trigger] uniques[k]) {
        assert forall|i: int| 0 <= i < input.len() implies valid_utf8(#[trigger] input[i]) by {
            assert(uniques[refs[i] as int] == input[i]);
        }
    }
    if forall|i: int| 0 <= i < input.len() ==> valid_utf8(#[trigger] input[i]) {
        assert forall|k: int| 0 <= k < uniques.len() implies valid_utf8(#[trigger] uniques[k]) by {
            assert(uniques.contains(uniques[k]));
            lemma_distinct_seq_contains(input, uniques[k]);
            let i = choose|i: int| 0 <= i < input.len() && input[i] == uniques[k];
            assert(valid_utf8(input[i]));
        }
    }
}

/// Processes a collection of raw byte strings, and reports how many
/// validation operations the bulk validation stage performed. The result is
/// that of [`process_otlp_strings`]; the count equals the number of distinct
/// byte sequences in the input when every entry is well-formed, and stops at
/// the first malformed distinct entry otherwise.
pub fn process_otlp_strings_counted(raw_strings: Vec<Vec<u8>>) -> (r: (
    Result<Vec<String>, OtlpProcessingError>,
    usize,
))
    ensures
        r.0 is Ok <==> (forall|i: int|
            0 <= i < raw_strings@.len() ==> valid_utf8(#[trigger] raw_strings.deep_view()[i])),
        r.0 matches Ok(out) ==> out@.len() == raw_strings@.len() && (forall|i: int|
            0 <= i < raw_strings@.len() ==> encode_utf8(#[trigger] out.deep_view()[i])
                == raw_strings.deep_view()[i]),
        r.1 <= distinct_seq(raw_strings.deep_view()).len(),
        r.0 is Ok ==> r.1 == distinct_seq(raw_strings.deep_view()).len(),
        r.0 is Err ==> 1 <= r.1 && !valid_utf8(
            distinct_seq(raw_strings.deep_view())[r.1 - 1],
        ) && (forall|k: int|
            0 <= k < r.1 - 1 ==> valid_utf8(#[trigger] distinct_seq(raw_strings.deep_view())[k])),
{
    let (uniques, refs) = intern_entries(&raw_strings);
    proof {
        lemma_valid_entries_iff_valid_distinct(
            raw_strings.deep_view(),
            uniques.deep_view(),
            refs@,
        );
    }
    let (outcome, validations) = validate_distinct(&uniques);
    match outcome {
        Ok(_) => {
            let out = materialize(&uniques, &refs);
            (Ok(out), validations)
        },
        Err(e) => (Err(e), validations),
    }
}

/// Processes a collection of raw byte strings (like OTLP-encoded string
/// fields): intern the distinct byte sequences into a dictionary, validate
/// each distinct sequence as UTF-8 exactly once, and rebuild the input batch
/// as owned strings in the original order. Returns the strings when every
/// entry is well-formed UTF-8, and the validation error otherwise.
pub fn process_otlp_strings(raw_strings: Vec<Vec<u8>>) -> (r: Result<
    Vec<String>,
    OtlpProcessingError,
>)
    ensures
        r is Ok <==> (forall|i: int|
            0 <= i < raw_strings@.len() ==> valid_utf8(#[trigger] raw_strings.deep_view()[i])),
        r matches Ok(out) ==> out@.len() == raw_strings@.len() && (forall|i: int|
            0 <= i < raw_strings@.len() ==> encode_utf8(#[trigger] out.deep_view()[i])
                == raw_strings.deep_view()[i]),
        r matches Ok(out) ==> (forall|i: int|
            0 <= i < raw_strings@.len() ==> #[trigger] out.deep_view()[i] == decode_utf8(
                raw_strings.deep_view()[i],
            )),
{
    let (r, _validations) = process_otlp_strings_counted(raw_strings);
    proof {
        match &r {
            Ok(out) => {
                assert forall|i: int| 0 <= i < raw_strings@.len() implies #[trigger] out
                    .deep_view()[i] == decode_utf8(raw_strings.deep_view()[i]) by {
                    lemma_order_preservation(raw_strings.deep_view(), out.deep_view(), i);
                }
            },
            Err(_) => {},
        }
    }
    r
}

/// Order preservation, stated over the decoding: an output produced from
/// well-formed entries holds, position by position, exactly the decoded text
/// of the input entry at that position.
pub proof fn lemma_order_preservation(input: Seq<Seq<u8>>, output: Seq<Seq<char>>, i: int)
    requires
        output.len() == input.len(),
        forall|k: int| 0 <= k < input.len() ==> encode_utf8(#[trigger] output[k]) == input[k],
        0 <= i < input.len(),
    ensures
        output[i] == decode_utf8(input[i]),
{
    encode_utf8_decode_utf8(output[i]);
}

/// Deduplication correctness: byte-for-byte equal input entries yield equal
/// output texts, wherever they stand in the batch.
pub proof fn lemma_deduplication_correctness(
    input: Seq<Seq<u8>>,
    output: Seq<Seq<char>>,
    i: int,
    j: int,
)
    requires
        output.len() == input.len(),
        forall|k: int| 0 <= k < input.len() ==> encode_utf8(#[trigger] output[k]) == input[k],
        0 <= i < input.len(),
        0 <= j < input.len(),
        input[i] == input[j],
    ensures
        output[i] == output[j],
{
    encode_utf8_decode_utf8(output[i]);
    encode_utf8_decode_utf8(output[j]);
}

} // verus!

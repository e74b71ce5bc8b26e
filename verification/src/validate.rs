//! Bulk validation stage: check every distinct dictionary entry for UTF-8
//! well-formedness exactly once, aborting on the first entry that fails.

use vstd::prelude::*;
use vstd::utf8::{valid_utf8, encode_utf8};
use crate::views::{lemma_bytes_deep_view, lemma_byte_rows_deep_view, lemma_byte_rows_deep_view_len};

verus! {

broadcast use
    lemma_bytes_deep_view,
    lemma_byte_rows_deep_view,
    lemma_byte_rows_deep_view_len,
    vstd::seq::group_seq_axioms;

/// simdutf8's zero-sized error value for a byte sequence that is not UTF-8.
#[verifier::external_type_specification]
#[verifier::external_body]
pub struct ExUtf8Error(simdutf8::basic::Utf8Error);

/// An error in validation or other processing steps.
#[derive(Debug)]
pub enum OtlpProcessingError {
    Utf8Error(simdutf8::basic::Utf8Error),
}

impl From<simdutf8::basic::Utf8Error> for OtlpProcessingError {
    fn from(err: simdutf8::basic::Utf8Error) -> (r: Self) {
        OtlpProcessingError::Utf8Error(err)
    }
}

impl vstd::std_specs::convert::FromSpecImpl<simdutf8::basic::Utf8Error> for OtlpProcessingError {
    open spec fn obeys_from_spec() -> bool {
        true
    }

    open spec fn from_spec(err: simdutf8::basic::Utf8Error) -> OtlpProcessingError {
        OtlpProcessingError::Utf8Error(err)
    }
}

/// Relies on simdutf8::basic::from_utf8: it checks the bytes exactly as
/// std's str::from_utf8 does, returning `Ok` precisely when they are a
/// well-formed UTF-8 encoding, and the `&str` it returns on success is a
/// view of those same bytes.
#[verifier::external_body]
pub(crate) fn utf8_check<'a>(bytes: &'a [u8]) -> (r: Result<&'a str, simdutf8::basic::Utf8Error>)
    ensures
        r is Ok <==> valid_utf8(bytes@),
        r matches Ok(s) ==> encode_utf8(s@) == bytes@,
{
    simdutf8::basic::from_utf8(bytes)
}

/// Bulk validation stage: visit every dictionary entry once, in identifier
/// order, and check its bytes for UTF-8 well-formedness. Returns the outcome
/// together with the number of validation operations performed: on success
/// one per distinct entry, on failure one per entry up to and including the
/// first malformed one.
pub fn validate_distinct(uniques: &Vec<Vec<u8>>) -> (r: (Result<(), OtlpProcessingError>, usize))
    ensures
        r.0 is Ok <==> (forall|k: int|
            0 <= k < uniques@.len() ==> valid_utf8(#[trigger] uniques.deep_view()[k])),
        r.0 is Ok ==> r.1 == uniques@.len(),
        r.0 is Err ==> 1 <= r.1 <= uniques@.len() && !valid_utf8(
            uniques.deep_view()[r.1 - 1],
        ) && (forall|k: int|
            0 <= k < r.1 - 1 ==> valid_utf8(#[trigger] uniques.deep_view()[k])),
{
    let mut k: usize = 0;
    while k < uniques.len()
        invariant
            k <= uniques@.len(),
            forall|j: int| 0 <= j < k ==> valid_utf8(#[trigger] uniques.deep_view()[j]),
        decreases uniques@.len() - k,
    {
        match utf8_check(uniques[k].as_slice()) {
            Ok(_) => {},
            Err(e) => {
                proof {
                    assert(!valid_utf8(uniques.deep_view()[k as int]));
                }
                return (Err(OtlpProcessingError::from(e)), k + 1);
            },
        }
        k += 1;
    }
    (Ok(()), k)
}

} // verus!

use otlp_string_processing::intern::intern_entries;
use otlp_string_processing::materialize::materialize;
use otlp_string_processing::validate::validate_distinct;
use otlp_string_processing::{process_otlp_strings, process_otlp_strings_counted, OtlpProcessingError};

#[test]
fn empty_input_is_processed_without_validations() {
    let (result, validations) = process_otlp_strings_counted(Vec::new());
    let out = result.expect("an empty batch must succeed");
    assert_eq!(out, Vec::<String>::new());
    assert_eq!(validations, 0);
}

#[test]
fn empty_entry_is_valid_text() {
    let out = process_otlp_strings(vec![Vec::new()]).expect("the empty byte sequence is valid");
    assert_eq!(out, vec![String::new()]);
}

#[test]
fn duplicates_are_validated_once() {
    let raw = vec![
        b"service.name".to_vec(),
        b"status".to_vec(),
        b"service.name".to_vec(),
        b"region".to_vec(),
    ];
    let (result, validations) = process_otlp_strings_counted(raw);
    let out = result.expect("UTF-8 validation failed");
    assert_eq!(out, vec![
        "service.name".to_string(),
        "status".to_string(),
        "service.name".to_string(),
        "region".to_string(),
    ]);
    assert_eq!(validations, 3);
}

#[test]
fn invalid_entry_yields_encoding_error() {
    let raw = vec![b"hello".to_vec(), vec![0xFF, 0xF0, 0x9F]];
    let result = process_otlp_strings(raw);
    match result {
        Err(OtlpProcessingError::Utf8Error(_)) => {}
        Ok(_) => panic!("a malformed entry must be rejected"),
    }
}

#[test]
fn all_duplicates_need_one_validation() {
    let raw = vec![b"x".to_vec(), b"x".to_vec(), b"x".to_vec()];
    let (result, validations) = process_otlp_strings_counted(raw);
    let out = result.expect("UTF-8 validation failed");
    assert_eq!(out, vec!["x".to_string(), "x".to_string(), "x".to_string()]);
    assert_eq!(validations, 1);
}

#[test]
fn validation_stops_at_first_malformed_entry() {
    // Distinct entries in first-occurrence order: "ok", the malformed one,
    // "later". Validation must stop at the second distinct entry.
    let raw = vec![
        b"ok".to_vec(),
        vec![0xC0, 0x20],
        b"later".to_vec(),
        b"ok".to_vec(),
    ];
    let (result, validations) = process_otlp_strings_counted(raw);
    assert!(result.is_err(), "a malformed entry must be rejected");
    assert_eq!(validations, 2);
}

#[test]
fn interning_assigns_identifiers_in_first_occurrence_order() {
    let raw = vec![
        b"b".to_vec(),
        b"a".to_vec(),
        b"b".to_vec(),
        b"c".to_vec(),
        b"a".to_vec(),
    ];
    let (uniques, refs) = intern_entries(&raw);
    assert_eq!(uniques, vec![b"b".to_vec(), b"a".to_vec(), b"c".to_vec()]);
    assert_eq!(refs, vec![0, 1, 0, 2, 1]);
}

#[test]
fn validation_visits_each_distinct_entry_exactly_once() {
    let uniques = vec![b"one".to_vec(), b"two".to_vec(), b"three".to_vec()];
    let (outcome, validations) = validate_distinct(&uniques);
    assert!(outcome.is_ok());
    assert_eq!(validations, 3);
}

#[test]
fn materialization_expands_references_in_order() {
    let uniques = vec![b"alpha".to_vec(), b"beta".to_vec()];
    let refs = vec![1, 0, 1, 1];
    let out = materialize(&uniques, &refs);
    assert_eq!(out, vec![
        "beta".to_string(),
        "alpha".to_string(),
        "beta".to_string(),
        "beta".to_string(),
    ]);
}

#[test]
fn multibyte_text_survives_the_round_trip() {
    // One two-byte, one three-byte and one four-byte encoding among ASCII.
    let raw = vec![
        "caf\u{e9}".as_bytes().to_vec(),
        "\u{2713} done".as_bytes().to_vec(),
        "\u{1F50D} scan".as_bytes().to_vec(),
        "caf\u{e9}".as_bytes().to_vec(),
    ];
    let (result, validations) = process_otlp_strings_counted(raw);
    let out = result.expect("well-formed multibyte text must pass");
    assert_eq!(out, vec![
        "caf\u{e9}".to_string(),
        "\u{2713} done".to_string(),
        "\u{1F50D} scan".to_string(),
        "caf\u{e9}".to_string(),
    ]);
    assert_eq!(validations, 3);
}

#[test]
fn truncated_multibyte_sequence_is_rejected() {
    // 0xF0 0x9F opens a four-byte encoding that never completes.
    let raw = vec![vec![0xF0, 0x9F]];
    assert!(process_otlp_strings(raw).is_err());
}

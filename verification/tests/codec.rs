use seen_index::vector_id::{make_vector_id, parse_vector_id, document_of, chunk_ids};

#[test]
fn encode_simple() {
    assert_eq!(make_vector_id("doc", 0), "doc-0");
    assert_eq!(make_vector_id("doc", 7), "doc-7");
    assert_eq!(make_vector_id("doc", 12), "doc-12");
    assert_eq!(make_vector_id("doc", 1203), "doc-1203");
}

#[test]
fn encode_hyphenated_document_id() {
    assert_eq!(
        make_vector_id("550e8400-e29b-41d4-a716-446655440000", 3),
        "550e8400-e29b-41d4-a716-446655440000-3"
    );
}

#[test]
fn round_trip_plain() {
    let vid = make_vector_id("doc", 42);
    let (doc, ix) = parse_vector_id(&vid).unwrap();
    assert_eq!(doc, "doc");
    assert_eq!(ix, 42);
}

#[test]
fn round_trip_hyphenated() {
    // the document id itself contains `-`: only the last segment is the index
    let vid = make_vector_id("a-b-c", 10);
    assert_eq!(vid, "a-b-c-10");
    let (doc, ix) = parse_vector_id(&vid).unwrap();
    assert_eq!(doc, "a-b-c");
    assert_eq!(ix, 10);
}

#[test]
fn round_trip_empty_document_id() {
    let vid = make_vector_id("", 5);
    assert_eq!(vid, "-5");
    let (doc, ix) = parse_vector_id(&vid).unwrap();
    assert_eq!(doc, "");
    assert_eq!(ix, 5);
}

#[test]
fn parse_rejects_no_dash() {
    assert!(parse_vector_id("doc").is_none());
    assert!(parse_vector_id("").is_none());
    assert!(parse_vector_id("123").is_none());
}

#[test]
fn parse_rejects_bad_tail() {
    assert!(parse_vector_id("doc-").is_none());
    assert!(parse_vector_id("doc-x1").is_none());
    assert!(parse_vector_id("doc-1x").is_none());
    assert!(parse_vector_id("doc-1-z").is_none());
}

#[test]
fn parse_rejects_oversized_index() {
    // one digit past what the machine can hold
    let vid = format!("doc-{}0", usize::MAX);
    assert!(parse_vector_id(&vid).is_none());
}

#[test]
fn parse_accepts_max_index() {
    let vid = format!("doc-{}", usize::MAX);
    let (doc, ix) = parse_vector_id(&vid).unwrap();
    assert_eq!(doc, "doc");
    assert_eq!(ix, usize::MAX);
}

#[test]
fn document_of_takes_everything_before_last_dash() {
    assert_eq!(document_of("d1-0"), "d1");
    assert_eq!(document_of("a-b-c-10"), "a-b-c");
    assert_eq!(document_of("-5"), "");
    assert_eq!(document_of("nodash"), "");
}

#[test]
fn chunk_ids_are_dense_and_zero_based() {
    let ids = chunk_ids("doc-x", 3);
    assert_eq!(ids, vec!["doc-x-0", "doc-x-1", "doc-x-2"]);
    assert!(chunk_ids("doc", 0).is_empty());
}

#[test]
fn parse_accepts_leading_zeros() {
    let (doc, ix) = parse_vector_id("doc-007").unwrap();
    assert_eq!(doc, "doc");
    assert_eq!(ix, 7);
}

#[test]
fn parse_with_consecutive_dashes() {
    // the dash before the digits belongs to the document id when doubled
    let (doc, ix) = parse_vector_id("a--1").unwrap();
    assert_eq!(doc, "a-");
    assert_eq!(ix, 1);
}

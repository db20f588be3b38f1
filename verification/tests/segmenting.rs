use mbxc::segment::{segment_all, MboxIterator};

fn concat(parts: &[Vec<u8>]) -> Vec<u8> {
    let mut out = Vec::new();
    for p in parts {
        out.extend_from_slice(p);
    }
    out
}

#[test]
fn segment_round_trip_two_messages() {
    let data = b"From a\nSubject: one\n\nbody1\nFrom b\nSubject: two\n\nbody2\n".to_vec();
    let parts = segment_all(&data);
    assert_eq!(parts.len(), 2);
    assert_eq!(concat(&parts), data);
    assert!(parts[0].starts_with(b"From a\n"));
    assert!(parts[1].starts_with(b"From b\n"));
}

#[test]
fn segment_round_trip_trailing_partial_line() {
    // no final newline: the partial tail stays in the last message
    let data = b"From a\nx\nFrom b\nlast without newline".to_vec();
    let parts = segment_all(&data);
    assert_eq!(parts.len(), 2);
    assert_eq!(concat(&parts), data);
    assert_eq!(parts[1], b"From b\nlast without newline".to_vec());
}

#[test]
fn segment_first_marker_belongs_to_first_message() {
    let data = b"From only one\nbody\n".to_vec();
    let parts = segment_all(&data);
    assert_eq!(parts.len(), 1);
    assert_eq!(parts[0], data);
}

#[test]
fn segment_from_inside_line_is_no_boundary() {
    let data = b"From a\nnot From b at column zero? From c neither\nx\n".to_vec();
    let parts = segment_all(&data);
    assert_eq!(parts.len(), 1);
    assert_eq!(concat(&parts), data);
}

#[test]
fn segment_empty_input_yields_nothing() {
    let data: Vec<u8> = Vec::new();
    let parts = segment_all(&data);
    assert_eq!(parts.len(), 0);
}

#[test]
fn iterator_hands_out_messages_in_order() {
    let data = b"From a\n1\nFrom b\n2\n".to_vec();
    let mut it = MboxIterator::new(data);
    assert_eq!(it.next(), Some(b"From a\n1\n".to_vec()));
    assert_eq!(it.next(), Some(b"From b\n2\n".to_vec()));
    assert_eq!(it.next(), None);
}

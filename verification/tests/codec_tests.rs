use kvs::codec::{encode_entry, parse_entry, LogEntry};

fn chars(s: &str) -> Vec<char> {
    s.chars().collect()
}

#[test]
fn put_record_has_the_documented_frame() {
    let e = LogEntry::Put { key: "ab".to_string(), value: "c".to_string() };
    assert_eq!(encode_entry(&e), chars("S2,ab1,c\n"));
}

#[test]
fn remove_record_has_the_documented_frame() {
    let e = LogEntry::Remove("ab".to_string());
    assert_eq!(encode_entry(&e), chars("R2,ab\n"));
}

#[test]
fn empty_fields_encode_with_zero_lengths() {
    let e = LogEntry::Put { key: "".to_string(), value: "".to_string() };
    assert_eq!(encode_entry(&e), chars("S0,0,\n"));
}

#[test]
fn encode_then_parse_is_identity_for_put() {
    let e = LogEntry::Put { key: "some key".to_string(), value: "some,value\n".to_string() };
    let frame = encode_entry(&e);
    let n = frame.len();
    assert_eq!(parse_entry(&frame, 0), Some((e, n)));
}

#[test]
fn encode_then_parse_is_identity_for_remove() {
    let e = LogEntry::Remove("k\n,\\".to_string());
    let frame = encode_entry(&e);
    let n = frame.len();
    assert_eq!(parse_entry(&frame, 0), Some((e, n)));
}

#[test]
fn parse_reads_records_at_their_offsets() {
    let a = LogEntry::Put { key: "a".to_string(), value: "1".to_string() };
    let b = LogEntry::Remove("a".to_string());
    let mut log = encode_entry(&a);
    let mid = log.len();
    log.extend(encode_entry(&b));
    let end = log.len();
    assert_eq!(parse_entry(&log, 0), Some((a, mid)));
    assert_eq!(parse_entry(&log, mid), Some((b, end)));
    assert_eq!(parse_entry(&log, end), None);
}

#[test]
fn parse_rejects_unknown_tags() {
    assert_eq!(parse_entry(&chars("X1,a\n"), 0), None);
}

#[test]
fn parse_rejects_a_missing_terminator() {
    assert_eq!(parse_entry(&chars("S1,a1,b"), 0), None);
}

#[test]
fn parse_rejects_a_length_that_runs_past_the_end() {
    assert_eq!(parse_entry(&chars("S9,a1,b\n"), 0), None);
}

#[test]
fn parse_rejects_an_oversized_length_prefix() {
    assert_eq!(parse_entry(&chars("S99999999999999999999,x\n"), 0), None);
}

#[test]
fn parse_rejects_missing_commas_and_digits() {
    assert_eq!(parse_entry(&chars("S,a\n"), 0), None);
    assert_eq!(parse_entry(&chars("S1a\n"), 0), None);
    assert_eq!(parse_entry(&chars(""), 0), None);
}

#[test]
fn parse_accepts_a_record_followed_by_anything() {
    let e = LogEntry::Put { key: "k".to_string(), value: "v".to_string() };
    let mut frame = encode_entry(&e);
    let n = frame.len();
    frame.extend(chars("garbage"));
    assert_eq!(parse_entry(&frame, 0), Some((e, n)));
}

use evsync::log::{data_payloads, is_data_record, record_payload, LogRecord};

#[test]
fn only_data_records_pass() {
    assert!(is_data_record(&LogRecord::Data(vec![1])));
    assert!(!is_data_record(&LogRecord::Other));
    assert!(!is_data_record(&LogRecord::Corrupt));
    assert_eq!(record_payload(&LogRecord::Data(vec![1, 2])), Some(&[1u8, 2][..]));
    assert_eq!(record_payload(&LogRecord::Corrupt), None);
}

#[test]
fn corrupt_record_changes_nothing() {
    let clean = vec![LogRecord::Data(vec![1]), LogRecord::Other, LogRecord::Data(vec![2, 3]), LogRecord::Data(vec![])];
    let mut dirty = clean.clone();
    dirty.insert(2, LogRecord::Corrupt);
    assert_eq!(data_payloads(&dirty), data_payloads(&clean));
    assert_eq!(data_payloads(&clean), vec![vec![1], vec![2, 3], vec![]]);
}

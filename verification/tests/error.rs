use delta_kernel::error::Error;

#[test]
fn every_failure_has_its_own_message() {
    let all = [
        Error::SchemaMismatch,
        Error::MalformedAction,
        Error::UnreadableLog,
        Error::UnsupportedLocation,
        Error::EmptyData,
    ];
    let messages: Vec<String> = all.iter().map(|e| e.message()).collect();
    for (i, m) in messages.iter().enumerate() {
        assert!(!m.is_empty());
        for other in &messages[i + 1..] {
            assert_ne!(m, other);
        }
    }
}

#[test]
fn the_messages_say_what_failed() {
    assert_eq!(Error::UnsupportedLocation.message(), "can only read local files");
    assert_eq!(Error::EmptyData.message(), "No data found reading parquet file");
    assert_eq!(
        Error::SchemaMismatch.message(),
        "didn't find all requested columns with the expected type"
    );
    assert_eq!(Error::MalformedAction.message(), "a log action lacks a mandatory field");
    assert_eq!(Error::UnreadableLog.message(), "could not read a log or data file");
}

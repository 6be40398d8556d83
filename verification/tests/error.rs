use ssh_book::{Error, Record, Violation};

#[test]
fn storage_messages_carry_the_detail() {
    assert_eq!(
        Error::StorageUnavailable("permission denied".to_string()).message(),
        "IO error: permission denied"
    );
    assert_eq!(
        Error::Corrupt("expected value at line 1 column 1".to_string()).message(),
        "JSON error: expected value at line 1 column 1"
    );
    assert_eq!(Error::Corrupt(String::new()).message(), "JSON error: ");
}

#[test]
fn not_found_messages_name_the_record() {
    assert_eq!(Error::NotFound(Record::Group).message(), "Group not found");
    assert_eq!(Error::NotFound(Record::Server).message(), "Server not found");
}

#[test]
fn validation_messages_name_the_id() {
    assert_eq!(
        Error::Validation(Violation::UnknownGroup("abc".to_string())).message(),
        "Group with id abc not found"
    );
    assert_eq!(
        Error::Validation(Violation::DuplicateGroupId("abc".to_string())).message(),
        "Group with id abc already exists"
    );
    assert_eq!(
        Error::Validation(Violation::DuplicateServerId("abc".to_string())).message(),
        "Server with id abc already exists"
    );
    assert_eq!(
        Error::Validation(Violation::InvalidAuthType).message(),
        "Invalid authentication type"
    );
}

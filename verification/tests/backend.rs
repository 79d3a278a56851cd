use kvs::sled_store::{removed, stored_value, DATABASE_FILENAME};
use kvs::KVSError;

#[test]
fn stored_bytes_become_text() {
    assert_eq!(stored_value(None), Ok(None));
    assert_eq!(stored_value(Some(vec![])), Ok(Some(String::new())));
    assert_eq!(stored_value(Some(vec![118, 49])), Ok(Some("v1".to_string())));
    assert_eq!(stored_value(Some("снег".as_bytes().to_vec())), Ok(Some("снег".to_string())));
}

#[test]
fn stored_bytes_that_are_not_utf8_are_an_error() {
    assert_eq!(stored_value(Some(vec![0xff])), Err(KVSError::FromUtf8Error));
    assert_eq!(stored_value(Some(vec![0x61, 0xc3])), Err(KVSError::FromUtf8Error));
    assert_eq!(stored_value(Some(vec![0xed, 0xa0, 0x80])), Err(KVSError::FromUtf8Error));
}

#[test]
fn removal_reports_what_the_database_said() {
    assert_eq!(removed(Ok(true)), Ok(()));
    assert_eq!(removed(Ok(false)), Err(KVSError::KeyNotFoundError));
    assert_eq!(removed(Err(KVSError::SledError)), Err(KVSError::GeneralKVSError));
    assert_eq!(removed(Err(KVSError::IOError)), Err(KVSError::GeneralKVSError));
}

#[test]
fn database_name() {
    assert_eq!(DATABASE_FILENAME, "sled.db");
    assert_eq!(kvs::log::DATABASE_FILENAME, "kvs.db");
}

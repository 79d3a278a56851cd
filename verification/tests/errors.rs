use kvs::KVSError;

#[test]
fn each_kind_has_its_message() {
    assert_eq!(KVSError::KeyNotFoundError.message(), "Key not found");
    assert_eq!(KVSError::IOError.message(), "Imput output error");
    assert_eq!(KVSError::SerdeJsonError.message(), "Json serialization error");
    assert_eq!(KVSError::GeneralKVSError.message(), "Unknown error");
    assert_eq!(KVSError::FromUtf8Error.message(), "Cant converct to string");
    assert_eq!(KVSError::SledError.message(), "Sled engine error");
    assert_eq!(KVSError::ProtocolHeadMismatch.message(), "Protocol head mismatch");
    assert_eq!(KVSError::ProtocolChecksumMismatch.message(), "Protocol checksum mismatch");
    assert_eq!(KVSError::ProtocolUnknownOpcode.message(), "Protocol opcode unknown");
}

#[test]
fn description_is_the_same_for_every_kind() {
    assert_eq!(KVSError::IOError.description(), "KVS error .. please get some help");
    assert_eq!(KVSError::KeyNotFoundError.description(), KVSError::SledError.description());
}

#[test]
fn io_errors_become_io() {
    let err = std::io::Error::new(std::io::ErrorKind::UnexpectedEof, "short read");
    assert_eq!(KVSError::from(err), KVSError::IOError);
}

#[test]
fn json_errors_become_serialization() {
    let err = serde_json::from_str::<String>("{").unwrap_err();
    assert_eq!(KVSError::from(err), KVSError::SerdeJsonError);
}

#[test]
fn utf8_errors_become_utf8() {
    let err = String::from_utf8(vec![0xff, 0xfe]).unwrap_err();
    assert_eq!(KVSError::from(err), KVSError::FromUtf8Error);
}

#[test]
fn sled_errors_become_backend() {
    let err = sled::Error::Unsupported("not here".to_string());
    assert_eq!(KVSError::from(err), KVSError::SledError);
}

#[test]
fn strings_become_general() {
    assert_eq!(KVSError::from("anything".to_string()), KVSError::GeneralKVSError);
}

#[test]
fn question_mark_converts() {
    fn parse(bytes: Vec<u8>) -> Result<String, KVSError> {
        Ok(String::from_utf8(bytes)?)
    }
    assert_eq!(parse(vec![104, 105]), Ok("hi".to_string()));
    assert_eq!(parse(vec![0xc0]), Err(KVSError::FromUtf8Error));
}

use std::io::{Error as IoError, ErrorKind as IoKind};
use versio::error::{Error, ErrorKind};

#[test]
fn test_construct_err() {
    let _e: Error = Error::new(ErrorKind::IoError, "This is a test.".into());
}

#[test]
fn test_debug_err() {
    let _e: String = format!("Error: {:?}", Error::new(ErrorKind::IoError, "This is a test.".into()));
}

#[test]
fn test_parse_err() {
    let _e: Error = "not a number".parse::<u32>().unwrap_err().into();
}

#[test]
fn test_io_err() {
    let _e: Error = IoError::new(IoKind::Other, "test error").into();
}

#[test]
fn error_keeps_kind_and_description() {
    let e = Error::new(ErrorKind::SizeFail, "stop".to_string());
    assert_eq!(e.kind(), ErrorKind::SizeFail);
    assert_eq!(e.description(), "stop");
}

#[test]
fn parse_error_is_a_version_error() {
    let e: Error = "x".parse::<u32>().unwrap_err().into();
    assert_eq!(e.kind(), ErrorKind::VersionParse);
    assert!(!e.description().is_empty());
}

#[test]
fn io_error_is_an_io_error() {
    let e: Error = std::io::Error::new(std::io::ErrorKind::Other, "disk").into();
    assert_eq!(e.kind(), ErrorKind::IoError);
    assert!(e.description().starts_with("io "));
}

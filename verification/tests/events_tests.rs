use gtkrypt_crypto::progress::{ErrorEvent, ErrorKind, Phase, ProgressEvent};
use gtkrypt_crypto::text::{decimal_string, push_decimal};

#[test]
fn test_exit_codes() {
    assert_eq!(ErrorKind::WrongPassphrase.exit_code(), 1);
    assert_eq!(ErrorKind::CorruptFile.exit_code(), 2);
    assert_eq!(ErrorKind::Permission.exit_code(), 3);
    assert_eq!(ErrorKind::Internal.exit_code(), 10);
}

#[test]
fn test_error_names() {
    assert_eq!(ErrorKind::WrongPassphrase.name(), "wrong_passphrase");
    assert_eq!(ErrorKind::CorruptFile.name(), "corrupt_file");
    assert_eq!(ErrorKind::Permission.name(), "permission_error");
    assert_eq!(ErrorKind::Internal.name(), "internal_error");
}

#[test]
fn test_error_event_fields() {
    let event = ErrorEvent::new(ErrorKind::WrongPassphrase, "Authentication failed");
    assert_eq!(event.error, "wrong_passphrase");
    assert_eq!(event.message, "Authentication failed");
}

#[test]
fn test_phase_names() {
    assert_eq!(Phase::Kdf.name(), "kdf");
    assert_eq!(Phase::Encrypt.name(), "encrypt");
    assert_eq!(Phase::Decrypt.name(), "decrypt");
}

#[test]
fn test_progress_event_fields() {
    let event = ProgressEvent::new(Phase::Encrypt, 1024, 2048);
    assert_eq!(event.phase, "encrypt");
    assert_eq!(event.bytes_processed, 1024);
    assert_eq!(event.total_bytes, 2048);
    assert!(!event.is_complete());
}

#[test]
fn test_progress_is_complete_at_zero_total() {
    assert!(ProgressEvent::new(Phase::Kdf, 0, 0).is_complete());
    assert!(ProgressEvent::new(Phase::Kdf, 1, 1).is_complete());
    assert!(ProgressEvent::new(Phase::Encrypt, 0, 0).is_complete());
    assert!(!ProgressEvent::new(Phase::Decrypt, 0, 1).is_complete());
}

#[test]
fn test_decimal_string() {
    assert_eq!(decimal_string(0), "0");
    assert_eq!(decimal_string(7), "7");
    assert_eq!(decimal_string(10), "10");
    assert_eq!(decimal_string(1234567890), "1234567890");
    assert_eq!(decimal_string(u64::MAX), "18446744073709551615");
}

#[test]
fn test_push_decimal_appends() {
    let mut text = String::from("chunk ");
    push_decimal(&mut text, 42);
    assert_eq!(text, "chunk 42");
}

use grape_timer::errors::{TError, TErrorKind};

#[test]
fn error_messages_follow_their_kind() {
    let e = TError::new(TErrorKind::BadFormat);
    assert!(matches!(e.kind(), TErrorKind::BadFormat));
    assert_eq!(e.last_error(), "error,bad date format...");

    let e = TError::new(TErrorKind::DateOverflow);
    assert!(matches!(e.kind(), TErrorKind::DateOverflow));
    assert_eq!(e.last_error(), "error,Date overflow...");

    let e = TError::new(TErrorKind::WeekDay);
    assert!(matches!(e.kind(), TErrorKind::WeekDay));
    assert_eq!(e.last_error(), "error,bad week day...");

    let e = TError::new(TErrorKind::AllocTickerError);
    assert!(matches!(e.kind(), TErrorKind::AllocTickerError));
    assert_eq!(e.last_error(), "bad alloc ticker...");

    let e = TError::new(TErrorKind::Other(String::from("lock poisoned")));
    match e.kind() {
        TErrorKind::Other(m) => assert_eq!(m, "lock poisoned"),
        _ => panic!("kind must be preserved"),
    }
    assert_eq!(e.last_error(), "lock poisoned");
}

use trace::session::{Session, SessionError, SessionsFile, sort_sessions_info, password_login_supported, LoginFlow};

fn session(user_id: &str, device_id: &str) -> Session {
    Session {
        user_id: String::from(user_id),
        device_id: String::from(device_id),
        access_token: String::from("syt_SECRET-REDACTED"),
        refresh_token: None,
    }
}

#[test]
fn new_session_then_get_returns_equal_record() {
    let mut store = SessionsFile::empty();
    store.new_session(session("@alice:example.com", "DEVICEA")).unwrap();
    let got = store.get("@alice:example.com").unwrap();
    assert_eq!(got.user_id, "@alice:example.com");
    assert_eq!(got.device_id, "DEVICEA");
    assert_eq!(got.access_token, "syt_SECRET-REDACTED");
    assert!(got.refresh_token.is_none());
}

#[test]
fn delete_session_then_get_fails_not_found() {
    let mut store = SessionsFile::empty();
    store.new_session(session("@alice:example.com", "DEVICEA")).unwrap();
    store.new_session(session("@bob:example.com", "DEVICEB")).unwrap();
    store.delete_session("@alice:example.com").unwrap();
    match store.get("@alice:example.com") {
        Err(SessionError::NotFound { user_id }) => assert_eq!(user_id, "@alice:example.com"),
        _ => panic!("expected NotFound"),
    }
    assert!(store.get("@bob:example.com").is_ok());
}

#[test]
fn duplicate_new_session_is_rejected_without_mutation() {
    let mut store = SessionsFile::empty();
    store.new_session(session("@alice:example.com", "DEVICEA")).unwrap();
    let outcome = store.new_session(session("@alice:example.com", "DEVICEB"));
    match outcome {
        Err(SessionError::AlreadyExists { user_id }) => assert_eq!(user_id, "@alice:example.com"),
        _ => panic!("expected AlreadyExists"),
    }
    assert_eq!(store.sessions.len(), 1);
    assert_eq!(store.get("@alice:example.com").unwrap().device_id, "DEVICEA");
}

#[test]
fn delete_session_missing_account_reports_not_found() {
    let mut store = SessionsFile::empty();
    match store.delete_session("@ghost:example.com") {
        Err(SessionError::NotFound { user_id }) => assert_eq!(user_id, "@ghost:example.com"),
        _ => panic!("expected NotFound"),
    }
}

#[test]
fn local_session_record_is_removed_even_after_failed_remote_logout() {
    // The remote half of a logout may fail; the local record removal is the
    // same unconditional store mutation either way.
    let mut store = SessionsFile::empty();
    store.new_session(session("@alice:example.com", "DEVICEA")).unwrap();
    let remote_logout_succeeded = false;
    let _ = remote_logout_succeeded;
    store.delete_session("@alice:example.com").unwrap();
    assert!(store.get("@alice:example.com").is_err());
    assert_eq!(store.sessions.len(), 0);
}

#[test]
fn from_records_rejects_duplicate_accounts_as_corrupt() {
    let records = vec![
        session("@alice:example.com", "A"),
        session("@bob:example.com", "B"),
        session("@alice:example.com", "C"),
    ];
    match SessionsFile::from_records(records) {
        Err(SessionError::CorruptState) => {}
        _ => panic!("expected CorruptState"),
    }
}

#[test]
fn from_records_accepts_distinct_accounts() {
    let records = vec![session("@alice:example.com", "A"), session("@bob:example.com", "B")];
    let store = SessionsFile::from_records(records).unwrap();
    assert_eq!(store.sessions.len(), 2);
}

#[test]
fn sessions_listing_is_sorted_by_account_id() {
    let rows = vec![
        (String::from("@carol:example.com"), String::from("laptop")),
        (String::from("@alice:example.com"), String::from("phone")),
        (String::from("@bob:example.com"), String::from("[Unnamed]")),
    ];
    let sorted = sort_sessions_info(rows);
    let ids: Vec<&str> = sorted.iter().map(|(u, _)| u.as_str()).collect();
    assert_eq!(ids, vec!["@alice:example.com", "@bob:example.com", "@carol:example.com"]);
    assert_eq!(sorted[0].1, "phone");
}

#[test]
fn password_flow_detection() {
    let flows = vec![LoginFlow::Other, LoginFlow::Password];
    assert!(password_login_supported(&flows));
    let sso_only = vec![LoginFlow::Other];
    assert!(!password_login_supported(&sso_only));
    let none: Vec<LoginFlow> = vec![];
    assert!(!password_login_supported(&none));
}

use authcore::flows::{authenticate, confirm, login, register, resend, reset_pwd, AuthError, State};
use authcore::session::{Token, EXPIRE_TIME};

fn registered(now: u64) -> (State, Token) {
    let mut st = State::new();
    let t = register(
        &mut st,
        "lomect".to_string(),
        "a@x.com".to_string(),
        "157".to_string(),
        "secret1",
        now,
    )
    .expect("fresh email registers");
    (st, t)
}

#[test]
fn test_login_unknown_email_rejected() {
    let mut st = State::new();
    let r = login(&mut st, "who@x.com", "pw", 0);
    assert!(matches!(r, Err(AuthError::NotFound)));
}

#[test]
fn test_login_wrong_password_rejected() {
    let (mut st, _t) = registered(0);
    let r = login(&mut st, "a@x.com", "secret2", 10);
    assert!(matches!(r, Err(AuthError::Unauthorized)));
    // An unauthorized attempt issues nothing and leaves the session alone.
    let r2 = login(&mut st, "a@x.com", "secret1", 10).expect("right password");
    assert!(st.sessions.resolve(&r2.token, 10).is_some());
}

#[test]
fn test_register_duplicate_email_rejected() {
    let (mut st, _t) = registered(0);
    let r = register(
        &mut st,
        "other".to_string(),
        "a@x.com".to_string(),
        "158".to_string(),
        "secret2",
        5,
    );
    assert!(matches!(r, Err(AuthError::AlreadyRegistered)));
    assert_eq!(st.users.len(), 1);
}

#[test]
fn test_register_creates_inactive_account() {
    let (st, t) = registered(42);
    let i = st.users.find_by_email("a@x.com").expect("account exists");
    let a = st.users.account(i);
    assert_eq!(a.username, "lomect");
    assert_eq!(a.email, "a@x.com");
    assert_eq!(a.phone, "157");
    assert!(!a.active);
    assert_eq!(a.create_at, 42);
    assert_eq!(a.update_at, None);
    assert_eq!(a.id, "0");
    assert_eq!(st.sessions.resolve(&t.token, 42), Some("0".to_string()));
}

#[test]
fn test_login_reuses_fresh_session() {
    let (mut st, t0) = registered(0);
    // Remaining TTL is still far above one hour: the token comes back as is.
    let t1 = login(&mut st, "a@x.com", "secret1", 10).expect("password matches");
    assert_eq!(t1.token, t0.token);
    let at_threshold = EXPIRE_TIME - 3600;
    let t2 = login(&mut st, "a@x.com", "secret1", at_threshold).expect("password matches");
    assert_eq!(t2.token, t0.token);
}

#[test]
fn test_login_regenerates_near_expiry() {
    let (mut st, t0) = registered(0);
    // Under an hour left: the session is invalidated and reissued.
    let now = EXPIRE_TIME - 3599;
    let t1 = login(&mut st, "a@x.com", "secret1", now).expect("password matches");
    assert_ne!(t1.token, t0.token);
    assert!(st.sessions.resolve(&t0.token, now).is_none());
    assert_eq!(st.sessions.resolve(&t1.token, now), Some("0".to_string()));
}

#[test]
fn test_login_after_expiry_issues_fresh() {
    let (mut st, t0) = registered(0);
    let now = EXPIRE_TIME + 5;
    let t1 = login(&mut st, "a@x.com", "secret1", now).expect("password matches");
    assert_ne!(t1.token, t0.token);
    assert!(st.sessions.resolve(&t0.token, now).is_none());
    assert!(st.sessions.resolve(&t1.token, now).is_some());
}

#[test]
fn test_resend_rejects_while_fresh() {
    let (mut st, t0) = registered(0);
    let r = resend(&mut st, "a@x.com", 10);
    assert!(matches!(r, Err(AuthError::DuplicateSend)));
    // The stored token is untouched.
    let current = st.sessions.lookup("0", 10).expect("session still there");
    assert_eq!(current.token, t0.token);
}

#[test]
fn test_resend_unknown_email_rejected() {
    let mut st = State::new();
    let r = resend(&mut st, "who@x.com", 0);
    assert!(matches!(r, Err(AuthError::NotFound)));
}

#[test]
fn test_resend_reissues_stale_session() {
    let (mut st, t0) = registered(0);
    // Exactly one hour left: not above the threshold, so resend reissues.
    let now = EXPIRE_TIME - 3600;
    let t1 = resend(&mut st, "a@x.com", now).expect("stale session is replaced");
    assert_ne!(t1.token, t0.token);
    assert!(st.sessions.resolve(&t0.token, now).is_none());
    assert_eq!(st.sessions.resolve(&t1.token, now), Some("0".to_string()));
}

#[test]
fn test_resend_after_expiry_issues_fresh() {
    let (mut st, _t0) = registered(0);
    let now = EXPIRE_TIME + 100;
    let t1 = resend(&mut st, "a@x.com", now).expect("no live session blocks it");
    assert_eq!(st.sessions.resolve(&t1.token, now), Some("0".to_string()));
}

#[test]
fn test_confirm_consumes_token_and_activates() {
    let (mut st, t0) = registered(0);
    let t1 = confirm(&mut st, &t0.token, 10).expect("token resolves");
    assert_ne!(t1.token, t0.token);
    // The consumed token no longer resolves; the fresh one does.
    assert!(st.sessions.resolve(&t0.token, 10).is_none());
    assert_eq!(st.sessions.resolve(&t1.token, 10), Some("0".to_string()));
    let i = st.users.find_by_email("a@x.com").expect("account exists");
    assert!(st.users.account(i).active);
}

#[test]
fn test_confirm_without_account_still_consumes_token() {
    // A token can outlive (or precede) its account record; confirmation then
    // flips no flag but still consumes the token and answers with a fresh one.
    let mut st = State::new();
    let t0 = st.sessions.issue("99", 0);
    let t1 = confirm(&mut st, &t0.token, 1).expect("token resolves");
    assert!(st.sessions.resolve(&t0.token, 1).is_none());
    assert_eq!(st.sessions.resolve(&t1.token, 1), Some("99".to_string()));
    assert_eq!(st.users.len(), 0);
}

#[test]
fn test_confirm_bad_token_rejected() {
    let mut st = State::new();
    let r = confirm(&mut st, "nosuchtoken", 0);
    assert!(matches!(r, Err(AuthError::Unauthorized)));
}

#[test]
fn test_confirm_expired_token_rejected() {
    let (mut st, t0) = registered(0);
    let r = confirm(&mut st, &t0.token, EXPIRE_TIME);
    assert!(matches!(r, Err(AuthError::Unauthorized)));
}

#[test]
fn test_reset_pwd_changes_hash() {
    let (mut st, t0) = registered(0);
    reset_pwd(&mut st, &t0.token, "changed9", 50).expect("live token authorizes");
    let r_old = login(&mut st, "a@x.com", "secret1", 60);
    assert!(matches!(r_old, Err(AuthError::Unauthorized)));
    let t1 = login(&mut st, "a@x.com", "changed9", 60).expect("new password works");
    assert!(st.sessions.resolve(&t1.token, 60).is_some());
    let i = st.users.find_by_email("a@x.com").expect("account exists");
    assert_eq!(st.users.account(i).update_at, Some(50));
}

#[test]
fn test_reset_pwd_bad_token_rejected() {
    let (mut st, _t0) = registered(0);
    let r = reset_pwd(&mut st, "stalestalestale", "changed9", 10);
    assert!(matches!(r, Err(AuthError::Unauthorized)));
    let t = login(&mut st, "a@x.com", "secret1", 10).expect("old password still set");
    assert!(st.sessions.resolve(&t.token, 10).is_some());
}

#[test]
fn test_authenticate_checkpoint() {
    let (mut st, _) = registered(0);
    let t = login(&mut st, "a@x.com", "secret1", 5).expect("password matches");
    assert_eq!(authenticate(&st, None, 5), Err(AuthError::Unauthorized));
    let bogus = "x".to_string();
    assert_eq!(authenticate(&st, Some(&bogus), 5), Err(AuthError::Unauthorized));
    assert_eq!(authenticate(&st, Some(&t.token), 5), Ok("0".to_string()));
    assert_eq!(
        authenticate(&st, Some(&t.token), EXPIRE_TIME + 5),
        Err(AuthError::Unauthorized)
    );
}

#[test]
fn test_end_to_end_register_confirm_login() {
    let mut st = State::new();
    let tc = register(
        &mut st,
        "lomect".to_string(),
        "a@x.com".to_string(),
        "157".to_string(),
        "secret1",
        100,
    )
    .expect("fresh email registers");
    let id_at_registration = st
        .sessions
        .resolve(&tc.token, 100)
        .expect("confirmation token resolves");
    confirm(&mut st, &tc.token, 200).expect("confirmation token resolves");
    let t = login(&mut st, "a@x.com", "secret1", 300).expect("credentials match");
    assert_eq!(
        st.sessions.resolve(&t.token, 300),
        Some(id_at_registration.clone())
    );
    let i = st.users.find_by_email("a@x.com").expect("account exists");
    assert_eq!(st.users.account(i).id, id_at_registration);
    assert!(st.users.account(i).active);
}

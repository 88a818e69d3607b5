use clipture::auth::{
    evaluate_callback, interpret_store_deletion, AuthError, AuthManager, AuthPhase,
    CallbackOutcome, CallbackParts,
};

fn pairs(list: &[(&str, &str)]) -> Vec<(String, String)> {
    list.iter()
        .map(|(k, v)| (k.to_string(), v.to_string()))
        .collect()
}

#[test]
fn sign_in_while_in_flight_is_refused() {
    let mut auth = AuthManager::new(None);
    let url = auth.begin_sign_in(1_000).expect("first attempt takes the lock");
    assert_eq!(url, "http://localhost:3000/redirects/login?appLogin=true");
    // A second attempt fails at once, so no second browser window is opened.
    assert_eq!(auth.begin_sign_in(1_001), Err(AuthError::AlreadyInProgress));
    assert_eq!(
        auth.phase,
        AuthPhase::AwaitingCallback { deadline: 1_600 }
    );
}

#[test]
fn no_accepted_callback_by_the_deadline_times_out() {
    let mut auth = AuthManager::new(None);
    auth.begin_sign_in(0).unwrap();
    let r = auth.handle_callback(600, "clipture://cb?secret=tok");
    assert_eq!(r, Err(AuthError::CallbackTimeout));
    assert_eq!(auth.phase, AuthPhase::Idle);
}

#[test]
fn foreign_scheme_and_login_redirect_are_ignored() {
    let mut auth = AuthManager::new(None);
    auth.begin_sign_in(0).unwrap();
    assert!(matches!(
        auth.handle_callback(1, "https://example.com/?secret=x"),
        Ok(CallbackOutcome::Ignored)
    ));
    assert!(matches!(
        auth.handle_callback(2, "clipture:///login/done?secret=x"),
        Ok(CallbackOutcome::Ignored)
    ));
    assert!(matches!(
        auth.handle_callback(3, "not a url at all"),
        Ok(CallbackOutcome::Ignored)
    ));
    // The attempt is still waiting after discarded callbacks.
    assert_eq!(auth.phase, AuthPhase::AwaitingCallback { deadline: 600 });
}

#[test]
fn accepted_callback_without_secret_fails() {
    let mut auth = AuthManager::new(None);
    auth.begin_sign_in(0).unwrap();
    let r = auth.handle_callback(1, "clipture://cb?other=x");
    assert_eq!(r, Err(AuthError::NoSecretInUrl));
    assert_eq!(auth.phase, AuthPhase::Idle);
}

#[test]
fn accepted_callback_yields_trimmed_secret() {
    let mut auth = AuthManager::new(None);
    auth.begin_sign_in(0).unwrap();
    let r = auth.handle_callback(1, "clipture://cb?first=1&secret=%20tok123%20");
    match r {
        Ok(CallbackOutcome::Accepted(secret)) => assert_eq!(secret, "tok123"),
        other => panic!("unexpected outcome: {:?}", other),
    }
    assert_eq!(auth.phase, AuthPhase::Exchanging);
}

#[test]
fn evaluate_callback_picks_first_secret_parameter() {
    let parts = CallbackParts {
        scheme: "clipture".to_string(),
        path: "/done".to_string(),
        query: pairs(&[("a", "1"), ("secret", "one"), ("secret", "two")]),
    };
    match evaluate_callback(&parts) {
        CallbackOutcome::Accepted(secret) => assert_eq!(secret, "one"),
        other => panic!("unexpected outcome: {:?}", other),
    }
}

#[test]
fn exchange_with_zero_cookies_fails_and_leaves_cache_unset() {
    let mut auth = AuthManager::new(None);
    auth.begin_sign_in(0).unwrap();
    auth.handle_callback(1, "clipture://cb?secret=tok").unwrap();
    let r = auth.complete_exchange(Some(vec![]));
    assert_eq!(r, Err(AuthError::CredentialExchangeFailed));
    assert!(!auth.is_logged_in());
    assert_eq!(auth.phase, AuthPhase::Idle);
}

#[test]
fn failed_exchange_request_fails_and_releases_the_lock() {
    let mut auth = AuthManager::new(None);
    auth.begin_sign_in(0).unwrap();
    auth.handle_callback(1, "clipture://cb?secret=tok").unwrap();
    assert_eq!(
        auth.complete_exchange(None),
        Err(AuthError::CredentialExchangeFailed)
    );
    assert!(!auth.is_logged_in());
    // The lock is free again: a new attempt may start.
    assert!(auth.begin_sign_in(2).is_ok());
}

#[test]
fn successful_exchange_caches_and_serializes_the_cookies() {
    let mut auth = AuthManager::new(None);
    auth.begin_sign_in(0).unwrap();
    auth.handle_callback(1, "clipture://cb?secret=tok").unwrap();
    let text = auth
        .complete_exchange(Some(pairs(&[("sid", "abc"), ("token", "xyz")])))
        .expect("exchange succeeds");
    assert_eq!(text, "{\"sid\":\"abc\",\"token\":\"xyz\"}");
    assert!(auth.is_logged_in());
    let cookies = auth.get_cookies().expect("cookies cached");
    assert_eq!(cookies.get(&"sid".to_string()), Some(&"abc".to_string()));
    assert_eq!(cookies.get(&"token".to_string()), Some(&"xyz".to_string()));
}

#[test]
fn manager_loads_persisted_credentials() {
    let auth = AuthManager::new(Some("{\"sid\":\"abc\"}"));
    assert!(auth.is_logged_in());
    let cookies = auth.get_cookies().unwrap();
    assert_eq!(cookies.get(&"sid".to_string()), Some(&"abc".to_string()));

    let garbled = AuthManager::new(Some("not json"));
    assert!(!garbled.is_logged_in());

    let fresh = AuthManager::new(None);
    assert!(!fresh.is_logged_in());
}

#[test]
fn closed_callback_channel_ends_the_attempt() {
    let mut auth = AuthManager::new(None);
    auth.begin_sign_in(0).unwrap();
    assert_eq!(auth.handle_channel_closed(), AuthError::CallbackChannelClosed);
    assert_eq!(auth.phase, AuthPhase::Idle);
}

#[test]
fn sign_out_clears_the_cache() {
    let mut auth = AuthManager::new(Some("{\"sid\":\"abc\"}"));
    assert!(auth.is_logged_in());
    auth.sign_out();
    assert!(!auth.is_logged_in());
    assert_eq!(
        interpret_store_deletion(false),
        Err(AuthError::CredentialStoreFailed)
    );
    assert_eq!(interpret_store_deletion(true), Ok(()));
}

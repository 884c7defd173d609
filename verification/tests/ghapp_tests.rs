use confer::ghapp::{
    answers_credential, b64url, cache_line, cached_token, find_installation, installation_of, json_num, json_str, jwt,
    minted_token, signing_input, AppConfig, AppError,
};

#[test]
fn b64url_matches_known_vectors() {
    assert_eq!(b64url(b""), "");
    assert_eq!(b64url(b"f"), "Zg");
    assert_eq!(b64url(b"fo"), "Zm8");
    assert_eq!(b64url(b"foo"), "Zm9v");
    assert_eq!(b64url(b"foob"), "Zm9vYg");
    assert_eq!(b64url(b"fooba"), "Zm9vYmE");
    assert_eq!(b64url(b"foobar"), "Zm9vYmFy");
    assert_eq!(b64url(&[0xfb, 0xff, 0xbf]), "-_-_");
}

#[test]
fn json_str_extracts_simple_fields() {
    let body = r#"{"token":"ghs_abc123","expires_at":"2026-07-09T21:00:00Z","id":42}"#;
    assert_eq!(json_str(body, "token").as_deref(), Some("ghs_abc123"));
    assert_eq!(json_str(body, "expires_at").as_deref(), Some("2026-07-09T21:00:00Z"));
    assert_eq!(json_str(body, "missing"), None);
}

#[test]
fn json_num_extracts_bare_numbers() {
    let list = r#"[{"id": 145536049, "app_id": 4259398, "account": {"id": 155389}}]"#;
    assert_eq!(json_num(list, "id"), Some(145536049));
    assert_eq!(json_num(list, "app_id"), Some(4259398));
    assert_eq!(json_num(r#"{"expires":1799999999}"#, "expires"), Some(1799999999));
    assert_eq!(json_num(r#"{"x":"str"}"#, "x"), None);
}

#[test]
fn token_cache_round_trips_while_fresh() {
    let line = cache_line("ghs_tok", 2000);
    assert_eq!(line, "{\"token\":\"ghs_tok\",\"expires\":2000}\n");
    assert_eq!(cached_token(&line, 1000).as_deref(), Some("ghs_tok"));
    assert_eq!(cached_token(&line, 1700), None, "within five minutes of expiry a fresh token is minted");
    assert_eq!(cached_token("garbage", 0), None);
}

#[test]
fn installation_and_token_replies() {
    assert_eq!(find_installation(r#"[{"id": 7}]"#), Ok(7));
    assert_eq!(find_installation("[]"), Err(AppError::NoInstallation));
    let cfg = AppConfig { app_id: "1".into(), key_path: "k".into(), installation_id: None, slug: None };
    assert_eq!(installation_of(&cfg), Err(AppError::NoInstallationId));
    let (t, exp) = minted_token(r#"{"token":"ghs_x","expires_at":"z"}"#, 100).unwrap();
    assert_eq!((t.as_str(), exp), ("ghs_x", 3400));
    assert_eq!(minted_token("{}", 100).err(), Some(AppError::NoToken));
}

#[test]
fn credential_requests_for_github_only() {
    assert!(answers_credential("protocol=https\nhost=github.com\n"));
    assert!(!answers_credential("protocol=https\nhost=gitlab.com\n"));
    assert!(answers_credential("protocol=https\n"));
}

#[test]
fn jwt_has_three_segments() {
    let s = signing_input(1_000_000, "123456");
    assert!(s.starts_with("eyJhbGciOiJSUzI1NiIsInR5cCI6IkpXVCJ9."));
    let j = jwt(&s, &[1, 2, 3]);
    let parts: Vec<&str> = j.split('.').collect();
    assert_eq!(parts.len(), 3);
    assert!(parts.iter().all(|p| !p.is_empty()));
    assert_eq!(parts[2], "AQID");
}

use telegram_drive_headless::auth::{
    derive_playback_origin_key, require_auth, require_playback_origin,
};
use telegram_drive_headless::reply::json_error;
use telegram_drive_headless::request::RequestHead;

fn bare_head() -> RequestHead {
    RequestHead {
        api_key: None,
        playback_origin_key: None,
        content_length: None,
        file_name: None,
        range: None,
    }
}

fn with_key(key: &[u8]) -> RequestHead {
    RequestHead { api_key: Some(key.to_vec()), ..bare_head() }
}

fn with_origin_key(key: &[u8]) -> RequestHead {
    RequestHead { playback_origin_key: Some(key.to_vec()), ..bare_head() }
}

#[test]
fn playback_origin_key_is_deterministic_and_scoped() {
    let first = derive_playback_origin_key("abcdefghijklmnopqrstuvwxyz123456");
    let second = derive_playback_origin_key("abcdefghijklmnopqrstuvwxyz123456");
    let other = derive_playback_origin_key("abcdefghijklmnopqrstuvwxyz654321");
    assert_eq!(first, second);
    assert_ne!(first, other);
    assert_eq!(first.len(), 64);
}

#[test]
fn origin_key_is_hmac_sha256_in_small_hexadecimal_digits() {
    assert_eq!(
        derive_playback_origin_key("abcdefghijklmnopqrstuvwxyz123456"),
        "4fb1687fa7cdad5acc5d044a6e52ad63040a0865b44a111309c3dfc8237cb2a2"
    );
    assert_eq!(
        derive_playback_origin_key("abcdefghijklmnopqrstuvwxyz654321"),
        "4c09e934966bc0f19ee4542e53a83989fdb0389d9d91b1f0919241ac163c7452"
    );
}

#[test]
fn the_right_key_is_let_through() {
    assert!(require_auth(&with_key(b"secret"), "secret").is_ok());
    assert!(require_playback_origin(&with_origin_key(b"secret"), "secret").is_ok());
}

#[test]
fn any_other_key_is_refused() {
    for key in [&b"secreT"[..], b"secre", b"secrets", b"", b"secret\xff", b" secret"] {
        let refused = require_auth(&with_key(key), "secret").unwrap_err();
        assert_eq!(refused.status, 401);
        assert_eq!(refused.code, "UNAUTHORIZED");
        assert_eq!(refused.message, "Invalid API key");
        let refused = require_playback_origin(&with_origin_key(key), "secret").unwrap_err();
        assert_eq!(refused.status, 401);
        assert_eq!(refused.code, "UNAUTHORIZED");
        assert_eq!(refused.message, "Invalid playback origin key");
    }
    assert!(require_auth(&bare_head(), "secret").is_err());
    assert!(require_playback_origin(&bare_head(), "secret").is_err());
}

#[test]
fn a_key_in_the_wrong_header_does_not_count() {
    assert!(require_auth(&with_origin_key(b"secret"), "secret").is_err());
    assert!(require_playback_origin(&with_key(b"secret"), "secret").is_err());
}

#[test]
fn numbers_that_are_no_status_become_internal_errors() {
    let reply = json_error("CODE", "text".to_string(), 422);
    assert_eq!(reply.code, "CODE");
    assert_eq!(reply.message, "text");
    assert_eq!(reply.status, 422);
    assert_eq!(json_error("C", String::new(), 99).status, 500);
    assert_eq!(json_error("C", String::new(), 100).status, 100);
    assert_eq!(json_error("C", String::new(), 999).status, 999);
    assert_eq!(json_error("C", String::new(), 1000).status, 500);
}

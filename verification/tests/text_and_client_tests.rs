use jeb::text::{is_blank_str, split_char, split_once_char, trim_end_matches_char, trim_str};
use jeb::{check_status, require_api_key, ClientError, TypeSafeClient, Usage};

#[test]
fn trim_removes_unicode_white_space() {
    assert_eq!(trim_str("  \t hello world \n"), "hello world");
    assert_eq!(trim_str("\u{3000}\u{a0}x\u{2009}"), "x");
    assert_eq!(trim_str("   "), "");
    assert_eq!(trim_str("a b"), "a b");
    assert!(is_blank_str(" \u{85}\r\n"));
    assert!(!is_blank_str(" . "));
}

#[test]
fn split_once_cuts_at_first() {
    let (a, b) = split_once_char("k=v=w", '=').unwrap();
    assert_eq!(a, "k");
    assert_eq!(b, "v=w");
    assert!(split_once_char("kvw", '=').is_none());
}

#[test]
fn split_keeps_empty_pieces() {
    assert_eq!(split_char("a,,b,", ','), vec!["a", "", "b", ""]);
    assert_eq!(split_char("", ','), vec![""]);
}

#[test]
fn trim_end_matches_slashes() {
    assert_eq!(trim_end_matches_char("https://x.ai//", '/'), "https://x.ai");
    assert_eq!(trim_end_matches_char("///", '/'), "");
    assert_eq!(trim_end_matches_char("a/b", '/'), "a/b");
}

#[test]
fn api_key_must_be_given_and_not_blank() {
    assert!(matches!(require_api_key(None), Err(ClientError::MissingApiKey)));
    assert!(matches!(require_api_key(Some("  ".to_string())), Err(ClientError::MissingApiKey)));
    assert_eq!(require_api_key(Some(" k ".to_string())).unwrap(), " k ");
    assert_eq!(
        ClientError::MissingApiKey.message(),
        "Missing TypeSafe API key. Set TYPESAFE_API_KEY environment variable or pass --api-key."
    );
}

#[test]
fn client_refuses_blank_key() {
    let err = TypeSafeClient::new(" \t".to_string(), None, 30).unwrap_err();
    assert!(matches!(err, ClientError::ApiKeyRequired));
    assert_eq!(
        err.message(),
        "TypeSafe API key is required. Set TYPESAFE_API_KEY environment variable or pass --api-key."
    );
}

#[test]
fn client_normalizes_base_url() {
    let c = TypeSafeClient::new("dummy-key".to_string(), Some("https://example.test/api//".to_string()), 5)
        .unwrap();
    assert_eq!(c.api_key(), "dummy-key");
    assert_eq!(c.base_url(), "https://example.test/api");
    assert_eq!(c.endpoint(), "https://example.test/api/v1/systemone");
    let d = TypeSafeClient::new("k".to_string(), None, 30).unwrap();
    assert_eq!(d.endpoint(), "https://api.typesafe.ai/v1/systemone");
}

#[test]
fn status_outside_2xx_is_an_error() {
    assert!(check_status(200, "ok").is_ok());
    assert!(check_status(299, "").is_ok());
    assert!(check_status(199, "").is_err());
    let e = check_status(404, "  not found \n").unwrap_err();
    assert_eq!(e.status, 404);
    assert_eq!(e.body, "not found");
    assert!(check_status(300, "x").is_err());
}

#[test]
fn usage_holds_token_counts() {
    let u = Usage { input_tokens: 318, output_tokens: 34 };
    assert_eq!(u, Usage { input_tokens: 318, output_tokens: 34 });
    assert_eq!(u.input_tokens + u.output_tokens, 352);
}

use firebase_rs_sdk::functions::api::decode_callable_response;
use firebase_rs_sdk::functions::context::{messaging_token_for_context, CallContext, ContextProvider};
use firebase_rs_sdk::functions::error::FunctionsErrorCode;
use firebase_rs_sdk::json::{JsonString, JsonValue};
use firebase_rs_sdk::messaging::token_store::TokenRecord;

fn jstr(s: &str) -> JsonValue {
    JsonValue::String(JsonString { text: s.to_string(), as_f64: None })
}

#[test]
fn callable_response_status_handling() {
    let ok = decode_callable_response(200, Some(jstr("x")), false).unwrap();
    assert!(matches!(ok, JsonValue::String(_)));
    assert!(matches!(decode_callable_response(200, None, false).unwrap(), JsonValue::Null));
    let no_content = decode_callable_response(204, None, false).unwrap_err();
    assert_eq!(no_content.code, FunctionsErrorCode::Internal);
    assert_eq!(no_content.message, "Callable response is missing data payload (HTTP 204)");
    let bad_json = decode_callable_response(200, None, true).unwrap_err();
    assert_eq!(bad_json.message, "Response is not valid JSON object");
    let server = decode_callable_response(500, Some(jstr("x")), false).unwrap_err();
    assert_eq!(server.message, "Callable request failed with HTTP status 500");
}

#[test]
fn context_uses_fetched_tokens_unless_overridden() {
    let mut provider = ContextProvider::new();
    let c = provider.get_context_with(Some("auth".to_string()), Some("fcm".to_string()), Some(String::new()));
    assert_eq!(c.auth_token.as_deref(), Some("auth"));
    assert_eq!(c.messaging_token.as_deref(), Some("fcm"));
    assert_eq!(c.app_check_token, None);
    provider.set_overrides(CallContext { auth_token: Some("o".to_string()), messaging_token: None, app_check_token: None });
    let o = provider.get_context_with(Some("auth".to_string()), None, None);
    assert_eq!(o.auth_token.as_deref(), Some("o"));
}

#[test]
fn stored_messaging_token_is_used_for_a_week() {
    let record = TokenRecord { token: "t".to_string(), create_time_ms: 1_000, subscription: None };
    assert_eq!(messaging_token_for_context(Some(&record), 2_000).as_deref(), Some("t"));
    assert_eq!(messaging_token_for_context(Some(&record), 1_000 + 604_800_000), None);
    assert_eq!(messaging_token_for_context(None, 2_000), None);
}

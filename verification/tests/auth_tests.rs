use maas360_client::auth::{auth_url, interpret_auth_reply, parse_auth_response};
use maas360_client::credentials::APIWrapper;
use maas360_client::errors::ClientError;
use maas360_client::json::serialize_envelope;

fn envelope() -> APIWrapper {
    APIWrapper::new(
        String::from("1098765"),
        String::from("myApp"),
        String::from("myKey"),
        String::from("admin"),
        String::from("hunter2"),
    )
}

#[test]
fn auth_call_returns_the_exact_token() {
    let body = r#"{"authResponse":{"errorCode":0,"authToken":"abc123"}}"#;
    assert_eq!(interpret_auth_reply(200, body), Ok(String::from("abc123")));
}

#[test]
fn auth_call_without_token_returns_empty_string() {
    let body = r#"{"authResponse":{"errorCode":0}}"#;
    assert_eq!(interpret_auth_reply(200, body), Ok(String::new()));
}

#[test]
fn auth_call_with_null_token_returns_empty_string() {
    let body = r#"{"authResponse":{"errorCode":0,"authToken":null}}"#;
    assert_eq!(interpret_auth_reply(200, body), Ok(String::new()));
}

#[test]
fn auth_call_on_http_401_fails_with_that_status() {
    let body = r#"{"authResponse":{"errorCode":0,"authToken":"abc123"}}"#;
    let r = interpret_auth_reply(401, body);
    assert_eq!(r, Err(ClientError::HttpStatus(401)));
    assert!(!ClientError::HttpStatus(401).describe().is_empty());
}

#[test]
fn auth_call_on_garbage_body_fails_as_schema_error() {
    assert_eq!(interpret_auth_reply(200, "not json"), Err(ClientError::MalformedResponse));
    assert_eq!(interpret_auth_reply(200, ""), Err(ClientError::MalformedResponse));
    assert_eq!(
        interpret_auth_reply(200, r#"{"authResponse":{}}"#),
        Err(ClientError::MalformedResponse)
    );
}

#[test]
fn auth_response_fields_parse_in_any_order_with_whitespace() {
    let body = " {\n \"authResponse\" : { \"authToken\" : \"tok\",\n \"errorDesc\" : \"fine\", \"errorCode\" : 7 } } ";
    let a = parse_auth_response(body).unwrap();
    assert_eq!(a.error_code, 7);
    assert_eq!(a.error_desc, Some(String::from("fine")));
    assert_eq!(a.auth_token, Some(String::from("tok")));
}

#[test]
fn auth_response_tolerates_unknown_scalar_fields() {
    let body = r#"{"authResponse":{"errorCode":1,"extra":true,"other":null,"n":-12,"authToken":"t"}}"#;
    let a = parse_auth_response(body).unwrap();
    assert_eq!(a.error_code, 1);
    assert_eq!(a.auth_token, Some(String::from("t")));
}

#[test]
fn auth_response_token_escapes_are_decoded() {
    let body = r#"{"authResponse":{"errorCode":0,"authToken":"a\"b\\c\/d\nA"}}"#;
    let a = parse_auth_response(body).unwrap();
    assert_eq!(a.auth_token, Some(String::from("a\"b\\c/d\nA")));
}

#[test]
fn auth_response_unicode_escapes_below_128_are_decoded() {
    let body = r#"{"authResponse":{"errorCode":0,"authToken":"A\u000a\u0009"}}"#;
    let a = parse_auth_response(body).unwrap();
    assert_eq!(a.auth_token, Some(String::from("A\n\t")));
}

#[test]
fn auth_response_unicode_escapes_above_127_are_decoded() {
    let body = r#"{"authResponse":{"errorCode":0,"authToken":"\u00e9\u20ac"}}"#;
    let a = parse_auth_response(body).unwrap();
    assert_eq!(a.auth_token, Some(String::from("\u{e9}\u{20ac}")));
}

#[test]
fn auth_response_surrogate_escape_is_schema_error() {
    let body = r#"{"authResponse":{"errorCode":0,"authToken":"\ud800"}}"#;
    assert_eq!(parse_auth_response(body).unwrap_err(), ClientError::MalformedResponse);
}

#[test]
fn auth_response_raw_control_character_is_schema_error() {
    let body = "{\"authResponse\":{\"errorCode\":0,\"authToken\":\"a\u{1}b\"}}";
    assert_eq!(parse_auth_response(body).unwrap_err(), ClientError::MalformedResponse);
}

#[test]
fn auth_response_leading_zero_integer_is_schema_error() {
    let body = r#"{"authResponse":{"errorCode":007}}"#;
    assert_eq!(parse_auth_response(body).unwrap_err(), ClientError::MalformedResponse);
}

#[test]
fn auth_response_ignores_nested_unknown_members() {
    let body = r#"{"authResponse":{"errorCode":0,"extra":{"a":[1,2,{"b":null}]},"authToken":"t","list":[[]]}}"#;
    let a = parse_auth_response(body).unwrap();
    assert_eq!(a.error_code, 0);
    assert_eq!(a.auth_token, Some(String::from("t")));
}

#[test]
fn auth_body_ignores_extra_top_level_members() {
    let body = r#"{"meta":{"x":1},"authResponse":{"errorCode":0,"authToken":"t"},"trail":[1,2]}"#;
    let a = parse_auth_response(body).unwrap();
    assert_eq!(a.auth_token, Some(String::from("t")));
}

#[test]
fn auth_body_without_auth_response_member_is_schema_error() {
    let body = r#"{"meta":{"x":1}}"#;
    assert_eq!(parse_auth_response(body).unwrap_err(), ClientError::MalformedResponse);
}

#[test]
fn auth_response_error_code_out_of_range_is_schema_error() {
    let body = r#"{"authResponse":{"errorCode":70000}}"#;
    assert_eq!(parse_auth_response(body).unwrap_err(), ClientError::MalformedResponse);
    let neg = r#"{"authResponse":{"errorCode":-1}}"#;
    assert_eq!(parse_auth_response(neg).unwrap_err(), ClientError::MalformedResponse);
}

#[test]
fn auth_url_concatenates_base_path_and_billing_id() {
    assert_eq!(
        auth_url("https://services.fiberlink.com/", "1098765"),
        "https://services.fiberlink.com/auth-apis/auth/1.0/authenticate/1098765"
    );
}

#[test]
fn envelope_serializes_to_the_documented_shape() {
    let w = envelope();
    let body = serialize_envelope(&w.auth_request.maas360_admin_auth);
    let expected = String::from("{\"authRequest\":{\"maaS360AdminAuth\":{\"billingID\":\"1098765\",\"platformID\":\"3\",\"appVersion\":\"1.0\",\"appID\":\"myApp\",\"appAccessKey\":\"myKey\",\"userName\":\"admin\",\"password\":\"hunter2\"}}}");
    assert_eq!(body, expected);
}

#[test]
fn envelope_escapes_credentials() {
    let w = APIWrapper::new(
        String::from("1"),
        String::from("a\"b"),
        String::from("back\\slash"),
        String::from("line\nbreak"),
        String::from("tab\tchar"),
    );
    let body = serialize_envelope(&w.auth_request.maas360_admin_auth);
    assert!(body.contains(r#""appID":"a\"b""#));
    assert!(body.contains(r#""appAccessKey":"back\\slash""#));
    assert!(body.contains(r#""userName":"line\u000abreak""#));
    assert!(body.contains(r#""password":"tab\u0009char""#));
}

#[test]
fn envelope_round_trips_through_a_json_parser_shape() {
    // The serialized envelope, read back as JSON by hand, carries exactly the
    // documented field names with the supplied values.
    let w = envelope();
    let body = serialize_envelope(&w.auth_request.maas360_admin_auth);
    for key in [
        "\"billingID\":", "\"platformID\":", "\"appVersion\":", "\"appID\":",
        "\"appAccessKey\":", "\"userName\":", "\"password\":",
    ] {
        assert!(body.contains(key), "missing {key}");
    }
    assert!(body.starts_with("{\"authRequest\":{\"maaS360AdminAuth\":{"));
    assert!(body.ends_with("}}}"));
}

#[test]
fn envelope_constructor_fills_the_constant_fields() {
    let w = envelope();
    let a = &w.auth_request.maas360_admin_auth;
    assert_eq!(a.billing_id, "1098765");
    assert_eq!(a.platform_id, "3");
    assert_eq!(a.app_version, "1.0");
    assert_eq!(a.app_id, "myApp");
    assert_eq!(a.app_access_key, "myKey");
    assert_eq!(a.user_name, "admin");
    assert_eq!(a.password, "hunter2");
}

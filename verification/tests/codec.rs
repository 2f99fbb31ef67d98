use rpc_proxy::json::{serialize_value, JsonValue};
use rpc_proxy::rpc::{
    exhausted_response, fingerprint, serialize_request, serialize_response, serve_cached_response,
    JsonRpcRequest, JsonRpcResponse, JsonRpcResponseError,
};

fn text(bytes: Vec<u8>) -> String {
    String::from_utf8(bytes).unwrap()
}

fn req(id: u64, method: &str, params: Option<Vec<JsonValue>>) -> JsonRpcRequest {
    JsonRpcRequest {
        jsonrpc: "2.0".to_string(),
        id,
        method: method.to_string(),
        params,
    }
}

#[test]
fn scalars_serialize_exactly() {
    assert_eq!(text(serialize_value(&JsonValue::Null)), "null");
    assert_eq!(text(serialize_value(&JsonValue::Bool(true))), "true");
    assert_eq!(text(serialize_value(&JsonValue::Bool(false))), "false");
    assert_eq!(text(serialize_value(&JsonValue::Num(b"-12.5e3".to_vec()))), "-12.5e3");
    assert_eq!(text(serialize_value(&JsonValue::Str(b"hi".to_vec()))), "\"hi\"");
}

#[test]
fn composites_serialize_exactly() {
    let v = JsonValue::Obj(vec![
        (b"a".to_vec(), JsonValue::Null),
        (
            b"b".to_vec(),
            JsonValue::Arr(vec![
                JsonValue::Bool(true),
                JsonValue::Num(b"42".to_vec()),
                JsonValue::Str(b"x".to_vec()),
            ]),
        ),
    ]);
    assert_eq!(text(serialize_value(&v)), "{\"a\":null,\"b\":[true,42,\"x\"]}");
    assert_eq!(text(serialize_value(&JsonValue::Arr(vec![]))), "[]");
    assert_eq!(text(serialize_value(&JsonValue::Obj(vec![]))), "{}");
}

#[test]
fn strings_escape_quotes_backslashes_and_controls() {
    let v = JsonValue::Str(b"a\"b\\c\nd".to_vec());
    assert_eq!(text(serialize_value(&v)), "\"a\\\"b\\\\c\\u000ad\"");
}

#[test]
fn request_wire_form_with_params() {
    let r = req(1, "getBlock", Some(vec![JsonValue::Num(b"42".to_vec())]));
    assert_eq!(
        text(serialize_request(&r)),
        "{\"jsonrpc\":\"2.0\",\"id\":1,\"method\":\"getBlock\",\"params\":[42]}"
    );
}

#[test]
fn request_wire_form_omits_absent_params() {
    let r = req(7, "getStatus", None);
    assert_eq!(
        text(serialize_request(&r)),
        "{\"jsonrpc\":\"2.0\",\"id\":7,\"method\":\"getStatus\"}"
    );
}

#[test]
fn large_id_serializes_in_decimal() {
    let r = req(18446744073709551615, "m", None);
    assert_eq!(
        text(serialize_request(&r)),
        "{\"jsonrpc\":\"2.0\",\"id\":18446744073709551615,\"method\":\"m\"}"
    );
}

#[test]
fn response_wire_form_success() {
    let r = JsonRpcResponse {
        jsonrpc: "2.0".to_string(),
        id: Some(1),
        result: Some(JsonValue::Str(b"X".to_vec())),
        error: None,
    };
    assert_eq!(
        text(serialize_response(&r)),
        "{\"jsonrpc\":\"2.0\",\"id\":1,\"result\":\"X\"}"
    );
}

#[test]
fn response_wire_form_error_with_negative_code() {
    let r = JsonRpcResponse {
        jsonrpc: "2.0".to_string(),
        id: Some(3),
        result: None,
        error: Some(JsonRpcResponseError {
            code: -32000,
            message: "bad_param".to_string(),
            data: None,
        }),
    };
    assert_eq!(
        text(serialize_response(&r)),
        "{\"jsonrpc\":\"2.0\",\"id\":3,\"result\":null,\"error\":{\"code\":-32000,\"message\":\"bad_param\"}}"
    );
}

#[test]
fn exhaustion_response_is_bit_exact() {
    let r = exhausted_response();
    assert_eq!(
        text(serialize_response(&r)),
        "{\"jsonrpc\":\"2.0\",\"id\":null,\"result\":null,\"error\":{\"code\":-32603,\"message\":\"No upstream was able to process this request\"}}"
    );
}

#[test]
fn cached_response_carries_current_id() {
    let r = serve_cached_response(2, JsonValue::Str(b"X".to_vec()));
    assert_eq!(
        text(serialize_response(&r)),
        "{\"jsonrpc\":\"2.0\",\"id\":2,\"result\":\"X\"}"
    );
}

#[test]
fn fingerprint_is_method_alone_without_params() {
    let r = req(1, "getStatus", None);
    assert_eq!(fingerprint(&r), b"getStatus".to_vec());
}

#[test]
fn fingerprint_appends_serialized_params() {
    let r = req(1, "getBlock", Some(vec![JsonValue::Num(b"42".to_vec())]));
    assert_eq!(fingerprint(&r), b"getBlock[42]".to_vec());
}

//! JSON-RPC 2.0 requests and responses, their wire form, and the cache
//! fingerprint.

use vstd::prelude::*;
use crate::json::{
    JsonValue, spec_ser, spec_ser_array, spec_escape, spec_dec, B_QUOTE, B_LBRACE, B_RBRACE,
    ser_array, ser_string, ser_u64,
};
use vstd::string::{StrSliceExecFns, StringExecFns, StringSliceAdditionalSpecFns};
use vstd::utf8::encode_utf8;

verus! {

/// The UTF-8 bytes of a string value.
pub open spec fn str_bytes(s: String) -> Seq<u8> {
    encode_utf8(s@)
}

/// A single JSON-RPC request. A notification (no `id`) is rejected at the
/// boundary, so `id` is always present here.
pub struct JsonRpcRequest {
    pub jsonrpc: String,
    pub id: u64,
    pub method: String,
    pub params: Option<Vec<JsonValue>>,
}

/// The error object of a JSON-RPC response.
pub struct JsonRpcResponseError {
    pub code: i16,
    pub message: String,
    pub data: Option<JsonValue>,
}

/// A single JSON-RPC response. `result: None` stands for an absent or null
/// result.
pub struct JsonRpcResponse {
    pub jsonrpc: String,
    pub id: Option<u64>,
    pub result: Option<JsonValue>,
    pub error: Option<JsonRpcResponseError>,
}

/// The cache fingerprint: the method name followed by the serialized params
/// array when params are present, the method name alone otherwise.
pub open spec fn spec_fingerprint(req: JsonRpcRequest) -> Seq<u8> {
    match req.params {
        None => str_bytes(req.method),
        Some(ps) => str_bytes(req.method) + spec_ser_array(ps@),
    }
}

/// Computes the cache fingerprint of a request.
pub fn fingerprint(req: &JsonRpcRequest) -> (r: Vec<u8>)
    ensures
        r@ == spec_fingerprint(*req),
{
    let mut out = req.method.as_str().as_bytes_vec();
    match &req.params {
        None => {},
        Some(ps) => {
            ser_array(ps, &mut out);
        },
    }
    out
}

/// `{"jsonrpc":` as bytes.
pub open spec fn lit_open_jsonrpc() -> Seq<u8> {
    seq![123u8, 34, 106, 115, 111, 110, 114, 112, 99, 34, 58]
}

/// `,"id":` as bytes.
pub open spec fn lit_id() -> Seq<u8> {
    seq![44u8, 34, 105, 100, 34, 58]
}

/// `,"method":` as bytes.
pub open spec fn lit_method() -> Seq<u8> {
    seq![44u8, 34, 109, 101, 116, 104, 111, 100, 34, 58]
}

/// `,"params":` as bytes.
pub open spec fn lit_params() -> Seq<u8> {
    seq![44u8, 34, 112, 97, 114, 97, 109, 115, 34, 58]
}

/// `,"result":` as bytes.
pub open spec fn lit_result() -> Seq<u8> {
    seq![44u8, 34, 114, 101, 115, 117, 108, 116, 34, 58]
}

/// `,"error":` as bytes.
pub open spec fn lit_error() -> Seq<u8> {
    seq![44u8, 34, 101, 114, 114, 111, 114, 34, 58]
}

/// `{"code":` as bytes.
pub open spec fn lit_open_code() -> Seq<u8> {
    seq![123u8, 34, 99, 111, 100, 101, 34, 58]
}

/// `,"message":` as bytes.
pub open spec fn lit_message() -> Seq<u8> {
    seq![44u8, 34, 109, 101, 115, 115, 97, 103, 101, 34, 58]
}

/// `,"data":` as bytes.
pub open spec fn lit_data() -> Seq<u8> {
    seq![44u8, 34, 100, 97, 116, 97, 34, 58]
}

/// `null` as bytes.
pub open spec fn lit_null() -> Seq<u8> {
    seq![110u8, 117, 108, 108]
}

/// A quoted, escaped JSON string with the UTF-8 bytes of `s` as contents.
pub open spec fn spec_quoted(s: Seq<u8>) -> Seq<u8> {
    seq![B_QUOTE] + spec_escape(s) + seq![B_QUOTE]
}

/// The decimal form of a signed code: a minus sign for negative values.
pub open spec fn spec_dec_code(c: int) -> Seq<u8> {
    if c < 0 {
        seq![45u8] + spec_dec((-c) as nat)
    } else {
        spec_dec(c as nat)
    }
}

/// The wire form of a request, as posted to an upstream: `jsonrpc`, `id`,
/// `method`, and `params` exactly when present.
pub open spec fn spec_ser_request(req: JsonRpcRequest) -> Seq<u8> {
    lit_open_jsonrpc() + spec_quoted(str_bytes(req.jsonrpc)) + lit_id() + spec_dec(
        req.id as nat,
    ) + lit_method() + spec_quoted(str_bytes(req.method)) + (match req.params {
        None => Seq::<u8>::empty(),
        Some(ps) => lit_params() + spec_ser_array(ps@),
    }) + seq![B_RBRACE]
}

/// The wire form of an error object.
pub open spec fn spec_ser_error(e: JsonRpcResponseError) -> Seq<u8> {
    lit_open_code() + spec_dec_code(e.code as int) + lit_message() + spec_quoted(
        str_bytes(e.message),
    ) + (match e.data {
        None => Seq::<u8>::empty(),
        Some(d) => lit_data() + spec_ser(d),
    }) + seq![B_RBRACE]
}

/// The wire form of a response, as sent back to the client: `jsonrpc`, `id`
/// (`null` when absent), `result` (`null` when absent), and `error` exactly
/// when present.
pub open spec fn spec_ser_response(res: JsonRpcResponse) -> Seq<u8> {
    lit_open_jsonrpc() + spec_quoted(str_bytes(res.jsonrpc)) + lit_id() + (match res.id {
        None => lit_null(),
        Some(n) => spec_dec(n as nat),
    }) + lit_result() + (match res.result {
        None => lit_null(),
        Some(v) => spec_ser(v),
    }) + (match res.error {
        None => Seq::<u8>::empty(),
        Some(e) => lit_error() + spec_ser_error(e),
    }) + seq![B_RBRACE]
}

/// Appends the bytes of a `&str` to `out`, quoted and escaped.
fn push_quoted_str(s: &str, out: &mut Vec<u8>)
    ensures
        final(out)@ == old(out)@ + spec_quoted(s.spec_bytes()),
{
    let bytes = s.as_bytes_vec();
    ser_string(&bytes, out);
}

/// Appends `{"jsonrpc":` to `out`.
fn push_open_jsonrpc(out: &mut Vec<u8>)
    ensures
        final(out)@ == old(out)@ + lit_open_jsonrpc(),
{
    out.push(123);
    out.push(34);
    out.push(106);
    out.push(115);
    out.push(111);
    out.push(110);
    out.push(114);
    out.push(112);
    out.push(99);
    out.push(34);
    out.push(58);
    proof {
        assert(out@ =~= old(out)@ + lit_open_jsonrpc());
    }
}

/// Appends `,"<name>":` to `out`, where `name` is given as plain bytes.
fn push_key(name: &Vec<u8>, out: &mut Vec<u8>)
    ensures
        final(out)@ == old(out)@ + seq![44u8, 34] + name@ + seq![34u8, 58],
{
    out.push(44);
    out.push(34);
    let mut i: usize = 0;
    while i < name.len()
        invariant
            i <= name.len(),
            out@ == old(out)@ + seq![44u8, 34] + name@.take(i as int),
        decreases name.len() - i,
    {
        out.push(name[i]);
        proof {
            assert(name@.take(i + 1) =~= name@.take(i as int).push(name@[i as int]));
            assert(out@ =~= old(out)@ + seq![44u8, 34] + name@.take(i + 1));
        }
        i = i + 1;
    }
    out.push(34);
    out.push(58);
    proof {
        assert(name@.take(name@.len() as int) =~= name@);
        assert(out@ =~= old(out)@ + seq![44u8, 34] + name@ + seq![34u8, 58]);
    }
}

/// Appends `null` to `out`.
fn push_null(out: &mut Vec<u8>)
    ensures
        final(out)@ == old(out)@ + lit_null(),
{
    out.push(110);
    out.push(117);
    out.push(108);
    out.push(108);
    proof {
        assert(out@ =~= old(out)@ + lit_null());
    }
}

/// Serializes a request to its wire form.
pub fn serialize_request(req: &JsonRpcRequest) -> (r: Vec<u8>)
    ensures
        r@ == spec_ser_request(*req),
{
    let mut out: Vec<u8> = Vec::new();
    push_open_jsonrpc(&mut out);
    push_quoted_str(req.jsonrpc.as_str(), &mut out);
    let id_key: Vec<u8> = vec![105, 100];
    proof {
        assert(seq![44u8, 34] + id_key@ + seq![34u8, 58] =~= lit_id());
    }
    push_key(&id_key, &mut out);
    ser_u64(req.id, &mut out);
    let method_key: Vec<u8> = vec![109, 101, 116, 104, 111, 100];
    proof {
        assert(seq![44u8, 34] + method_key@ + seq![34u8, 58] =~= lit_method());
    }
    push_key(&method_key, &mut out);
    push_quoted_str(req.method.as_str(), &mut out);
    match &req.params {
        None => {},
        Some(ps) => {
            let params_key: Vec<u8> = vec![112, 97, 114, 97, 109, 115];
            proof {
                assert(seq![44u8, 34] + params_key@ + seq![34u8, 58] =~= lit_params());
            }
            push_key(&params_key, &mut out);
            ser_array(ps, &mut out);
        },
    }
    out.push(B_RBRACE);
    proof {
        assert(out@ =~= spec_ser_request(*req));
    }
    out
}

/// Serializes an error object to its wire form.
pub fn serialize_error(e: &JsonRpcResponseError, out: &mut Vec<u8>)
    ensures
        final(out)@ == old(out)@ + spec_ser_error(*e),
{
    out.push(B_LBRACE);
    out.push(34);
    out.push(99);
    out.push(111);
    out.push(100);
    out.push(101);
    out.push(34);
    out.push(58);
    proof {
        assert(out@ =~= old(out)@ + lit_open_code());
    }
    let c: i64 = e.code as i64;
    if c < 0 {
        out.push(45);
        ser_u64((-c) as u64, &mut *out);
    } else {
        ser_u64(c as u64, &mut *out);
    }
    proof {
        assert(out@ =~= old(out)@ + lit_open_code() + spec_dec_code(e.code as int));
    }
    let message_key: Vec<u8> = vec![109, 101, 115, 115, 97, 103, 101];
    proof {
        assert(seq![44u8, 34] + message_key@ + seq![34u8, 58] =~= lit_message());
    }
    push_key(&message_key, &mut *out);
    push_quoted_str(e.message.as_str(), &mut *out);
    match &e.data {
        None => {},
        Some(d) => {
            let data_key: Vec<u8> = vec![100, 97, 116, 97];
            proof {
                assert(seq![44u8, 34] + data_key@ + seq![34u8, 58] =~= lit_data());
            }
            push_key(&data_key, &mut *out);
            crate::json::ser_value(d, &mut *out);
        },
    }
    out.push(B_RBRACE);
    proof {
        assert(out@ =~= old(out)@ + spec_ser_error(*e));
    }
}

/// Serializes a response to its wire form.
#[verifier::rlimit(60)]
pub fn serialize_response(res: &JsonRpcResponse) -> (r: Vec<u8>)
    ensures
        r@ == spec_ser_response(*res),
{
    let mut out: Vec<u8> = Vec::new();
    push_open_jsonrpc(&mut out);
    push_quoted_str(res.jsonrpc.as_str(), &mut out);
    let id_key: Vec<u8> = vec![105, 100];
    proof {
        assert(seq![44u8, 34] + id_key@ + seq![34u8, 58] =~= lit_id());
    }
    push_key(&id_key, &mut out);
    match res.id {
        None => push_null(&mut out),
        Some(n) => ser_u64(n, &mut out),
    }
    let result_key: Vec<u8> = vec![114, 101, 115, 117, 108, 116];
    proof {
        assert(seq![44u8, 34] + result_key@ + seq![34u8, 58] =~= lit_result());
    }
    push_key(&result_key, &mut out);
    match &res.result {
        None => push_null(&mut out),
        Some(v) => crate::json::ser_value(v, &mut out),
    }
    match &res.error {
        None => {},
        Some(e) => {
            let error_key: Vec<u8> = vec![101, 114, 114, 111, 114];
            proof {
                assert(seq![44u8, 34] + error_key@ + seq![34u8, 58] =~= lit_error());
            }
            push_key(&error_key, &mut out);
            serialize_error(e, &mut out);
        },
    }
    out.push(B_RBRACE);
    proof {
        assert(out@ =~= spec_ser_response(*res));
    }
    out
}

/// The response a cache hit is served with: the current request's id and
/// the cached result; never a stored id.
pub fn serve_cached_response(id: u64, result: JsonValue) -> (r: JsonRpcResponse)
    ensures
        r.jsonrpc@ == "2.0"@,
        r.id == Some(id),
        r.result == Some(result),
        r.error is None,
{
    JsonRpcResponse {
        jsonrpc: String::from_str("2.0"),
        id: Some(id),
        result: Some(result),
        error: None,
    }
}

/// The synthesized exhaustion response: id null, result null, error code
/// -32603 with the fixed message.
pub fn exhausted_response() -> (r: JsonRpcResponse)
    ensures
        r.jsonrpc@ == "2.0"@,
        r.id is None,
        r.result is None,
        r.error is Some,
        r.error->Some_0.code == -32603i16,
        r.error->Some_0.message@ == "No upstream was able to process this request"@,
        r.error->Some_0.data is None,
{
    JsonRpcResponse {
        jsonrpc: String::from_str("2.0"),
        id: None,
        result: None,
        error: Some(
            JsonRpcResponseError {
                code: -32603,
                message: String::from_str("No upstream was able to process this request"),
                data: None,
            },
        ),
    }
}

} // verus!

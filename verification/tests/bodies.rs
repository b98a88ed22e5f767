//! Request bodies: their limit and the methods that they call.

use std::io::Write;

use axum::http::{HeaderMap, HeaderValue};
use roxy::body::{BodyCollectError, BodyCollector};
use roxy::headers::{is_encoded, is_gzip};
use roxy::rpc::{
    error_label, extract_ids, extract_methods, inspect_decoded_reply, inspect_gzip_reply,
    inspect_reply, inspect_response, payload_kind, PayloadKind, Reply, ReplyEntry, MAX_REPLY_BYTES,
};
use serde_json::Value;

fn method_of(call: &Value) -> Result<String, String> {
    match call.get("method").and_then(|method| method.as_str()) {
        Some(method) => Ok(method.to_string()),
        None => Err("missing field `method`".to_string()),
    }
}

fn single(bytes: &[u8]) -> Result<String, String> {
    let call: Value = serde_json::from_slice(bytes).map_err(|err| err.to_string())?;
    method_of(&call)
}

fn batch(bytes: &[u8]) -> Result<Vec<String>, String> {
    let calls: Vec<Value> = serde_json::from_slice(bytes).map_err(|err| err.to_string())?;
    let mut methods = Vec::new();
    for call in &calls {
        methods.push(method_of(call)?);
    }
    Ok(methods)
}

fn methods_in(bytes: &[u8]) -> Result<Vec<String>, String> {
    extract_methods(bytes, single, batch)
}

#[test]
fn extract_methods_handles_single_and_batch() {
    let single = br#"{"jsonrpc":"2.0","method":"eth_call","params":[]}"#;
    let batch = br#"[{"jsonrpc":"2.0","method":"eth_call"},{"method":"eth_getLogs"}]"#;

    let single_methods = methods_in(single).expect("single parse");
    let batch_methods = methods_in(batch).expect("batch parse");

    assert_eq!(single_methods, vec!["eth_call".to_string()]);
    assert_eq!(batch_methods, vec!["eth_call".to_string(), "eth_getLogs".to_string()]);
}

#[test]
fn extract_methods_trims_whitespace_and_handles_non_json() {
    let padded = b"  {\n  \"method\": \"eth_blockNumber\" }";
    let empty = b"";
    let text = b"not json";

    let padded_methods = methods_in(padded).expect("padded parse");
    let empty_methods = methods_in(empty).expect("empty parse");
    let text_methods = methods_in(text).expect("text parse");

    assert_eq!(padded_methods, vec!["eth_blockNumber".to_string()]);
    assert!(empty_methods.is_empty());
    assert!(text_methods.is_empty());
}

#[test]
fn unreadable_calls_are_errors() {
    assert_eq!(methods_in(b"{}").unwrap_err(), "missing field `method`");
    assert_eq!(methods_in(b"[{}]").unwrap_err(), "missing field `method`");
    assert!(methods_in(b"{").is_err());
    assert!(methods_in(b"[]").unwrap().is_empty());
}

#[test]
fn payload_kind_goes_by_the_first_visible_byte() {
    assert_eq!(payload_kind(b"{"), PayloadKind::Single);
    assert_eq!(payload_kind(b" \t\r\n\x0C["), PayloadKind::Batch);
    assert_eq!(payload_kind(b"\x0B{"), PayloadKind::Other);
    assert_eq!(payload_kind(b" \n"), PayloadKind::Other);
    assert_eq!(payload_kind(b"\"{\""), PayloadKind::Other);
}

#[test]
fn body_up_to_the_limit_comes_out_as_it_came_in() {
    let mut collector = BodyCollector::new(6);
    assert!(collector.take_chunk(Ok(b"abc")).is_ok());
    assert!(collector.take_chunk(Ok(b"")).is_ok());
    assert!(collector.take_chunk(Ok(b"def")).is_ok());
    let body = collector.finish();
    assert_eq!(&body[..], b"abcdef");
}

#[test]
fn body_over_the_limit_is_refused() {
    let mut collector = BodyCollector::new(5);
    assert!(collector.take_chunk(Ok(b"abc")).is_ok());
    assert_eq!(collector.take_chunk(Ok(b"def")), Err(BodyCollectError::TooLarge));
    assert!(collector.take_chunk(Ok(b"de")).is_ok());
    assert_eq!(&collector.finish()[..], b"abcde");
}

#[test]
fn chunks_that_cannot_be_read_are_refused() {
    let mut collector = BodyCollector::new(5);
    assert_eq!(
        collector.take_chunk(Err("connection reset".to_string())),
        Err(BodyCollectError::Io("connection reset".to_string()))
    );
}

#[test]
fn bodies_beyond_the_first_capacity_are_held() {
    let mut collector = BodyCollector::new(100_000);
    let chunk = vec![7u8; 10_000];
    for _ in 0..10 {
        assert!(collector.can_hold(chunk.len()));
        assert!(collector.take_chunk(Ok(&chunk)).is_ok());
    }
    assert_eq!(collector.take_chunk(Ok(&[7])), Err(BodyCollectError::TooLarge));
    assert!(collector.can_hold(usize::MAX));
    assert!(!BodyCollector::new(usize::MAX).can_hold(usize::MAX));
    let body = collector.finish();
    assert_eq!(body.len(), 100_000);
    assert!(body.iter().all(|b| *b == 7));
}

fn code_in(reply: &Value) -> Option<i64> {
    reply.get("error").and_then(|error| error.get("code")).and_then(|code| code.as_i64())
}

fn id_in(value: &Value) -> Option<String> {
    match value.get("id") {
        None => None,
        Some(id) => {
            if id.is_null() {
                None
            } else {
                Some(id.to_string())
            }
        }
    }
}

fn entry(id: Option<&str>, code: Option<i64>) -> ReplyEntry {
    ReplyEntry { id: id.map(|id| id.to_string()), code }
}

fn read_reply(bytes: &[u8]) -> Result<Option<i64>, String> {
    let reply: Value = serde_json::from_slice(bytes).map_err(|err| err.to_string())?;
    Ok(code_in(&reply))
}

fn read_replies(bytes: &[u8]) -> Result<Vec<ReplyEntry>, String> {
    let replies: Vec<Value> = serde_json::from_slice(bytes).map_err(|err| err.to_string())?;
    Ok(replies.iter().map(|reply| ReplyEntry { id: id_in(reply), code: code_in(reply) }).collect())
}

fn reply_in(bytes: &[u8]) -> Reply {
    inspect_reply(bytes, read_reply, read_replies)
}

fn gzipped(bytes: &[u8]) -> Vec<u8> {
    let mut encoder =
        flate2::write::GzEncoder::new(Vec::new(), flate2::Compression::default());
    encoder.write_all(bytes).unwrap();
    encoder.finish().unwrap()
}

fn encoding(name: &'static str) -> HeaderMap {
    let mut headers = HeaderMap::new();
    headers.insert("content-encoding", HeaderValue::from_static(name));
    headers
}

#[test]
fn replies_are_told_apart() {
    assert_eq!(reply_in(br#"{"id":1,"result":"0x1"}"#), Reply::Single(None));
    assert_eq!(
        reply_in(br#" {"error":{"code":-32700,"message":"parse error"}}"#),
        Reply::Single(Some(-32700))
    );
    assert_eq!(
        reply_in(br#"[{"id":1,"result":"0x1"},{"id":"a","error":{"code":3}}]"#),
        Reply::Batch(vec![entry(Some("1"), None), entry(Some("\"a\""), Some(3))])
    );
    assert_eq!(reply_in(b"{"), Reply::Unread);
    assert_eq!(reply_in(b"["), Reply::Unread);
    assert_eq!(reply_in(b"<html>"), Reply::Unread);
}

#[test]
fn gzip_replies_are_read_decoded() {
    let single = br#"{"error":{"code":-32000,"message":"no id"}}"#;
    assert_eq!(
        inspect_gzip_reply(&gzipped(single), read_reply, read_replies),
        Reply::Single(Some(-32000))
    );
    let batch = br#"[{"id":2,"error":{"code":3}}]"#;
    assert_eq!(
        inspect_gzip_reply(&gzipped(batch), read_reply, read_replies),
        Reply::Batch(vec![entry(Some("2"), Some(3))])
    );
    assert_eq!(inspect_gzip_reply(single, read_reply, read_replies), Reply::Unread);
    let mut broken = gzipped(single);
    broken.pop();
    assert_eq!(inspect_gzip_reply(&broken, read_reply, read_replies), Reply::Unread);
    assert_eq!(reply_in(&gzipped(single)), Reply::Unread);
}

#[test]
fn gzip_replies_in_several_members_are_read_whole() {
    let mut bytes = gzipped(br#"{"error":"#);
    bytes.extend(gzipped(br#"{"code":3}}"#));
    assert_eq!(inspect_gzip_reply(&bytes, read_reply, read_replies), Reply::Single(Some(3)));
}

#[test]
fn replies_that_were_not_decoded_say_nothing() {
    assert_eq!(inspect_decoded_reply(None, read_reply, read_replies), Reply::Unread);
    let decoded = Some(br#"{"error":{"code":3}}"#.to_vec());
    assert_eq!(inspect_decoded_reply(decoded, read_reply, read_replies), Reply::Single(Some(3)));
}

#[test]
fn decoding_stops_at_the_limit() {
    let mut long = br#"{"error":{"code":3},"data":""#.to_vec();
    long.resize(MAX_REPLY_BYTES, b'x');
    long.extend_from_slice(b"\"}");
    assert_eq!(inspect_gzip_reply(&gzipped(&long), read_reply, read_replies), Reply::Unread);
}

#[test]
fn responses_are_read_as_their_headers_say() {
    let plain = br#"{"error":{"code":3}}"#;
    let packed = gzipped(plain);
    let read = |headers: &HeaderMap, bytes: &[u8]| {
        inspect_response(headers, bytes, read_reply, read_replies)
    };
    assert_eq!(read(&HeaderMap::new(), plain), Reply::Single(Some(3)));
    assert_eq!(read(&encoding("identity"), plain), Reply::Single(Some(3)));
    assert_eq!(read(&encoding("gzip"), &packed), Reply::Single(Some(3)));
    assert_eq!(read(&encoding("x-gzip"), &packed), Reply::Single(Some(3)));
    assert_eq!(read(&encoding("gzip"), plain), Reply::Unread);
    assert_eq!(read(&HeaderMap::new(), &packed), Reply::Unread);
    assert_eq!(read(&encoding("br"), plain), Reply::Unread);
}

#[test]
fn encodings_are_told_apart() {
    assert!(!is_encoded(&HeaderMap::new()));
    assert!(!is_encoded(&encoding("identity")));
    assert!(is_encoded(&encoding("gzip")));
    assert!(is_encoded(&encoding("br")));
    assert!(is_gzip(&encoding("gzip")));
    assert!(!is_gzip(&encoding("gzip, br")));
    assert!(!is_gzip(&HeaderMap::new()));
    let mut opaque = HeaderMap::new();
    opaque.insert("content-encoding", HeaderValue::from_bytes(b"\xFF").unwrap());
    assert!(is_encoded(&opaque));
    assert!(!is_gzip(&opaque));
}

#[test]
fn calls_have_their_ids() {
    let one = |bytes: &[u8]| -> Result<Option<String>, String> {
        let call: Value = serde_json::from_slice(bytes).map_err(|err| err.to_string())?;
        Ok(id_in(&call))
    };
    let many = |bytes: &[u8]| -> Result<Vec<Option<String>>, String> {
        let calls: Vec<Value> = serde_json::from_slice(bytes).map_err(|err| err.to_string())?;
        Ok(calls.iter().map(id_in).collect())
    };
    assert_eq!(extract_ids(br#"{"id":7}"#, one, many).unwrap(), vec![Some("7".to_string())]);
    assert_eq!(
        extract_ids(br#"[{"id":"x"},{"method":"eth_subscribe"}]"#, one, many).unwrap(),
        vec![Some("\"x\"".to_string()), None]
    );
    assert!(extract_ids(b"text", one, many).unwrap().is_empty());
}

#[test]
fn replies_are_matched_by_id_in_any_order() {
    let ids = [Some("1".to_string()), None, Some("2".to_string())];
    let batch = Reply::Batch(vec![entry(Some("2"), Some(3)), entry(Some("1"), None)]);
    assert_eq!(batch.error_code(&ids, 0), None);
    assert_eq!(batch.error_code(&ids, 1), None);
    assert_eq!(batch.error_code(&ids, 2), Some(3));
    assert_eq!(batch.error_code(&ids, 3), None);
}

#[test]
fn replies_without_id_answer_the_call_at_their_place() {
    let ids = [Some("1".to_string()), Some("2".to_string())];
    let batch = Reply::Batch(vec![entry(Some("1"), None), entry(None, Some(-32600))]);
    assert_eq!(batch.error_code(&ids, 0), None);
    assert_eq!(batch.error_code(&ids, 1), Some(-32600));
    assert_eq!(batch.error_code(&[], 1), Some(-32600));
    assert_eq!(batch.error_code(&[], 0), None);
}

#[test]
fn one_reply_answers_all_calls() {
    let single = Reply::Single(Some(-32600));
    assert_eq!(single.error_code(&[], 0), Some(-32600));
    assert_eq!(single.error_code(&[Some("1".to_string())], 7), Some(-32600));
    assert_eq!(Reply::Unread.error_code(&[], 0), None);
}

#[test]
fn error_codes_have_their_labels() {
    assert_eq!(error_label(None), None);
    for (code, label) in [
        (-32700, "parse_error"),
        (-32600, "invalid_request"),
        (-32601, "method_not_found"),
        (-32602, "invalid_params"),
        (-32603, "internal_error"),
        (-32000, "server_error"),
        (-32099, "server_error"),
        (-32100, "other"),
        (-31999, "other"),
        (3, "execution_error"),
        (0, "other"),
    ] {
        assert_eq!(error_label(Some(code)), Some(label));
    }
}

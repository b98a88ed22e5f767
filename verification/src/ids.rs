//! The ids of the metric families, worked out.

use vstd::prelude::*;
use vstd::utf8;

use crate::hashing;
use crate::hashing::OFFSET_BASIS;
use crate::metrics;

verus! {

/// Each family has an id of its own.
pub proof fn families_have_their_ids()
    ensures
        metrics::family_id(metrics::requests_shape().name) == 0x42667491b4d4bd90,
        metrics::family_id(metrics::responses_shape().name) == 0xdcba2d7a32aecdf6,
        metrics::family_id(metrics::errors_shape().name) == 0x71c24e46aab63403,
        metrics::family_id(metrics::inflight_shape().name) == 0x4e76187635b412c1,
        metrics::family_id(metrics::method_calls_shape().name) == 0x682a3d508d7563db,
        metrics::family_id(metrics::latency_shape().name) == 0xb9f99d8b3938ac53,
        metrics::family_id(metrics::method_latency_shape().name) == 0x6b4806ca0355b434,
        metrics::family_id(metrics::method_errors_shape().name) == 0x534c1e8f24206770,
{
    lemma_requests_id();
    lemma_responses_id();
    lemma_errors_id();
    lemma_inflight_id();
    lemma_method_calls_id();
    lemma_latency_id();
    lemma_method_latency_id();
    lemma_method_errors_id();
}

proof fn lemma_requests_id()
    ensures
        metrics::family_id(metrics::requests_shape().name) == 0x42667491b4d4bd90,
{
    reveal_strlit("proxy");
    reveal_strlit("requests_total");
    let name = metrics::requests_shape().name;
    utf8::is_ascii_chars_encode_utf8(name);
    let bytes = utf8::encode_utf8(name).push(0xFF);
    assert(bytes.len() == 21);
    reveal_with_fuel(hashing::digest_of_first, 22);
    assert(hashing::mixed4(hashing::mixed4(OFFSET_BASIS, 112, 114, 111, 120), 121, 95, 114, 101)
        == 0x9d54ed71fb75744du64) by (bit_vector);
    assert(hashing::mixed4(hashing::mixed4(0x9d54ed71fb75744d, 113, 117, 101, 115), 116, 115, 95, 116)
        == 0x661935009e38cb79u64) by (bit_vector);
    assert(hashing::mixed(hashing::mixed4(0x661935009e38cb79, 111, 116, 97, 108), 255)
        == 0x42667491b4d4bd90u64) by (bit_vector);
}

proof fn lemma_responses_id()
    ensures
        metrics::family_id(metrics::responses_shape().name) == 0xdcba2d7a32aecdf6,
{
    reveal_strlit("proxy");
    reveal_strlit("responses_total");
    let name = metrics::responses_shape().name;
    utf8::is_ascii_chars_encode_utf8(name);
    let bytes = utf8::encode_utf8(name).push(0xFF);
    assert(bytes.len() == 22);
    reveal_with_fuel(hashing::digest_of_first, 23);
    assert(hashing::mixed4(hashing::mixed4(OFFSET_BASIS, 112, 114, 111, 120), 121, 95, 114, 101)
        == 0x9d54ed71fb75744du64) by (bit_vector);
    assert(hashing::mixed4(hashing::mixed4(0x9d54ed71fb75744d, 115, 112, 111, 110), 115, 101, 115, 95)
        == 0xf9bf0777fa3c5055u64) by (bit_vector);
    assert(hashing::mixed(hashing::mixed(hashing::mixed4(0xf9bf0777fa3c5055, 116, 111, 116, 97), 108), 255)
        == 0xdcba2d7a32aecdf6u64) by (bit_vector);
}

proof fn lemma_errors_id()
    ensures
        metrics::family_id(metrics::errors_shape().name) == 0x71c24e46aab63403,
{
    reveal_strlit("proxy");
    reveal_strlit("errors_total");
    let name = metrics::errors_shape().name;
    utf8::is_ascii_chars_encode_utf8(name);
    let bytes = utf8::encode_utf8(name).push(0xFF);
    assert(bytes.len() == 19);
    reveal_with_fuel(hashing::digest_of_first, 20);
    assert(hashing::mixed4(hashing::mixed4(OFFSET_BASIS, 112, 114, 111, 120), 121, 95, 101, 114)
        == 0x9d0cd871fb379afbu64) by (bit_vector);
    assert(hashing::mixed4(hashing::mixed4(0x9d0cd871fb379afb, 114, 111, 114, 115), 95, 116, 111, 116)
        == 0x4b5bc3d13e2b0133u64) by (bit_vector);
    assert(hashing::mixed(hashing::mixed(hashing::mixed(0x4b5bc3d13e2b0133, 97), 108), 255)
        == 0x71c24e46aab63403u64) by (bit_vector);
}

proof fn lemma_inflight_id()
    ensures
        metrics::family_id(metrics::inflight_shape().name) == 0x4e76187635b412c1,
{
    reveal_strlit("proxy");
    reveal_strlit("inflight_requests");
    let name = metrics::inflight_shape().name;
    utf8::is_ascii_chars_encode_utf8(name);
    let bytes = utf8::encode_utf8(name).push(0xFF);
    assert(bytes.len() == 24);
    reveal_with_fuel(hashing::digest_of_first, 25);
    assert(hashing::mixed4(hashing::mixed4(OFFSET_BASIS, 112, 114, 111, 120), 121, 95, 105, 110)
        == 0x9cffe471fb2d2503u64) by (bit_vector);
    assert(hashing::mixed4(hashing::mixed4(0x9cffe471fb2d2503, 102, 108, 105, 103), 104, 116, 95, 114)
        == 0xfaf4f57034fbb0c0u64) by (bit_vector);
    assert(hashing::mixed4(hashing::mixed4(0xfaf4f57034fbb0c0, 101, 113, 117, 101), 115, 116, 115, 255)
        == 0x4e76187635b412c1u64) by (bit_vector);
}

proof fn lemma_method_calls_id()
    ensures
        metrics::family_id(metrics::method_calls_shape().name) == 0x682a3d508d7563db,
{
    reveal_strlit("proxy");
    reveal_strlit("method_calls_total");
    let name = metrics::method_calls_shape().name;
    utf8::is_ascii_chars_encode_utf8(name);
    let bytes = utf8::encode_utf8(name).push(0xFF);
    assert(bytes.len() == 25);
    reveal_with_fuel(hashing::digest_of_first, 26);
    assert(hashing::mixed4(hashing::mixed4(OFFSET_BASIS, 112, 114, 111, 120), 121, 95, 109, 101)
        == 0x9cf1dd71fb20dbc2u64) by (bit_vector);
    assert(hashing::mixed4(hashing::mixed4(0x9cf1dd71fb20dbc2, 116, 104, 111, 100), 95, 99, 97, 108)
        == 0x1cc628fa024f6f2au64) by (bit_vector);
    assert(hashing::mixed4(hashing::mixed4(0x1cc628fa024f6f2a, 108, 115, 95, 116), 111, 116, 97, 108)
        == 0x1c81e586f3f771c6u64) by (bit_vector);
    assert(hashing::mixed(0x1c81e586f3f771c6, 255)
        == 0x682a3d508d7563dbu64) by (bit_vector);
}

proof fn lemma_latency_id()
    ensures
        metrics::family_id(metrics::latency_shape().name) == 0xb9f99d8b3938ac53,
{
    reveal_strlit("proxy");
    reveal_strlit("request_latency_seconds");
    let name = metrics::latency_shape().name;
    utf8::is_ascii_chars_encode_utf8(name);
    let bytes = utf8::encode_utf8(name).push(0xFF);
    assert(bytes.len() == 30);
    reveal_with_fuel(hashing::digest_of_first, 31);
    assert(hashing::mixed4(hashing::mixed4(OFFSET_BASIS, 112, 114, 111, 120), 121, 95, 114, 101)
        == 0x9d54ed71fb75744du64) by (bit_vector);
    assert(hashing::mixed4(hashing::mixed4(0x9d54ed71fb75744d, 113, 117, 101, 115), 116, 95, 108, 97)
        == 0x7158cc0012f7be35u64) by (bit_vector);
    assert(hashing::mixed4(hashing::mixed4(0x7158cc0012f7be35, 116, 101, 110, 99), 121, 95, 115, 101)
        == 0x3cbd9c557fdb4419u64) by (bit_vector);
    assert(hashing::mixed(hashing::mixed(hashing::mixed4(0x3cbd9c557fdb4419, 99, 111, 110, 100), 115), 255)
        == 0xb9f99d8b3938ac53u64) by (bit_vector);
}

proof fn lemma_method_latency_id()
    ensures
        metrics::family_id(metrics::method_latency_shape().name) == 0x6b4806ca0355b434,
{
    reveal_strlit("rpc");
    reveal_strlit("method_latency_seconds");
    let name = metrics::method_latency_shape().name;
    utf8::is_ascii_chars_encode_utf8(name);
    let bytes = utf8::encode_utf8(name).push(0xFF);
    assert(bytes.len() == 27);
    reveal_with_fuel(hashing::digest_of_first, 28);
    assert(hashing::mixed4(hashing::mixed4(OFFSET_BASIS, 114, 112, 99, 95), 109, 101, 116, 104)
        == 0xc986aa6f46bf60a7u64) by (bit_vector);
    assert(hashing::mixed4(hashing::mixed4(0xc986aa6f46bf60a7, 111, 100, 95, 108), 97, 116, 101, 110)
        == 0x7e79d964627ef581u64) by (bit_vector);
    assert(hashing::mixed4(hashing::mixed4(0x7e79d964627ef581, 99, 121, 95, 115), 101, 99, 111, 110)
        == 0x3fb4fe344b768292u64) by (bit_vector);
    assert(hashing::mixed(hashing::mixed(hashing::mixed(0x3fb4fe344b768292, 100), 115), 255)
        == 0x6b4806ca0355b434u64) by (bit_vector);
}

proof fn lemma_method_errors_id()
    ensures
        metrics::family_id(metrics::method_errors_shape().name) == 0x534c1e8f24206770,
{
    reveal_strlit("rpc");
    reveal_strlit("method_errors_total");
    let name = metrics::method_errors_shape().name;
    utf8::is_ascii_chars_encode_utf8(name);
    let bytes = utf8::encode_utf8(name).push(0xFF);
    assert(bytes.len() == 24);
    reveal_with_fuel(hashing::digest_of_first, 25);
    assert(hashing::mixed4(hashing::mixed4(OFFSET_BASIS, 114, 112, 99, 95), 109, 101, 116, 104)
        == 0xc986aa6f46bf60a7u64) by (bit_vector);
    assert(hashing::mixed4(hashing::mixed4(0xc986aa6f46bf60a7, 111, 100, 95, 101), 114, 114, 111, 114)
        == 0x75d7ccb84e7e4b75u64) by (bit_vector);
    assert(hashing::mixed4(hashing::mixed4(0x75d7ccb84e7e4b75, 115, 95, 116, 111), 116, 97, 108, 255)
        == 0x534c1e8f24206770u64) by (bit_vector);
}

} // verus!

use stats_alloc_map::server::{get_html, json_body};
use stats_alloc_map::stats::{program_information, StatsAlloc};

#[test]
fn json_body_exact_text() {
    let mut a = StatsAlloc::new();
    a.allocate(160, 64);
    let info = program_information(&a);
    let body = json_body(&info);
    // 64 live bytes plus one slot of table capacity and no free-list
    // capacity.
    assert_eq!(
        body,
        "{\"length_memory_array\":1,\"memory\":[[160,64]],\"memory_allocated\":64,\"total_memory\":65}"
    );
}

#[test]
fn json_body_empty_table() {
    let a = StatsAlloc::new();
    let info = program_information(&a);
    let body = json_body(&info);
    assert_eq!(
        body,
        "{\"length_memory_array\":0,\"memory\":[],\"memory_allocated\":0,\"total_memory\":0}"
    );
}

#[test]
fn get_html_exact_bytes() {
    let r = get_html("x");
    let expected: Vec<u8> =
        b"HTTP/1.1 200 OK\r\nContent-Type: application/json\r\nContent-Length: 1\r\n\r\nx".to_vec();
    assert_eq!(r, expected);
}

#[test]
fn get_html_content_length_counts_bytes() {
    let r = get_html("0123456789abc");
    let text = String::from_utf8(r).unwrap();
    assert!(text.starts_with("HTTP/1.1 200 OK\r\n"));
    assert!(text.contains("Content-Type: application/json\r\n"));
    assert!(text.contains("Content-Length: 13\r\n"));
    assert!(text.ends_with("\r\n\r\n0123456789abc"));
}

#[test]
fn http_sample() {
    let mut a = StatsAlloc::new();
    a.allocate(0x1000, 100);
    a.allocate(0x2000, 200);
    a.allocate(0x3000, 1);
    let info = program_information(&a);
    let body = json_body(&info);
    let response = get_html(&body);

    // The response parses as HTTP with a JSON body.
    let text = String::from_utf8(response).unwrap();
    let split = text.find("\r\n\r\n").unwrap();
    let payload = &text[split + 4..];
    assert_eq!(payload, body);

    let v: serde_json::Value = serde_json::from_str(payload).unwrap();
    assert_eq!(v["memory_allocated"].as_u64(), Some(301));
    assert_eq!(v["length_memory_array"].as_u64(), Some(3));
    let memory = v["memory"].as_array().unwrap();
    assert_eq!(memory.len(), 3);
    assert_eq!(memory[0][0].as_u64(), Some(0x1000));
    assert_eq!(memory[0][1].as_u64(), Some(100));
    assert_eq!(memory[1][0].as_u64(), Some(0x2000));
    assert_eq!(memory[1][1].as_u64(), Some(200));
    assert_eq!(memory[2][0].as_u64(), Some(0x3000));
    assert_eq!(memory[2][1].as_u64(), Some(1));
}

#[test]
fn json_matches_serde_encoding() {
    let mut a = StatsAlloc::new();
    a.allocate(12, 34);
    a.allocate(56, 78);
    let info = program_information(&a);
    let body = json_body(&info);

    // Re-encode the parsed value with serde_json: the compact encodings
    // agree, key order included.
    let v: serde_json::Value = serde_json::from_str(&body).unwrap();
    assert_eq!(serde_json::to_string(&v).unwrap(), body);
}

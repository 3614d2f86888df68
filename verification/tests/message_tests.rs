use speed_rs::{HttpResponse, HttpStatusStruct, StringMap, encode_response};

#[test]
fn string_map_insert_get_and_replace() {
    let mut m = StringMap::new();
    assert_eq!(m.len(), 0);
    m.insert("A".to_string(), "1".to_string());
    m.insert("B".to_string(), "2".to_string());
    assert_eq!(m.len(), 2);
    assert_eq!(m.get("A").unwrap(), "1");
    m.insert("A".to_string(), "3".to_string());
    assert_eq!(m.len(), 2);
    assert_eq!(m.get("A").unwrap(), "3");
    assert!(m.contains_key("B"));
    assert!(!m.contains_key("C"));
}

#[test]
fn string_map_replacing_keeps_position() {
    let mut m = StringMap::new();
    m.insert("A".to_string(), "1".to_string());
    m.insert("B".to_string(), "2".to_string());
    m.insert("A".to_string(), "3".to_string());
    let entries = m.entries();
    assert_eq!(entries[0], ("A".to_string(), "3".to_string()));
    assert_eq!(entries[1], ("B".to_string(), "2".to_string()));
}

#[test]
fn encode_emits_headers_in_insertion_order() {
    let mut res = HttpResponse::new();
    res.insert_header("X-One".to_string(), "1".to_string());
    res.insert_header("X-Two".to_string(), "2".to_string());
    let (head, _) = encode_response(&"HTTP/1.1".to_string(), res);
    let one = head.find("X-One: 1\n").unwrap();
    let two = head.find("X-Two: 2\n").unwrap();
    assert!(one < two);
}

#[test]
fn response_status_default_and_update() {
    let mut res = HttpResponse::new();
    assert_eq!(res.status().0, 404);
    res.set_status(HttpStatusStruct(204, "No Content"));
    assert_eq!(res.status().0, 204);
    assert_eq!(res.status().1, "No Content");
}

#[test]
fn response_body_setters() {
    let mut res = HttpResponse::new();
    res.text("héllo".to_string());
    assert_eq!(res.body_string().unwrap(), "héllo");
    res.bytes(vec![0xff, 0xfe]);
    assert_eq!(res.body(), [0xff, 0xfe]);
    assert!(res.body_string().is_err());
}

use ws_counter::handler::{handle, message_handler, InboundMessage};

const REPLY: &str = "{\"status\":\"ok\",\"data\":\"Some data\"}";

#[test]
fn reply_to_text() {
    assert_eq!(message_handler(InboundMessage::Text("hello".to_string())), REPLY);
}

#[test]
fn reply_to_empty_message() {
    assert_eq!(message_handler(InboundMessage::Text(String::new())), REPLY);
    assert_eq!(message_handler(InboundMessage::Binary(Vec::new())), REPLY);
}

#[test]
fn reply_to_bytes_that_are_not_text() {
    assert_eq!(message_handler(InboundMessage::Binary(vec![0xff, 0xfe, 0x00, 0xc3])), REPLY);
}

#[test]
fn reply_to_large_message() {
    let big = "x".repeat(3 * 1024 * 1024);
    assert_eq!(message_handler(InboundMessage::Text(big)), REPLY);
}

#[test]
fn handle_gives_fixed_record() {
    let a = handle(&InboundMessage::Text("one".to_string()));
    let b = handle(&InboundMessage::Binary(vec![1, 2, 3]));
    assert_eq!(a.status, "ok");
    assert_eq!(a.data, "Some data");
    assert_eq!(a, b);
}

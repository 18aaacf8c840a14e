use kay::networking::websocket_address;

#[test]
fn test_websocket_address() {
    assert_eq!(websocket_address("asd.as"), "ws://asd.as");
    assert_eq!(websocket_address("://asd.as"), "ws://asd.as");
    assert_eq!(websocket_address("://asd.as"), "ws://asd.as");
    assert_eq!(websocket_address("ws://asd.as"), "ws://asd.as");
    assert_eq!(websocket_address("wss://asd.as"), "wss://asd.as");
    assert_eq!(websocket_address("http://asd.as"), "ws://asd.as");
    assert_eq!(websocket_address("https://asd.as"), "wss://asd.as");
}

#[test]
fn websocket_address_drops_later_marks() {
    assert_eq!(websocket_address("http://a://b://c"), "ws://abc");
    assert_eq!(websocket_address("ws://a://b"), "ws://a://b");
    assert_eq!(websocket_address("ftp://h\u{e9}://x"), "ws://h\u{e9}x");
}

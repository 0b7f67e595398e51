use llm::TokenUtf8Buffer;

#[test]
fn ascii_passes_through() {
    let mut buf = TokenUtf8Buffer::new();
    assert_eq!(buf.push(b"hello"), Some("hello".to_string()));
    assert_eq!(buf.push(b""), None);
}

#[test]
fn split_character_is_held_back() {
    let euro = "€".as_bytes();
    let mut buf = TokenUtf8Buffer::new();
    assert_eq!(buf.push(&euro[..1]), None);
    assert_eq!(buf.push(&euro[1..2]), None);
    assert_eq!(buf.push(&euro[2..]), Some("€".to_string()));
}

#[test]
fn complete_prefix_is_released_and_tail_kept() {
    let euro = "€".as_bytes();
    let mut bytes = b"ab".to_vec();
    bytes.push(euro[0]);
    let mut buf = TokenUtf8Buffer::new();
    assert_eq!(buf.push(&bytes), Some("ab".to_string()));
    assert_eq!(buf.push(&euro[1..]), Some("€".to_string()));
}

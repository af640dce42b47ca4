use boop::text::{
    enclosed, joined, push_bytes, push_decimal, push_digits, push_signed, same_bytes, same_text,
};

#[test]
fn numbers() {
    for n in [0u32, 7, 10, 99, 100, 65537, u32::MAX] {
        let mut bytes = b"n".to_vec();
        push_digits(&mut bytes, n);
        assert_eq!(bytes, format!("n{n}").into_bytes());
        let mut text = String::from("n");
        push_decimal(&mut text, n as usize);
        assert_eq!(text, format!("n{n}"));
    }
    for n in [0, 5, -5, i32::MIN, i32::MAX] {
        let mut text = String::new();
        push_signed(&mut text, n);
        assert_eq!(text, n.to_string());
    }
}

#[test]
fn pieces_of_text() {
    assert_eq!(joined("\u{e9}", "b"), "\u{e9}b");
    assert_eq!(enclosed("a", "", "c"), "ac");
    let mut bytes = vec![1];
    push_bytes(&mut bytes, &[2, 3]);
    assert_eq!(bytes, [1, 2, 3]);
}

#[test]
fn same_or_not() {
    assert!(same_bytes(b"", b""));
    assert!(same_bytes(b"ab", b"ab"));
    assert!(!same_bytes(b"ab", b"ac"));
    assert!(!same_bytes(b"ab", b"abc"));
    assert!(same_text("\u{e9}", "\u{e9}"));
    assert!(!same_text("e", "\u{e9}"));
}

use relentless::messages::Messages;

#[test]
fn test_display_messages() {
    assert_eq!(Messages::from(vec!["Hello World!"; 0]).to_string(), "");
    assert_eq!(Messages::from(vec!["Hello World!"; 1]).to_string(), ["Hello World!"].join("\n"));
    assert_eq!(Messages::from(vec!["Hello World!"; 2]).to_string(), ["Hello World!", "Hello World!"].join("\n"));
    assert_eq!(
        Messages::from(vec!["Hello World!"; 3]).to_string(),
        ["Hello World!", "Hello World!", "Hello World!"].join("\n")
    );
    assert_eq!(
        Messages::from(vec!["Hello World!"; 4]).to_string(),
        ["Hello World!", "Hello World!", "Hello World!", "... and 1 more"].join("\n")
    );
    assert_eq!(
        Messages::from(vec!["Hello World!"; 5]).to_string(),
        ["Hello World!", "Hello World!", "Hello World!", "... and 2 more"].join("\n")
    );
    assert_eq!(
        Messages::from(vec!["Hello World!"; 100]).to_string(),
        ["Hello World!", "Hello World!", "Hello World!", "... and 97 more"].join("\n")
    );
}

#[test]
fn push_unwrap_keeps_ok_and_records_err() {
    let mut msg: Messages<String> = Messages::new();
    assert_eq!(msg.push_unwrap::<u8>(Ok(3)), Some(3));
    assert!(msg.is_empty());
    assert_eq!(msg.push_unwrap::<u8>(Err("bad".to_string())), None);
    assert_eq!(msg.as_slice(), &["bad".to_string()]);
    assert!(!msg.push_unacceptable("worse".to_string()));
    assert_eq!(msg.len(), 2);
    assert_eq!(msg.to_string(), "bad\nworse");
}

use prompt_pilot::bytes::{byte_len, truncate_string};
use prompt_pilot::limited_text::limited_text;

#[test]
fn bytes_are_counted_in_utf_8() {
    for text in ["", "a", "é", "修复", "🙂", "a é 修 🙂"] {
        assert_eq!(byte_len(text), text.len());
    }
}

#[test]
fn texts_are_cut_between_characters() {
    assert_eq!(truncate_string("abcdef".to_string(), 3), "abc");
    assert_eq!(truncate_string("修复".to_string(), 5), "修");
    assert_eq!(truncate_string("修复".to_string(), 6), "修复");
    assert_eq!(truncate_string("🙂".to_string(), 3), "");
    assert_eq!(truncate_string("abc".to_string(), 0), "");
}

#[test]
fn files_are_read_up_to_a_limit() {
    let text = limited_text(&b"  hello world \n".to_vec(), 100).expect("text");
    assert_eq!(text.content, "hello world");
    assert!(!text.truncated);

    let text = limited_text(&b"hello world".to_vec(), 6).expect("text");
    assert_eq!(text.content, "hello");
    assert!(text.truncated);

    let text = limited_text(&vec![b'a', 0xff, b'b'], 100).expect("text");
    assert_eq!(text.content, "a\u{fffd}b");

    let text = limited_text(&"修复".as_bytes().to_vec(), 4).expect("text");
    assert_eq!(text.content, "修\u{fffd}");
    assert!(text.truncated);
}

#[test]
fn files_with_a_zero_byte_are_no_text() {
    assert!(limited_text(&vec![b'a', 0, b'b'], 1).is_none());
    assert!(limited_text(&Vec::new(), 1).is_some());
}

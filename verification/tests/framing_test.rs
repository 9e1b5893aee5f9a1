use rust_poker::framing::{feed, take_line};

#[test]
fn lines_come_off_the_front() {
    let mut buf = String::from("{\"action\":\"login\"}\n  {\"a\":1}  \r\npartial");
    assert_eq!(take_line(&mut buf), Some("{\"action\":\"login\"}".to_string()));
    assert_eq!(take_line(&mut buf), Some("{\"a\":1}".to_string()));
    assert_eq!(buf, "partial");
    assert_eq!(take_line(&mut buf), None);
    assert_eq!(buf, "partial");
    buf.push_str(" end\n\n");
    assert_eq!(take_line(&mut buf), Some("partial end".to_string()));
    assert_eq!(take_line(&mut buf), Some(String::new()));
    assert_eq!(buf, "");
    assert_eq!(take_line(&mut buf), None);
}

#[test]
fn multibyte_text_is_split_by_characters() {
    let mut buf = String::from("é☃\nß");
    assert_eq!(take_line(&mut buf), Some("é☃".to_string()));
    assert_eq!(buf, "ß");
}

#[test]
fn feeding_in_pieces_gives_the_same_lines() {
    let text = "{\"a\":1}\n  hello \r\n\nlast";
    let mut whole = String::new();
    let all = feed(&mut whole, text);
    assert_eq!(all, vec!["{\"a\":1}".to_string(), "hello".to_string(), String::new()]);
    assert_eq!(whole, "last");
    for cut in 0..text.len() {
        if !text.is_char_boundary(cut) {
            continue;
        }
        let mut buf = String::new();
        let mut lines = feed(&mut buf, &text[..cut]);
        lines.extend(feed(&mut buf, &text[cut..]));
        assert_eq!(lines, all);
        assert_eq!(buf, whole);
    }
}

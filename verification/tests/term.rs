use termraster::term::carriage_returned;

#[test]
fn carriage_returned_expands_line_feeds() {
    let text: Vec<char> = "ab\ncd\n".chars().collect();
    assert_eq!(carriage_returned(&text), "ab\r\ncd\r\n");
}

#[test]
fn carriage_returned_leaves_plain_text_alone() {
    let text: Vec<char> = "hello".chars().collect();
    assert_eq!(carriage_returned(&text), "hello");
}

#[test]
fn carriage_returned_of_empty_is_empty() {
    let text: Vec<char> = Vec::new();
    assert_eq!(carriage_returned(&text), "");
}

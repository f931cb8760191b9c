use del::text::strip_line_end;

#[test]
fn line_endings_are_stripped() {
    assert_eq!(strip_line_end("y\n"), "y");
    assert_eq!(strip_line_end("y\r\n"), "y");
    assert_eq!(strip_line_end("y"), "y");
    assert_eq!(strip_line_end("y\n\n"), "y\n");
    assert_eq!(strip_line_end("\r"), "\r");
    assert_eq!(strip_line_end(""), "");
    assert_eq!(strip_line_end("\r\n"), "");
}

use slide_render::text::{decimal_string, split_lines};

#[test]
fn split_lines_like_std() {
    for s in ["", "a", "a\n", "a\nb", "\n\n# Heading\nBody", "x\r\ny\r", "\r\n", "a\n\nb\n\n", "\n"] {
        let expected: Vec<String> = s.lines().map(|l| l.to_string()).collect();
        assert_eq!(split_lines(s), expected, "input {:?}", s);
    }
}

#[test]
fn decimal_of_numbers() {
    assert_eq!(decimal_string(0), "0");
    assert_eq!(decimal_string(7), "7");
    assert_eq!(decimal_string(10), "10");
    assert_eq!(decimal_string(12345), "12345");
    assert_eq!(decimal_string(usize::MAX), usize::MAX.to_string());
}

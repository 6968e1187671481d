use sbat::LineIter;

fn lines(s: &str) -> Vec<&[u8]> {
    let mut iter = LineIter::new(s.as_bytes());
    let mut out = Vec::new();
    while let Some(line) = iter.next() {
        out.push(line);
    }
    out
}

fn bytes<'a>(lines: &[&'a str]) -> Vec<&'a [u8]> {
    lines.iter().map(|line| line.as_bytes()).collect()
}

#[test]
fn test_line_iter() {
    assert!(lines("").is_empty());
    assert_eq!(lines("a"), bytes(&["a"]));
    assert_eq!(lines("ab"), bytes(&["ab"]));

    assert_eq!(lines("\n"), bytes(&[""]));
    assert_eq!(lines("\r\n"), bytes(&[""]));
    assert_eq!(lines("\r"), bytes(&["\r"]));

    assert_eq!(lines("ab\n"), bytes(&["ab"]));
    assert_eq!(lines("ab\r\n"), bytes(&["ab"]));

    assert_eq!(lines("ab\ncd"), bytes(&["ab", "cd"]));
    assert_eq!(lines("ab\r\ncd"), bytes(&["ab", "cd"]));

    assert_eq!(lines("ab\ncd\n"), bytes(&["ab", "cd"]));
    assert_eq!(lines("ab\ncd\n\n"), bytes(&["ab", "cd", ""]));
}

use txgraph::edgelist::line_endpoints;

fn pair(a: &str, b: &str) -> Option<(String, String)> {
    Some((a.to_string(), b.to_string()))
}

#[test]
fn whitespace_separated_line() {
    assert_eq!(line_endpoints("0xaa 0xbb 0xtx"), pair("0xaa", "0xbb"));
    assert_eq!(line_endpoints("  0xaa\t\t0xbb  "), pair("0xaa", "0xbb"));
}

#[test]
fn comma_separated_line() {
    assert_eq!(line_endpoints("0xaa,0xbb,0xtx"), pair("0xaa", "0xbb"));
    assert_eq!(line_endpoints(",0xbb"), pair("", "0xbb"));
}

#[test]
fn whitespace_wins_when_it_gives_two_fields() {
    assert_eq!(line_endpoints("a,b c,d"), pair("a,b", "c,d"));
}

#[test]
fn line_with_one_field_has_no_endpoints() {
    assert_eq!(line_endpoints("0xaa"), None);
    assert_eq!(line_endpoints(""), None);
}

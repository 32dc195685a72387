use small_site::front_matter::{header_to_variables, parse_front_matter, split_once};

fn b(s: &str) -> Vec<u8> {
    s.as_bytes().to_vec()
}

#[test]
fn split_once_basic() {
    let r = split_once(&b("a-b-c"), &b("-"));
    let (first, second) = r.expect("splitter occurs");
    assert_eq!(first, b("a"));
    assert_eq!(second, b("b-c"));
}

#[test]
fn split_once_absent() {
    assert!(split_once(&b("abc"), &b("-")).is_none());
}

#[test]
fn split_once_trims_both_parts() {
    let (k, v) = split_once(&b("  key  =  value  "), &b("=")).expect("has =");
    assert_eq!(k, b("key"));
    assert_eq!(v, b("value"));
}

#[test]
fn header_to_variables_basic() {
    let vars = header_to_variables(&b("a=b\nc=d"));
    assert_eq!(vars.get(&b("a")), Some(&b("b")));
    assert_eq!(vars.get(&b("c")), Some(&b("d")));
    assert_eq!(vars.get(&b("e")), None);
}

#[test]
fn header_to_variables_last_write_wins() {
    let vars = header_to_variables(&b("a=1\na=2"));
    assert_eq!(vars.get(&b("a")), Some(&b("2")));
}

#[test]
fn header_multiline_later_lines_override() {
    let vars = header_to_variables(&b("a=1\nb=2\nnoise\na=3"));
    assert_eq!(vars.get(&b("a")), Some(&b("3")));
    assert_eq!(vars.get(&b("b")), Some(&b("2")));
    assert_eq!(vars.get(&b("noise")), None);
}

#[test]
fn header_to_variables_ignores_lines_without_equals() {
    let vars = header_to_variables(&b("no equals here\n x = y "));
    assert_eq!(vars.get(&b("x")), Some(&b("y")));
    assert_eq!(vars.get(&b("no equals here")), None);
}

#[test]
fn parse_with_header_round_trip() {
    let (vars, body) = parse_front_matter(&b("title = Hello\n---\nBody text"));
    assert_eq!(vars.get(&b("title")), Some(&b("Hello")));
    assert_eq!(body, b("Body text"));
}

#[test]
fn parse_without_delimiter_yields_whole_trimmed_body() {
    let (vars, body) = parse_front_matter(&b("  just a body \n"));
    assert_eq!(vars.get(&b("title")), None);
    assert_eq!(vars.get(&b("template")), None);
    assert_eq!(body, b("just a body"));
}

#[test]
fn parse_delimiter_at_start_gives_empty_header() {
    let (vars, body) = parse_front_matter(&b("\n---\nB"));
    assert_eq!(vars.get(&b("B")), None);
    assert_eq!(body, b("B"));
}

#[test]
fn parse_header_with_carriage_returns() {
    let (vars, body) = parse_front_matter(&b("k = v\r\n---\nB"));
    assert_eq!(vars.get(&b("k")), Some(&b("v")));
    assert_eq!(body, b("B"));
}

#[test]
fn header_value_trims_unicode_whitespace() {
    // "k=", a no-break space, "v", an ideographic space: both spaces trimmed
    let mut header = b("k=");
    header.extend_from_slice(&[0xC2, 0xA0]);
    header.push(b'v');
    header.extend_from_slice(&[0xE3, 0x80, 0x80]);
    let vars = header_to_variables(&header);
    assert_eq!(vars.get(&b("k")), Some(&b("v")));
}

#[test]
fn body_trims_unicode_whitespace() {
    // body surrounded by an ogham space mark and a paragraph separator
    let mut raw = b("a=1\n---\n");
    raw.extend_from_slice(&[0xE1, 0x9A, 0x80]);
    raw.push(b'B');
    raw.extend_from_slice(&[0xE2, 0x80, 0xA9]);
    let (vars, body) = parse_front_matter(&raw);
    assert_eq!(vars.get(&b("a")), Some(&b("1")));
    assert_eq!(body, b("B"));
}

#[test]
fn parse_empty_input() {
    let (vars, body) = parse_front_matter(&b(""));
    assert_eq!(vars.get(&b("a")), None);
    assert_eq!(body, b(""));
}

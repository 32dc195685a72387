use small_site::substitute::substitute;
use small_site::vars::Variables;

fn b(s: &str) -> Vec<u8> {
    s.as_bytes().to_vec()
}

#[test]
fn content_placeholder_takes_rendered_body() {
    let vars = Variables::new();
    let out = substitute(&b("{{content}}"), &vars, &b("BODY"));
    assert_eq!(out, b("BODY"));
}

#[test]
fn content_takes_precedence_over_header_variable() {
    let mut vars = Variables::new();
    vars.insert(b("content"), b("X"));
    let out = substitute(&b("{{content}}"), &vars, &b("BODY"));
    assert_eq!(out, b("BODY"));
}

#[test]
fn variable_is_substituted() {
    let mut vars = Variables::new();
    vars.insert(b("title"), b("Hello"));
    let out = substitute(&b("<h1>{{title}}</h1>"), &vars, &b(""));
    assert_eq!(out, b("<h1>Hello</h1>"));
}

#[test]
fn unknown_placeholder_passes_through() {
    let vars = Variables::new();
    let out = substitute(&b("a {{nope}} b"), &vars, &b("BODY"));
    assert_eq!(out, b("a {{nope}} b"));
}

#[test]
fn substituted_value_is_not_expanded_again() {
    let mut vars = Variables::new();
    vars.insert(b("v"), b("{{content}}"));
    let out = substitute(&b("{{v}}"), &vars, &b("C"));
    assert_eq!(out, b("{{content}}"));
}

#[test]
fn malformed_tokens_stay_verbatim() {
    let mut vars = Variables::new();
    vars.insert(b("a"), b("1"));
    let out = substitute(&b("{{1a}} {{a b}} {{"), &vars, &b(""));
    assert_eq!(out, b("{{1a}} {{a b}} {{"));
}

#[test]
fn adjacent_placeholders() {
    let mut vars = Variables::new();
    vars.insert(b("a"), b("1"));
    vars.insert(b("b"), b("2"));
    let out = substitute(&b("{{a}}{{b}}"), &vars, &b(""));
    assert_eq!(out, b("12"));
}

#[test]
fn placeholder_inside_extra_braces() {
    let mut vars = Variables::new();
    vars.insert(b("x"), b("Y"));
    let out = substitute(&b("{{{{x}}}}"), &vars, &b(""));
    assert_eq!(out, b("{{Y}}"));
}

#[test]
fn identifier_with_digits_and_underscore() {
    let mut vars = Variables::new();
    vars.insert(b("a1_b"), b("ok"));
    let out = substitute(&b("{{a1_b}}"), &vars, &b(""));
    assert_eq!(out, b("ok"));
}

#[test]
fn empty_template() {
    let vars = Variables::new();
    let out = substitute(&b(""), &vars, &b("BODY"));
    assert_eq!(out, b(""));
}

#[test]
fn unclosed_token_at_end_of_template() {
    let vars = Variables::new();
    let out = substitute(&b("x{{abc"), &vars, &b(""));
    assert_eq!(out, b("x{{abc"));
}

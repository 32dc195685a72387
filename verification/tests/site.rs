use small_site::paths::{has_extension, html_dest, is_html_path, is_markdown_path};
use small_site::reader::{FileReader, TemplateEntry};
use small_site::render::{render_body, render_page, template_name};
use small_site::vars::Variables;

fn b(s: &str) -> Vec<u8> {
    s.as_bytes().to_vec()
}

#[test]
fn variables_insert_get_missing() {
    let mut vars = Variables::new();
    assert_eq!(vars.get(&b("k")), None);
    vars.insert(b("k"), b("v"));
    assert_eq!(vars.get(&b("k")), Some(&b("v")));
    vars.insert(b("k"), b("w"));
    assert_eq!(vars.get(&b("k")), Some(&b("w")));
}

#[test]
fn template_defaults_when_absent() {
    let vars = Variables::new();
    assert_eq!(template_name(&vars), b("default.html"));
}

#[test]
fn template_defaults_when_empty() {
    let mut vars = Variables::new();
    vars.insert(b("template"), b(""));
    assert_eq!(template_name(&vars), b("default.html"));
}

#[test]
fn template_named_by_header() {
    let mut vars = Variables::new();
    vars.insert(b("template"), b("posts/detail.html"));
    assert_eq!(template_name(&vars), b("posts/detail.html"));
}

#[test]
fn html_body_is_used_verbatim() {
    let body = b("<p>kept as is</p>");
    assert_eq!(render_body(body.clone(), false), body);
}

#[test]
fn markdown_body_is_converted() {
    let out = render_body(b("# Hi"), true);
    assert_eq!(out, b("<h1>Hi</h1>"));
}

#[test]
fn non_ascii_markdown_body_is_converted() {
    let out = render_body(b("# caf\u{e9}"), true);
    assert_eq!(out, b("<h1>caf\u{e9}</h1>"));
}

#[test]
fn empty_list_item_body_is_converted() {
    // a list marker with empty content followed by a paragraph
    let out = render_body(b("- \n\nx"), true);
    let text = String::from_utf8(out).expect("converter emits UTF-8");
    assert!(text.contains("x"));
}

#[test]
fn non_ascii_html_body_passes_through() {
    let body = vec![97u8, 0xE2, 0x82, 0xAC, 98];
    assert_eq!(render_body(body.clone(), false), body);
}

#[test]
fn end_to_end_markdown_page() {
    let raw = b("title = Hello\n---\n# Hi");
    let tpl = b("<h1>{{title}}</h1><body>{{content}}</body>");
    let out = render_page(&raw, true, &tpl);
    assert_eq!(out, b("<h1>Hello</h1><body><h1>Hi</h1></body>"));
}

#[test]
fn end_to_end_html_page() {
    let raw = b("template = page.html\n---\n<p>raw</p>");
    let tpl = b("[{{content}}][{{template}}]");
    let out = render_page(&raw, false, &tpl);
    assert_eq!(out, b("[<p>raw</p>][page.html]"));
}

#[test]
fn extension_filtering() {
    assert!(!is_markdown_path(&b("notes.txt")));
    assert!(!is_html_path(&b("notes.txt")));
    assert!(is_markdown_path(&b("a/b.md")));
    assert!(is_html_path(&b("x.html")));
    assert!(!is_markdown_path(&b("a.md/c")));
}

#[test]
fn extension_of_dotfile() {
    assert!(!has_extension(&b(".bashrc"), &b("bashrc")));
    assert!(!has_extension(&b("dir/.hidden"), &b("hidden")));
    assert!(has_extension(&b("archive.tar.gz"), &b("gz")));
}

#[test]
fn destination_name_forces_html() {
    assert_eq!(html_dest(&b("a/b.md")), b("a/b.html"));
    assert_eq!(html_dest(&b("x.html")), b("x.html"));
    assert_eq!(html_dest(&b("noext")), b("noext.html"));
}

#[test]
fn file_reader_starts_empty() {
    let reader = FileReader::new();
    assert!(reader.lookup(&b("default.html")).is_none());
}

#[test]
fn file_reader_remembers_found_template() {
    let mut reader = FileReader::new();
    reader.store(b("default.html"), TemplateEntry::Found(b("<p>{{content}}</p>")));
    match reader.lookup(&b("default.html")) {
        Some(TemplateEntry::Found(text)) => assert_eq!(text, &b("<p>{{content}}</p>")),
        _ => panic!("expected the stored template"),
    }
}

#[test]
fn file_reader_remembers_absence() {
    let mut reader = FileReader::new();
    reader.store(b("missing.html"), TemplateEntry::Absent);
    match reader.lookup(&b("missing.html")) {
        Some(TemplateEntry::Absent) => {},
        _ => panic!("expected a remembered absence"),
    }
}

#[test]
fn file_reader_overwrites_outcome() {
    let mut reader = FileReader::new();
    reader.store(b("t.html"), TemplateEntry::Absent);
    reader.store(b("t.html"), TemplateEntry::Found(b("late")));
    match reader.lookup(&b("t.html")) {
        Some(TemplateEntry::Found(text)) => assert_eq!(text, &b("late")),
        _ => panic!("expected the later outcome"),
    }
}

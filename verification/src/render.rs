//! Rendering a content file against a template: the body is converted from
//! Markdown to HTML (through the external converter) or used verbatim for an
//! HTML source, the template is chosen by the `template` header variable
//! (falling back to `default.html`), and its placeholders are substituted.

use vstd::prelude::*;
use crate::front_matter::{parse_front_matter, spec_parse};
use crate::substitute::{spec_substitute, substitute};
use crate::text::copy_range;
use crate::vars::Variables;

verus! {

/// The HTML produced by the external Markdown converter for a given body.
/// The converter is a black box; its output is a function of the input text
/// alone, which is all the library relies on.
pub uninterp spec fn md_html_of(body: Seq<u8>) -> Seq<u8>;

/// Relies on markdown::to_html: converts Markdown text to HTML. Its
/// documentation states that plain Markdown (no MDX options, which this call
/// does not enable) has no syntax errors, so the conversion always returns;
/// the result depends only on the input text, here named `md_html_of`.
#[verifier::external_body]
fn markdown_to_html(body: &Vec<u8>) -> (r: Vec<u8>)
    ensures
        r@ == md_html_of(body@),
{
    let text = String::from_utf8_lossy(body.as_slice());
    markdown::to_html(&text).into_bytes()
}

/// The rendered form of a body: converted for Markdown sources, verbatim for
/// HTML sources.
pub open spec fn spec_render(body: Seq<u8>, is_markdown: bool) -> Seq<u8> {
    if is_markdown {
        md_html_of(body)
    } else {
        body
    }
}

/// Renders a body to HTML: a Markdown body goes through the converter, an
/// HTML body passes through verbatim.
pub fn render_body(body: Vec<u8>, is_markdown: bool) -> (r: Vec<u8>)
    ensures
        r@ == spec_render(body@, is_markdown),
{
    if is_markdown {
        markdown_to_html(&body)
    } else {
        body
    }
}

/// The reserved variable naming the template: the bytes of `template`.
pub open spec fn template_key() -> Seq<u8> {
    seq![116u8, 101u8, 109u8, 112u8, 108u8, 97u8, 116u8, 101u8]
}

/// The template used when none is named: the bytes of `default.html`.
pub open spec fn default_template() -> Seq<u8> {
    seq![100u8, 101u8, 102u8, 97u8, 117u8, 108u8, 116u8, 46u8, 104u8, 116u8, 109u8, 108u8]
}

fn template_key_vec() -> (r: Vec<u8>)
    ensures
        r@ == template_key(),
{
    let mut v: Vec<u8> = Vec::new();
    v.push(116u8);
    v.push(101u8);
    v.push(109u8);
    v.push(112u8);
    v.push(108u8);
    v.push(97u8);
    v.push(116u8);
    v.push(101u8);
    proof {
        assert(v@ =~= template_key());
    }
    v
}

fn default_template_vec() -> (r: Vec<u8>)
    ensures
        r@ == default_template(),
{
    let mut v: Vec<u8> = Vec::new();
    v.push(100u8);
    v.push(101u8);
    v.push(102u8);
    v.push(97u8);
    v.push(117u8);
    v.push(108u8);
    v.push(116u8);
    v.push(46u8);
    v.push(104u8);
    v.push(116u8);
    v.push(109u8);
    v.push(108u8);
    proof {
        assert(v@ =~= default_template());
    }
    v
}

/// The template a file resolves to: the non-empty value of its `template`
/// variable, and `default.html` when that variable is absent or empty.
pub open spec fn spec_template_name(vars: Map<Seq<u8>, Seq<u8>>) -> Seq<u8> {
    if vars.contains_key(template_key()) && vars[template_key()].len() > 0 {
        vars[template_key()]
    } else {
        default_template()
    }
}

/// Resolves the template name from a file's variables.
pub fn template_name(vars: &Variables) -> (r: Vec<u8>)
    ensures
        r@ == spec_template_name(vars@),
{
    let key = template_key_vec();
    match vars.get(&key) {
        Some(v) => {
            if v.len() > 0 {
                let r = copy_range(v, 0, v.len());
                proof {
                    assert(v@.subrange(0, v@.len() as int) =~= v@);
                }
                r
            } else {
                default_template_vec()
            }
        },
        None => default_template_vec(),
    }
}

/// A parsed and rendered content file, ready to be merged with a template.
pub struct Page {
    /// The front-matter variables.
    pub vars: Variables,
    /// The rendered body.
    pub content: Vec<u8>,
}

/// Parses a content file's front matter and renders its body.
pub fn prepare_page(raw: &Vec<u8>, is_markdown: bool) -> (p: Page)
    ensures
        p.vars@ == spec_parse(raw@).0,
        p.content@ == spec_render(spec_parse(raw@).1, is_markdown),
{
    let (vars, body) = parse_front_matter(raw);
    let content = render_body(body, is_markdown);
    Page { vars, content }
}

/// The final HTML for one source file, given its raw text, its kind and the
/// text of its template.
pub open spec fn spec_render_page(raw: Seq<u8>, is_markdown: bool, template: Seq<u8>) -> Seq<u8> {
    spec_substitute(template, spec_parse(raw).0, spec_render(spec_parse(raw).1, is_markdown))
}

/// Renders one source file against a template: parses the front matter,
/// renders the body, and substitutes the template's placeholders.
pub fn render_page(raw: &Vec<u8>, is_markdown: bool, template: &Vec<u8>) -> (html: Vec<u8>)
    ensures
        html@ == spec_render_page(raw@, is_markdown, template@),
{
    let p = prepare_page(raw, is_markdown);
    substitute(template, &p.vars, &p.content)
}

} // verus!

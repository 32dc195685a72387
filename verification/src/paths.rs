//! Relative paths as byte strings with `/` separators: deciding a file's
//! extension, whether it is a content file, and the destination name with the
//! extension forced to `.html`.

use vstd::prelude::*;
use crate::text::{append_range, bytes_eq, copy_range, find_last, lemma_find_last, rfind_byte};

verus! {

/// The path separator byte `/`.
pub const SEP: u8 = 47;

/// The dot byte `.`.
pub const DOT: u8 = 46;

/// The position of the dot that starts the extension of `p`: the last dot,
/// provided it lies inside the final path component and not at that
/// component's start. `None` when the file name has no extension.
pub open spec fn ext_dot_of(p: Seq<u8>) -> Option<int> {
    match find_last(p, DOT) {
        Some(d) => match find_last(p, SEP) {
            Some(s) => if d > s + 1 {
                Some(d)
            } else {
                None
            },
            None => if d > 0 {
                Some(d)
            } else {
                None
            },
        },
        None => None,
    }
}

/// The extension of `p`: the bytes after the extension's dot.
pub open spec fn spec_ext_of(p: Seq<u8>) -> Option<Seq<u8>> {
    match ext_dot_of(p) {
        Some(d) => Some(p.subrange(d + 1, p.len() as int)),
        None => None,
    }
}

/// True if the extension of `p` is exactly `e`.
pub fn has_extension(p: &Vec<u8>, e: &Vec<u8>) -> (r: bool)
    ensures
        r == (spec_ext_of(p@) == Some(e@)),
{
    proof {
        lemma_find_last(p@, DOT);
        lemma_find_last(p@, SEP);
    }
    match rfind_byte(p, DOT) {
        Some(d) => {
            proof {
                assert(d < p.len());
            }
            match rfind_byte(p, SEP) {
                Some(s) => {
                    proof {
                        assert(s < p.len());
                    }
                    if d <= s + 1 {
                        return false;
                    }
                },
                None => {
                    if d == 0 {
                        return false;
                    }
                },
            }
            proof {
                assert(d < p.len());
            }
            let ext = copy_range(p, d + 1, p.len());
            bytes_eq(&ext, e)
        },
        None => false,
    }
}

/// The bytes of the extension `md`.
pub open spec fn md_ext() -> Seq<u8> {
    seq![109u8, 100u8]
}

/// The bytes of the extension `html`.
pub open spec fn html_ext() -> Seq<u8> {
    seq![104u8, 116u8, 109u8, 108u8]
}

fn md_ext_vec() -> (r: Vec<u8>)
    ensures
        r@ == md_ext(),
{
    let mut v: Vec<u8> = Vec::new();
    v.push(109u8);
    v.push(100u8);
    proof {
        assert(v@ =~= md_ext());
    }
    v
}

fn html_ext_vec() -> (r: Vec<u8>)
    ensures
        r@ == html_ext(),
{
    let mut v: Vec<u8> = Vec::new();
    v.push(104u8);
    v.push(116u8);
    v.push(109u8);
    v.push(108u8);
    proof {
        assert(v@ =~= html_ext());
    }
    v
}

/// True if `p` names a Markdown file.
pub fn is_markdown_path(p: &Vec<u8>) -> (r: bool)
    ensures
        r == (spec_ext_of(p@) == Some(md_ext())),
{
    let e = md_ext_vec();
    has_extension(p, &e)
}

/// True if `p` names an HTML file.
pub fn is_html_path(p: &Vec<u8>) -> (r: bool)
    ensures
        r == (spec_ext_of(p@) == Some(html_ext())),
{
    let e = html_ext_vec();
    has_extension(p, &e)
}

/// The destination name for `p`: its extension replaced by `html`, or
/// `.html` appended when `p` has no extension.
pub open spec fn spec_html_dest(p: Seq<u8>) -> Seq<u8> {
    match ext_dot_of(p) {
        Some(d) => p.subrange(0, d + 1) + html_ext(),
        None => p + seq![DOT] + html_ext(),
    }
}

/// Computes the destination file name with the extension forced to `.html`.
pub fn html_dest(p: &Vec<u8>) -> (r: Vec<u8>)
    ensures
        r@ == spec_html_dest(p@),
{
    proof {
        lemma_find_last(p@, DOT);
        lemma_find_last(p@, SEP);
    }
    let ext = html_ext_vec();
    let dot_end: usize = match rfind_byte(p, DOT) {
        Some(d) => {
            proof {
                assert(d < p.len());
            }
            let keep = match rfind_byte(p, SEP) {
                Some(s) => {
                    proof {
                        assert(s < p.len());
                    }
                    d > s + 1
                },
                None => d > 0,
            };
            if keep {
                d + 1
            } else {
                0
            }
        },
        None => 0,
    };
    if dot_end > 0 {
        let mut r = copy_range(p, 0, dot_end);
        append_range(&mut r, &ext, 0, ext.len());
        proof {
            assert(ext@.subrange(0, ext@.len() as int) =~= ext@);
        }
        r
    } else {
        let mut r = copy_range(p, 0, p.len());
        r.push(DOT);
        append_range(&mut r, &ext, 0, ext.len());
        proof {
            assert(p@.subrange(0, p@.len() as int) =~= p@);
            assert(ext@.subrange(0, ext@.len() as int) =~= ext@);
            assert(p@.push(DOT) =~= p@ + seq![DOT]);
        }
        r
    }
}

} // verus!

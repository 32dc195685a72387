//! The placeholder substitution engine. A template is scanned left to right
//! for non-overlapping tokens of the form `{{identifier}}`, where an
//! identifier is an ASCII letter followed by ASCII letters, digits or
//! underscores. Each token is replaced by the rendered content (for the
//! reserved identifier `content`), by the identifier's variable value, or —
//! for an unknown identifier — left in place verbatim. Replaced values are
//! never scanned again.

use vstd::prelude::*;
use crate::text::{append_range, bytes_eq, copy_range};
use crate::vars::Variables;

verus! {

/// The opening brace byte `{`.
pub const LBRACE: u8 = 123;

/// The closing brace byte `}`.
pub const RBRACE: u8 = 125;

/// True of ASCII letters.
pub open spec fn is_letter(b: u8) -> bool {
    (65 <= b <= 90) || (97 <= b <= 122)
}

/// True of the bytes an identifier may continue with: ASCII letters, digits
/// and underscore.
pub open spec fn is_word_byte(b: u8) -> bool {
    is_letter(b) || (48 <= b <= 57) || b == 95
}

/// Executable test for an ASCII letter.
pub fn byte_is_letter(b: u8) -> (r: bool)
    ensures
        r == is_letter(b),
{
    (65 <= b && b <= 90) || (97 <= b && b <= 122)
}

/// Executable test for an identifier byte.
pub fn byte_is_word(b: u8) -> (r: bool)
    ensures
        r == is_word_byte(b),
{
    byte_is_letter(b) || (48 <= b && b <= 57) || b == 95
}

/// The end of the run of identifier bytes in `t` that starts at `j`.
pub open spec fn word_end(t: Seq<u8>, j: int) -> int
    decreases t.len() - j,
    when 0 <= j <= t.len()
{
    if j < t.len() && is_word_byte(t[j]) {
        word_end(t, j + 1)
    } else {
        j
    }
}

/// `word_end` bounds and content: it ends the maximal run of identifier
/// bytes beginning at `j`.
pub proof fn lemma_word_end(t: Seq<u8>, j: int)
    requires
        0 <= j <= t.len(),
    ensures
        j <= word_end(t, j) <= t.len(),
        forall|x: int| j <= x < word_end(t, j) ==> is_word_byte(t[x]),
        word_end(t, j) == t.len() || !is_word_byte(t[word_end(t, j)]),
    decreases t.len() - j,
{
    if j < t.len() && is_word_byte(t[j]) {
        lemma_word_end(t, j + 1);
    }
}

/// A maximal run of identifier bytes over `[j, e)` determines `word_end`.
pub proof fn lemma_word_end_is(t: Seq<u8>, j: int, e: int)
    requires
        0 <= j <= e <= t.len(),
        forall|x: int| j <= x < e ==> is_word_byte(t[x]),
        e == t.len() || !is_word_byte(t[e]),
    ensures
        word_end(t, j) == e,
    decreases e - j,
{
    if j < e {
        lemma_word_end_is(t, j + 1, e);
    }
}

/// If a placeholder token starts at position `i` of `t`, the position just
/// past its closing braces; `None` otherwise.
pub open spec fn token_end_at(t: Seq<u8>, i: int) -> Option<int> {
    if 0 <= i && i + 2 < t.len() && t[i] == LBRACE && t[i + 1] == LBRACE && is_letter(t[i + 2]) {
        let j = word_end(t, i + 3);
        if j + 2 <= t.len() && t[j] == RBRACE && t[j + 1] == RBRACE {
            Some(j + 2)
        } else {
            None
        }
    } else {
        None
    }
}

/// The identifier reserved for the rendered content: the bytes of `content`.
pub open spec fn content_key() -> Seq<u8> {
    seq![99u8, 111u8, 110u8, 116u8, 101u8, 110u8, 116u8]
}

fn content_key_vec() -> (r: Vec<u8>)
    ensures
        r@ == content_key(),
{
    let mut v: Vec<u8> = Vec::new();
    v.push(99u8);
    v.push(111u8);
    v.push(110u8);
    v.push(116u8);
    v.push(101u8);
    v.push(110u8);
    v.push(116u8);
    proof {
        assert(v@ =~= content_key());
    }
    v
}

/// What the token spanning `[i, e)` of `t` is replaced by: the rendered
/// content for the reserved identifier, the variable's value for a known
/// identifier, and the token itself for an unknown one.
pub open spec fn replacement(
    t: Seq<u8>,
    i: int,
    e: int,
    vars: Map<Seq<u8>, Seq<u8>>,
    content: Seq<u8>,
) -> Seq<u8> {
    let key = t.subrange(i + 2, e - 2);
    if key == content_key() {
        content
    } else if vars.contains_key(key) {
        vars[key]
    } else {
        t.subrange(i, e)
    }
}

/// The substituted text of `t` from position `i` on: bytes are copied
/// verbatim until a token starts, each token is replaced, and scanning
/// resumes after the token.
pub open spec fn sub_from(t: Seq<u8>, i: int, vars: Map<Seq<u8>, Seq<u8>>, content: Seq<u8>) -> Seq<
    u8,
>
    decreases t.len() - i,
    when 0 <= i
    via sub_from_decreases
{
    if i >= t.len() {
        Seq::empty()
    } else {
        match token_end_at(t, i) {
            Some(e) => replacement(t, i, e, vars, content) + sub_from(t, e, vars, content),
            None => seq![t[i]] + sub_from(t, i + 1, vars, content),
        }
    }
}

#[via_fn]
proof fn sub_from_decreases(t: Seq<u8>, i: int, vars: Map<Seq<u8>, Seq<u8>>, content: Seq<u8>) {
    if 0 <= i < t.len() {
        if i + 2 < t.len() && t[i] == LBRACE && t[i + 1] == LBRACE && is_letter(t[i + 2]) {
            lemma_word_end(t, i + 3);
        }
    }
}

/// The whole substituted text of the template `t`.
pub open spec fn spec_substitute(
    t: Seq<u8>,
    vars: Map<Seq<u8>, Seq<u8>>,
    content: Seq<u8>,
) -> Seq<u8> {
    sub_from(t, 0, vars, content)
}

/// Looks for a placeholder token at position `i`, returning its end.
fn try_token_end(t: &Vec<u8>, i: usize) -> (r: Option<usize>)
    requires
        i < t@.len(),
    ensures
        match r {
            Some(e) => token_end_at(t@, i as int) == Some(e as int) && i + 4 < e <= t@.len(),
            None => token_end_at(t@, i as int) is None,
        },
{
    if t.len() - i > 3 && t[i] == LBRACE && t[i + 1] == LBRACE && byte_is_letter(t[i + 2]) {
        let mut j: usize = i + 3;
        while j < t.len() && byte_is_word(t[j])
            invariant
                i + 3 <= j <= t.len(),
                word_end(t@, i + 3) == word_end(t@, j as int),
            decreases t@.len() - j,
        {
            j = j + 1;
        }
        proof {
            assert(word_end(t@, j as int) == j);
            lemma_word_end(t@, i + 3);
        }
        if j < t.len() - 1 && t[j] == RBRACE && t[j + 1] == RBRACE {
            Some(j + 2)
        } else {
            None
        }
    } else {
        proof {
            if i + 2 < t@.len() && t@[i as int] == LBRACE && t@[i + 1] == LBRACE && is_letter(
                t@[i + 2],
            ) {
                // only reached when the template ends right after the first
                // identifier byte, so the token lacks its closing braces
                assert(i + 3 == t@.len());
                assert(word_end(t@, i + 3) == t@.len());
            }
        }
        None
    }
}

/// Substitutes every placeholder token of the template `t`, resolving the
/// reserved identifier `content` to the rendered `content` bytes and all
/// other identifiers against `vars`; unknown placeholders stay verbatim.
pub fn substitute(t: &Vec<u8>, vars: &Variables, content: &Vec<u8>) -> (r: Vec<u8>)
    ensures
        r@ == spec_substitute(t@, vars@, content@),
{
    let mut out: Vec<u8> = Vec::new();
    let mut i: usize = 0;
    let ckey = content_key_vec();
    while i < t.len()
        invariant
            0 <= i <= t@.len(),
            ckey@ == content_key(),
            out@ + sub_from(t@, i as int, vars@, content@) == spec_substitute(
                t@,
                vars@,
                content@,
            ),
        decreases t@.len() - i,
    {
        match try_token_end(t, i) {
            Some(e) => {
                let ghost pre = out@;
                let key = copy_range(t, i + 2, e - 2);
                if bytes_eq(&key, &ckey) {
                    append_range(&mut out, content, 0, content.len());
                    proof {
                        assert(content@.subrange(0, content@.len() as int) =~= content@);
                    }
                } else {
                    match vars.get(&key) {
                        Some(v) => {
                            append_range(&mut out, v, 0, v.len());
                            proof {
                                assert(v@.subrange(0, v@.len() as int) =~= v@);
                            }
                        },
                        None => {
                            append_range(&mut out, t, i, e);
                        },
                    }
                }
                proof {
                    assert(out@ == pre + replacement(t@, i as int, e as int, vars@, content@));
                    assert(pre + (replacement(t@, i as int, e as int, vars@, content@) + sub_from(
                        t@,
                        e as int,
                        vars@,
                        content@,
                    )) =~= out@ + sub_from(t@, e as int, vars@, content@));
                }
                i = e;
            },
            None => {
                let ghost pre = out@;
                out.push(t[i]);
                proof {
                    assert(pre + (seq![t@[i as int]] + sub_from(t@, i + 1, vars@, content@)) =~=
                        out@ + sub_from(t@, i + 1, vars@, content@));
                }
                i = i + 1;
            },
        }
    }
    proof {
        assert(out@ + sub_from(t@, i as int, vars@, content@) =~= out@);
    }
    out
}

/// True of the byte sequences that form a placeholder identifier: a letter
/// followed by letters, digits or underscores.
pub open spec fn valid_ident(k: Seq<u8>) -> bool {
    k.len() >= 1 && is_letter(k[0]) && (forall|i: int| 1 <= i < k.len() ==> is_word_byte(k[i]))
}

/// The identifier `k` wrapped in double braces: the template `{{k}}`.
pub open spec fn wrap(k: Seq<u8>) -> Seq<u8> {
    seq![LBRACE, LBRACE] + k + seq![RBRACE, RBRACE]
}

/// How a template holding exactly one placeholder is substituted: by the
/// rendered content for the reserved identifier, by the variable's value for
/// a known identifier, verbatim otherwise.
pub proof fn lemma_single_token(k: Seq<u8>, vars: Map<Seq<u8>, Seq<u8>>, content: Seq<u8>)
    requires
        valid_ident(k),
    ensures
        spec_substitute(wrap(k), vars, content) == (if k == content_key() {
            content
        } else if vars.contains_key(k) {
            vars[k]
        } else {
            wrap(k)
        }),
{
    let t = wrap(k);
    let n = k.len() as int;
    assert(t.len() == n + 4);
    assert(t[0] == LBRACE && t[1] == LBRACE);
    assert(t[n + 2] == RBRACE && t[n + 3] == RBRACE);
    assert(t[2] == k[0]);
    assert forall|x: int| 3 <= x < n + 2 implies is_word_byte(t[x]) by {
        assert(t[x] == k[x - 2]);
    }
    lemma_word_end_is(t, 3, n + 2);
    assert(token_end_at(t, 0) == Some(n + 4));
    assert(t.subrange(2, n + 2) =~= k);
    assert(t.subrange(0, n + 4) =~= t);
    assert(sub_from(t, n + 4, vars, content) =~= Seq::<u8>::empty());
    assert(replacement(t, 0, n + 4, vars, content) + Seq::<u8>::empty() =~= replacement(
        t,
        0,
        n + 4,
        vars,
        content,
    ));
}

/// `content` spelt out is a valid identifier.
proof fn lemma_content_key_valid()
    ensures
        valid_ident(content_key()),
{
    assert(content_key()[0] == 99u8);
    assert forall|i: int| 1 <= i < content_key().len() implies is_word_byte(content_key()[i]) by {
        if i == 1 {
            assert(content_key()[1] == 111u8);
        } else if i == 2 {
            assert(content_key()[2] == 110u8);
        } else if i == 3 {
            assert(content_key()[3] == 116u8);
        } else if i == 4 {
            assert(content_key()[4] == 101u8);
        } else if i == 5 {
            assert(content_key()[5] == 110u8);
        } else {
            assert(content_key()[6] == 116u8);
        }
    }
}

/// Law: the reserved identifier takes precedence. Substituting the template
/// `{{content}}` yields the rendered content, whatever value a header
/// variable named `content` may hold.
pub proof fn lemma_content_precedence(vars: Map<Seq<u8>, Seq<u8>>, content: Seq<u8>)
    requires
        vars.contains_key(content_key()),
    ensures
        spec_substitute(wrap(content_key()), vars, content) == content,
{
    lemma_content_key_valid();
    lemma_single_token(content_key(), vars, content);
}

/// Law: an unknown placeholder passes through. A template holding only the
/// placeholder of an identifier bound by no variable substitutes to itself.
pub proof fn lemma_unknown_placeholder(k: Seq<u8>, vars: Map<Seq<u8>, Seq<u8>>, content: Seq<u8>)
    requires
        valid_ident(k),
        k != content_key(),
        !vars.contains_key(k),
    ensures
        spec_substitute(wrap(k), vars, content) == wrap(k),
{
    lemma_single_token(k, vars, content);
}

/// Law: no recursive expansion. A known variable's value is inserted
/// verbatim — even when the value itself contains placeholder tokens, they
/// are not substituted again.
pub proof fn lemma_no_recursive_expansion(
    k: Seq<u8>,
    vars: Map<Seq<u8>, Seq<u8>>,
    content: Seq<u8>,
)
    requires
        valid_ident(k),
        k != content_key(),
        vars.contains_key(k),
    ensures
        spec_substitute(wrap(k), vars, content) == vars[k],
{
    lemma_single_token(k, vars, content);
}

} // verus!

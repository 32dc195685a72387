//! Front-matter parsing: a content file optionally starts with a header block
//! of `key = value` lines, separated from the body by the first occurrence of
//! a newline immediately followed by three hyphens. Header and body are
//! trimmed as part of the split; header lines without `=` are ignored; later
//! bindings of a key win.

use vstd::prelude::*;
use crate::text::{
    copy_range, find, find_from, is_match_at, lemma_find_from, spec_find, trim, trim_spec,
};
use crate::vars::Variables;

verus! {

/// The newline byte, as a pattern.
pub open spec fn nl() -> Seq<u8> {
    seq![10u8]
}

/// The `=` byte, as a pattern.
pub open spec fn eq_sign() -> Seq<u8> {
    seq![61u8]
}

/// The front-matter delimiter: a newline followed by three hyphens (`"\n---"`).
pub open spec fn fm_delim() -> Seq<u8> {
    seq![10u8, 45u8, 45u8, 45u8]
}

fn nl_vec() -> (r: Vec<u8>)
    ensures
        r@ == nl(),
{
    let mut v: Vec<u8> = Vec::new();
    v.push(10u8);
    proof {
        assert(v@ =~= nl());
    }
    v
}

fn eq_vec() -> (r: Vec<u8>)
    ensures
        r@ == eq_sign(),
{
    let mut v: Vec<u8> = Vec::new();
    v.push(61u8);
    proof {
        assert(v@ =~= eq_sign());
    }
    v
}

fn fm_delim_vec() -> (r: Vec<u8>)
    ensures
        r@ == fm_delim(),
{
    let mut v: Vec<u8> = Vec::new();
    v.push(10u8);
    v.push(45u8);
    v.push(45u8);
    v.push(45u8);
    proof {
        assert(v@ =~= fm_delim());
    }
    v
}

/// Splitting `s` at the first occurrence of `p`: the part before and the part
/// after, both trimmed; `None` when `p` does not occur in `s`.
pub open spec fn spec_split_once(s: Seq<u8>, p: Seq<u8>) -> Option<(Seq<u8>, Seq<u8>)> {
    match spec_find(s, p) {
        Some(i) => Some(
            (
                trim_spec(s.subrange(0, i)),
                trim_spec(s.subrange(i + p.len(), s.len() as int)),
            ),
        ),
        None => None,
    }
}

/// Splits `s` at the first occurrence of `p` and trims both parts.
pub fn split_once(s: &Vec<u8>, p: &Vec<u8>) -> (r: Option<(Vec<u8>, Vec<u8>)>)
    ensures
        match r {
            Some(parts) => spec_split_once(s@, p@) == Some((parts.0@, parts.1@)),
            None => spec_split_once(s@, p@) is None,
        },
{
    match find(s, p) {
        Some(i) => {
            proof {
                lemma_find_from(s@, p@, 0);
                assert(i + p@.len() <= s.len());
            }
            let first = copy_range(s, 0, i);
            let second = copy_range(s, i + p.len(), s.len());
            Some((trim(&first), trim(&second)))
        },
        None => None,
    }
}

/// The binding contributed by one header line: the trimmed parts around the
/// first `=`, or nothing when the line has no `=`.
pub open spec fn line_vars(line: Seq<u8>) -> Map<Seq<u8>, Seq<u8>> {
    match spec_split_once(line, eq_sign()) {
        Some(kv) => Map::empty().insert(kv.0, kv.1),
        None => Map::empty(),
    }
}

/// The variables of a whole header block: its newline-separated lines'
/// bindings, later lines overriding earlier ones.
pub open spec fn spec_header_vars(h: Seq<u8>) -> Map<Seq<u8>, Seq<u8>>
    decreases h.len(),
    via spec_header_vars_decreases
{
    match spec_find(h, nl()) {
        Some(i) => line_vars(h.subrange(0, i)).union_prefer_right(
            spec_header_vars(h.subrange(i + 1, h.len() as int)),
        ),
        None => line_vars(h),
    }
}

#[via_fn]
proof fn spec_header_vars_decreases(h: Seq<u8>) {
    lemma_find_from(h, nl(), 0);
}

fn line_into(line: &Vec<u8>, vars: &mut Variables)
    ensures
        final(vars)@ == old(vars)@.union_prefer_right(line_vars(line@)),
{
    let eq = eq_vec();
    match split_once(line, &eq) {
        Some((k, v)) => {
            let ghost gk = k@;
            let ghost gv = v@;
            vars.insert(k, v);
            proof {
                assert(old(vars)@.insert(gk, gv) =~= old(vars)@.union_prefer_right(
                    Map::empty().insert(gk, gv),
                ));
            }
        },
        None => {
            proof {
                assert(vars@ =~= vars@.union_prefer_right(Map::<Seq<u8>, Seq<u8>>::empty()));
            }
        },
    }
}

fn header_lines_into(header: &Vec<u8>, vars: &mut Variables)
    ensures
        final(vars)@ == old(vars)@.union_prefer_right(spec_header_vars(header@)),
    decreases header@.len(),
{
    let nlv = nl_vec();
    match find(header, &nlv) {
        Some(i) => {
            proof {
                lemma_find_from(header@, nl(), 0);
                assert(i + 1 <= header.len());
            }
            let line = copy_range(header, 0, i);
            let rest = copy_range(header, i + 1, header.len());
            line_into(&line, vars);
            let ghost mid = vars@;
            header_lines_into(&rest, vars);
            proof {
                let lv = line_vars(line@);
                let rv = spec_header_vars(rest@);
                assert(vars@ == old(vars)@.union_prefer_right(lv).union_prefer_right(rv));
                assert(old(vars)@.union_prefer_right(lv).union_prefer_right(rv) =~= old(
                    vars,
                )@.union_prefer_right(lv.union_prefer_right(rv)));
            }
        },
        None => {
            line_into(header, vars);
        },
    }
}

/// Parses a header block into its variable mapping.
pub fn header_to_variables(header: &Vec<u8>) -> (vars: Variables)
    ensures
        vars@ == spec_header_vars(header@),
{
    let mut vars = Variables::new();
    header_lines_into(header, &mut vars);
    proof {
        assert(Map::<Seq<u8>, Seq<u8>>::empty().union_prefer_right(spec_header_vars(header@))
            =~= spec_header_vars(header@));
    }
    vars
}

/// What parsing a content file yields: the header's variables and the body,
/// split at the first `"\n---"`; without a delimiter, no variables and the
/// whole (trimmed) input as the body.
pub open spec fn spec_parse(raw: Seq<u8>) -> (Map<Seq<u8>, Seq<u8>>, Seq<u8>) {
    match spec_split_once(raw, fm_delim()) {
        Some(hb) => (spec_header_vars(hb.0), hb.1),
        None => (Map::empty(), trim_spec(raw)),
    }
}

/// Splits a content file into its front-matter variables and its body.
pub fn parse_front_matter(raw: &Vec<u8>) -> (r: (Variables, Vec<u8>))
    ensures
        r.0@ == spec_parse(raw@).0,
        r.1@ == spec_parse(raw@).1,
{
    let delim = fm_delim_vec();
    match split_once(raw, &delim) {
        Some((h, b)) => {
            let vars = header_to_variables(&h);
            (vars, b)
        },
        None => (Variables::new(), trim(raw)),
    }
}

/// Law: a header parses line by line. Splitting a header at any newline, the
/// variables of the whole are the variables of the part before the newline
/// overridden by the variables of the part after it — so across a header of
/// any number of lines, each line contributes its own binding and later
/// lines win on repeated keys.
pub proof fn lemma_header_vars_split(h1: Seq<u8>, h2: Seq<u8>)
    ensures
        spec_header_vars(h1 + nl() + h2) == spec_header_vars(h1).union_prefer_right(
            spec_header_vars(h2),
        ),
    decreases h1.len(),
{
    let t = h1 + nl() + h2;
    lemma_find_from(h1, nl(), 0);
    match find_from(h1, nl(), 0) {
        None => {
            // h1 holds no newline, so the first newline of `t` stands at
            // h1.len(), between the two parts
            let n = h1.len() as int;
            assert(t.subrange(n, n + 1) =~= nl());
            assert(is_match_at(t, nl(), n));
            assert forall|k: int| 0 <= k < n implies !is_match_at(t, nl(), k) by {
                if is_match_at(t, nl(), k) {
                    assert(h1.subrange(k, k + 1) =~= t.subrange(k, k + 1));
                    assert(is_match_at(h1, nl(), k));
                }
            }
            lemma_find_from(t, nl(), 0);
            match find_from(t, nl(), 0) {
                Some(j) => {
                    if j < n {
                        assert(is_match_at(t, nl(), j));
                        assert(false);
                    }
                    if j > n {
                        assert(!is_match_at(t, nl(), n));
                        assert(false);
                    }
                },
                None => {
                    assert(!is_match_at(t, nl(), n));
                    assert(false);
                },
            }
            assert(t.subrange(0, n) =~= h1);
            assert(t.subrange(n + 1, t.len() as int) =~= h2);
        },
        Some(i) => {
            // the first newline of h1 is the first newline of `t`
            assert(t.subrange(i, i + 1) =~= nl());
            assert(is_match_at(t, nl(), i));
            assert forall|k: int| 0 <= k < i implies !is_match_at(t, nl(), k) by {
                if is_match_at(t, nl(), k) {
                    assert(h1.subrange(k, k + 1) =~= t.subrange(k, k + 1));
                    assert(is_match_at(h1, nl(), k));
                }
            }
            lemma_find_from(t, nl(), 0);
            match find_from(t, nl(), 0) {
                Some(j) => {
                    if j < i {
                        assert(is_match_at(t, nl(), j));
                        assert(false);
                    }
                    if j > i {
                        assert(!is_match_at(t, nl(), i));
                        assert(false);
                    }
                },
                None => {
                    assert(!is_match_at(t, nl(), i));
                    assert(false);
                },
            }
            let first = h1.subrange(0, i);
            let rest = h1.subrange(i + 1, h1.len() as int);
            assert(t.subrange(0, i) =~= first);
            assert(t.subrange(i + 1, t.len() as int) =~= rest + nl() + h2);
            lemma_header_vars_split(rest, h2);
            assert(line_vars(first).union_prefer_right(
                spec_header_vars(rest).union_prefer_right(spec_header_vars(h2)),
            ) =~= line_vars(first).union_prefer_right(spec_header_vars(rest)).union_prefer_right(
                spec_header_vars(h2),
            ));
        },
    }
}

/// Law: the front-matter split is a round trip. For any header `h` that
/// contains no embedded delimiter, parsing `h + "\n---" + b` yields exactly
/// the variables of the (trimmed) header `h` and the trimmed body `b`.
pub proof fn lemma_front_matter_round_trip(h: Seq<u8>, b: Seq<u8>)
    requires
        forall|i: int| !is_match_at(h, fm_delim(), i),
    ensures
        spec_parse(h + fm_delim() + b).0 == spec_header_vars(trim_spec(h)),
        spec_parse(h + fm_delim() + b).1 == trim_spec(b),
{
    let t = h + fm_delim() + b;
    let n = h.len() as int;
    assert(t.subrange(n, n + 4) =~= fm_delim());
    assert(is_match_at(t, fm_delim(), n));
    assert forall|k: int| 0 <= k < n implies !is_match_at(t, fm_delim(), k) by {
        if k + 4 <= n {
            assert(t.subrange(k, k + 4) =~= h.subrange(k, k + 4));
            if is_match_at(t, fm_delim(), k) {
                assert(is_match_at(h, fm_delim(), k));
            }
        } else {
            // the window straddles position n, where `t` holds the
            // delimiter's newline but the pattern asks for a hyphen
            assert(t[n] == 10u8);
            if is_match_at(t, fm_delim(), k) {
                assert(t.subrange(k, k + 4)[n - k] == t[n]);
                if n - k == 1 {
                    assert(fm_delim()[1] == 45u8);
                } else if n - k == 2 {
                    assert(fm_delim()[2] == 45u8);
                } else {
                    assert(fm_delim()[3] == 45u8);
                }
            }
        }
    }
    lemma_find_from(t, fm_delim(), 0);
    match find_from(t, fm_delim(), 0) {
        Some(j) => {
            if j < n {
                assert(is_match_at(t, fm_delim(), j));
                assert(false);
            }
            if j > n {
                assert(!is_match_at(t, fm_delim(), n));
                assert(false);
            }
            assert(j == n);
        },
        None => {
            assert(!is_match_at(t, fm_delim(), n));
            assert(false);
        },
    }
    assert(t.subrange(0, n) =~= h);
    assert(t.subrange(n + 4, t.len() as int) =~= b);
}

/// Law: with no delimiter anywhere in the input, parsing yields an empty
/// variable mapping and the whole trimmed input as the body.
pub proof fn lemma_no_delimiter_whole_body(raw: Seq<u8>)
    requires
        forall|i: int| !is_match_at(raw, fm_delim(), i),
    ensures
        spec_parse(raw).0 == Map::<Seq<u8>, Seq<u8>>::empty(),
        spec_parse(raw).1 == trim_spec(raw),
{
    lemma_find_from(raw, fm_delim(), 0);
    match find_from(raw, fm_delim(), 0) {
        Some(j) => {
            assert(is_match_at(raw, fm_delim(), j));
            assert(false);
        },
        None => {},
    }
}

} // verus!

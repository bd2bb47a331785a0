//! The rewriting passes on the text of one emitted module.

use vstd::prelude::*;
use crate::names::ModuleNameSet;
use crate::rules::{
    Rule, apply_rule, inner_allow, inner_cfg_attr, outer_allow, outer_cfg_attr, rewrite_at,
    rewritten,
};
use crate::shape::{
    ImportShape, crate_root, import_shape, next_line_start, qualified_import, thrift_parent,
    use_keyword,
};
use crate::text::{
    char_is_ident_char, char_is_ident_start, char_is_space, from_chars, ident_run_end,
    lemma_ident_run_bounds, lemma_ident_run_skip, lemma_space_run_skip, space_run_end,
    starts_with_at, to_chars,
};

verus! {

/// The end of the run of blanks that starts at `from`.
fn skip_spaces(text: &Vec<char>, from: usize) -> (end: usize)
    requires
        from <= text.len(),
    ensures
        end == space_run_end(text@, from as int),
        from <= end <= text.len(),
{
    let mut k: usize = from;
    while k < text.len() && char_is_space(text[k])
        invariant
            from <= k <= text.len(),
            space_run_end(text@, k as int) == space_run_end(text@, from as int),
        decreases text.len() - k,
    {
        k += 1;
    }
    k
}

/// The end of the run of identifier characters that starts at `from`.
fn skip_ident(text: &Vec<char>, from: usize) -> (end: usize)
    requires
        from <= text.len(),
    ensures
        end == ident_run_end(text@, from as int),
        from <= end <= text.len(),
{
    let mut k: usize = from;
    while k < text.len() && char_is_ident_char(text[k])
        invariant
            from <= k <= text.len(),
            ident_run_end(text@, k as int) == ident_run_end(text@, from as int),
        decreases text.len() - k,
    {
        k += 1;
    }
    k
}

fn keyword_chars() -> (v: Vec<char>)
    ensures
        v@ == use_keyword(),
{
    let v = vec!['u', 's', 'e'];
    assert(v@ =~= use_keyword());
    v
}

fn crate_root_chars() -> (v: Vec<char>)
    ensures
        v@ == crate_root(),
{
    let v = vec!['c', 'r', 'a', 't', 'e', ':', ':'];
    assert(v@ =~= crate_root());
    v
}

/// The import statement that starts at index `at`, as the indices of its
/// identifier and of its end in `text`.
fn find_import(text: &Vec<char>, at: usize, qualified: bool) -> (found: Option<
    (usize, usize, usize),
>)
    requires
        at <= text.len(),
    ensures
        match found {
            Some((from, to, end)) => at <= from <= to <= end <= text.len() && import_shape(
                text@.skip(at as int),
                qualified,
            ) == Some(ImportShape { ident_from: from - at, ident_to: to - at, end: end - at }),
            None => import_shape(text@.skip(at as int), qualified) is None,
        },
{
    let ghost rest = text@.skip(at as int);
    let keyword = keyword_chars();
    if !starts_with_at(text, at, &keyword) {
        return None;
    }
    let gap_end = skip_spaces(text, at + 3);
    proof {
        lemma_space_run_skip(text@, at as int, 3);
    }
    if gap_end == at + 3 {
        return None;
    }
    let from = if qualified {
        let root = crate_root_chars();
        assert(rest.skip(gap_end - at) =~= text@.skip(gap_end as int));
        if !starts_with_at(text, gap_end, &root) {
            return None;
        }
        gap_end + 7
    } else {
        gap_end
    };
    proof {
        lemma_ident_run_skip(text@, at as int, from - at);
        lemma_ident_run_bounds(text@, from as int);
    }
    if from >= text.len() || !char_is_ident_start(text[from]) {
        return None;
    }
    let to = skip_ident(text, from);
    let semi = skip_spaces(text, to);
    proof {
        lemma_space_run_skip(text@, at as int, to - at);
    }
    if semi >= text.len() || text[semi] != ';' {
        return None;
    }
    Some((from, to, semi + 1))
}

/// Appends `text[from..to]` to `out`.
fn push_range(out: &mut Vec<char>, text: &Vec<char>, from: usize, to: usize)
    requires
        from <= to <= text.len(),
    ensures
        final(out)@ == old(out)@ + text@.subrange(from as int, to as int),
{
    let mut k: usize = from;
    while k < to
        invariant
            from <= k <= to <= text.len(),
            out@ == old(out)@ + text@.subrange(from as int, k as int),
        decreases to - k,
    {
        out.push(text[k]);
        k += 1;
        assert(out@ =~= old(out)@ + text@.subrange(from as int, k as int));
    }
    assert(out@ =~= old(out)@ + text@.subrange(from as int, to as int));
}

/// Appends to `out` the qualified import of the identifier `text[from..to]`.
fn push_qualified_import(out: &mut Vec<char>, text: &Vec<char>, from: usize, to: usize)
    requires
        from <= to <= text.len(),
    ensures
        final(out)@ == old(out)@ + qualified_import(text@.subrange(from as int, to as int)),
{
    let head = vec![
        'u', 's', 'e', ' ', 'c', 'r', 'a', 't', 'e', ':', ':', 't', 'h', 'r', 'i', 'f', 't', ':', ':',
    ];
    assert(head@ =~= use_keyword() + seq![' '] + crate_root() + thrift_parent());
    push_range(out, &head, 0, head.len());
    assert(head@.subrange(0, head@.len() as int) =~= head@);
    push_range(out, text, from, to);
    out.push(';');
    assert(out@ =~= old(out)@ + qualified_import(text@.subrange(from as int, to as int)));
}

fn marker_chars(rule: Rule) -> (v: (Vec<char>, Vec<char>))
    requires
        rule == Rule::InnerAllow || rule == Rule::InnerCfgAttr,
    ensures
        rule == Rule::InnerAllow ==> v.0@ == inner_allow() && v.1@ == outer_allow(),
        rule == Rule::InnerCfgAttr ==> v.0@ == inner_cfg_attr() && v.1@ == outer_cfg_attr(),
{
    match rule {
        Rule::InnerAllow => {
            let inner = vec!['#', '!', '[', 'a', 'l', 'l', 'o', 'w', '('];
            let outer = vec!['#', '[', 'a', 'l', 'l', 'o', 'w', '('];
            assert(inner@ =~= inner_allow());
            assert(outer@ =~= outer_allow());
            (inner, outer)
        },
        _ => {
            let inner = vec!['#', '!', '[', 'c', 'f', 'g', '_', 'a', 't', 't', 'r', '('];
            let outer = vec!['#', '[', 'c', 'f', 'g', '_', 'a', 't', 't', 'r', '('];
            assert(inner@ =~= inner_cfg_attr());
            assert(outer@ =~= outer_cfg_attr());
            (inner, outer)
        },
    }
}

/// One pass of an attribute rule over `text`.
fn apply_marker_rule(rule: Rule, text: &Vec<char>, Ghost(names): Ghost<Set<Seq<char>>>) -> (out:
    Vec<char>)
    requires
        rule == Rule::InnerAllow || rule == Rule::InnerCfgAttr,
    ensures
        out@ == apply_rule(rule, text@, true, names),
{
    let (inner, outer) = marker_chars(rule);
    let mut out: Vec<char> = Vec::new();
    let mut at: usize = 0;
    let ghost mut line_start = true;
    assert(text@.skip(0) =~= text@);
    assert(out@ + apply_rule(rule, text@, true, names) =~= apply_rule(rule, text@, true, names));
    while at < text.len()
        invariant
            at <= text.len(),
            rule == Rule::InnerAllow || rule == Rule::InnerCfgAttr,
            rule == Rule::InnerAllow ==> inner@ == inner_allow() && outer@ == outer_allow(),
            rule == Rule::InnerCfgAttr ==> inner@ == inner_cfg_attr() && outer@
                == outer_cfg_attr(),
            out@ + apply_rule(rule, text@.skip(at as int), line_start, names) == apply_rule(
                rule,
                text@,
                true,
                names,
            ),
        decreases text.len() - at,
    {
        let ghost rest = text@.skip(at as int);
        if starts_with_at(text, at, &inner) {
            let ghost before = out@;
            push_range(&mut out, &outer, 0, outer.len());
            assert(outer@.subrange(0, outer@.len() as int) =~= outer@);
            assert(rest.skip(inner@.len() as int) =~= text@.skip(at + inner@.len()));
            assert(out@ + apply_rule(rule, rest.skip(inner@.len() as int), false, names)
                =~= before + (outer@ + apply_rule(
                rule,
                rest.skip(inner@.len() as int),
                false,
                names,
            )));
            at += inner.len();
            proof {
                line_start = false;
            }
        } else {
            let ghost before = out@;
            out.push(text[at]);
            assert(rest.skip(1) =~= text@.skip(at + 1));
            assert(out@ + apply_rule(
                rule,
                rest.skip(1),
                next_line_start(line_start, rest[0]),
                names,
            ) =~= before + (seq![rest[0]] + apply_rule(
                rule,
                rest.skip(1),
                next_line_start(line_start, rest[0]),
                names,
            )));
            proof {
                line_start = next_line_start(line_start, rest[0]);
            }
            at += 1;
        }
    }
    assert(text@.skip(at as int).len() == 0);
    assert(out@ + Seq::<char>::empty() =~= out@);
    out
}

/// One pass of an import rule over `text`.
fn apply_import_rule(rule: Rule, text: &Vec<char>, names: &ModuleNameSet) -> (out: Vec<char>)
    requires
        rule == Rule::BareImport || rule == Rule::CrateImport,
    ensures
        out@ == apply_rule(rule, text@, true, names@),
{
    let qualified = match rule {
        Rule::CrateImport => true,
        _ => false,
    };
    let mut out: Vec<char> = Vec::new();
    let mut at: usize = 0;
    let mut line_start = true;
    assert(text@.skip(0) =~= text@);
    assert(out@ + apply_rule(rule, text@, true, names@) =~= apply_rule(rule, text@, true, names@));
    while at < text.len()
        invariant
            at <= text.len(),
            rule == Rule::BareImport || rule == Rule::CrateImport,
            qualified == (rule == Rule::CrateImport),
            out@ + apply_rule(rule, text@.skip(at as int), line_start, names@) == apply_rule(
                rule,
                text@,
                true,
                names@,
            ),
        decreases text.len() - at,
    {
        let ghost rest = text@.skip(at as int);
        let ghost before = out@;
        let mut end: usize = at;
        if line_start {
            match find_import(text, at, qualified) {
                Some((from, to, stop)) => {
                    assert(rest.subrange(from - at, to - at) =~= text@.subrange(
                        from as int,
                        to as int,
                    ));
                    if names.contains_chars(text, from, to) {
                        push_qualified_import(&mut out, text, from, to);
                        end = stop;
                    }
                },
                None => {},
            }
        }
        if end > at {
            assert(rest.skip(end - at) =~= text@.skip(end as int));
            let ghost r = rewrite_at(rule, rest, line_start, names@).unwrap();
            assert(out@ + apply_rule(rule, rest.skip(r.consumed), false, names@) =~= before + (
            r.replacement + apply_rule(rule, rest.skip(r.consumed), false, names@)));
            at = end;
            line_start = false;
        } else {
            assert(rewrite_at(rule, rest, line_start, names@) is None);
            let c = text[at];
            out.push(c);
            assert(rest.skip(1) =~= text@.skip(at + 1));
            assert(out@ + apply_rule(
                rule,
                rest.skip(1),
                next_line_start(line_start, rest[0]),
                names@,
            ) =~= before + (seq![rest[0]] + apply_rule(
                rule,
                rest.skip(1),
                next_line_start(line_start, rest[0]),
                names@,
            )));
            line_start = char_is_space(c) && (c == '\n' || line_start);
            at += 1;
        }
    }
    assert(text@.skip(at as int).len() == 0);
    assert(out@ + Seq::<char>::empty() =~= out@);
    out
}

/// The text of one emitted module after the rewriting: the two attribute
/// markers are turned into their outer forms, then the unqualified and the
/// crate-qualified imports of emitted modules are qualified through the
/// Thrift parent module. Everything else is left as it is.
pub fn rewrite_source(content: &str, names: &ModuleNameSet) -> (fixed: String)
    ensures
        fixed@ == rewritten(content@, names@),
{
    let text = to_chars(content);
    let a = apply_marker_rule(Rule::InnerAllow, &text, Ghost(names@));
    let b = apply_marker_rule(Rule::InnerCfgAttr, &a, Ghost(names@));
    let c = apply_import_rule(Rule::BareImport, &b, names);
    let d = apply_import_rule(Rule::CrateImport, &c, names);
    from_chars(&d)
}

} // verus!

//! A pass over a text in two parts: where no rewrite reaches across the
//! border, the pass works on each part by itself.

use vstd::prelude::*;
use crate::rules::{Rule, apply_rule, rewrite_at};
use crate::scan::{
    lemma_copy_one, lemma_line_start_behind, lemma_line_start_split, lemma_rewrite_facts,
};
use crate::shape::{import_shape, line_start_after, next_line_start, use_keyword};
use crate::stable::{lemma_replacement_inert, lemma_rewrite_prefix, lemma_shape_chars};
use crate::text::{
    has_prefix, lemma_ident_run_bounds, lemma_space_run_bounds, lemma_space_run_skip, space_run_end,
};

verus! {

/// No rewrite of `rule` that begins in `a` reaches into `b`.
#[verifier::opaque]
pub open spec fn respects(
    rule: Rule,
    a: Seq<char>,
    b: Seq<char>,
    line_start: bool,
    names: Set<Seq<char>>,
) -> bool {
    forall|j: int|
        0 <= j < a.len() ==> match rewrite_at(
            rule,
            #[trigger] (a + b).skip(j),
            line_start_after(line_start, a + b, j),
            names,
        ) {
            Some(r) => j + r.consumed <= a.len(),
            None => true,
        }
}

/// What is respected stays respected behind a prefix of the first part.
proof fn lemma_respects_skip(
    rule: Rule,
    a: Seq<char>,
    b: Seq<char>,
    line_start: bool,
    names: Set<Seq<char>>,
    k: int,
)
    requires
        respects(rule, a, b, line_start, names),
        0 <= k <= a.len(),
    ensures
        respects(rule, a.skip(k), b, line_start_after(line_start, a + b, k), names),
{
    reveal(respects);
    let x = a + b;
    let a2 = a.skip(k);
    let x2 = a2 + b;
    let mid = line_start_after(line_start, x, k);
    assert(x2 =~= x.skip(k));
    assert forall|j: int| 0 <= j < a2.len() implies match rewrite_at(
        rule,
        #[trigger] x2.skip(j),
        line_start_after(mid, x2, j),
        names,
    ) {
        Some(r) => j + r.consumed <= a2.len(),
        None => true,
    } by {
        lemma_line_start_split(line_start, x, k, j);
        assert(x2.skip(j) =~= x.skip(k + j));
    }
}

/// The anchoring inside the first part does not depend on the second.
proof fn lemma_line_start_in_first(line_start: bool, a: Seq<char>, b: Seq<char>, k: int)
    requires
        0 <= k <= a.len(),
    ensures
        line_start_after(line_start, a + b, k) == line_start_after(line_start, a, k),
    decreases k,
{
    if k > 0 {
        lemma_line_start_in_first(line_start, a, b, k - 1);
        assert((a + b)[k - 1] == a[k - 1]);
    }
}

/// What is respected holds at the head of the first part.
proof fn lemma_respects_head(
    rule: Rule,
    a: Seq<char>,
    b: Seq<char>,
    line_start: bool,
    names: Set<Seq<char>>,
)
    requires
        respects(rule, a, b, line_start, names),
        a.len() > 0,
    ensures
        match rewrite_at(rule, a + b, line_start, names) {
            Some(r) => r.consumed <= a.len(),
            None => true,
        },
{
    reveal(respects);
    assert((a + b).skip(0) =~= a + b);
    assert(line_start_after(line_start, a + b, 0) == line_start);
}

/// The head of the two parts together is rewritten as the head of the first
/// part alone is.
proof fn lemma_same_head(
    rule: Rule,
    a: Seq<char>,
    b: Seq<char>,
    line_start: bool,
    names: Set<Seq<char>>,
)
    requires
        respects(rule, a, b, line_start, names),
        a.len() > 0,
    ensures
        rewrite_at(rule, a + b, line_start, names) == rewrite_at(rule, a, line_start, names),
{
    let x = a + b;
    lemma_respects_head(rule, a, b, line_start, names);
    if rewrite_at(rule, x, line_start, names) is Some {
        let n = rewrite_at(rule, x, line_start, names).unwrap().consumed;
        lemma_rewrite_facts(rule, x, line_start, names);
        assert(a.take(n) =~= x.take(n));
        lemma_rewrite_prefix(rule, x, a, line_start, names);
    } else if rewrite_at(rule, a, line_start, names) is Some {
        let n = rewrite_at(rule, a, line_start, names).unwrap().consumed;
        lemma_rewrite_facts(rule, a, line_start, names);
        assert(x.take(n) =~= a.take(n));
        lemma_rewrite_prefix(rule, a, x, line_start, names);
    }
}

/// One step of the pass over two parts, where the head is rewritten.
proof fn lemma_split_rewritten(
    rule: Rule,
    a: Seq<char>,
    b: Seq<char>,
    line_start: bool,
    names: Set<Seq<char>>,
    behind: Seq<char>,
)
    requires
        a.len() > 0,
        rewrite_at(rule, a, line_start, names) is Some,
        rewrite_at(rule, a + b, line_start, names) == rewrite_at(rule, a, line_start, names),
        rewrite_at(rule, a, line_start, names).unwrap().consumed <= a.len(),
        apply_rule(
            rule,
            a.skip(rewrite_at(rule, a, line_start, names).unwrap().consumed) + b,
            false,
            names,
        ) == apply_rule(
            rule,
            a.skip(rewrite_at(rule, a, line_start, names).unwrap().consumed),
            false,
            names,
        ) + behind,
    ensures
        apply_rule(rule, a + b, line_start, names) == apply_rule(rule, a, line_start, names)
            + behind,
{
    let r = rewrite_at(rule, a, line_start, names).unwrap();
    let first = apply_rule(rule, a.skip(r.consumed), false, names);
    assert((a + b).skip(r.consumed) =~= a.skip(r.consumed) + b);
    assert(r.replacement + (first + behind) =~= (r.replacement + first) + behind);
}

/// One step of the pass over two parts, where the head is copied.
proof fn lemma_split_copied(
    rule: Rule,
    a: Seq<char>,
    b: Seq<char>,
    line_start: bool,
    names: Set<Seq<char>>,
    behind: Seq<char>,
)
    requires
        a.len() > 0,
        rewrite_at(rule, a, line_start, names) is None,
        rewrite_at(rule, a + b, line_start, names) is None,
        apply_rule(rule, a.skip(1) + b, next_line_start(line_start, a[0]), names) == apply_rule(
            rule,
            a.skip(1),
            next_line_start(line_start, a[0]),
            names,
        ) + behind,
    ensures
        apply_rule(rule, a + b, line_start, names) == apply_rule(rule, a, line_start, names)
            + behind,
{
    let next = next_line_start(line_start, a[0]);
    let first = apply_rule(rule, a.skip(1), next, names);
    assert((a + b).skip(1) =~= a.skip(1) + b);
    assert((a + b)[0] == a[0]);
    lemma_copy_one(rule, a + b, line_start, names);
    lemma_copy_one(rule, a, line_start, names);
    assert(seq![a[0]] + (first + behind) =~= (seq![a[0]] + first) + behind);
}

/// Where no rewrite reaches across the border, the pass over the whole is
/// the pass over the first part followed by the pass over the second.
pub proof fn lemma_split(
    rule: Rule,
    a: Seq<char>,
    b: Seq<char>,
    line_start: bool,
    names: Set<Seq<char>>,
)
    requires
        respects(rule, a, b, line_start, names),
    ensures
        apply_rule(rule, a + b, line_start, names) == apply_rule(rule, a, line_start, names)
            + apply_rule(rule, b, line_start_after(line_start, a, a.len() as int), names),
    decreases a.len(),
{
    let end = line_start_after(line_start, a, a.len() as int);
    let behind = apply_rule(rule, b, end, names);
    if a.len() == 0 {
        assert(a + b =~= b);
        assert(apply_rule(rule, a, line_start, names) + behind =~= behind);
    } else {
        lemma_same_head(rule, a, b, line_start, names);
        if rewrite_at(rule, a, line_start, names) is Some {
            let n = rewrite_at(rule, a, line_start, names).unwrap().consumed;
            lemma_rewrite_facts(rule, a, line_start, names);
            lemma_respects_skip(rule, a, b, line_start, names, n);
            lemma_line_start_in_first(line_start, a, b, n);
            lemma_line_start_behind(line_start, a, n);
            lemma_split(rule, a.skip(n), b, false, names);
            lemma_line_start_split(line_start, a, n, a.len() - n);
            lemma_split_rewritten(rule, a, b, line_start, names, behind);
        } else {
            let next = next_line_start(line_start, a[0]);
            assert(line_start_after(line_start, a, 1) == next) by {
                assert(line_start_after(line_start, a, 0) == line_start);
            }
            lemma_respects_skip(rule, a, b, line_start, names, 1);
            lemma_line_start_in_first(line_start, a, b, 1);
            lemma_split(rule, a.skip(1), b, next, names);
            lemma_line_start_split(line_start, a, 1, a.len() - 1);
            lemma_split_copied(rule, a, b, line_start, names, behind);
        }
    }
}

/// A pass does not change whether the end of a text is an anchored
/// position.
pub proof fn lemma_final_anchoring(
    rule: Rule,
    s: Seq<char>,
    line_start: bool,
    names: Set<Seq<char>>,
)
    ensures
        line_start_after(
            line_start,
            apply_rule(rule, s, line_start, names),
            apply_rule(rule, s, line_start, names).len() as int,
        ) == line_start_after(line_start, s, s.len() as int),
    decreases s.len(),
{
    let out = apply_rule(rule, s, line_start, names);
    if s.len() > 0 {
        assert(line_start_after(line_start, s, 0) == line_start);
        assert(line_start_after(line_start, out, 0) == line_start);
        if rewrite_at(rule, s, line_start, names) is Some {
            let r = rewrite_at(rule, s, line_start, names).unwrap();
            let n = r.consumed;
            let k = r.replacement.len() as int;
            lemma_rewrite_facts(rule, s, line_start, names);
            lemma_replacement_inert(rule, s, line_start, names);
            let rest = s.skip(n);
            let tail = apply_rule(rule, rest, false, names);
            lemma_final_anchoring(rule, rest, false, names);
            assert(out.skip(k) =~= tail);
            assert(out[k - 1] == r.replacement.last());
            lemma_line_start_behind(line_start, out, k);
            lemma_line_start_behind(line_start, s, n);
            lemma_line_start_split(line_start, out, k, tail.len() as int);
            lemma_line_start_split(line_start, s, n, rest.len() as int);
        } else {
            let next = next_line_start(line_start, s[0]);
            let rest = s.skip(1);
            let tail = apply_rule(rule, rest, next, names);
            lemma_copy_one(rule, s, line_start, names);
            lemma_final_anchoring(rule, rest, next, names);
            assert(out.skip(1) =~= tail);
            assert(out[0] == s[0]);
            assert(line_start_after(line_start, s, 1) == next);
            assert(line_start_after(line_start, out, 1) == next);
            lemma_line_start_split(line_start, out, 1, tail.len() as int);
            lemma_line_start_split(line_start, s, 1, rest.len() as int);
        }
    }
}

/// `rest` begins as an import statement does: with the keyword, a blank,
/// and behind the blanks something other than a semicolon.
pub open spec fn opens_statement(rest: Seq<char>) -> bool {
    &&& has_prefix(rest, use_keyword())
    &&& 3 < space_run_end(rest, 3) < rest.len()
    &&& rest[space_run_end(rest, 3)] != ';'
}

/// No rewrite reaches from a text into the opening of a statement behind
/// it.
pub proof fn lemma_respects_statement(
    rule: Rule,
    pre: Seq<char>,
    rest: Seq<char>,
    line_start: bool,
    names: Set<Seq<char>>,
)
    requires
        opens_statement(rest),
    ensures
        respects(rule, pre, rest, line_start, names),
{
    reveal(respects);
    let x = pre + rest;
    assert forall|j: int| 0 <= j < pre.len() implies match rewrite_at(
        rule,
        #[trigger] x.skip(j),
        line_start_after(line_start, x, j),
        names,
    ) {
        Some(r) => j + r.consumed <= pre.len(),
        None => true,
    } by {
        let y = x.skip(j);
        let st = line_start_after(line_start, x, j);
        if rewrite_at(rule, y, st, names) is Some {
            let n = rewrite_at(rule, y, st, names).unwrap().consumed;
            lemma_rewrite_facts(rule, y, st, names);
            let p = pre.len() - j;
            if n > p {
                assert(y.skip(p) =~= rest);
                lemma_no_reach(rule, y, rest, st, names, p);
            }
        }
    }
}

/// A rewrite does not consume the opening of a statement from its middle.
proof fn lemma_no_reach(
    rule: Rule,
    y: Seq<char>,
    rest: Seq<char>,
    st: bool,
    names: Set<Seq<char>>,
    p: int,
)
    requires
        opens_statement(rest),
        0 < p <= y.len(),
        y.skip(p) == rest,
        rewrite_at(rule, y, st, names) is Some,
    ensures
        rewrite_at(rule, y, st, names).unwrap().consumed <= p,
{
    let n = rewrite_at(rule, y, st, names).unwrap().consumed;
    lemma_rewrite_facts(rule, y, st, names);
    lemma_space_run_bounds(rest, 3);
    assert(rest[0] == 'u' && rest[1] == 's' && rest[2] == 'e') by {
        assert(rest.subrange(0, 3)[0] == rest[0]);
        assert(rest.subrange(0, 3)[1] == rest[1]);
        assert(rest.subrange(0, 3)[2] == rest[2]);
    }
    assert(y[p] == rest[0] && y[p + 1] == rest[1] && y[p + 2] == rest[2] && y[p + 3] == rest[3]);
    if n > p {
        match rule {
            Rule::InnerAllow => {
                assert(y.subrange(0, 9)[p] == y[p]);
                assert(false);
            },
            Rule::InnerCfgAttr => {
                assert(y.subrange(0, 12)[p] == y[p]);
                assert(false);
            },
            _ => {
                let qualified = rule == Rule::CrateImport;
                let m = import_shape(y, qualified).unwrap();
                lemma_shape_chars(y, qualified);
                lemma_ident_run_bounds(y, m.ident_from);
                lemma_space_run_bounds(y, m.ident_to);
                assert(m.ident_from <= p < m.ident_to);
                assert(m.ident_to == p + 3);
                lemma_space_run_skip(y, p, 3);
                let g = space_run_end(rest, 3);
                assert(y[p + g] == rest[g]);
                assert(false);
            },
        }
    }
}

} // verus!

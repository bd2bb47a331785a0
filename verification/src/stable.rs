//! Why a pass never creates text that an earlier or the same rule would
//! rewrite.

use vstd::prelude::*;
use crate::rules::{Rule, apply_rule, rewrite_at};
use crate::scan::{
    lemma_apply_first, lemma_copy_one, lemma_line_start_behind, lemma_line_start_prefix,
    lemma_line_start_split, lemma_qualified_import_chars, lemma_rewrite_facts, may_start, settled,
};
use crate::shape::{crate_root, import_shape, line_start_after, next_line_start, qualified_import};
use crate::text::{
    ident_run_end, is_ident_char, is_space, lemma_ident_run_bounds, lemma_ident_run_is,
    lemma_space_run_bounds, lemma_space_run_is, space_run_end,
};

verus! {

/// Where the output of a pass shows, after its first character, nothing that
/// the rule could begin a rewrite with, the pass has copied that much.
pub proof fn lemma_copy_back(
    rule: Rule,
    s: Seq<char>,
    line_start: bool,
    names: Set<Seq<char>>,
    u: Seq<char>,
    k: int,
)
    requires
        u == apply_rule(rule, s, line_start, names),
        1 <= k <= u.len(),
        rewrite_at(rule, s, line_start, names) is None,
        forall|j: int|
            1 <= j < k ==> !may_start(rule, line_start_after(line_start, u, j), #[trigger] u[j]),
    ensures
        k <= s.len(),
        u.take(k) == s.take(k),
        u.skip(k) == apply_rule(rule, s.skip(k), line_start_after(line_start, s, k), names),
        line_start_after(line_start, s, k) == line_start_after(line_start, u, k),
    decreases k,
{
    if k == 1 {
        assert(s.len() > 0);
        lemma_copy_one(rule, s, line_start, names);
        let rest = apply_rule(rule, s.skip(1), next_line_start(line_start, s[0]), names);
        assert(u.skip(1) =~= rest);
        assert(u.take(1) =~= s.take(1));
        assert(line_start_after(line_start, s, 0) == line_start);
        assert(line_start_after(line_start, s, 1) == next_line_start(line_start, s[0]));
        lemma_line_start_prefix(line_start, s, u, 1);
    } else {
        lemma_copy_back(rule, s, line_start, names, u, k - 1);
        let t = s.skip(k - 1);
        let v = u.skip(k - 1);
        let mid = line_start_after(line_start, s, k - 1);
        assert(v.len() >= 1);
        assert(t.len() > 0);
        lemma_apply_first(rule, t, mid, names);
        assert(v[0] == u[k - 1]);
        assert(t[0] == s[k - 1]);
        assert(!may_start(rule, mid, t[0]));
        assert(rewrite_at(rule, t, mid, names) is None) by {
            if rewrite_at(rule, t, mid, names) is Some {
                lemma_rewrite_facts(rule, t, mid, names);
            }
        }
        lemma_copy_one(rule, t, mid, names);
        let rest = apply_rule(rule, t.skip(1), next_line_start(mid, t[0]), names);
        assert(t.skip(1) =~= s.skip(k));
        assert(line_start_after(line_start, s, k) == next_line_start(mid, t[0]));
        assert(u.skip(k) =~= rest) by {
            assert(u.skip(k) =~= v.skip(1));
            assert((seq![t[0]] + rest).skip(1) =~= rest);
        }
        assert(u.take(k) =~= s.take(k)) by {
            assert(u.take(k) =~= u.take(k - 1).push(u[k - 1]));
            assert(s.take(k) =~= s.take(k - 1).push(s[k - 1]));
        }
        lemma_line_start_prefix(line_start, s, u, k);
    }
}

/// Whether and how a rule rewrites at the head of a text depends on the
/// characters that it consumes alone.
pub proof fn lemma_rewrite_prefix(
    rule: Rule,
    u: Seq<char>,
    s: Seq<char>,
    line_start: bool,
    names: Set<Seq<char>>,
)
    requires
        rewrite_at(rule, u, line_start, names) is Some,
        rewrite_at(rule, u, line_start, names).unwrap().consumed <= s.len(),
        s.take(rewrite_at(rule, u, line_start, names).unwrap().consumed) == u.take(
            rewrite_at(rule, u, line_start, names).unwrap().consumed,
        ),
    ensures
        rewrite_at(rule, s, line_start, names) == rewrite_at(rule, u, line_start, names),
{
    lemma_rewrite_facts(rule, u, line_start, names);
    match rule {
        Rule::InnerAllow => {
            assert(s.subrange(0, 9) =~= s.take(9));
            assert(u.subrange(0, 9) =~= u.take(9));
        },
        Rule::InnerCfgAttr => {
            assert(s.subrange(0, 12) =~= s.take(12));
            assert(u.subrange(0, 12) =~= u.take(12));
        },
        Rule::BareImport => {
            lemma_shape_prefix(u, s, false);
        },
        Rule::CrateImport => {
            lemma_shape_prefix(u, s, true);
        },
    }
}

/// The shape of an import statement depends on its own characters alone.
pub proof fn lemma_shape_prefix(u: Seq<char>, s: Seq<char>, qualified: bool)
    requires
        import_shape(u, qualified) is Some,
        import_shape(u, qualified).unwrap().end <= s.len(),
        s.take(import_shape(u, qualified).unwrap().end) == u.take(
            import_shape(u, qualified).unwrap().end,
        ),
    ensures
        import_shape(s, qualified) == import_shape(u, qualified),
        s.subrange(
            import_shape(u, qualified).unwrap().ident_from,
            import_shape(u, qualified).unwrap().ident_to,
        ) == u.subrange(
            import_shape(u, qualified).unwrap().ident_from,
            import_shape(u, qualified).unwrap().ident_to,
        ),
{
    let m = import_shape(u, qualified).unwrap();
    let gap_end = space_run_end(u, 3);
    let semi = m.end - 1;
    assert forall|j: int| 0 <= j < m.end implies s[j] == u[j] by {
        assert(s[j] == s.take(m.end)[j]);
        assert(u[j] == u.take(m.end)[j]);
    }
    lemma_space_run_bounds(u, 3);
    lemma_ident_run_bounds(u, m.ident_from);
    lemma_space_run_bounds(u, m.ident_to);
    assert(s.subrange(0, 3) =~= u.subrange(0, 3));
    lemma_space_run_is(s, 3, gap_end);
    if qualified {
        assert(s.skip(gap_end).subrange(0, 7) =~= u.skip(gap_end).subrange(0, 7));
    }
    lemma_ident_run_is(s, m.ident_from, m.ident_to);
    lemma_space_run_is(s, m.ident_to, semi);
    assert(s.subrange(m.ident_from, m.ident_to) =~= u.subrange(m.ident_from, m.ident_to));
}

/// The rule for the shape with or without the crate-root qualifier.
pub open spec fn import_rule(qualified: bool) -> Rule {
    if qualified {
        Rule::CrateImport
    } else {
        Rule::BareImport
    }
}

/// A pass that copies the head of a text does not give an attribute rule a
/// rewrite there that it did not have.
proof fn lemma_head_kept_marker(
    by: Rule,
    rule: Rule,
    s: Seq<char>,
    line_start: bool,
    names: Set<Seq<char>>,
    u: Seq<char>,
)
    requires
        rule == Rule::InnerAllow || rule == Rule::InnerCfgAttr,
        s.len() > 0,
        u == apply_rule(by, s, line_start, names),
        rewrite_at(by, s, line_start, names) is None,
        rewrite_at(rule, u, line_start, names) is Some,
    ensures
        rewrite_at(rule, s, line_start, names) == rewrite_at(rule, u, line_start, names),
{
    lemma_rewrite_facts(rule, u, line_start, names);
    let n = rewrite_at(rule, u, line_start, names).unwrap().consumed;
    assert forall|j: int| 1 <= j < n implies !may_start(
        by,
        line_start_after(line_start, u, j),
        #[trigger] u[j],
    ) by {
        assert(u[j] == u.subrange(0, n)[j]);
    }
    lemma_copy_back(by, s, line_start, names, u, n);
    lemma_rewrite_prefix(rule, u, s, line_start, names);
}

/// What the characters of an import statement are, part by part.
pub proof fn lemma_shape_chars(u: Seq<char>, qualified: bool)
    requires
        import_shape(u, qualified) is Some,
    ensures
        ({
            let m = import_shape(u, qualified).unwrap();
            &&& 3 < m.ident_from < m.ident_to < m.end <= u.len()
            &&& forall|j: int| 1 <= j < m.ident_from ==> #[trigger] u[j] != '#' && u[j] != 'u'
            &&& forall|j: int| m.ident_from <= j < m.ident_to ==> is_ident_char(#[trigger] u[j])
            &&& forall|j: int| m.ident_to <= j < m.end ==> #[trigger] u[j] != '#' && u[j] != 'u'
            &&& qualified ==> !is_space(u[m.ident_from - 1])
            &&& is_ident_char(u[m.ident_from])
            &&& m.ident_to == ident_run_end(u, m.ident_from)
            &&& m.end == space_run_end(u, m.ident_to) + 1
            &&& u[m.end - 1] == ';'
        }),
{
    let m = import_shape(u, qualified).unwrap();
    let gap_end = space_run_end(u, 3);
    lemma_space_run_bounds(u, 3);
    lemma_ident_run_bounds(u, m.ident_from);
    lemma_space_run_bounds(u, m.ident_to);
    assert(u[1] == 's' && u[2] == 'e') by {
        assert(u.subrange(0, 3)[1] == u[1]);
        assert(u.subrange(0, 3)[2] == u[2]);
    }
    if qualified {
        assert forall|i: int| 0 <= i < 7 implies u[gap_end + i] == #[trigger] crate_root()[i] by {
            assert(u.skip(gap_end).subrange(0, 7)[i] == u[gap_end + i]);
        }
        assert(u[m.ident_from - 1] == crate_root()[6]);
    }
    assert forall|j: int| 1 <= j < m.ident_from implies #[trigger] u[j] != '#' && u[j] != 'u' by {
        if j >= gap_end {
            assert(u[j] == crate_root()[j - gap_end]);
        }
    }
}

/// Inside an import statement of the output of a pass, the pass did not
/// rewrite at the identifier.
proof fn lemma_ident_not_rewritten(
    by: Rule,
    qualified: bool,
    u: Seq<char>,
    s2: Seq<char>,
    st: bool,
    names: Set<Seq<char>>,
)
    requires
        import_shape(u, qualified) is Some,
        s2.len() > 0,
        u.skip(import_shape(u, qualified).unwrap().ident_from) == apply_rule(by, s2, st, names),
        qualified ==> !st,
    ensures
        rewrite_at(by, s2, st, names) is None,
{
    let m = import_shape(u, qualified).unwrap();
    let from = m.ident_from;
    let u2 = u.skip(from);
    lemma_shape_chars(u, qualified);
    lemma_apply_first(by, s2, st, names);
    assert(u2[0] == u[from]);
    if rewrite_at(by, s2, st, names) is Some {
        lemma_rewrite_facts(by, s2, st, names);
        let r1 = rewrite_at(by, s2, st, names).unwrap();
        assert(by == Rule::BareImport || by == Rule::CrateImport);
        assert(!qualified);
        let q1 = by == Rule::CrateImport;
        let m1 = import_shape(s2, q1).unwrap();
        let id1 = s2.subrange(m1.ident_from, m1.ident_to);
        lemma_qualified_import_chars(id1);
        assert(r1.replacement == qualified_import(id1));
        let tail = apply_rule(by, s2.skip(r1.consumed), false, names);
        assert(u2 == r1.replacement + tail);
        assert(u2[1] == 's' && u2[2] == 'e' && u2[3] == ' ' && u2[4] == 'c');
        assert(u[from + 1] == u2[1]);
        assert(u[from + 2] == u2[2]);
        assert(u[from + 3] == u2[3]);
        assert(u[from + 4] == u2[4]);
        lemma_ident_run_is(u, from, from + 3);
        lemma_space_run_is(u, from + 3, from + 4);
        assert(false);
    }
}

/// A pass that copies the head of a text does not give an import rule a
/// rewrite there that it did not have.
proof fn lemma_head_kept_import(
    by: Rule,
    qualified: bool,
    s: Seq<char>,
    line_start: bool,
    names: Set<Seq<char>>,
    u: Seq<char>,
)
    requires
        s.len() > 0,
        u == apply_rule(by, s, line_start, names),
        rewrite_at(by, s, line_start, names) is None,
        rewrite_at(import_rule(qualified), u, line_start, names) is Some,
    ensures
        rewrite_at(import_rule(qualified), s, line_start, names) == rewrite_at(
            import_rule(qualified),
            u,
            line_start,
            names,
        ),
{
    let rule = import_rule(qualified);
    let m = import_shape(u, qualified).unwrap();
    let n = m.end;
    let from = m.ident_from;
    let to = m.ident_to;
    assert(rewrite_at(rule, u, line_start, names).unwrap().consumed == n);
    lemma_shape_chars(u, qualified);
    lemma_copy_back(by, s, line_start, names, u, from);
    let s2 = s.skip(from);
    let u2 = u.skip(from);
    let st = line_start_after(line_start, s, from);
    assert(u2.len() >= 1);
    assert(s2.len() > 0);
    if qualified {
        lemma_line_start_behind(line_start, u, from);
    }
    lemma_ident_not_rewritten(by, qualified, u, s2, st, names);
    assert forall|j: int| 1 <= j < n - from implies !may_start(
        by,
        line_start_after(st, u2, j),
        #[trigger] u2[j],
    ) by {
        assert(u2[j] == u[from + j]);
        assert(u2[j - 1] == u[from + j - 1]);
        if from + j < to {
            lemma_line_start_behind(st, u2, j);
        }
    }
    lemma_copy_back(by, s2, st, names, u2, n - from);
    assert(u.take(n) =~= s.take(n)) by {
        assert(u.take(n) =~= u.take(from) + u2.take(n - from));
        assert(s.take(n) =~= s.take(from) + s2.take(n - from));
    }
    lemma_rewrite_prefix(rule, u, s, line_start, names);
}

/// A pass that copies the head of a text gives no rule a rewrite there
/// that it did not have.
pub proof fn lemma_head_kept(
    by: Rule,
    rule: Rule,
    s: Seq<char>,
    line_start: bool,
    names: Set<Seq<char>>,
    u: Seq<char>,
)
    requires
        s.len() > 0,
        u == apply_rule(by, s, line_start, names),
        rewrite_at(by, s, line_start, names) is None,
        rewrite_at(rule, u, line_start, names) is Some,
    ensures
        rewrite_at(rule, s, line_start, names) == rewrite_at(rule, u, line_start, names),
{
    match rule {
        Rule::InnerAllow => lemma_head_kept_marker(by, rule, s, line_start, names, u),
        Rule::InnerCfgAttr => lemma_head_kept_marker(by, rule, s, line_start, names, u),
        Rule::BareImport => lemma_head_kept_import(by, false, s, line_start, names, u),
        Rule::CrateImport => lemma_head_kept_import(by, true, s, line_start, names, u),
    }
}

/// What a replacement is made of: it begins and ends with a character that is
/// no blank, holds no line break, and shows `#` at most at its head, before `[`.
pub open spec fn inert(rep: Seq<char>) -> bool {
    &&& rep.len() >= 2
    &&& rep[0] == '#' ==> rep[1] == '['
    &&& forall|j: int| 1 <= j < rep.len() ==> #[trigger] rep[j] != '#'
    &&& forall|j: int|
        1 <= j < rep.len() ==> !(#[trigger] rep[j] == 'u' && is_space(rep[j - 1]))
    &&& !is_space(rep[0])
    &&& !is_space(rep.last())
    &&& forall|j: int| 0 <= j < rep.len() ==> #[trigger] rep[j] != '\n'
}

/// Every replacement is inert.
pub proof fn lemma_replacement_inert(by: Rule, s: Seq<char>, line_start: bool, names: Set<Seq<char>>)
    requires
        rewrite_at(by, s, line_start, names) is Some,
    ensures
        inert(rewrite_at(by, s, line_start, names).unwrap().replacement),
{
    let rep = rewrite_at(by, s, line_start, names).unwrap().replacement;
    match by {
        Rule::InnerAllow => {},
        Rule::InnerCfgAttr => {},
        _ => {
            let qualified = by == Rule::CrateImport;
            let m = import_shape(s, qualified).unwrap();
            let ident = s.subrange(m.ident_from, m.ident_to);
            lemma_shape_chars(s, qualified);
            lemma_qualified_import_chars(ident);
            assert forall|i: int| 0 <= i < ident.len() implies is_ident_char(
                #[trigger] ident[i],
            ) by {
                assert(ident[i] == s[m.ident_from + i]);
            }
            assert forall|j: int| 19 <= j < rep.len() - 1 implies is_ident_char(
                #[trigger] rep[j],
            ) by {
                assert(rep[j] == ident[j - 19]);
            }
            assert(rep.last() == ';');
        },
    }
}

/// The head of a qualified import is no import statement of either shape.
pub proof fn lemma_qualified_import_no_shape(ident: Seq<char>, tail: Seq<char>, qualified: bool)
    requires
        ident.len() >= 1,
        forall|i: int| 0 <= i < ident.len() ==> is_ident_char(#[trigger] ident[i]),
    ensures
        import_shape(qualified_import(ident) + tail, qualified) is None,
{
    let rep = qualified_import(ident);
    let x = rep + tail;
    lemma_qualified_import_chars(ident);
    assert forall|j: int| 0 <= j < 19 implies x[j] == #[trigger] rep[j] by {}
    lemma_space_run_is(x, 3, 4);
    if qualified {
        lemma_ident_run_is(x, 11, 17);
        lemma_space_run_is(x, 17, 17);
    } else {
        lemma_ident_run_is(x, 4, 9);
        lemma_space_run_is(x, 9, 9);
    }
}

/// No rule rewrites at a position inside a replacement, whatever follows it,
/// and the position behind it is not anchored.
pub proof fn lemma_replacement_settled(
    by: Rule,
    rule: Rule,
    s: Seq<char>,
    line_start: bool,
    names: Set<Seq<char>>,
    tail: Seq<char>,
    j: int,
)
    requires
        rewrite_at(by, s, line_start, names) is Some,
        0 <= j < rewrite_at(by, s, line_start, names).unwrap().replacement.len(),
    ensures
        rewrite_at(
            rule,
            (rewrite_at(by, s, line_start, names).unwrap().replacement + tail).skip(j),
            line_start_after(
                line_start,
                rewrite_at(by, s, line_start, names).unwrap().replacement + tail,
                j,
            ),
            names,
        ) is None,
        !line_start_after(
            line_start,
            rewrite_at(by, s, line_start, names).unwrap().replacement + tail,
            rewrite_at(by, s, line_start, names).unwrap().replacement.len() as int,
        ),
{
    let rep = rewrite_at(by, s, line_start, names).unwrap().replacement;
    let x = rep + tail;
    let y = x.skip(j);
    let st = line_start_after(line_start, x, j);
    lemma_replacement_inert(by, s, line_start, names);
    assert(x[rep.len() - 1] == rep.last());
    lemma_line_start_behind(line_start, x, rep.len() as int);
    assert(y[0] == x[j]);
    assert(x[j] == rep[j]);
    if rewrite_at(rule, y, st, names) is Some {
        lemma_rewrite_facts(rule, y, st, names);
        match rule {
            Rule::InnerAllow => {
                assert(j == 0);
                assert(y.subrange(0, 9)[1] == y[1]);
                assert(y[1] == x[1]);
                assert(x[1] == rep[1]);
                assert(false);
            },
            Rule::InnerCfgAttr => {
                assert(j == 0);
                assert(y.subrange(0, 12)[1] == y[1]);
                assert(y[1] == x[1]);
                assert(x[1] == rep[1]);
                assert(false);
            },
            _ => {
                let qualified = rule == Rule::CrateImport;
                if j > 0 {
                    assert(x[j - 1] == rep[j - 1]);
                    if !is_space(rep[j - 1]) {
                        lemma_line_start_behind(line_start, x, j);
                    }
                    assert(false);
                } else {
                    assert(y =~= x);
                    assert(rep[0] == 'u');
                    assert(by == Rule::BareImport || by == Rule::CrateImport);
                    let q1 = by == Rule::CrateImport;
                    let m = import_shape(s, q1).unwrap();
                    let ident = s.subrange(m.ident_from, m.ident_to);
                    lemma_shape_chars(s, q1);
                    assert forall|i: int| 0 <= i < ident.len() implies is_ident_char(
                        #[trigger] ident[i],
                    ) by {
                        assert(ident[i] == s[m.ident_from + i]);
                    }
                    lemma_qualified_import_no_shape(ident, tail, qualified);
                    assert(false);
                }
            },
        }
    }
}

/// Wherever `rule` rewrites in `s`, `by` rewrites too.
pub open spec fn covered(
    rule: Rule,
    by: Rule,
    s: Seq<char>,
    line_start: bool,
    names: Set<Seq<char>>,
) -> bool {
    forall|j: int|
        0 <= j < s.len() && rewrite_at(
            rule,
            #[trigger] s.skip(j),
            line_start_after(line_start, s, j),
            names,
        ) is Some ==> rewrite_at(by, s.skip(j), line_start_after(line_start, s, j), names) is Some
}

/// What is covered stays covered behind a prefix.
proof fn lemma_covered_skip(
    rule: Rule,
    by: Rule,
    s: Seq<char>,
    line_start: bool,
    names: Set<Seq<char>>,
    k: int,
)
    requires
        covered(rule, by, s, line_start, names),
        0 <= k <= s.len(),
    ensures
        covered(rule, by, s.skip(k), line_start_after(line_start, s, k), names),
{
    let t = s.skip(k);
    let mid = line_start_after(line_start, s, k);
    assert forall|i: int|
        0 <= i < t.len() && rewrite_at(
            rule,
            #[trigger] t.skip(i),
            line_start_after(mid, t, i),
            names,
        ) is Some implies rewrite_at(by, t.skip(i), line_start_after(mid, t, i), names) is Some by {
        lemma_line_start_split(line_start, s, k, i);
        assert(t.skip(i) =~= s.skip(k + i));
    }
}

/// Behind a prefix, the output of a pass is settled where the rest is.
proof fn lemma_settled_behind(
    rule: Rule,
    out: Seq<char>,
    line_start: bool,
    names: Set<Seq<char>>,
    k: int,
    j: int,
)
    requires
        0 <= k <= j < out.len(),
        settled(rule, out.skip(k), line_start_after(line_start, out, k), names),
    ensures
        rewrite_at(rule, out.skip(j), line_start_after(line_start, out, j), names) is None,
{
    let t = out.skip(k);
    lemma_line_start_split(line_start, out, k, j - k);
    assert(t.skip(j - k) =~= out.skip(j));
}

/// After a pass of `by`, `rule` rewrites nowhere, provided that before it
/// `rule` rewrote only where `by` does.
pub proof fn lemma_pass_settles(
    rule: Rule,
    by: Rule,
    s: Seq<char>,
    line_start: bool,
    names: Set<Seq<char>>,
)
    requires
        covered(rule, by, s, line_start, names),
    ensures
        settled(rule, apply_rule(by, s, line_start, names), line_start, names),
    decreases s.len(),
{
    let out = apply_rule(by, s, line_start, names);
    if s.len() > 0 {
        assert(s.skip(0) =~= s);
        if rewrite_at(by, s, line_start, names) is Some {
            let r = rewrite_at(by, s, line_start, names).unwrap();
            lemma_rewrite_facts(by, s, line_start, names);
            let rest = s.skip(r.consumed);
            let tail = apply_rule(by, rest, false, names);
            lemma_line_start_behind(line_start, s, r.consumed);
            lemma_covered_skip(rule, by, s, line_start, names, r.consumed);
            lemma_pass_settles(rule, by, rest, false, names);
            let k = r.replacement.len() as int;
            lemma_replacement_settled(by, rule, s, line_start, names, tail, 0);
            assert(out.skip(k) =~= tail);
            assert forall|j: int| 0 <= j < out.len() implies rewrite_at(
                rule,
                #[trigger] out.skip(j),
                line_start_after(line_start, out, j),
                names,
            ) is None by {
                if j < k {
                    lemma_replacement_settled(by, rule, s, line_start, names, tail, j);
                } else {
                    lemma_settled_behind(rule, out, line_start, names, k, j);
                }
            }
        } else {
            let next = next_line_start(line_start, s[0]);
            let rest = s.skip(1);
            let tail = apply_rule(by, rest, next, names);
            assert(line_start_after(line_start, s, 0) == line_start);
            assert(line_start_after(line_start, s, 1) == next);
            lemma_covered_skip(rule, by, s, line_start, names, 1);
            lemma_pass_settles(rule, by, rest, next, names);
            assert(out.skip(1) =~= tail);
            assert(out[0] == s[0]);
            assert(line_start_after(line_start, out, 0) == line_start);
            assert(line_start_after(line_start, out, 1) == next);
            assert forall|j: int| 0 <= j < out.len() implies rewrite_at(
                rule,
                #[trigger] out.skip(j),
                line_start_after(line_start, out, j),
                names,
            ) is None by {
                if j == 0 {
                    assert(out.skip(0) =~= out);
                    if rewrite_at(rule, out, line_start, names) is Some {
                        lemma_head_kept(by, rule, s, line_start, names, out);
                    }
                } else {
                    lemma_settled_behind(rule, out, line_start, names, 1, j);
                }
            }
        }
    }
}

} // verus!

//! What the rewriting makes of one import statement, wherever it stands in
//! a text.

use vstd::prelude::*;
use crate::rules::{Rule, apply_rule, rewrite_at, rewritten, shape_ident};
use crate::scan::{
    lemma_copy, lemma_line_start_behind, lemma_qualified_import_chars, lemma_rewrite_facts,
};
use crate::shape::{crate_root, import_shape, line_start_after, qualified_import, use_keyword};
use crate::split::{lemma_final_anchoring, lemma_respects_statement, lemma_split, opens_statement};
use crate::stable::{
    import_rule, lemma_replacement_inert, lemma_replacement_settled, lemma_shape_chars,
    lemma_shape_prefix,
};
use crate::text::{
    lemma_ident_run_is, lemma_space_run_bounds, lemma_space_run_is, lemma_space_run_skip,
    space_run_end,
};

verus! {

/// `stmt` is one import statement of the given shape, from the keyword to
/// the semicolon.
pub open spec fn is_import_statement(stmt: Seq<char>, qualified: bool) -> bool {
    import_shape(stmt, qualified) matches Some(m) && m.end == stmt.len()
}

/// The identifier that the import statement names.
pub open spec fn statement_ident(stmt: Seq<char>, qualified: bool) -> Seq<char> {
    shape_ident(stmt, import_shape(stmt, qualified).unwrap())
}

/// The four passes over a text that stands behind a position that is not
/// anchored.
pub open spec fn rewritten_behind(s: Seq<char>, names: Set<Seq<char>>) -> Seq<char> {
    let a = apply_rule(Rule::InnerAllow, s, false, names);
    let b = apply_rule(Rule::InnerCfgAttr, a, false, names);
    let c = apply_rule(Rule::BareImport, b, false, names);
    apply_rule(Rule::CrateImport, c, false, names)
}

/// A text has at most one of the two shapes.
proof fn lemma_shapes_exclusive(x: Seq<char>)
    ensures
        !(import_shape(x, false) is Some && import_shape(x, true) is Some),
{
    if import_shape(x, false) is Some && import_shape(x, true) is Some {
        let m = import_shape(x, false).unwrap();
        let g = m.ident_from;
        lemma_shape_chars(x, false);
        lemma_space_run_bounds(x, m.ident_to);
        assert forall|i: int| 0 <= i < 7 implies x[g + i] == #[trigger] crate_root()[i] by {
            assert(x.skip(g).subrange(0, 7)[i] == x[g + i]);
        }
        if m.ident_to > g + 5 {
            assert(x[g + 5] == crate_root()[5]);
        } else {
            assert(x[m.ident_to] == crate_root()[m.ident_to - g]);
        }
        assert(false);
    }
}

/// No rule rewrites at a position inside an import statement behind its
/// head.
proof fn lemma_inside_statement(
    rule: Rule,
    x: Seq<char>,
    qualified: bool,
    line_start: bool,
    names: Set<Seq<char>>,
    j: int,
)
    requires
        import_shape(x, qualified) is Some,
        0 < j < import_shape(x, qualified).unwrap().end,
    ensures
        rewrite_at(rule, x.skip(j), line_start_after(line_start, x, j), names) is None,
{
    let m = import_shape(x, qualified).unwrap();
    let y = x.skip(j);
    let st = line_start_after(line_start, x, j);
    lemma_shape_chars(x, qualified);
    if rewrite_at(rule, y, st, names) is Some {
        lemma_rewrite_facts(rule, y, st, names);
        assert(y[0] == x[j]);
        assert(rule == Rule::BareImport || rule == Rule::CrateImport);
        if m.ident_from < j < m.ident_to {
            lemma_line_start_behind(line_start, x, j);
        }
        assert(j == m.ident_from);
        assert(!qualified);
        let inner_qualified = rule == Rule::CrateImport;
        let inner = import_shape(y, inner_qualified).unwrap();
        lemma_shape_chars(y, inner_qualified);
        assert(y.subrange(0, 3)[1] == y[1] && y.subrange(0, 3)[2] == y[2]);
        assert(y[1] == x[j + 1] && y[2] == x[j + 2] && y[3] == x[j + 3]);
        lemma_space_run_bounds(y, 3);
        lemma_space_run_skip(x, j, 3);
        lemma_ident_run_is(x, j, j + 3);
        let g = space_run_end(y, 3);
        assert(y[g] == x[j + g]);
        if inner_qualified {
            assert(y.skip(g).subrange(0, 7)[0] == y[g]);
        }
        assert(false);
    }
}

/// A pass copies an import statement as it stands, and goes on behind it,
/// unless the statement is of the rule's own shape, stands at an anchored
/// position and names one of `names`.
pub proof fn lemma_statement_copied(
    rule: Rule,
    stmt: Seq<char>,
    post: Seq<char>,
    qualified: bool,
    line_start: bool,
    names: Set<Seq<char>>,
)
    requires
        is_import_statement(stmt, qualified),
        rule == import_rule(qualified) ==> !(line_start && names.contains(
            statement_ident(stmt, qualified),
        )),
    ensures
        apply_rule(rule, stmt + post, line_start, names) == stmt + apply_rule(
            rule,
            post,
            false,
            names,
        ),
{
    let x = stmt + post;
    let n = stmt.len() as int;
    assert(x.take(n) =~= stmt);
    assert(stmt.take(n) =~= stmt);
    lemma_shape_prefix(stmt, x, qualified);
    lemma_shape_chars(x, qualified);
    assert forall|j: int| 0 <= j < n implies rewrite_at(
        rule,
        #[trigger] x.skip(j),
        line_start_after(line_start, x, j),
        names,
    ) is None by {
        if j == 0 {
            assert(x.skip(0) =~= x);
            assert(line_start_after(line_start, x, 0) == line_start);
            if rewrite_at(rule, x, line_start, names) is Some {
                lemma_rewrite_facts(rule, x, line_start, names);
                assert(x.subrange(0, 3)[0] == x[0]);
                lemma_shapes_exclusive(x);
                assert(false);
            }
        } else {
            lemma_inside_statement(rule, x, qualified, line_start, names, j);
        }
    }
    lemma_copy(rule, x, line_start, names, n);
    lemma_line_start_behind(line_start, x, n);
    assert(x.skip(n) =~= post);
}

/// A pass of the statement's own rule puts the qualified import in the
/// place of an import statement that stands at an anchored position and
/// names one of `names`, and goes on behind it.
proof fn lemma_statement_qualified(
    stmt: Seq<char>,
    post: Seq<char>,
    qualified: bool,
    names: Set<Seq<char>>,
)
    requires
        is_import_statement(stmt, qualified),
        names.contains(statement_ident(stmt, qualified)),
    ensures
        apply_rule(import_rule(qualified), stmt + post, true, names) == qualified_import(
            statement_ident(stmt, qualified),
        ) + apply_rule(import_rule(qualified), post, false, names),
        rewrite_at(import_rule(qualified), stmt + post, true, names) is Some,
        rewrite_at(import_rule(qualified), stmt + post, true, names).unwrap().replacement
            == qualified_import(statement_ident(stmt, qualified)),
{
    let x = stmt + post;
    let n = stmt.len() as int;
    assert(x.take(n) =~= stmt);
    assert(stmt.take(n) =~= stmt);
    lemma_shape_prefix(stmt, x, qualified);
    assert(x.skip(n) =~= post);
}

/// A qualified import is copied by every pass, whatever follows it.
proof fn lemma_qualified_import_copied(
    rule: Rule,
    stmt: Seq<char>,
    tail: Seq<char>,
    post: Seq<char>,
    qualified: bool,
    line_start: bool,
    names: Set<Seq<char>>,
)
    requires
        is_import_statement(stmt, qualified),
        names.contains(statement_ident(stmt, qualified)),
    ensures
        apply_rule(
            rule,
            qualified_import(statement_ident(stmt, qualified)) + post,
            line_start,
            names,
        ) == qualified_import(statement_ident(stmt, qualified)) + apply_rule(
            rule,
            post,
            false,
            names,
        ),
{
    let own = import_rule(qualified);
    let rep = qualified_import(statement_ident(stmt, qualified));
    let x = rep + post;
    let k = rep.len() as int;
    lemma_statement_qualified(stmt, tail, qualified, names);
    assert forall|j: int| 0 <= j < k implies rewrite_at(
        rule,
        #[trigger] x.skip(j),
        line_start_after(line_start, x, j),
        names,
    ) is None by {
        lemma_replacement_anywhere(own, rule, stmt + tail, names, post, line_start, j);
    }
    lemma_copy(rule, x, line_start, names, k);
    lemma_replacement_anywhere(own, rule, stmt + tail, names, post, line_start, 0);
    assert(x.skip(k) =~= post);
}

/// No rule rewrites inside a replacement, whatever the anchoring before
/// it.
proof fn lemma_replacement_anywhere(
    by: Rule,
    rule: Rule,
    s: Seq<char>,
    names: Set<Seq<char>>,
    tail: Seq<char>,
    line_start: bool,
    j: int,
)
    requires
        rewrite_at(by, s, true, names) is Some,
        0 <= j < rewrite_at(by, s, true, names).unwrap().replacement.len(),
    ensures
        rewrite_at(
            rule,
            (rewrite_at(by, s, true, names).unwrap().replacement + tail).skip(j),
            line_start_after(
                line_start,
                rewrite_at(by, s, true, names).unwrap().replacement + tail,
                j,
            ),
            names,
        ) is None,
        !line_start_after(
            line_start,
            rewrite_at(by, s, true, names).unwrap().replacement + tail,
            rewrite_at(by, s, true, names).unwrap().replacement.len() as int,
        ),
{
    let rep = rewrite_at(by, s, true, names).unwrap().replacement;
    let x = rep + tail;
    lemma_replacement_settled(by, rule, s, true, names, tail, j);
    if !line_start {
        let y = x.skip(j);
        let st = line_start_after(false, x, j);
        lemma_replacement_inert(by, s, true, names);
        assert(x[rep.len() - 1] == rep.last());
        lemma_line_start_behind(false, x, rep.len() as int);
        if rewrite_at(rule, y, st, names) is Some {
            lemma_anchoring_grows(x, j);
            assert(rewrite_at(rule, y, line_start_after(true, x, j), names) is Some);
        }
    }
}

/// A position that is anchored behind a start that is not anchored is
/// anchored behind an anchored start too.
proof fn lemma_anchoring_grows(x: Seq<char>, j: int)
    requires
        0 <= j <= x.len(),
    ensures
        line_start_after(false, x, j) ==> line_start_after(true, x, j),
    decreases j,
{
    if j > 0 {
        lemma_anchoring_grows(x, j - 1);
    }
}

/// An import statement opens as one, whatever follows it.
proof fn lemma_statement_opens(stmt: Seq<char>, post: Seq<char>, qualified: bool)
    requires
        is_import_statement(stmt, qualified),
    ensures
        opens_statement(stmt + post),
{
    let x = stmt + post;
    let n = stmt.len() as int;
    assert(x.take(n) =~= stmt);
    assert(stmt.take(n) =~= stmt);
    lemma_shape_prefix(stmt, x, qualified);
    lemma_shape_chars(x, qualified);
    let g = space_run_end(x, 3);
    if qualified {
        assert(x.skip(g).subrange(0, 7)[0] == x[g]);
    }
}

/// A qualified import opens as an import statement does, whatever follows
/// it.
proof fn lemma_qualified_import_opens(ident: Seq<char>, post: Seq<char>)
    ensures
        opens_statement(qualified_import(ident) + post),
{
    let rep = qualified_import(ident);
    let x = rep + post;
    lemma_qualified_import_chars(ident);
    assert forall|j: int| 0 <= j < 19 implies x[j] == #[trigger] rep[j] by {}
    assert(x.subrange(0, 3) =~= use_keyword());
    lemma_space_run_is(x, 3, 4);
}

/// One pass over a text with a statement in its middle, where the pass is
/// known on the statement and what follows it.
proof fn lemma_pass_around(
    rule: Rule,
    pre: Seq<char>,
    mid_in: Seq<char>,
    mid_out: Seq<char>,
    post: Seq<char>,
    names: Set<Seq<char>>,
)
    requires
        opens_statement(mid_in + post),
        apply_rule(
            rule,
            mid_in + post,
            line_start_after(true, pre, pre.len() as int),
            names,
        ) == mid_out + apply_rule(rule, post, false, names),
    ensures
        apply_rule(rule, pre + (mid_in + post), true, names) == apply_rule(rule, pre, true, names)
            + (mid_out + apply_rule(rule, post, false, names)),
        line_start_after(
            true,
            apply_rule(rule, pre, true, names),
            apply_rule(rule, pre, true, names).len() as int,
        ) == line_start_after(true, pre, pre.len() as int),
{
    lemma_respects_statement(rule, pre, mid_in + post, true, names);
    lemma_split(rule, pre, mid_in + post, true, names);
    lemma_final_anchoring(rule, pre, true, names);
}

/// One pass that copies the statement in the middle of a text.
proof fn lemma_pass_copies(
    rule: Rule,
    pre: Seq<char>,
    stmt: Seq<char>,
    post: Seq<char>,
    qualified: bool,
    names: Set<Seq<char>>,
)
    requires
        is_import_statement(stmt, qualified),
        rule == import_rule(qualified) ==> !names.contains(statement_ident(stmt, qualified)),
    ensures
        apply_rule(rule, pre + (stmt + post), true, names) == apply_rule(rule, pre, true, names)
            + (stmt + apply_rule(rule, post, false, names)),
        line_start_after(
            true,
            apply_rule(rule, pre, true, names),
            apply_rule(rule, pre, true, names).len() as int,
        ) == line_start_after(true, pre, pre.len() as int),
{
    let st = line_start_after(true, pre, pre.len() as int);
    lemma_statement_opens(stmt, post, qualified);
    lemma_statement_copied(rule, stmt, post, qualified, st, names);
    lemma_pass_around(rule, pre, stmt, stmt, post, names);
}

/// Rewriting is isolated: an import statement that names none of `names`
/// stands in the rewritten text as it stood, between what the rewriting
/// makes of the text before it and of the text behind it.
pub proof fn lemma_foreign_statement_kept(
    pre: Seq<char>,
    stmt: Seq<char>,
    post: Seq<char>,
    qualified: bool,
    names: Set<Seq<char>>,
)
    requires
        is_import_statement(stmt, qualified),
        !names.contains(statement_ident(stmt, qualified)),
    ensures
        rewritten(pre + stmt + post, names) == rewritten(pre, names) + stmt + rewritten_behind(
            post,
            names,
        ),
{
    let pre1 = apply_rule(Rule::InnerAllow, pre, true, names);
    let pre2 = apply_rule(Rule::InnerCfgAttr, pre1, true, names);
    let pre3 = apply_rule(Rule::BareImport, pre2, true, names);
    let post1 = apply_rule(Rule::InnerAllow, post, false, names);
    let post2 = apply_rule(Rule::InnerCfgAttr, post1, false, names);
    let post3 = apply_rule(Rule::BareImport, post2, false, names);
    assert(pre + stmt + post =~= pre + (stmt + post));
    lemma_pass_copies(Rule::InnerAllow, pre, stmt, post, qualified, names);
    lemma_pass_copies(Rule::InnerCfgAttr, pre1, stmt, post1, qualified, names);
    lemma_pass_copies(Rule::BareImport, pre2, stmt, post2, qualified, names);
    lemma_pass_copies(Rule::CrateImport, pre3, stmt, post3, qualified, names);
    assert(rewritten(pre, names) + (stmt + rewritten_behind(post, names)) =~= rewritten(
        pre,
        names,
    ) + stmt + rewritten_behind(post, names));
}

/// One pass that copies the qualified import in the middle of a text.
proof fn lemma_pass_copies_qualified(
    rule: Rule,
    pre: Seq<char>,
    stmt: Seq<char>,
    post: Seq<char>,
    qualified: bool,
    names: Set<Seq<char>>,
)
    requires
        is_import_statement(stmt, qualified),
        names.contains(statement_ident(stmt, qualified)),
    ensures
        apply_rule(
            rule,
            pre + (qualified_import(statement_ident(stmt, qualified)) + post),
            true,
            names,
        ) == apply_rule(rule, pre, true, names) + (qualified_import(
            statement_ident(stmt, qualified),
        ) + apply_rule(rule, post, false, names)),
{
    let st = line_start_after(true, pre, pre.len() as int);
    let rep = qualified_import(statement_ident(stmt, qualified));
    lemma_qualified_import_opens(statement_ident(stmt, qualified), post);
    lemma_qualified_import_copied(rule, stmt, post, post, qualified, st, names);
    lemma_pass_around(rule, pre, rep, rep, post, names);
}

/// One pass of the statement's own rule over a text with the statement in
/// its middle, at an anchored position.
proof fn lemma_pass_qualifies(
    pre: Seq<char>,
    stmt: Seq<char>,
    post: Seq<char>,
    qualified: bool,
    names: Set<Seq<char>>,
)
    requires
        is_import_statement(stmt, qualified),
        names.contains(statement_ident(stmt, qualified)),
        line_start_after(true, pre, pre.len() as int),
    ensures
        apply_rule(import_rule(qualified), pre + (stmt + post), true, names) == apply_rule(
            import_rule(qualified),
            pre,
            true,
            names,
        ) + (qualified_import(statement_ident(stmt, qualified)) + apply_rule(
            import_rule(qualified),
            post,
            false,
            names,
        )),
{
    let rep = qualified_import(statement_ident(stmt, qualified));
    lemma_statement_opens(stmt, post, qualified);
    lemma_statement_qualified(stmt, post, qualified, names);
    lemma_pass_around(import_rule(qualified), pre, stmt, rep, post, names);
}

/// Rewriting qualifies: in the place of an import statement that stands at
/// an anchored position and names one of `names`, the rewritten text has the
/// qualified import of that name, between what the rewriting makes of the
/// text before it and of the text behind it.
pub proof fn lemma_module_statement_qualified(
    pre: Seq<char>,
    stmt: Seq<char>,
    post: Seq<char>,
    qualified: bool,
    names: Set<Seq<char>>,
)
    requires
        is_import_statement(stmt, qualified),
        names.contains(statement_ident(stmt, qualified)),
        line_start_after(true, pre, pre.len() as int),
    ensures
        rewritten(pre + stmt + post, names) == rewritten(pre, names) + qualified_import(
            statement_ident(stmt, qualified),
        ) + rewritten_behind(post, names),
{
    let rep = qualified_import(statement_ident(stmt, qualified));
    let pre1 = apply_rule(Rule::InnerAllow, pre, true, names);
    let pre2 = apply_rule(Rule::InnerCfgAttr, pre1, true, names);
    let pre3 = apply_rule(Rule::BareImport, pre2, true, names);
    let post1 = apply_rule(Rule::InnerAllow, post, false, names);
    let post2 = apply_rule(Rule::InnerCfgAttr, post1, false, names);
    let post3 = apply_rule(Rule::BareImport, post2, false, names);
    assert(pre + stmt + post =~= pre + (stmt + post));
    lemma_pass_copies(Rule::InnerAllow, pre, stmt, post, qualified, names);
    lemma_pass_copies(Rule::InnerCfgAttr, pre1, stmt, post1, qualified, names);
    if qualified {
        lemma_pass_copies(Rule::BareImport, pre2, stmt, post2, qualified, names);
        lemma_pass_qualifies(pre3, stmt, post3, qualified, names);
    } else {
        lemma_pass_qualifies(pre2, stmt, post2, qualified, names);
        lemma_pass_copies_qualified(Rule::CrateImport, pre3, stmt, post3, qualified, names);
    }
    assert(rewritten(pre, names) + (rep + rewritten_behind(post, names)) =~= rewritten(
        pre,
        names,
    ) + rep + rewritten_behind(post, names));
}

} // verus!

//! What holds of the rewriting of one text, whatever the text and the names.

use vstd::prelude::*;
use crate::rules::{Rule, apply_rule, rewrite_at, rewritten, shape_ident};
use crate::scan::{lemma_settled_unchanged, settled};
use crate::shape::{at_line_start, import_shape, line_start_after};
use crate::stable::{import_rule, lemma_pass_settles};

verus! {

/// No rule rewrites anywhere in `s`.
pub open spec fn fully_settled(s: Seq<char>, names: Set<Seq<char>>) -> bool {
    &&& settled(Rule::InnerAllow, s, true, names)
    &&& settled(Rule::InnerCfgAttr, s, true, names)
    &&& settled(Rule::BareImport, s, true, names)
    &&& settled(Rule::CrateImport, s, true, names)
}

/// A pass of one rule leaves settled what was settled for another.
proof fn lemma_stays_settled(rule: Rule, by: Rule, s: Seq<char>, names: Set<Seq<char>>)
    requires
        settled(rule, s, true, names),
    ensures
        settled(rule, apply_rule(by, s, true, names), true, names),
{
    lemma_pass_settles(rule, by, s, true, names);
}

/// After its own pass a rule rewrites nowhere.
proof fn lemma_own_pass_settles(rule: Rule, s: Seq<char>, names: Set<Seq<char>>)
    ensures
        settled(rule, apply_rule(rule, s, true, names), true, names),
{
    lemma_pass_settles(rule, rule, s, true, names);
}

/// In a rewritten text no rule finds anything to rewrite.
pub proof fn lemma_rewritten_is_settled(s: Seq<char>, names: Set<Seq<char>>)
    ensures
        fully_settled(rewritten(s, names), names),
{
    let a = apply_rule(Rule::InnerAllow, s, true, names);
    let b = apply_rule(Rule::InnerCfgAttr, a, true, names);
    let c = apply_rule(Rule::BareImport, b, true, names);
    lemma_own_pass_settles(Rule::InnerAllow, s, names);
    lemma_stays_settled(Rule::InnerAllow, Rule::InnerCfgAttr, a, names);
    lemma_stays_settled(Rule::InnerAllow, Rule::BareImport, b, names);
    lemma_stays_settled(Rule::InnerAllow, Rule::CrateImport, c, names);
    lemma_own_pass_settles(Rule::InnerCfgAttr, a, names);
    lemma_stays_settled(Rule::InnerCfgAttr, Rule::BareImport, b, names);
    lemma_stays_settled(Rule::InnerCfgAttr, Rule::CrateImport, c, names);
    lemma_own_pass_settles(Rule::BareImport, b, names);
    lemma_stays_settled(Rule::BareImport, Rule::CrateImport, c, names);
    lemma_own_pass_settles(Rule::CrateImport, c, names);
}

/// A text in which no rule finds anything to rewrite is left as it is.
pub proof fn lemma_settled_is_fixed(s: Seq<char>, names: Set<Seq<char>>)
    requires
        fully_settled(s, names),
    ensures
        rewritten(s, names) == s,
{
    lemma_settled_unchanged(Rule::InnerAllow, s, true, names);
    lemma_settled_unchanged(Rule::InnerCfgAttr, s, true, names);
    lemma_settled_unchanged(Rule::BareImport, s, true, names);
    lemma_settled_unchanged(Rule::CrateImport, s, true, names);
}

/// Rewriting is idempotent: a second rewriting with the same names changes
/// nothing.
pub proof fn lemma_rewrite_idempotent(s: Seq<char>, names: Set<Seq<char>>)
    ensures
        rewritten(rewritten(s, names), names) == rewritten(s, names),
{
    lemma_rewritten_is_settled(s, names);
    lemma_settled_is_fixed(rewritten(s, names), names);
}

/// Rewriting is complete: in a rewritten text no import statement of either
/// shape that stands at an anchored position names one of `names`, and
/// neither inner attribute marker occurs.
pub proof fn lemma_rewrite_complete(s: Seq<char>, names: Set<Seq<char>>, at: int, qualified: bool)
    requires
        0 <= at < rewritten(s, names).len(),
    ensures
        at_line_start(rewritten(s, names), at) ==> match import_shape(
            rewritten(s, names).skip(at),
            qualified,
        ) {
            Some(m) => !names.contains(shape_ident(rewritten(s, names).skip(at), m)),
            None => true,
        },
        rewrite_at(Rule::InnerAllow, rewritten(s, names).skip(at), true, names) is None,
        rewrite_at(Rule::InnerCfgAttr, rewritten(s, names).skip(at), true, names) is None,
{
    let out = rewritten(s, names);
    lemma_rewritten_is_settled(s, names);
    let st = line_start_after(true, out, at);
    assert(rewrite_at(import_rule(qualified), out.skip(at), st, names) is None);
    assert(rewrite_at(Rule::InnerAllow, out.skip(at), st, names) is None);
    assert(rewrite_at(Rule::InnerCfgAttr, out.skip(at), st, names) is None);
}

} // verus!

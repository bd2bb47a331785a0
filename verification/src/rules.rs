//! The four rewriting rules and what one pass of a rule makes of a text.

use vstd::prelude::*;
use crate::shape::{ImportShape, import_shape, next_line_start, qualified_import};
use crate::text::has_prefix;

verus! {

/// One textual rule of the rewriter. The passes run in the order of the
/// variants.
#[derive(Clone, Copy, PartialEq, Eq, Debug)]
pub enum Rule {
    /// `#![allow(` becomes `#[allow(`.
    InnerAllow,
    /// `#![cfg_attr(` becomes `#[cfg_attr(`.
    InnerCfgAttr,
    /// `use name;` becomes the qualified import, where `name` is an emitted module.
    BareImport,
    /// `use crate::name;` becomes the qualified import, where `name` is an emitted module.
    CrateImport,
}

/// The inner form of the `allow` attribute marker.
pub open spec fn inner_allow() -> Seq<char> {
    seq!['#', '!', '[', 'a', 'l', 'l', 'o', 'w', '(']
}

/// The outer form of the `allow` attribute marker.
pub open spec fn outer_allow() -> Seq<char> {
    seq!['#', '[', 'a', 'l', 'l', 'o', 'w', '(']
}

/// The inner form of the `cfg_attr` attribute marker.
pub open spec fn inner_cfg_attr() -> Seq<char> {
    seq!['#', '!', '[', 'c', 'f', 'g', '_', 'a', 't', 't', 'r', '(']
}

/// The outer form of the `cfg_attr` attribute marker.
pub open spec fn outer_cfg_attr() -> Seq<char> {
    seq!['#', '[', 'c', 'f', 'g', '_', 'a', 't', 't', 'r', '(']
}

/// What a rule does at the head of a text: it takes `consumed` characters
/// away and puts `replacement` in their place.
pub struct Rewrite {
    pub consumed: int,
    pub replacement: Seq<char>,
}

/// The identifier that an import statement of the given shape names.
pub open spec fn shape_ident(s: Seq<char>, m: ImportShape) -> Seq<char> {
    s.subrange(m.ident_from, m.ident_to)
}

/// The rewrite of an import statement at the head of `s`: it needs an
/// anchored position, the shape, and an identifier among `names`.
pub open spec fn import_rewrite(
    s: Seq<char>,
    line_start: bool,
    qualified: bool,
    names: Set<Seq<char>>,
) -> Option<Rewrite> {
    match import_shape(s, qualified) {
        Some(m) => if line_start && names.contains(shape_ident(s, m)) {
            Some(Rewrite { consumed: m.end, replacement: qualified_import(shape_ident(s, m)) })
        } else {
            None
        },
        None => None,
    }
}

/// The rewrite of an inner attribute marker at the head of `s`.
pub open spec fn marker_rewrite(s: Seq<char>, inner: Seq<char>, outer: Seq<char>) -> Option<
    Rewrite,
> {
    if has_prefix(s, inner) {
        Some(Rewrite { consumed: inner.len() as int, replacement: outer })
    } else {
        None
    }
}

/// What `rule` rewrites at the head of `s`, if anything.
pub open spec fn rewrite_at(rule: Rule, s: Seq<char>, line_start: bool, names: Set<Seq<char>>)
    -> Option<Rewrite> {
    match rule {
        Rule::InnerAllow => marker_rewrite(s, inner_allow(), outer_allow()),
        Rule::InnerCfgAttr => marker_rewrite(s, inner_cfg_attr(), outer_cfg_attr()),
        Rule::BareImport => import_rewrite(s, line_start, false, names),
        Rule::CrateImport => import_rewrite(s, line_start, true, names),
    }
}

/// One pass of `rule` over `s`, from left to right: where the rule rewrites,
/// the replacement is emitted and the pass goes on behind what was consumed;
/// elsewhere one character is copied. `line_start` says whether the head of
/// `s` is an anchored position.
pub open spec fn apply_rule(rule: Rule, s: Seq<char>, line_start: bool, names: Set<Seq<char>>)
    -> Seq<char>
    decreases s.len(),
{
    if s.len() == 0 {
        s
    } else {
        match rewrite_at(rule, s, line_start, names) {
            Some(r) => r.replacement + apply_rule(rule, s.skip(r.consumed), false, names),
            None => seq![s[0]] + apply_rule(
                rule,
                s.skip(1),
                next_line_start(line_start, s[0]),
                names,
            ),
        }
    }
}

/// The text after all four passes.
pub open spec fn rewritten(s: Seq<char>, names: Set<Seq<char>>) -> Seq<char> {
    let a = apply_rule(Rule::InnerAllow, s, true, names);
    let b = apply_rule(Rule::InnerCfgAttr, a, true, names);
    let c = apply_rule(Rule::BareImport, b, true, names);
    apply_rule(Rule::CrateImport, c, true, names)
}

} // verus!

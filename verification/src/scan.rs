//! How a pass moves through a text: what it copies, and where it can rewrite.

use vstd::prelude::*;
use crate::rules::{Rule, apply_rule, rewrite_at};
use crate::shape::{import_shape, line_start_after, next_line_start, qualified_import};
use crate::text::is_space;

verus! {

/// Whether a rewrite by `rule` can begin with the character `c`.
pub open spec fn may_start(rule: Rule, line_start: bool, c: char) -> bool {
    match rule {
        Rule::InnerAllow => c == '#',
        Rule::InnerCfgAttr => c == '#',
        Rule::BareImport => line_start && c == 'u',
        Rule::CrateImport => line_start && c == 'u',
    }
}

/// `rule` rewrites nowhere in `s`.
pub open spec fn settled(rule: Rule, s: Seq<char>, line_start: bool, names: Set<Seq<char>>)
    -> bool {
    forall|j: int|
        0 <= j < s.len() ==> rewrite_at(
            rule,
            #[trigger] s.skip(j),
            line_start_after(line_start, s, j),
            names,
        ) is None
}

/// The qualified import spelled out.
pub proof fn lemma_qualified_import_chars(ident: Seq<char>)
    ensures
        qualified_import(ident).len() == 20 + ident.len(),
        qualified_import(ident) =~= seq![
            'u', 's', 'e', ' ', 'c', 'r', 'a', 't', 'e', ':', ':', 't', 'h', 'r', 'i', 'f', 't', ':', ':',
        ] + ident + seq![';'],
{
}

/// A rewrite consumes at least one character, ends on a character that is
/// no blank, and its replacement begins as the consumed text does.
pub proof fn lemma_rewrite_facts(rule: Rule, s: Seq<char>, line_start: bool, names: Set<Seq<char>>)
    requires
        rewrite_at(rule, s, line_start, names) is Some,
    ensures
        ({
            let r = rewrite_at(rule, s, line_start, names).unwrap();
            &&& 1 <= r.consumed <= s.len()
            &&& r.replacement.len() >= 1
            &&& r.replacement[0] == s[0]
            &&& may_start(rule, line_start, s[0])
            &&& !is_space(s[0])
            &&& !is_space(s[r.consumed - 1])
        }),
{
    let r = rewrite_at(rule, s, line_start, names).unwrap();
    match rule {
        Rule::InnerAllow => {
            assert(s.subrange(0, 9)[0] == s[0]);
            assert(s.subrange(0, 9)[8] == s[8]);
        },
        Rule::InnerCfgAttr => {
            assert(s.subrange(0, 12)[0] == s[0]);
            assert(s.subrange(0, 12)[11] == s[11]);
        },
        Rule::BareImport => {
            assert(s.subrange(0, 3)[0] == s[0]);
            let m = import_shape(s, false).unwrap();
            lemma_qualified_import_chars(s.subrange(m.ident_from, m.ident_to));
        },
        Rule::CrateImport => {
            assert(s.subrange(0, 3)[0] == s[0]);
            let m = import_shape(s, true).unwrap();
            lemma_qualified_import_chars(s.subrange(m.ident_from, m.ident_to));
        },
    }
}

/// A pass keeps the first character of a text.
pub proof fn lemma_apply_first(rule: Rule, s: Seq<char>, line_start: bool, names: Set<Seq<char>>)
    requires
        s.len() > 0,
    ensures
        apply_rule(rule, s, line_start, names).len() > 0,
        apply_rule(rule, s, line_start, names)[0] == s[0],
{
    if rewrite_at(rule, s, line_start, names) is Some {
        lemma_rewrite_facts(rule, s, line_start, names);
    }
}

/// The anchoring of a later position can be computed from an earlier one.
pub proof fn lemma_line_start_split(line_start: bool, s: Seq<char>, a: int, i: int)
    requires
        0 <= a,
        0 <= i,
        a + i <= s.len(),
    ensures
        line_start_after(line_start, s, a + i) == line_start_after(
            line_start_after(line_start, s, a),
            s.skip(a),
            i,
        ),
    decreases i,
{
    if i > 0 {
        lemma_line_start_split(line_start, s, a, i - 1);
        assert(s.skip(a)[i - 1] == s[a + i - 1]);
    }
}

/// The anchoring of a position depends on the text before it alone.
pub proof fn lemma_line_start_prefix(line_start: bool, s: Seq<char>, t: Seq<char>, k: int)
    requires
        0 <= k <= s.len(),
        k <= t.len(),
        s.take(k) == t.take(k),
    ensures
        line_start_after(line_start, s, k) == line_start_after(line_start, t, k),
    decreases k,
{
    if k > 0 {
        assert(s.take(k - 1) =~= s.take(k).take(k - 1));
        assert(t.take(k - 1) =~= t.take(k).take(k - 1));
        lemma_line_start_prefix(line_start, s, t, k - 1);
        assert(s[k - 1] == s.take(k)[k - 1]);
        assert(t[k - 1] == t.take(k)[k - 1]);
    }
}

/// A pass copies the first character of a text that the rule does
/// not rewrite at its head.
pub proof fn lemma_copy_one(rule: Rule, s: Seq<char>, line_start: bool, names: Set<Seq<char>>)
    requires
        s.len() > 0,
        rewrite_at(rule, s, line_start, names) is None,
    ensures
        apply_rule(rule, s, line_start, names) == seq![s[0]] + apply_rule(
            rule,
            s.skip(1),
            next_line_start(line_start, s[0]),
            names,
        ),
{
}

/// Behind a character that is no blank, no position is anchored.
pub proof fn lemma_line_start_behind(line_start: bool, s: Seq<char>, k: int)
    requires
        0 < k <= s.len(),
        !is_space(s[k - 1]),
    ensures
        !line_start_after(line_start, s, k),
{
}

/// Where a pass rewrites nothing in the first `k` characters, it copies them.
pub proof fn lemma_copy(rule: Rule, s: Seq<char>, line_start: bool, names: Set<Seq<char>>, k: int)
    requires
        0 <= k <= s.len(),
        forall|j: int|
            0 <= j < k ==> rewrite_at(
                rule,
                #[trigger] s.skip(j),
                line_start_after(line_start, s, j),
                names,
            ) is None,
    ensures
        apply_rule(rule, s, line_start, names) == s.take(k) + apply_rule(
            rule,
            s.skip(k),
            line_start_after(line_start, s, k),
            names,
        ),
    decreases k,
{
    if k == 0 {
        assert(s.skip(0) =~= s);
        assert(s.take(0) + apply_rule(rule, s, line_start, names) =~= apply_rule(
            rule,
            s,
            line_start,
            names,
        ));
    } else {
        lemma_copy(rule, s, line_start, names, k - 1);
        let t = s.skip(k - 1);
        let mid = line_start_after(line_start, s, k - 1);
        assert(rewrite_at(rule, t, mid, names) is None);
        assert(t.skip(1) =~= s.skip(k));
        assert(t[0] == s[k - 1]);
        let rest = apply_rule(rule, s.skip(k), line_start_after(line_start, s, k), names);
        assert(apply_rule(rule, t, mid, names) == seq![t[0]] + rest);
        assert(s.take(k - 1) + (seq![t[0]] + rest) =~= s.take(k) + rest);
    }
}

/// A pass leaves a text as it is where the rule rewrites nowhere in it.
pub proof fn lemma_settled_unchanged(
    rule: Rule,
    s: Seq<char>,
    line_start: bool,
    names: Set<Seq<char>>,
)
    requires
        settled(rule, s, line_start, names),
    ensures
        apply_rule(rule, s, line_start, names) == s,
{
    lemma_copy(rule, s, line_start, names, s.len() as int);
    assert(s.skip(s.len() as int).len() == 0);
    assert(s.take(s.len() as int) + s.skip(s.len() as int) =~= s);
}

} // verus!

//! The emitted modules as a whole: the discovery of their names and the
//! rewriting of every one of them with the complete set.

use vstd::prelude::*;
use crate::laws::{lemma_rewrite_complete, lemma_rewrite_idempotent};
use crate::names::ModuleNameSet;
use crate::rewrite::rewrite_source;
use crate::rules::{rewritten, shape_ident};
use crate::shape::{at_line_start, import_shape};

verus! {

/// One emitted module: the stem of its file, absent where it is not valid
/// Unicode, and its text.
#[derive(Debug, Clone)]
pub struct GeneratedModule {
    pub stem: Option<String>,
    pub content: String,
}

/// An emitted module as plain text.
pub struct ModuleText {
    pub stem: Option<Seq<char>>,
    pub content: Seq<char>,
}

impl View for GeneratedModule {
    type V = ModuleText;

    open spec fn view(&self) -> ModuleText {
        ModuleText {
            stem: match self.stem {
                Some(s) => Some(s@),
                None => None,
            },
            content: self.content@,
        }
    }
}

/// The modules of a tree as plain text.
pub open spec fn tree_text(modules: Seq<GeneratedModule>) -> Seq<ModuleText> {
    modules.map_values(|m: GeneratedModule| m@)
}

/// The names of the modules of a tree: every stem that some module has.
pub open spec fn module_names(tree: Seq<ModuleText>) -> Set<Seq<char>> {
    Set::new(|n: Seq<char>| exists|i: int| 0 <= i < tree.len() && tree[i].stem == Some(n))
}

/// The tree after the rewriting: every module keeps its stem, and its text is
/// rewritten with the names of the whole tree.
pub open spec fn fixed_tree(tree: Seq<ModuleText>) -> Seq<ModuleText> {
    Seq::new(
        tree.len(),
        |i: int|
            ModuleText {
                stem: tree[i].stem,
                content: rewritten(tree[i].content, module_names(tree)),
            },
    )
}

/// The discovery pass: the names of all modules of the tree.
pub fn discover_module_names(modules: &Vec<GeneratedModule>) -> (names: ModuleNameSet)
    ensures
        names.wf(),
        names@ == module_names(tree_text(modules@)),
{
    let mut names = ModuleNameSet::new();
    let mut k: usize = 0;
    let ghost tree = tree_text(modules@);
    assert(names@ =~= module_names(tree.take(0)));
    while k < modules.len()
        invariant
            k <= modules.len(),
            names.wf(),
            tree == tree_text(modules@),
            names@ == module_names(tree.take(k as int)),
        decreases modules.len() - k,
    {
        let ghost before = names@;
        match &modules[k].stem {
            Some(stem) => {
                names.insert(stem.as_str());
            },
            None => {},
        }
        proof {
            let shorter = tree.take(k as int);
            let longer = tree.take(k + 1);
            assert(longer[k as int] == modules@[k as int]@);
            assert forall|n: Seq<char>| names@.contains(n) == module_names(longer).contains(
                n,
            ) by {
                if module_names(longer).contains(n) {
                    let i = choose|i: int| 0 <= i < longer.len() && longer[i].stem == Some(n);
                    if i < k {
                        assert(shorter[i].stem == Some(n));
                    }
                }
                if before.contains(n) {
                    let i = choose|i: int| 0 <= i < shorter.len() && shorter[i].stem == Some(n);
                    assert(longer[i].stem == Some(n));
                }
                if modules@[k as int]@.stem == Some(n) {
                    assert(longer[k as int].stem == Some(n));
                }
            }
            assert(names@ =~= module_names(longer));
        }
        k += 1;
    }
    assert(tree.take(k as int) =~= tree);
    names
}

/// Both passes over a tree of emitted modules: the names of all modules are
/// collected first, then the text of every module is rewritten with them.
pub fn fix_generated_imports(modules: &Vec<GeneratedModule>) -> (fixed: Vec<GeneratedModule>)
    ensures
        tree_text(fixed@) == fixed_tree(tree_text(modules@)),
{
    let names = discover_module_names(modules);
    let mut fixed: Vec<GeneratedModule> = Vec::new();
    let mut k: usize = 0;
    let ghost tree = tree_text(modules@);
    while k < modules.len()
        invariant
            k <= modules.len(),
            tree == tree_text(modules@),
            names@ == module_names(tree),
            fixed.len() == k,
            forall|i: int| 0 <= i < k ==> (#[trigger] fixed@[i])@ == fixed_tree(tree)[i],
        decreases modules.len() - k,
    {
        let content = rewrite_source(modules[k].content.as_str(), &names);
        let stem = match &modules[k].stem {
            Some(s) => Some(s.clone()),
            None => None,
        };
        assert(tree[k as int] == modules@[k as int]@);
        fixed.push(GeneratedModule { stem, content });
        k += 1;
    }
    assert(tree_text(fixed@) =~= fixed_tree(tree));
    fixed
}

/// The rewriting keeps the names of a tree.
pub proof fn lemma_names_kept(tree: Seq<ModuleText>)
    ensures
        module_names(fixed_tree(tree)) == module_names(tree),
{
    let after = fixed_tree(tree);
    assert forall|n: Seq<char>| module_names(after).contains(n) == module_names(tree).contains(
        n,
    ) by {
        if module_names(after).contains(n) {
            let i = choose|i: int| 0 <= i < after.len() && after[i].stem == Some(n);
            assert(tree[i].stem == Some(n));
        }
        if module_names(tree).contains(n) {
            let i = choose|i: int| 0 <= i < tree.len() && tree[i].stem == Some(n);
            assert(after[i].stem == Some(n));
        }
    }
    assert(module_names(after) =~= module_names(tree));
}

/// Rewriting a tree twice gives what rewriting it once gives.
pub proof fn lemma_tree_idempotent(tree: Seq<ModuleText>)
    ensures
        fixed_tree(fixed_tree(tree)) == fixed_tree(tree),
{
    let once = fixed_tree(tree);
    let twice = fixed_tree(once);
    lemma_names_kept(tree);
    assert forall|i: int| 0 <= i < once.len() implies twice[i] == once[i] by {
        lemma_rewrite_idempotent(tree[i].content, module_names(tree));
    }
    assert(twice =~= once);
}

/// In a rewritten tree no import statement of either shape that stands at an
/// anchored position of any module names a module of the tree.
pub proof fn lemma_tree_complete(tree: Seq<ModuleText>, i: int, at: int, qualified: bool)
    requires
        0 <= i < tree.len(),
        0 <= at < fixed_tree(tree)[i].content.len(),
        at_line_start(fixed_tree(tree)[i].content, at),
    ensures
        match import_shape(fixed_tree(tree)[i].content.skip(at), qualified) {
            Some(m) => !module_names(fixed_tree(tree)).contains(
                shape_ident(fixed_tree(tree)[i].content.skip(at), m),
            ),
            None => true,
        },
{
    lemma_names_kept(tree);
    lemma_rewrite_complete(tree[i].content, module_names(tree), at, qualified);
}

/// The order in which a walk delivers the modules is of no account: two
/// trees with the same modules have the same names, and a module that both
/// hold is rewritten to the same text in both.
pub proof fn lemma_walk_order_irrelevant(
    first: Seq<ModuleText>,
    second: Seq<ModuleText>,
    i: int,
    j: int,
)
    requires
        first.to_multiset() == second.to_multiset(),
        0 <= i < first.len(),
        0 <= j < second.len(),
        first[i] == second[j],
    ensures
        module_names(first) == module_names(second),
        fixed_tree(first)[i] == fixed_tree(second)[j],
{
    first.to_multiset_ensures();
    second.to_multiset_ensures();
    assert forall|n: Seq<char>| module_names(first).contains(n) == module_names(second).contains(
        n,
    ) by {
        if module_names(first).contains(n) {
            let a = choose|a: int| 0 <= a < first.len() && first[a].stem == Some(n);
            assert(first.contains(first[a]));
            assert(first.to_multiset().count(first[a]) > 0);
            assert(second.to_multiset().count(first[a]) > 0);
            assert(second.contains(first[a]));
            let b = choose|b: int| 0 <= b < second.len() && second[b] == first[a];
            assert(second[b].stem == Some(n));
        }
        if module_names(second).contains(n) {
            let b = choose|b: int| 0 <= b < second.len() && second[b].stem == Some(n);
            assert(second.contains(second[b]));
            assert(second.to_multiset().count(second[b]) > 0);
            assert(first.to_multiset().count(second[b]) > 0);
            assert(first.contains(second[b]));
            let a = choose|a: int| 0 <= a < first.len() && first[a] == second[b];
            assert(first[a].stem == Some(n));
        }
    }
    assert(module_names(first) =~= module_names(second));
}

} // verus!

//! Finding the root of the enclosing workspace among the ancestors of a
//! directory.

use vstd::prelude::*;
use crate::text::{has_prefix, starts_with_at, to_chars};

verus! {

/// What probing a directory for its manifest found.
#[derive(Debug, Clone)]
pub enum Manifest {
    /// The directory holds no manifest.
    Absent,
    /// It holds one that could not be read.
    Unreadable,
    /// It holds one with this text.
    Text(String),
}

/// A directory on the way up, with what probing it found.
#[derive(Debug, Clone)]
pub struct Ancestor {
    pub dir: String,
    pub manifest: Manifest,
}

/// Why no workspace root was found.
#[derive(Debug, Clone, PartialEq, Eq)]
pub enum LocateError {
    /// The search reached the last ancestor without a match.
    NotFound,
    /// The manifest of `dir` exists and could not be read.
    Unreadable { dir: String },
}

/// The outcome of a search, as plain text.
pub enum Located {
    Root(Seq<char>),
    NotFound,
    Unreadable(Seq<char>),
}

/// The table header that marks a manifest as that of a workspace.
pub open spec fn workspace_marker() -> Seq<char> {
    seq!['[', 'w', 'o', 'r', 'k', 's', 'p', 'a', 'c', 'e', ']']
}

/// `needle` occurs somewhere in `text`.
pub open spec fn occurs_in(needle: Seq<char>, text: Seq<char>) -> bool {
    exists|i: int| 0 <= i <= text.len() && has_prefix(#[trigger] text.skip(i), needle)
}

/// Whether a manifest with this text declares a workspace.
pub open spec fn declares_workspace(text: Seq<char>) -> bool {
    occurs_in(workspace_marker(), text)
}

/// Whether the directory is a workspace root.
pub open spec fn is_root(ancestor: Ancestor) -> bool {
    ancestor.manifest matches Manifest::Text(t) && declares_workspace(t@)
}

/// The search from the first directory of `chain` upward: the first
/// directory whose manifest declares a workspace, unless an unreadable
/// manifest comes before it.
pub open spec fn search(chain: Seq<Ancestor>) -> Located
    decreases chain.len(),
{
    if chain.len() == 0 {
        Located::NotFound
    } else if is_root(chain[0]) {
        Located::Root(chain[0].dir@)
    } else if chain[0].manifest is Unreadable {
        Located::Unreadable(chain[0].dir@)
    } else {
        search(chain.skip(1))
    }
}

/// What a result says, as plain text.
pub open spec fn outcome(result: Result<String, LocateError>) -> Located {
    match result {
        Ok(dir) => Located::Root(dir@),
        Err(LocateError::NotFound) => Located::NotFound,
        Err(LocateError::Unreadable { dir }) => Located::Unreadable(dir@),
    }
}

/// The name of the manifest file that is looked for in each directory.
pub fn manifest_file_name() -> (name: String)
    ensures
        name@ == "Cargo.toml"@,
{
    String::from_str("Cargo.toml")
}

/// Whether a manifest with this text declares a workspace.
pub fn is_workspace_manifest(text: &str) -> (yes: bool)
    ensures
        yes == declares_workspace(text@),
{
    let chars = to_chars(text);
    let marker = vec!['[', 'w', 'o', 'r', 'k', 's', 'p', 'a', 'c', 'e', ']'];
    assert(marker@ =~= workspace_marker());
    let mut k: usize = 0;
    while k <= chars.len()
        invariant
            k <= chars.len() + 1,
            chars@ == text@,
            marker@ == workspace_marker(),
            forall|i: int| 0 <= i < k ==> !has_prefix(#[trigger] text@.skip(i), workspace_marker()),
        decreases chars.len() + 1 - k,
    {
        if starts_with_at(&chars, k, &marker) {
            return true;
        }
        if k == chars.len() {
            return false;
        }
        k += 1;
    }
    false
}

/// The workspace root above the first directory of `chain`, which lists a
/// directory and then each of its ancestors in turn.
pub fn find_workspace_root(chain: &Vec<Ancestor>) -> (found: Result<String, LocateError>)
    ensures
        outcome(found) == search(chain@),
{
    let mut k: usize = 0;
    assert(chain@.skip(0) =~= chain@);
    while k < chain.len()
        invariant
            k <= chain.len(),
            search(chain@.skip(k as int)) == search(chain@),
        decreases chain.len() - k,
    {
        let ghost rest = chain@.skip(k as int);
        assert(rest[0] == chain@[k as int]);
        assert(rest.skip(1) =~= chain@.skip(k + 1));
        match &chain[k].manifest {
            Manifest::Text(text) => {
                if is_workspace_manifest(text.as_str()) {
                    return Ok(chain[k].dir.clone());
                }
            },
            Manifest::Unreadable => {
                return Err(LocateError::Unreadable { dir: chain[k].dir.clone() });
            },
            Manifest::Absent => {},
        }
        k += 1;
    }
    Err(LocateError::NotFound)
}

/// The workspace root: the explicit override where there is one, else what
/// the search finds.
pub fn resolve_workspace_root(override_dir: Option<&str>, chain: &Vec<Ancestor>) -> (found: Result<
    String,
    LocateError,
>)
    ensures
        match override_dir {
            Some(dir) => outcome(found) == Located::Root(dir@),
            None => outcome(found) == search(chain@),
        },
{
    match override_dir {
        Some(dir) => Ok(String::from_str(dir)),
        None => find_workspace_root(chain),
    }
}

/// The search finds the nearest root: started at any directory at or below a
/// root, with no root and no unreadable manifest in between, it returns
/// that root.
pub proof fn lemma_nearest_root_found(chain: Seq<Ancestor>, start: int, root: int)
    requires
        0 <= start <= root < chain.len(),
        is_root(chain[root]),
        forall|i: int|
            start <= i < root ==> !is_root(#[trigger] chain[i]) && !(chain[i].manifest
                is Unreadable),
    ensures
        search(chain.skip(start)) == Located::Root(chain[root].dir@),
    decreases root - start,
{
    let rest = chain.skip(start);
    assert(rest[0] == chain[start]);
    if start < root {
        assert(rest.skip(1) =~= chain.skip(start + 1));
        lemma_nearest_root_found(chain, start + 1, root);
    }
}

/// Where no directory is a root and every manifest can be read, the search
/// fails, and says that it found nothing.
pub proof fn lemma_no_root_not_found(chain: Seq<Ancestor>)
    requires
        forall|i: int|
            0 <= i < chain.len() ==> !is_root(#[trigger] chain[i]) && !(chain[i].manifest
                is Unreadable),
    ensures
        search(chain) == Located::NotFound,
    decreases chain.len(),
{
    if chain.len() > 0 {
        let rest = chain.skip(1);
        assert forall|i: int| 0 <= i < rest.len() implies !is_root(#[trigger] rest[i]) && !(
        rest[i].manifest is Unreadable) by {
            assert(rest[i] == chain[i + 1]);
        }
        lemma_no_root_not_found(rest);
    }
}

} // verus!

//! The two textual shapes of a single-segment import statement, and the fixed
//! strings that the rewriting works with.

use vstd::prelude::*;
use crate::text::{has_prefix, ident_run_end, is_ident_start, is_space, space_run_end};

verus! {

/// The keyword that opens an import statement.
pub open spec fn use_keyword() -> Seq<char> {
    seq!['u', 's', 'e']
}

/// The crate-root qualifier with its path separator.
pub open spec fn crate_root() -> Seq<char> {
    seq!['c', 'r', 'a', 't', 'e', ':', ':']
}

/// The parent module under which every emitted Thrift module is re-exported,
/// with its path separator.
pub open spec fn thrift_parent() -> Seq<char> {
    seq!['t', 'h', 'r', 'i', 'f', 't', ':', ':']
}

/// The import of `ident` through the crate root and the Thrift parent module.
pub open spec fn qualified_import(ident: Seq<char>) -> Seq<char> {
    use_keyword() + seq![' '] + crate_root() + thrift_parent() + ident + seq![';']
}

/// Where the parts of an import statement lie that starts at index 0 of a
/// text: the identifier occupies `ident_from..ident_to`, and the statement,
/// semicolon included, ends before `end`.
pub struct ImportShape {
    pub ident_from: int,
    pub ident_to: int,
    pub end: int,
}

/// The import statement at the head of `s`, if there is one.
///
/// The unqualified shape is the keyword, at least one blank, one identifier,
/// any blanks, and a semicolon. The qualified shape has the crate-root
/// qualifier directly before the identifier. Blanks include line breaks.
pub open spec fn import_shape(s: Seq<char>, qualified: bool) -> Option<ImportShape> {
    let gap_end = space_run_end(s, 3);
    let from = if qualified { gap_end + 7 } else { gap_end };
    let to = ident_run_end(s, from);
    let semi = space_run_end(s, to);
    if has_prefix(s, use_keyword()) && 3 < gap_end && gap_end <= s.len() && (qualified
        ==> has_prefix(s.skip(gap_end), crate_root())) && from < to && to <= semi && semi
        < s.len() && is_ident_start(s[from]) && s[semi] == ';' {
        Some(ImportShape { ident_from: from, ident_to: to, end: semi + 1 })
    } else {
        None
    }
}

/// Whether the position after `c` is still within the blanks that follow a line
/// break or the start of the text, given whether the position before `c` was.
pub open spec fn next_line_start(line_start: bool, c: char) -> bool {
    is_space(c) && (c == '\n' || line_start)
}

/// Whether index `k` of `s` is an anchored position, given whether index 0
/// is one: only blanks lie between it and the nearest line break before it,
/// or the anchored start.
pub open spec fn line_start_after(line_start: bool, s: Seq<char>, k: int) -> bool
    decreases k,
{
    if k <= 0 || k > s.len() {
        line_start
    } else {
        next_line_start(line_start_after(line_start, s, k - 1), s[k - 1])
    }
}

/// Whether index `k` of the whole text `s` is an anchored position.
pub open spec fn at_line_start(s: Seq<char>, k: int) -> bool {
    line_start_after(true, s, k)
}

} // verus!

//! What a directory walk delivers, and what the two stages pick from it.

use vstd::prelude::*;
use crate::text::same_text;

verus! {

/// One entry of a recursive directory walk, as plain values. `path`,
/// `extension` and `stem` are absent where the entry has none or where it
/// is not valid Unicode.
#[derive(Debug, Clone)]
pub struct WalkEntry {
    pub path: Option<String>,
    pub is_file: bool,
    pub is_dir: bool,
    pub extension: Option<String>,
    pub stem: Option<String>,
}

/// The extension of protobuf schema files.
pub open spec fn proto_extension() -> Seq<char> {
    seq!['p', 'r', 'o', 't', 'o']
}

/// The extension of emitted source files.
pub open spec fn source_extension() -> Seq<char> {
    seq!['r', 's']
}

/// Whether the entry's extension is `extension`.
pub open spec fn has_extension(entry: WalkEntry, extension: Seq<char>) -> bool {
    entry.extension matches Some(e) && e@ == extension
}

/// Whether the entry is a protobuf schema: anything whose extension says so.
pub open spec fn is_proto_schema(entry: WalkEntry) -> bool {
    has_extension(entry, proto_extension())
}

/// Whether the entry is an emitted module: a regular file with the source
/// extension.
pub open spec fn is_emitted_source(entry: WalkEntry) -> bool {
    entry.is_file && has_extension(entry, source_extension())
}

/// Whether the entry is an emitted module.
pub fn is_generated_source(entry: &WalkEntry) -> (yes: bool)
    ensures
        yes == is_emitted_source(*entry),
{
    proof {
        reveal_strlit("rs");
    }
    assert("rs"@ =~= source_extension());
    entry.is_file && match &entry.extension {
        Some(e) => same_text(e.as_str(), "rs"),
        None => false,
    }
}

/// Whether the entry is a protobuf schema.
pub fn is_proto_file(entry: &WalkEntry) -> (yes: bool)
    ensures
        yes == is_proto_schema(*entry),
{
    proof {
        reveal_strlit("proto");
    }
    assert("proto"@ =~= proto_extension());
    match &entry.extension {
        Some(e) => same_text(e.as_str(), "proto"),
        None => false,
    }
}

/// What the protobuf generator is called with.
#[derive(Debug, Clone)]
pub struct ProtoInputs {
    /// The schema files, in walk order.
    pub files: Vec<String>,
    /// Every directory under the schema root, the root included, in walk
    /// order: the generator's include search paths.
    pub include_dirs: Vec<String>,
}

/// An entry that a stage needs has a path that is not valid Unicode.
#[derive(Debug, Clone, Copy, PartialEq, Eq)]
pub struct PathNotUnicode {
    /// The index of the entry in the walk.
    pub index: usize,
}

/// The characters of each string.
pub open spec fn texts(strings: Seq<String>) -> Seq<Seq<char>> {
    strings.map_values(|s: String| s@)
}

/// The paths of the schema files among `entries`, in order. An entry without
/// a path contributes nothing.
pub open spec fn schema_paths(entries: Seq<WalkEntry>) -> Seq<Seq<char>>
    decreases entries.len(),
{
    if entries.len() == 0 {
        Seq::empty()
    } else {
        let before = schema_paths(entries.drop_last());
        match entries.last().path {
            Some(p) => if is_proto_schema(entries.last()) {
                before.push(p@)
            } else {
                before
            },
            None => before,
        }
    }
}

/// The paths of the directories among `entries`, in order. An entry without
/// a path contributes nothing.
pub open spec fn directory_paths(entries: Seq<WalkEntry>) -> Seq<Seq<char>>
    decreases entries.len(),
{
    if entries.len() == 0 {
        Seq::empty()
    } else {
        let before = directory_paths(entries.drop_last());
        match entries.last().path {
            Some(p) => if entries.last().is_dir {
                before.push(p@)
            } else {
                before
            },
            None => before,
        }
    }
}

/// Whether entry `i` is a schema file whose path is missing.
pub open spec fn schema_without_path(entries: Seq<WalkEntry>, i: int) -> bool {
    0 <= i < entries.len() && is_proto_schema(entries[i]) && entries[i].path is None
}

/// Whether entry `i` is a directory whose path is missing.
pub open spec fn directory_without_path(entries: Seq<WalkEntry>, i: int) -> bool {
    0 <= i < entries.len() && entries[i].is_dir && entries[i].path is None
}

/// The schema files among `entries`, or the first of them whose path is
/// missing.
pub fn select_schema_files(entries: &Vec<WalkEntry>) -> (picked: Result<Vec<String>, PathNotUnicode>)
    ensures
        match picked {
            Ok(files) => texts(files@) == schema_paths(entries@) && forall|i: int|
                !schema_without_path(entries@, i),
            Err(e) => schema_without_path(entries@, e.index as int) && forall|i: int|
                0 <= i < e.index ==> !schema_without_path(entries@, i),
        },
{
    let mut files: Vec<String> = Vec::new();
    let mut k: usize = 0;
    assert(entries@.take(0) =~= Seq::empty());
    assert(texts(files@) =~= Seq::empty());
    while k < entries.len()
        invariant
            k <= entries.len(),
            texts(files@) == schema_paths(entries@.take(k as int)),
            forall|i: int| 0 <= i < k ==> !schema_without_path(entries@, i),
        decreases entries.len() - k,
    {
        let ghost before = files@;
        assert(entries@.take(k + 1).drop_last() =~= entries@.take(k as int));
        assert(entries@.take(k + 1).last() == entries@[k as int]);
        if is_proto_file(&entries[k]) {
            match &entries[k].path {
                Some(p) => {
                    files.push(p.clone());
                    assert(texts(files@) =~= texts(before).push(p@));
                },
                None => {
                    return Err(PathNotUnicode { index: k });
                },
            }
        }
        k += 1;
    }
    assert(entries@.take(k as int) =~= entries@);
    Ok(files)
}

/// The directories among `entries`, or the first of them whose path is
/// missing.
pub fn select_directories(entries: &Vec<WalkEntry>) -> (picked: Result<Vec<String>, PathNotUnicode>)
    ensures
        match picked {
            Ok(dirs) => texts(dirs@) == directory_paths(entries@) && forall|i: int|
                !directory_without_path(entries@, i),
            Err(e) => directory_without_path(entries@, e.index as int) && forall|i: int|
                0 <= i < e.index ==> !directory_without_path(entries@, i),
        },
{
    let mut dirs: Vec<String> = Vec::new();
    let mut k: usize = 0;
    assert(entries@.take(0) =~= Seq::empty());
    assert(texts(dirs@) =~= Seq::empty());
    while k < entries.len()
        invariant
            k <= entries.len(),
            texts(dirs@) == directory_paths(entries@.take(k as int)),
            forall|i: int| 0 <= i < k ==> !directory_without_path(entries@, i),
        decreases entries.len() - k,
    {
        let ghost before = dirs@;
        assert(entries@.take(k + 1).drop_last() =~= entries@.take(k as int));
        assert(entries@.take(k + 1).last() == entries@[k as int]);
        if entries[k].is_dir {
            match &entries[k].path {
                Some(p) => {
                    dirs.push(p.clone());
                    assert(texts(dirs@) =~= texts(before).push(p@));
                },
                None => {
                    return Err(PathNotUnicode { index: k });
                },
            }
        }
        k += 1;
    }
    assert(entries@.take(k as int) =~= entries@);
    Ok(dirs)
}

/// The inputs of the protobuf generator: every schema file and every
/// directory of the walk. A schema file without a path is reported before a
/// directory without one.
pub fn proto_inputs(entries: &Vec<WalkEntry>) -> (inputs: Result<ProtoInputs, PathNotUnicode>)
    ensures
        match inputs {
            Ok(p) => {
                &&& texts(p.files@) == schema_paths(entries@)
                &&& texts(p.include_dirs@) == directory_paths(entries@)
                &&& forall|i: int|
                    !schema_without_path(entries@, i) && !directory_without_path(entries@, i)
            },
            Err(e) => {
                ||| (schema_without_path(entries@, e.index as int) && forall|i: int|
                    0 <= i < e.index ==> !schema_without_path(entries@, i))
                ||| (directory_without_path(entries@, e.index as int) && (forall|i: int|
                    !schema_without_path(entries@, i)) && forall|i: int|
                    0 <= i < e.index ==> !directory_without_path(entries@, i))
            },
        },
{
    let files = match select_schema_files(entries) {
        Ok(files) => files,
        Err(e) => {
            return Err(e);
        },
    };
    let include_dirs = match select_directories(entries) {
        Ok(dirs) => dirs,
        Err(e) => {
            return Err(e);
        },
    };
    Ok(ProtoInputs { files, include_dirs })
}

} // verus!

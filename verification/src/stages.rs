//! The Thrift stage seen from outside the process: the compiler's command
//! line, the reading of how it ended, and the lines that tell the build tool
//! when to run again.

use vstd::prelude::*;
use crate::text::{lossy_text, utf8_lossy};
use crate::walk::texts;

verus! {

/// The name of the Thrift compiler's executable.
pub fn thrift_program() -> (name: String)
    ensures
        name@ == "thrift"@,
{
    String::from_str("thrift")
}

/// The name of the entry schema file inside the schema root: the root of
/// the Thrift import graph.
pub fn entry_schema_name() -> (name: String)
    ensures
        name@ == "config.thrift"@,
{
    String::from_str("config.thrift")
}

/// The name of the directory inside the build output directory that holds
/// the emitted Thrift modules.
pub fn thrift_out_subdir() -> (name: String)
    ensures
        name@ == "thrift"@,
{
    String::from_str("thrift")
}

/// The arguments of the Thrift compiler: code for the target language,
/// recursively over everything that the entry file imports, with the schema
/// root as include path and `out_dir` as destination.
pub open spec fn thrift_argument_texts(
    schema_dir: Seq<char>,
    out_dir: Seq<char>,
    entry_file: Seq<char>,
) -> Seq<Seq<char>> {
    seq!["--gen"@, "rs"@, "-r"@, "-I"@, schema_dir, "-out"@, out_dir, entry_file]
}

/// The arguments that the Thrift compiler is started with.
pub fn thrift_arguments(schema_dir: &str, out_dir: &str, entry_file: &str) -> (args: Vec<String>)
    ensures
        texts(args@) == thrift_argument_texts(schema_dir@, out_dir@, entry_file@),
{
    let mut args: Vec<String> = Vec::new();
    args.push(String::from_str("--gen"));
    args.push(String::from_str("rs"));
    args.push(String::from_str("-r"));
    args.push(String::from_str("-I"));
    args.push(String::from_str(schema_dir));
    args.push(String::from_str("-out"));
    args.push(String::from_str(out_dir));
    args.push(String::from_str(entry_file));
    assert(texts(args@) =~= thrift_argument_texts(schema_dir@, out_dir@, entry_file@));
    args
}

/// How the attempt to run an external tool ended.
#[derive(Debug, Clone)]
pub enum ToolRun {
    /// The tool could not be started.
    NotStarted,
    /// The tool ran; `stderr` holds the bytes that it wrote to its error
    /// stream.
    Exited { success: bool, stderr: Vec<u8> },
}

/// Why a stage failed. Every such failure ends the build.
#[derive(Debug, Clone, PartialEq, Eq)]
pub enum StageError {
    /// The Thrift compiler could not be started.
    ToolMissing,
    /// The Thrift compiler ran and reported failure; `diagnostic` is the text
    /// of its error stream, and `entry_file` the schema it was run on.
    ExternalToolError { entry_file: String, diagnostic: String },
}

/// The words that a failure ends the build with.
pub open spec fn failure_text(error: StageError) -> Seq<char> {
    match error {
        StageError::ToolMissing =>
            "Failed to execute thrift compiler. Make sure 'thrift' is installed and in PATH."@,
        StageError::ExternalToolError { entry_file, diagnostic } =>
            "Thrift compilation failed for "@ + entry_file@ + ": "@ + diagnostic@,
    }
}

impl StageError {
    /// The words that the failure ends the build with. The compiler's error
    /// stream is part of them as it stands.
    pub fn message(&self) -> (text: String)
        ensures
            text@ == failure_text(*self),
    {
        match self {
            StageError::ToolMissing => String::from_str(
                "Failed to execute thrift compiler. Make sure 'thrift' is installed and in PATH.",
            ),
            StageError::ExternalToolError { entry_file, diagnostic } => {
                let mut text = String::from_str("Thrift compilation failed for ");
                text.append(entry_file.as_str());
                text.append(": ");
                text.append(diagnostic.as_str());
                text
            },
        }
    }
}

/// Whether the Thrift stage succeeded: it did where the compiler ran and
/// reported success. Where the compiler reported failure, the error carries
/// its error stream; where it could not be started, the error says so.
pub fn thrift_outcome(run: &ToolRun, entry_file: &str) -> (outcome: Result<(), StageError>)
    ensures
        match *run {
            ToolRun::NotStarted => outcome == Err::<(), StageError>(StageError::ToolMissing),
            ToolRun::Exited { success, stderr } => if success {
                outcome is Ok
            } else {
                outcome matches Err(StageError::ExternalToolError { entry_file: e, diagnostic: d })
                    && e@ == entry_file@ && d@ == lossy_text(stderr@)
            },
        },
{
    match run {
        ToolRun::NotStarted => Err(StageError::ToolMissing),
        ToolRun::Exited { success, stderr } => {
            if *success {
                Ok(())
            } else {
                Err(
                    StageError::ExternalToolError {
                        entry_file: String::from_str(entry_file),
                        diagnostic: utf8_lossy(stderr.as_slice()),
                    },
                )
            }
        },
    }
}

/// The line that asks the build tool to run the build again when `path`
/// changes.
pub fn rerun_if_changed(path: &str) -> (line: String)
    ensures
        line@ == "cargo:rerun-if-changed="@ + path@,
{
    let mut line = String::from_str("cargo:rerun-if-changed=");
    line.append(path);
    line
}

/// The rebuild trigger of the protobuf stage: the schema root as a whole.
pub fn proto_rebuild_triggers(proto_dir: &str) -> (lines: Vec<String>)
    ensures
        texts(lines@) == seq!["cargo:rerun-if-changed="@ + proto_dir@],
{
    let mut lines: Vec<String> = Vec::new();
    lines.push(rerun_if_changed(proto_dir));
    assert(texts(lines@) =~= seq!["cargo:rerun-if-changed="@ + proto_dir@]);
    lines
}

/// The rebuild triggers of the Thrift stage: the schema root, then the entry
/// file.
pub fn thrift_rebuild_triggers(schema_dir: &str, entry_file: &str) -> (lines: Vec<String>)
    ensures
        texts(lines@) == seq![
            "cargo:rerun-if-changed="@ + schema_dir@,
            "cargo:rerun-if-changed="@ + entry_file@,
        ],
{
    let mut lines: Vec<String> = Vec::new();
    lines.push(rerun_if_changed(schema_dir));
    lines.push(rerun_if_changed(entry_file));
    assert(texts(lines@) =~= seq![
        "cargo:rerun-if-changed="@ + schema_dir@,
        "cargo:rerun-if-changed="@ + entry_file@,
    ]);
    lines
}

/// The line that hands the directory of the emitted Thrift modules to the
/// compilation of the library.
pub fn thrift_out_dir_variable(thrift_out_dir: &str) -> (line: String)
    ensures
        line@ == "cargo:rustc-env=THRIFT_OUT_DIR="@ + thrift_out_dir@,
{
    let mut line = String::from_str("cargo:rustc-env=THRIFT_OUT_DIR=");
    line.append(thrift_out_dir);
    line
}

} // verus!

use common::generated::{discover_module_names, fix_generated_imports, GeneratedModule};
use common::pipeline::{advance, first_step, Step};
use common::stages::{
    entry_schema_name, proto_rebuild_triggers, rerun_if_changed, thrift_arguments,
    thrift_out_dir_variable, thrift_out_subdir, thrift_outcome, thrift_program,
    thrift_rebuild_triggers, StageError, ToolRun,
};
use common::walk::{
    is_generated_source, is_proto_file, proto_inputs, select_directories, select_schema_files,
    PathNotUnicode, WalkEntry,
};
use common::workspace::{
    find_workspace_root, is_workspace_manifest, resolve_workspace_root, Ancestor, LocateError,
    Manifest,
};

fn file(path: &str) -> WalkEntry {
    let name = path.rsplit('/').next().unwrap();
    let (stem, extension) = match name.rfind('.') {
        Some(dot) if dot > 0 => (&name[..dot], Some(name[dot + 1..].to_string())),
        _ => (name, None),
    };
    WalkEntry {
        path: Some(path.to_string()),
        is_file: true,
        is_dir: false,
        extension,
        stem: Some(stem.to_string()),
    }
}

fn dir(path: &str) -> WalkEntry {
    WalkEntry { is_file: false, is_dir: true, ..file(path) }
}

fn module(stem: &str, content: &str) -> GeneratedModule {
    GeneratedModule { stem: Some(stem.to_string()), content: content.to_string() }
}

fn ancestor(dir: &str, manifest: Manifest) -> Ancestor {
    Ancestor { dir: dir.to_string(), manifest }
}

fn text(manifest: &str) -> Manifest {
    Manifest::Text(manifest.to_string())
}

#[test]
fn emitted_source_is_a_regular_file_with_the_source_extension() {
    assert!(is_generated_source(&file("out/thrift/common.rs")));
    assert!(!is_generated_source(&file("out/thrift/common.thrift")));
    assert!(!is_generated_source(&file("out/thrift/rs")));
    assert!(!is_generated_source(&dir("out/thrift/common.rs")));
    assert!(!is_generated_source(&file("out/thrift/common.RS")));
}

#[test]
fn proto_schema_is_known_by_its_extension() {
    assert!(is_proto_file(&file("schema/a.proto")));
    assert!(is_proto_file(&dir("schema/odd.proto")));
    assert!(!is_proto_file(&file("schema/a.protobuf")));
    assert!(!is_proto_file(&file("schema/proto")));
}

#[test]
fn proto_stage_takes_every_schema_and_every_directory() {
    let walk = vec![
        dir("schema"),
        file("schema/a.proto"),
        dir("schema/util"),
        file("schema/util/b.proto"),
        file("schema/util/README.md"),
        dir("schema/util/deep"),
    ];
    let inputs = proto_inputs(&walk).unwrap();
    assert_eq!(inputs.files, vec!["schema/a.proto", "schema/util/b.proto"]);
    assert_eq!(inputs.include_dirs, vec!["schema", "schema/util", "schema/util/deep"]);
    assert_eq!(select_schema_files(&walk).unwrap(), inputs.files);
    assert_eq!(select_directories(&walk).unwrap(), inputs.include_dirs);
}

#[test]
fn empty_walk_gives_empty_inputs() {
    let inputs = proto_inputs(&Vec::new()).unwrap();
    assert!(inputs.files.is_empty());
    assert!(inputs.include_dirs.is_empty());
}

#[test]
fn needed_entry_without_a_path_is_reported() {
    let nameless = |entry: WalkEntry| WalkEntry { path: None, ..entry };
    let walk = vec![
        nameless(file("schema/readme.md")),
        nameless(dir("schema/x")),
        file("schema/a.proto"),
        nameless(file("schema/b.proto")),
        nameless(file("schema/c.proto")),
    ];
    assert_eq!(proto_inputs(&walk).unwrap_err(), PathNotUnicode { index: 3 });
    assert_eq!(select_schema_files(&walk).unwrap_err(), PathNotUnicode { index: 3 });
    assert_eq!(select_directories(&walk).unwrap_err(), PathNotUnicode { index: 1 });
    let only_dir = vec![file("schema/a.proto"), nameless(dir("schema/x"))];
    assert_eq!(proto_inputs(&only_dir).unwrap_err(), PathNotUnicode { index: 1 });
}

#[test]
fn discovery_collects_every_stem_once() {
    let tree = vec![
        module("common", ""),
        module("camera", ""),
        GeneratedModule { stem: None, content: String::new() },
        module("common", ""),
    ];
    let names = discover_module_names(&tree);
    assert_eq!(names.len(), 2);
    assert!(names.contains("common"));
    assert!(names.contains("camera"));
    assert!(!names.contains("lidar"));
    assert!(!names.contains(""));
}

#[test]
fn names_of_later_modules_count_for_earlier_ones() {
    let tree = vec![
        module("b", "#![allow(unused_imports)]\nuse a;\nuse std;\npub struct Y { pub x: a::X }\n"),
        module("a", "    use crate::b;\npub struct X;\n"),
    ];
    let fixed = fix_generated_imports(&tree);
    assert_eq!(fixed.len(), 2);
    assert_eq!(fixed[0].stem.as_deref(), Some("b"));
    assert_eq!(
        fixed[0].content,
        "#[allow(unused_imports)]\nuse crate::thrift::a;\nuse std;\npub struct Y { pub x: a::X }\n"
    );
    assert_eq!(fixed[1].stem.as_deref(), Some("a"));
    assert_eq!(fixed[1].content, "    use crate::thrift::b;\npub struct X;\n");
}

#[test]
fn fixing_a_tree_twice_gives_the_same_tree() {
    let tree = vec![
        module("b", "use a;\n  use crate::b;\nuse\nuse a;"),
        module("a", "#![cfg_attr(x, y)]\nuse b ;use a;\n\tuse a;"),
        module("use", "use use;\nuse crate::use;"),
    ];
    let once = fix_generated_imports(&tree);
    let twice = fix_generated_imports(&once);
    for (x, y) in once.iter().zip(twice.iter()) {
        assert_eq!(x.stem, y.stem);
        assert_eq!(x.content, y.content);
    }
}

#[test]
fn order_of_the_walk_does_not_matter() {
    let a = module("a", "use b;\nuse c;");
    let b = module("b", "use a;\nuse crate::c;");
    let c = module("c", "use d;");
    let forward = fix_generated_imports(&vec![a.clone(), b.clone(), c.clone()]);
    let backward = fix_generated_imports(&vec![c, b, a]);
    for i in 0..3 {
        assert_eq!(forward[i].stem, backward[2 - i].stem);
        assert_eq!(forward[i].content, backward[2 - i].content);
    }
    assert_eq!(forward[0].content, "use crate::thrift::b;\nuse crate::thrift::c;");
}

#[test]
fn manifest_declares_workspace_by_its_table_header() {
    assert!(is_workspace_manifest("[workspace]\nmembers = []\n"));
    assert!(is_workspace_manifest("[package]\nname = \"x\"\n\n[workspace]"));
    assert!(is_workspace_manifest("# [workspace]"));
    assert!(!is_workspace_manifest("[package]\nname = \"workspace\"\n"));
    assert!(!is_workspace_manifest("[workspace.dependencies]"));
    assert!(!is_workspace_manifest("[workspace"));
    assert!(!is_workspace_manifest(""));
    for text in ["", "[", "[workspace]", "x[workspace]y", "[work[workspace]", "[workspac]"] {
        assert_eq!(is_workspace_manifest(text), text.contains("[workspace]"));
    }
}

#[test]
fn search_returns_the_one_root_from_every_descendant() {
    let chain = vec![
        ancestor("/w/a/b/c", Manifest::Absent),
        ancestor("/w/a/b", text("[package]\nname = \"b\"\n")),
        ancestor("/w/a", Manifest::Absent),
        ancestor("/w", text("[workspace]\nmembers = [\"a/b\"]\n")),
        ancestor("/", Manifest::Absent),
    ];
    for start in 0..=3 {
        assert_eq!(find_workspace_root(&chain[start..].to_vec()), Ok("/w".to_string()));
    }
    assert_eq!(find_workspace_root(&chain[4..].to_vec()), Err(LocateError::NotFound));
}

#[test]
fn search_without_a_root_finds_nothing() {
    let chain = vec![
        ancestor("/a/b", text("[package]")),
        ancestor("/a", Manifest::Absent),
        ancestor("/", Manifest::Absent),
    ];
    assert_eq!(find_workspace_root(&chain), Err(LocateError::NotFound));
    assert_eq!(find_workspace_root(&Vec::new()), Err(LocateError::NotFound));
}

#[test]
fn search_returns_the_nearest_of_two_roots() {
    let chain = vec![
        ancestor("/o/i/p", Manifest::Absent),
        ancestor("/o/i", text("[workspace]")),
        ancestor("/o", text("[workspace]")),
    ];
    assert_eq!(find_workspace_root(&chain), Ok("/o/i".to_string()));
}

#[test]
fn unreadable_manifest_below_the_root_fails_the_search() {
    let chain = vec![
        ancestor("/w/a", Manifest::Unreadable),
        ancestor("/w", text("[workspace]")),
    ];
    assert_eq!(
        find_workspace_root(&chain),
        Err(LocateError::Unreadable { dir: "/w/a".to_string() })
    );
    let above = vec![ancestor("/w", text("[workspace]")), ancestor("/", Manifest::Unreadable)];
    assert_eq!(find_workspace_root(&above), Ok("/w".to_string()));
}

#[test]
fn override_wins_over_the_search() {
    let chain = vec![ancestor("/w", text("[workspace]"))];
    assert_eq!(resolve_workspace_root(Some("/elsewhere"), &chain), Ok("/elsewhere".to_string()));
    assert_eq!(resolve_workspace_root(Some("/x"), &Vec::new()), Ok("/x".to_string()));
    assert_eq!(resolve_workspace_root(None, &chain), Ok("/w".to_string()));
    assert_eq!(resolve_workspace_root(None, &Vec::new()), Err(LocateError::NotFound));
}

#[test]
fn thrift_compiler_is_asked_for_recursive_generation() {
    assert_eq!(thrift_program(), "thrift");
    assert_eq!(entry_schema_name(), "config.thrift");
    assert_eq!(thrift_out_subdir(), "thrift");
    assert_eq!(
        thrift_arguments("/w/schema", "/w/target/out/thrift", "/w/schema/config.thrift"),
        vec![
            "--gen",
            "rs",
            "-r",
            "-I",
            "/w/schema",
            "-out",
            "/w/target/out/thrift",
            "/w/schema/config.thrift"
        ]
    );
}

#[test]
fn failed_thrift_run_aborts_with_the_compiler_diagnostic() {
    let stderr = "[ERROR:/w/schema/config.thrift:7] (last token was '}')\nsyntax error\n";
    let run = ToolRun::Exited { success: false, stderr: stderr.as_bytes().to_vec() };
    let error = thrift_outcome(&run, "/w/schema/config.thrift").unwrap_err();
    assert_eq!(
        error,
        StageError::ExternalToolError {
            entry_file: "/w/schema/config.thrift".to_string(),
            diagnostic: stderr.to_string(),
        }
    );
    assert_eq!(
        error.message(),
        format!("Thrift compilation failed for /w/schema/config.thrift: {stderr}")
    );
    assert!(error.message().contains(stderr));
    let next = advance(Step::RunThrift, false);
    assert_eq!(next, Step::Aborted);
    assert_eq!(advance(next, true), Step::Aborted);
    assert_ne!(advance(next, true), Step::RewriteImports);
}

#[test]
fn diagnostic_that_is_not_unicode_is_patched() {
    let run = ToolRun::Exited { success: false, stderr: b"bad \xf0\x28 byte".to_vec() };
    let error = thrift_outcome(&run, "e.thrift").unwrap_err();
    assert_eq!(error.message(), "Thrift compilation failed for e.thrift: bad \u{fffd}( byte");
}

#[test]
fn missing_thrift_compiler_is_named() {
    let error = thrift_outcome(&ToolRun::NotStarted, "config.thrift").unwrap_err();
    assert_eq!(error, StageError::ToolMissing);
    assert_eq!(
        error.message(),
        "Failed to execute thrift compiler. Make sure 'thrift' is installed and in PATH."
    );
}

#[test]
fn successful_thrift_run_is_accepted_whatever_it_printed() {
    let run = ToolRun::Exited { success: true, stderr: b"warning: x".to_vec() };
    assert_eq!(thrift_outcome(&run, "config.thrift"), Ok(()));
}

#[test]
fn rebuild_triggers_name_root_and_entry_file() {
    assert_eq!(rerun_if_changed("/w/schema"), "cargo:rerun-if-changed=/w/schema");
    assert_eq!(proto_rebuild_triggers("/w/proto"), vec!["cargo:rerun-if-changed=/w/proto"]);
    assert_eq!(
        thrift_rebuild_triggers("/w/schema", "/w/schema/config.thrift"),
        vec![
            "cargo:rerun-if-changed=/w/schema",
            "cargo:rerun-if-changed=/w/schema/config.thrift"
        ]
    );
    assert_eq!(
        thrift_out_dir_variable("/w/out/thrift"),
        "cargo:rustc-env=THRIFT_OUT_DIR=/w/out/thrift"
    );
}

#[test]
fn steps_run_in_order_and_stop_at_the_first_failure() {
    let mut step = first_step();
    let mut seen = vec![step];
    while step != Step::Done {
        step = advance(step, true);
        seen.push(step);
    }
    assert_eq!(
        seen,
        vec![
            Step::LocateForProto,
            Step::CompileProtos,
            Step::LocateForThrift,
            Step::RunThrift,
            Step::RewriteImports,
            Step::Done
        ]
    );
    for failing in &seen[..5] {
        assert_eq!(advance(*failing, false), Step::Aborted);
    }
    assert_eq!(advance(Step::Done, false), Step::Done);
    assert_eq!(advance(Step::Done, true), Step::Done);
    assert_eq!(advance(Step::Aborted, true), Step::Aborted);
}

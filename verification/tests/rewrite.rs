use common::names::ModuleNameSet;
use common::rewrite::rewrite_source;
use regex::{Captures, Regex};

fn names_of(list: &[&str]) -> ModuleNameSet {
    let mut names = ModuleNameSet::new();
    for name in list {
        names.insert(name);
    }
    names
}

/// The same rewriting, written with string replacement and two regular
/// expressions.
fn rewrite_with_regex(content: &str, list: &[&str]) -> String {
    let bare = Regex::new(r"(?m)^(\s*)use\s+([a-zA-Z_][a-zA-Z0-9_]*)\s*;").unwrap();
    let rooted = Regex::new(r"(?m)^(\s*)use\s+crate::([a-zA-Z_][a-zA-Z0-9_]*)\s*;").unwrap();
    let mut fixed = content.replace("#![allow(", "#[allow(").replace("#![cfg_attr(", "#[cfg_attr(");
    for re in [bare, rooted] {
        fixed = re
            .replace_all(&fixed, |caps: &Captures| {
                let indent = &caps[1];
                let ident = &caps[2];
                if list.contains(&ident) {
                    format!("{indent}use crate::thrift::{ident};")
                } else {
                    caps[0].to_string()
                }
            })
            .into_owned();
    }
    fixed
}

/// A small deterministic generator of texts that are dense in the pieces the
/// rules look at.
fn sample_text(seed: u64, pieces: usize) -> String {
    let tokens = [
        "use", " ", "\n", "\t", "crate::", "common", "camera", "std", ";", "#![allow(",
        "#![cfg_attr(", "#", "!", "[", "allow(", "u", "se", "::", "thrift", "\r\n", "\u{a0}",
        "\u{2003}", "x9", "_", "use common;", "use crate::camera;", "  use\ncommon ;", "(",
        "cfg_attr(", "e", "crate", ":", "\u{85}", "é",
    ];
    let mut state = seed.wrapping_mul(6364136223846793005).wrapping_add(1442695040888963407);
    let mut out = String::new();
    for _ in 0..pieces {
        state = state.wrapping_mul(6364136223846793005).wrapping_add(1442695040888963407);
        let pick = ((state >> 33) as usize) % tokens.len();
        out.push_str(tokens[pick]);
    }
    out
}

#[test]
fn qualifies_import_of_sibling_module() {
    let names = names_of(&["a", "b"]);
    let before = "pub struct Y {\n    x: a::X,\n}\nuse a;\n";
    assert_eq!(
        rewrite_source(before, &names),
        "pub struct Y {\n    x: a::X,\n}\nuse crate::thrift::a;\n"
    );
}

#[test]
fn keeps_indentation_of_rewritten_import() {
    let names = names_of(&["common"]);
    assert_eq!(rewrite_source("    use common;", &names), "    use crate::thrift::common;");
    assert_eq!(rewrite_source("\t\tuse common;", &names), "\t\tuse crate::thrift::common;");
    assert_eq!(
        rewrite_source("mod m {\n  use crate::common;\n}", &names),
        "mod m {\n  use crate::thrift::common;\n}"
    );
}

#[test]
fn leaves_foreign_import_alone() {
    let names = names_of(&["common"]);
    let before = "use common;\nuse thrift;\nuse crate::other;\nuse std::fmt;\n";
    let after = "use crate::thrift::common;\nuse thrift;\nuse crate::other;\nuse std::fmt;\n";
    assert_eq!(rewrite_source(before, &names), after);
}

#[test]
fn turns_inner_attributes_into_outer_ones() {
    let names = ModuleNameSet::new();
    assert_eq!(
        rewrite_source("#![allow(dead_code)]\n#![cfg_attr(rustfmt, rustfmt_skip)]\n", &names),
        "#[allow(dead_code)]\n#[cfg_attr(rustfmt, rustfmt_skip)]\n"
    );
    assert_eq!(rewrite_source("#![deny(warnings)]", &names), "#![deny(warnings)]");
    assert_eq!(rewrite_source("#!#![allow(x)", &names), "#!#[allow(x)");
}

#[test]
fn import_must_stand_first_on_its_line() {
    let names = names_of(&["common"]);
    assert_eq!(rewrite_source("pub use common;", &names), "pub use common;");
    assert_eq!(rewrite_source("use a; use common;", &names), "use a; use common;");
    assert_eq!(rewrite_source("x\n \n use common;", &names), "x\n \n use crate::thrift::common;");
}

#[test]
fn blanks_inside_import_may_be_any_white_space() {
    let names = names_of(&["common"]);
    assert_eq!(rewrite_source("use\n\tcommon \n ;", &names), "use crate::thrift::common;");
    assert_eq!(rewrite_source("use\u{a0}common\u{2003};", &names), "use crate::thrift::common;");
    assert_eq!(rewrite_source("use  crate::common  ;", &names), "use crate::thrift::common;");
    assert_eq!(rewrite_source("use crate:: common;", &names), "use crate:: common;");
    assert_eq!(rewrite_source("usecommon;", &names), "usecommon;");
    assert_eq!(rewrite_source("use common", &names), "use common");
}

#[test]
fn longer_paths_are_not_single_segment_imports() {
    let names = names_of(&["common", "thrift", "crate"]);
    assert_eq!(rewrite_source("use common::X;", &names), "use common::X;");
    assert_eq!(rewrite_source("use crate::common::X;", &names), "use crate::common::X;");
    assert_eq!(
        rewrite_source("use crate::thrift::common;", &names),
        "use crate::thrift::common;"
    );
    assert_eq!(rewrite_source("use crate;", &names), "use crate::thrift::crate;");
}

#[test]
fn rewriting_twice_changes_nothing_more() {
    let names = names_of(&["common", "camera", "use"]);
    for seed in 0..400u64 {
        let text = sample_text(seed, 40);
        let once = rewrite_source(&text, &names);
        let twice = rewrite_source(&once, &names);
        assert_eq!(once, twice, "seed {seed}");
    }
}

#[test]
fn agrees_with_regular_expressions() {
    let list = ["common", "camera", "use", "crate", "x9"];
    let names = names_of(&list);
    for seed in 0..1500u64 {
        let text = sample_text(seed, 30);
        assert_eq!(rewrite_source(&text, &names), rewrite_with_regex(&text, &list), "seed {seed}");
    }
}

#[test]
fn blank_characters_are_those_of_the_white_space_property() {
    let names = names_of(&["m"]);
    let blank = Regex::new(r"^\s$").unwrap();
    for code in 0..=0x10ffffu32 {
        if let Some(c) = char::from_u32(code) {
            let text = format!("use{c}m;");
            let rewritten = rewrite_source(&text, &names) != text;
            assert_eq!(rewritten, c.is_whitespace(), "U+{code:04X}");
            if code < 0x3100 {
                assert_eq!(rewritten, blank.is_match(&c.to_string()), "U+{code:04X}");
            }
        }
    }
}

#[test]
fn no_rewritable_import_remains() {
    let list = ["common", "camera"];
    let names = names_of(&list);
    let bare = Regex::new(r"(?m)^\s*use\s+([a-zA-Z_][a-zA-Z0-9_]*)\s*;").unwrap();
    let rooted = Regex::new(r"(?m)^\s*use\s+crate::([a-zA-Z_][a-zA-Z0-9_]*)\s*;").unwrap();
    for seed in 0..400u64 {
        let after = rewrite_source(&sample_text(seed, 40), &names);
        for re in [&bare, &rooted] {
            for caps in re.captures_iter(&after) {
                assert!(!list.contains(&&caps[1]), "seed {seed}");
            }
        }
    }
}

#[test]
fn name_set_holds_each_name_once() {
    let mut names = ModuleNameSet::new();
    assert_eq!(names.len(), 0);
    assert!(names.insert("common"));
    assert!(!names.insert("common"));
    assert!(names.insert("camera"));
    assert_eq!(names.len(), 2);
    assert!(names.contains("camera"));
    assert!(!names.contains("camer"));
    assert!(!names.contains("cameras"));
    let text: Vec<char> = "xcamera".chars().collect();
    assert!(names.contains_chars(&text, 1, 7));
    assert!(!names.contains_chars(&text, 0, 7));
    assert!(!names.contains_chars(&text, 3, 3));
}

#[test]
fn foreign_statement_stands_between_the_rewritten_parts() {
    let names = names_of(&["common", "camera", "use"]);
    for seed in 0..300u64 {
        let pre = sample_text(seed, 12);
        let post = sample_text(seed + 1000, 12);
        for stmt in ["use std;", "use crate::serde ;", "use\n\tthrift\n;", "use  crate::x9;"] {
            let whole = rewrite_source(&format!("{pre}{stmt}{post}"), &names);
            let head = format!("{}{stmt}", rewrite_source(&pre, &names));
            assert!(whole.starts_with(&head), "seed {seed}, statement {stmt:?}");
            if !post.starts_with(|c: char| c.is_whitespace()) {
                let tail = rewrite_source(&format!(";{post}"), &names);
                assert_eq!(whole, format!("{head}{}", &tail[1..]), "seed {seed}");
            }
        }
    }
}

#[test]
fn module_statement_is_qualified_between_the_rewritten_parts() {
    let names = names_of(&["common", "camera", "use"]);
    for seed in 0..300u64 {
        let pre = format!("{}\n  ", sample_text(seed, 12));
        let post = sample_text(seed + 1000, 12);
        for (stmt, ident) in [
            ("use common;", "common"),
            ("use crate::camera ;", "camera"),
            ("use\n\tuse\n;", "use"),
            ("use  crate::use;", "use"),
        ] {
            let whole = rewrite_source(&format!("{pre}{stmt}{post}"), &names);
            let head = format!("{}use crate::thrift::{ident};", rewrite_source(&pre, &names));
            assert!(whole.starts_with(&head), "seed {seed}, statement {stmt:?}");
        }
    }
}

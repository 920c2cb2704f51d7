use pyscman::imports::extract_imports;
use pyscman::text::{comes_before, contains, white};

fn names(script: &str) -> Vec<String> {
    extract_imports(script)
}

#[test]
fn plain_imports_are_listed_in_order() {
    assert_eq!(names("import sys\nimport os\n"), vec!["os", "sys"]);
}

#[test]
fn one_line_may_import_several_modules() {
    assert_eq!(names("import b as x , a,,c"), vec!["a", "b", "c"]);
}

#[test]
fn from_names_the_module() {
    assert_eq!(names("from os.path import join\nfrom .local import x"), vec![".local", "os.path"]);
}

#[test]
fn a_module_is_listed_once() {
    assert_eq!(names("import os\nimport os, sys\nfrom os import path"), vec!["os", "sys"]);
}

#[test]
fn indentation_and_line_ends_do_not_matter() {
    assert_eq!(names("if x:\r\n\t import json\r\n\u{3000}from re import *"), vec!["json", "re"]);
}

#[test]
fn other_lines_import_nothing() {
    assert!(names("").is_empty());
    assert!(names("import\nimport\tos\nfrom\nprint('import x')\n# import y\nimportlib").is_empty());
    assert!(names("import ,,").is_empty());
}

#[test]
fn statements_behind_a_semicolon_stay_with_the_name() {
    assert_eq!(names("import os; import sys"), vec!["os;"]);
}

#[test]
fn joined_scripts_import_both() {
    let first = "import b\nimport c";
    let second = "import a\nimport b";
    let both = format!("{}\n{}", first, second);
    let mut expected = names(first);
    expected.extend(names(second));
    expected.sort();
    expected.dedup();
    assert_eq!(names(&both), expected);
}

#[test]
fn names_are_sorted_as_strings_are() {
    let script = "import Zeta, alpha, al, \u{e9}t\u{e9}, \u{1f40d}, \u{ffff}x, _z";
    let mut expected = names(script);
    expected.sort();
    assert_eq!(names(script), expected);
    assert_eq!(expected.len(), 7);
}

#[test]
fn white_space_is_that_of_unicode() {
    for n in 0..=0x10ffffu32 {
        if let Some(c) = char::from_u32(n) {
            assert_eq!(white(c), c.is_whitespace(), "{:x}", n);
        }
    }
}

#[test]
fn texts_are_compared_by_characters() {
    let words = ["", "a", "ab", "b", "\u{e9}", "\u{ffff}", "\u{10000}", "a\u{e9}"];
    for a in words {
        for b in words {
            assert_eq!(comes_before(a, b), a < b, "{} {}", a, b);
        }
    }
}

#[test]
fn a_part_is_found_anywhere() {
    assert!(contains("some ERROR here", "ERROR"));
    assert!(contains("ERROR", "ERROR"));
    assert!(contains("EERRORR", "ERROR"));
    assert!(!contains("ERRO R", "ERROR"));
    assert!(!contains("error", "ERROR"));
    assert!(!contains("", "ERROR"));
    assert!(contains("", ""));
}

#[test]
fn imported_names_hold_no_white_space() {
    let script = "import a\u{a0}b , \u{2003} , c\u{85}d\nfrom \t e\u{3000}import f\n";
    assert_eq!(names(script), vec!["a", "c", "e"]);
}

#[test]
fn imported_names_are_pieces_of_the_script() {
    let script = "import os, sys as s\n  from a.b import c\nfrom x,y import z\nimport ;q";
    let found = names(script);
    assert_eq!(found, vec![";q", "a.b", "os", "sys", "x,y"]);
    for name in found {
        assert!(script.contains(&name));
        assert!(contains(script, &name));
    }
}

#[test]
fn imports_written_out_are_found_again() {
    let long = "import b, a\nfrom x,y import z\nfrom .l import m\nimport \u{e9}";
    for script in ["", "import os", long] {
        let found = names(script);
        let lines: Vec<String> =
            found.iter().map(|name| format!("from {} import x", name)).collect();
        assert_eq!(names(&lines.join("\n")), found);
    }
}

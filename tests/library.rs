use repo_to_text::filter::{
    has_hidden_below_root, is_excluded, is_ignored_by_gitignore, is_lock_file, relative_to_root,
};
use repo_to_text::format::process_file;
use repo_to_text::language::{comment_syntax, determine_language};
use repo_to_text::pipeline::assemble;
use repo_to_text::select::{
    any_pattern_matches, compile_patterns, select_files, select_matching, select_wanted,
    sorted_unique, Candidate,
};
use repo_to_text::strip::{is_rust_test_file, strip_rust_tests};
use repo_to_text::tree::{
    arrange_entries, child_prefix, decimal_string, entry_line, tree_entry_before, DirEntryInfo, TreeListing,
};

fn strings(items: &[&str]) -> Vec<String> {
    items.iter().map(|s| s.to_string()).collect()
}

/// A regular file that the ignore rules keep: the listing of its directory shows it.
fn file(path: &str) -> Candidate {
    Candidate { path: path.to_string(), is_file: true, parent_listing: strings(&[path]) }
}

fn entry(name: &str, path: &str, is_dir: bool) -> DirEntryInfo {
    DirEntryInfo { name: name.to_string(), path: path.to_string(), is_dir }
}

#[test]
fn test_foobarg() {
    assert!("FOOBAR" == "foobar".to_uppercase());
}

#[test]
fn language_by_exact_name_comes_first() {
    assert_eq!(determine_language("Makefile"), "make");
    assert_eq!(determine_language("proj/Cargo.toml"), "rust");
    assert_eq!(determine_language("x/CMakeLists.txt"), "cmake");
    assert_eq!(determine_language("repo/.gitignore"), "git");
    assert_eq!(determine_language("web/package.json"), "node");
}

#[test]
fn language_by_extension() {
    assert_eq!(determine_language("src/main.rs"), "rust");
    assert_eq!(determine_language("a/b.hpp"), "cpp");
    assert_eq!(determine_language("notes.md"), "markdown");
    assert_eq!(determine_language("conf.yml"), "yaml");
    assert_eq!(determine_language("other.toml"), "toml");
    assert_eq!(determine_language("archive.tar.cu"), "cuda");
}

#[test]
fn language_unknown_is_empty() {
    assert_eq!(determine_language("README"), "");
    assert_eq!(determine_language("image.png"), "");
    assert_eq!(determine_language(".bashrc"), "");
    assert_eq!(determine_language(""), "");
}

#[test]
fn comment_syntax_by_language() {
    assert_eq!(comment_syntax("rust"), ("//", None));
    assert_eq!(comment_syntax("python"), ("#", None));
    assert_eq!(comment_syntax("make"), ("#", None));
    assert_eq!(comment_syntax("lua"), ("--", None));
    assert_eq!(comment_syntax("html"), ("<!--", Some("-->")));
    assert_eq!(comment_syntax("markdown"), ("<!--", Some("-->")));
    assert_eq!(comment_syntax("css"), ("/*", Some("*/")));
    assert_eq!(comment_syntax("json"), ("//", None));
    assert_eq!(comment_syntax(""), ("//", None));
    assert_eq!(comment_syntax("cobol"), ("//", None));
}

#[test]
fn lock_files_are_recognised() {
    assert!(is_lock_file("Cargo.lock"));
    assert!(is_lock_file("web/package-lock.json"));
    assert!(is_lock_file("web/yarn.lock"));
    assert!(is_lock_file("py/Pipfile.lock"));
    assert!(is_lock_file("py/poetry.lock"));
    assert!(is_lock_file("deps/flake.lock"));
    assert!(!is_lock_file("Cargo.toml"));
    assert!(!is_lock_file("package.json"));
    assert!(!is_lock_file("lock"));
}

#[test]
fn hidden_components_below_the_root() {
    assert!(has_hidden_below_root("./a/.hidden/b.txt", "."));
    assert!(has_hidden_below_root("./.git/config", "."));
    assert!(!has_hidden_below_root("./a/b.txt", "."));
    assert!(!has_hidden_below_root("/home/u/.config/proj/src/a.rs", "/home/u/.config/proj"));
    assert!(has_hidden_below_root("/home/u/.config/proj/.env", "/home/u/.config/proj"));
    assert!(!has_hidden_below_root("./../x/a.rs", "."));
}

#[test]
fn hidden_directory_excludes_its_files() {
    let path = "./a/.hidden/b.txt";
    assert!(is_excluded(path, ".", &strings(&[path])));
    assert!(!is_excluded("./a/b.txt", ".", &strings(&["./a/b.txt"])));
}

#[test]
fn ignore_rules_fail_closed() {
    let listing = strings(&["./src", "./src/a.rs"]);
    assert!(!is_ignored_by_gitignore("./src/a.rs", &listing));
    assert!(is_ignored_by_gitignore("./src/b.rs", &listing));
    assert!(is_ignored_by_gitignore("./src/a.rs", &Vec::new()));
    assert!(is_excluded("./src/b.rs", ".", &listing));
}

#[test]
fn lock_file_excluded_even_when_listed() {
    let path = "./Cargo.lock";
    assert!(is_excluded(path, ".", &strings(&[path])));
}

#[test]
fn relative_paths() {
    assert_eq!(relative_to_root("./src/a.rs", "."), "src/a.rs");
    assert_eq!(relative_to_root("root/src/a.rs", "root/"), "src/a.rs");
    assert_eq!(relative_to_root("root/src/a.rs", "root"), "src/a.rs");
    assert_eq!(relative_to_root("rooted/a.rs", "root"), "rooted/a.rs");
    assert_eq!(relative_to_root("other/a.rs", "root"), "other/a.rs");
}

#[test]
fn rust_test_files() {
    assert!(is_rust_test_file("src/foo_test.rs"));
    assert!(is_rust_test_file("src/tests.rs"));
    assert!(is_rust_test_file("./tests/integration.rs"));
    assert!(is_rust_test_file("crate/tests/sub/util.rs"));
    assert!(!is_rust_test_file("src/main.rs"));
    assert!(!is_rust_test_file("tests/data.txt"));
    assert!(!is_rust_test_file("src/testsuite/a.rs"));
    assert!(!is_rust_test_file("src/latest.rs"));
}

#[test]
fn strip_removes_exactly_the_test_module() {
    let before = "fn main() {\n    println!(\"hi\");\n}\n\n";
    let region = "#[cfg(test)]\nmod tests {\n    #[test]\n    fn t() { assert!(true); }\n}";
    let after = "\n\nfn tail() {}\n";
    let source = format!("{before}{region}{after}");
    assert_eq!(strip_rust_tests(&source), format!("{before}{after}"));
}

#[test]
fn strip_marker_without_module_drops_marker_only() {
    assert_eq!(strip_rust_tests("#[cfg(test)]\nfn helper() {}\n"), "\nfn helper() {}\n");
}

#[test]
fn strip_marker_without_brace_drops_marker_only() {
    assert_eq!(strip_rust_tests("a#[cfg(test)] mod tests;"), "a mod tests;");
}

#[test]
fn strip_unclosed_module_drops_the_rest() {
    assert_eq!(strip_rust_tests("keep\n#[cfg(test)]\nmod tests {\n fn f() {"), "keep\n");
}

#[test]
fn strip_without_marker_is_identity() {
    let s = "fn a() { let x = '{'; }\nmod tests { }\n";
    assert_eq!(strip_rust_tests(s), s);
    assert_eq!(strip_rust_tests(""), "");
}

#[test]
fn strip_keeps_non_ascii_text() {
    assert_eq!(
        strip_rust_tests("// héllo → ü\n#[cfg(test)]\nmod tests { fn ü() {} }\nend"),
        "// héllo → ü\n\nend"
    );
}

#[test]
fn process_file_block_shape() {
    let (key, text) = process_file("src/main.rs", "fn main() {}\n", false);
    assert_eq!(key, "src/main.rs");
    assert_eq!(text, "```rust\n// src/main.rs\nfn main() {}\n```\n\n");
}

#[test]
fn process_file_with_closing_comment() {
    let (_, text) = process_file("docs/a.md", "# Title\n", false);
    assert_eq!(text, "```markdown\n<!-- docs/a.md -->\n# Title\n```\n\n");
}

#[test]
fn process_file_unknown_language() {
    let (_, text) = process_file("LICENSE", "text", false);
    assert_eq!(text, "```\n// LICENSE\ntext```\n\n");
}

#[test]
fn process_file_strips_rust_tests_when_asked() {
    let content = "fn a() {}\n#[cfg(test)]\nmod tests {\n    fn b() {}\n}\n";
    let (_, stripped) = process_file("src/lib.rs", content, true);
    assert_eq!(stripped, "```rust\n// src/lib.rs\nfn a() {}\n\n```\n\n");
    let (_, kept) = process_file("src/lib.rs", content, false);
    assert_eq!(kept, format!("```rust\n// src/lib.rs\n{content}```\n\n"));
    let (_, python) = process_file("a.py", content, true);
    assert_eq!(python, format!("```python\n# a.py\n{content}```\n\n"));
}

#[test]
fn glob_recursive_pattern_matches_relative_paths() {
    let set = compile_patterns(&strings(&["**/*.rs"])).ok().unwrap();
    let cands = vec![file("./src/a.rs"), file("./src/nested/b.rs"), file("./src/a.txt")];
    let selected = select_matching(&cands, ".", &set.patterns, false);
    assert_eq!(selected, strings(&["./src/a.rs", "./src/nested/b.rs"]));
}

#[test]
fn glob_matches_against_path_relative_to_root() {
    let set = compile_patterns(&strings(&["src/*.rs"])).ok().unwrap();
    let cands = vec![file("/work/proj/src/a.rs"), file("/work/proj/lib/src/b.rs")];
    let selected = select_matching(&cands, "/work/proj", &set.patterns, false);
    assert_eq!(selected, strings(&["/work/proj/src/a.rs"]));
}

#[test]
fn two_patterns_select_sorted_union() {
    let set = compile_patterns(&strings(&["*.go", "*.md"])).ok().unwrap();
    let cands = vec![file("root/c.txt"), file("root/b.md"), file("root/a.go")];
    let selected = select_matching(&cands, "root", &set.patterns, false);
    assert_eq!(selected, strings(&["root/a.go", "root/b.md"]));
}

#[test]
fn single_invalid_pattern_is_fatal() {
    let err = compile_patterns(&strings(&["["])).err().unwrap();
    assert_eq!(err.pattern, "[");
}

#[test]
fn invalid_pattern_among_several_is_dropped() {
    let set = compile_patterns(&strings(&["***", "*.rs", "["])).ok().unwrap();
    assert_eq!(set.patterns.len(), 1);
    assert_eq!(set.patterns[0].as_str(), "*.rs");
    let rejected: Vec<String> = set.rejected.iter().map(|e| e.pattern.clone()).collect();
    assert_eq!(rejected, strings(&["***", "["]));
}

#[test]
fn scenario_default_ignores() {
    // `.git` is hidden; `node_modules` is left out of its directory's
    // ignore-aware listing.
    let set = compile_patterns(&strings(&["**/*"])).ok().unwrap();
    let cands = vec![
        Candidate {
            path: "root/node_modules/pkg/index.x".to_string(),
            is_file: true,
            parent_listing: Vec::new(),
        },
        file("root/.git/config"),
        file("root/src/main.x"),
    ];
    let selected = select_matching(&cands, "root", &set.patterns, false);
    assert_eq!(selected, strings(&["root/src/main.x"]));
    let content = "1\n2\n3\n4\n5\n6\n7\n8\n9\n10\n";
    let chunk = process_file(&selected[0], content, false);
    let out = assemble(&vec![chunk]);
    assert_eq!(out.matches("```").count(), 2);
    assert!(out.starts_with("```\n// root/src/main.x\n1\n"));

    // The tree of `src`: the directory itself and its one file.
    let entries = vec![entry("main.x", "root/src/main.x", false)];
    let order = arrange_entries(&entries, "root", &strings(&["root/src/main.x"]));
    let mut listing = TreeListing::new();
    for (k, &i) in order.iter().enumerate() {
        listing.add_file(&child_prefix("", true), k + 1 == order.len(), &entries[i].name);
    }
    assert_eq!(listing.lines, strings(&[".", "    └── main.x"]));
    assert_eq!((listing.directories, listing.files), (1, 1));
}

#[test]
fn scenario_missing_explicit_file() {
    let cands = vec![Candidate {
        path: "./missing.txt".to_string(),
        is_file: false,
        parent_listing: Vec::new(),
    }];
    let selection = select_files(&cands, ".", false);
    assert_eq!(selection.invalid, strings(&["./missing.txt"]));
    assert!(selection.files.is_empty());
    assert_eq!(assemble(&Vec::new()), "");
}

#[test]
fn explicit_files_skip_excluded_and_tests() {
    let cands = vec![
        file("./b.rs"),
        file("./Cargo.lock"),
        file("./tests/it.rs"),
        file("./a.rs"),
        file("./a.rs"),
    ];
    let selection = select_files(&cands, ".", true);
    assert_eq!(selection.files, strings(&["./a.rs", "./b.rs"]));
    assert!(selection.invalid.is_empty());
    let with_tests = select_files(&cands, ".", false);
    assert_eq!(with_tests.files, strings(&["./a.rs", "./b.rs", "./tests/it.rs"]));
}

#[test]
fn sorted_unique_orders_by_code_point() {
    let paths = strings(&["b", "a/z", "a", "B", "a/z", "é", "ab"]);
    assert_eq!(sorted_unique(&paths), strings(&["B", "a", "a/z", "ab", "b", "é"]));
    assert!(sorted_unique(&Vec::new()).is_empty());
}

#[test]
fn assembly_ignores_collection_order() {
    let a = process_file("a.rs", "fn a() {}\n", false);
    let b = process_file("b.md", "# b\n", false);
    let c = process_file("c/d.py", "x = 1\n", false);
    let sequential = assemble(&vec![a.clone(), b.clone(), c.clone()]);
    let parallel = assemble(&vec![c.clone(), a.clone(), b.clone()]);
    assert_eq!(sequential, parallel);
    assert_eq!(sequential, format!("{}{}{}", a.1, b.1, c.1));
}

#[test]
fn tree_orders_directories_first_then_names() {
    let entries = vec![
        entry("zeta.rs", "./zeta.rs", false),
        entry("src", "./src", true),
        entry("Cargo.lock", "./Cargo.lock", false),
        entry("alpha.rs", "./alpha.rs", false),
        entry(".git", "./.git", true),
        entry("docs", "./docs", true),
        entry("ignored.log", "./ignored.log", false),
    ];
    let listing = strings(&[".", "./zeta.rs", "./src", "./Cargo.lock", "./alpha.rs", "./docs"]);
    let order = arrange_entries(&entries, ".", &listing);
    let names: Vec<&str> = order.iter().map(|&i| entries[i].name.as_str()).collect();
    assert_eq!(names, vec!["docs", "src", "alpha.rs", "zeta.rs"]);
    assert!(tree_entry_before(&entries[1], &entries[3]));
    assert!(!tree_entry_before(&entries[3], &entries[1]));
    assert!(tree_entry_before(&entries[3], &entries[0]));
}

#[test]
fn tree_lines_and_counts() {
    assert_eq!(entry_line("", false, "src"), "├── src");
    assert_eq!(entry_line("│   ", true, "main.rs"), "│   └── main.rs");
    assert_eq!(child_prefix("", true), "    ");
    assert_eq!(child_prefix("    ", false), "    │   ");
    let mut listing = TreeListing::new();
    listing.add_directory("    ", false, "src");
    listing.add_file("    │   ", true, "main.rs");
    listing.add_file("    ", true, "README.md");
    assert_eq!(
        listing.lines,
        strings(&[".", "    ├── src", "    │   └── main.rs", "    └── README.md"])
    );
    assert_eq!((listing.directories, listing.files), (2, 2));
}

#[test]
fn selection_follows_the_marks() {
    let cands = vec![file("./c.rs"), file("./b.rs"), file("./Cargo.lock"), file("./a.rs")];
    let wanted = vec![true, false, true];
    assert_eq!(select_wanted(&cands, ".", false, &wanted), strings(&["./c.rs"]));
    let all = vec![true, true, true, true];
    assert_eq!(select_wanted(&cands, ".", false, &all), strings(&["./a.rs", "./b.rs", "./c.rs"]));
    assert!(select_wanted(&cands, ".", false, &Vec::new()).is_empty());
}

#[test]
fn any_pattern_matches_is_a_disjunction() {
    let set = compile_patterns(&strings(&["*.go", "docs/**/*.md"])).ok().unwrap();
    assert!(any_pattern_matches(&set.patterns, "main.go"));
    assert!(any_pattern_matches(&set.patterns, "docs/a/b.md"));
    assert!(!any_pattern_matches(&set.patterns, "docs/a/b.txt"));
    assert!(!any_pattern_matches(&Vec::new(), "main.go"));
}

#[test]
fn tree_files_agree_with_selection() {
    let listing = strings(&["./x", "./x/a.rs", "./x/b.txt", "./x/sub"]);
    let entries = vec![
        entry("b.txt", "./x/b.txt", false),
        entry("poetry.lock", "./x/poetry.lock", false),
        entry(".env", "./x/.env", false),
        entry("a.rs", "./x/a.rs", false),
        entry("sub", "./x/sub", true),
        entry("gone.o", "./x/gone.o", false),
    ];
    let order = arrange_entries(&entries, ".", &listing);
    let tree_files: Vec<&str> = order
        .iter()
        .filter(|&&i| !entries[i].is_dir)
        .map(|&i| entries[i].name.as_str())
        .collect();
    let cands: Vec<Candidate> = entries
        .iter()
        .filter(|e| !e.is_dir)
        .map(|e| Candidate { path: e.path.clone(), is_file: true, parent_listing: listing.clone() })
        .collect();
    let set = compile_patterns(&strings(&["**/*"])).ok().unwrap();
    let selected = select_matching(&cands, ".", &set.patterns, false);
    assert_eq!(tree_files, vec!["a.rs", "b.txt"]);
    assert_eq!(selected, strings(&["./x/a.rs", "./x/b.txt"]));
}

#[test]
fn strip_needs_module_right_after_marker() {
    assert_eq!(
        strip_rust_tests("#[cfg(test)]\nfn h() {}\nmod tests {}\n"),
        "\nfn h() {}\nmod tests {}\n"
    );
}

#[test]
fn strip_allows_blank_lines_before_module() {
    assert_eq!(strip_rust_tests("a\n#[cfg(test)]\n\n  \tmod tests {\n}\nb"), "a\n\nb");
}

#[test]
fn strip_module_body_opens_at_first_brace() {
    assert_eq!(strip_rust_tests("#[cfg(test)]mod tests;{}"), "");
    assert_eq!(strip_rust_tests("#[cfg(test)]mod tests;{"), "");
    assert_eq!(strip_rust_tests("x\n#[cfg(test)]\nmod tests {\n fn t() {}\n"), "x\n");
}

#[test]
fn strip_accepts_any_whitespace_before_module() {
    assert_eq!(strip_rust_tests("a#[cfg(test)]\u{c}\u{b}\u{a0} mod tests {}b"), "ab");
}

#[test]
fn strip_removes_every_region() {
    let s = "A\n#[cfg(test)]\nmod tests { fn x() { {} } }\nB\n#[cfg(test)] mod tests {}\nC";
    assert_eq!(strip_rust_tests(s), "A\n\nB\n\nC");
}

#[test]
fn process_file_go_and_markdown_blocks() {
    let a = process_file("d/a.go", "package a\n", false);
    let b = process_file("d/b.md", "# B\n", false);
    assert_eq!(a, ("d/a.go".to_string(), "```go\n// d/a.go\npackage a\n```\n\n".to_string()));
    assert_eq!(b, ("d/b.md".to_string(), "```markdown\n<!-- d/b.md -->\n# B\n```\n\n".to_string()));
    assert_eq!(assemble(&vec![b.clone(), a.clone()]), format!("{}{}", a.1, b.1));
}

#[test]
fn tree_entries_get_connectors_by_place() {
    let entries = vec![
        entry("z.txt", "./z.txt", false),
        entry("src", "./src", true),
        entry("a.txt", "./a.txt", false),
    ];
    let listing = strings(&["./z.txt", "./src", "./a.txt"]);
    let order = arrange_entries(&entries, ".", &listing);
    let mut tree = TreeListing::new();
    let prefix = child_prefix("", true);
    let first = tree.add_entry(&entries, &order, 0, &prefix);
    assert_eq!(first, Some("    │   ".to_string()));
    assert_eq!(tree.add_entry(&entries, &order, 1, &prefix), None);
    assert_eq!(tree.add_entry(&entries, &order, 2, &prefix), None);
    assert_eq!(
        tree.lines,
        strings(&[".", "    ├── src", "    ├── a.txt", "    └── z.txt"])
    );
    assert_eq!((tree.directories, tree.files), (2, 2));
}

#[test]
fn tree_block_text_with_counts() {
    let mut tree = TreeListing::new();
    tree.add_file("    ", true, "main.x");
    assert_eq!(
        tree.block(),
        "Directory Structure:\n\n```text\n.\n    └── main.x\n\n1 directories, 1 files\n```\n"
    );
    assert_eq!(decimal_string(0), "0");
    assert_eq!(decimal_string(7), "7");
    assert_eq!(decimal_string(10), "10");
    assert_eq!(decimal_string(1234509), "1234509");
    assert_eq!(decimal_string(usize::MAX), usize::MAX.to_string());
}

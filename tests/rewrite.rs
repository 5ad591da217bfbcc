use std::collections::BTreeMap;
use std::path::PathBuf;

use grcov::{
    check_extension, fixup_rel_path, guess_abs_path, is_covered, is_hidden, locate_entry, map_partial_path,
    normalize_separators, remove_prefix, settle_entry, CovResult, FileIndex, FunctionMap, IgnoreGlobs,
    RewriteConfig, RewriteError, SourcePath,
};

fn empty_result() -> CovResult {
    CovResult { lines: BTreeMap::new(), branches: BTreeMap::new(), functions: FunctionMap::new() }
}

fn covered_result() -> CovResult {
    CovResult { lines: [(42, 1)].iter().cloned().collect(), branches: BTreeMap::new(), functions: FunctionMap::new() }
}

fn uncovered_result() -> CovResult {
    CovResult { lines: [(42, 0)].iter().cloned().collect(), branches: BTreeMap::new(), functions: FunctionMap::new() }
}

fn config(
    mapping: Option<&str>,
    source_dir: Option<&str>,
    prefix_dir: Option<&str>,
    ignore: Vec<String>,
    filter_option: Option<bool>,
    index: FileIndex,
) -> RewriteConfig {
    RewriteConfig {
        path_mapping: mapping.map(|m| serde_json::from_str(m).unwrap()),
        source_dir: source_dir.map(SourcePath::parse),
        prefix_dir: prefix_dir.map(SourcePath::parse),
        ignore_not_existing: false,
        to_ignore: IgnoreGlobs::new(&ignore).unwrap(),
        filter_option,
        file_to_paths: index,
    }
}

/// Runs every entry through the rewriter, with files that do not exist on disk.
fn rewrite_all(cfg: &RewriteConfig, entries: Vec<(&str, CovResult)>) -> Vec<(PathBuf, PathBuf, CovResult)> {
    let mut cache = None;
    let mut out = Vec::new();
    for (key, result) in entries {
        let located = locate_entry(cfg, key, &mut cache).unwrap();
        if let Some((abs, rel, result)) = settle_entry(cfg, located, None, false, result) {
            out.push((PathBuf::from(abs), PathBuf::from(rel), result));
        }
    }
    out
}

#[test]
fn test_rewrite_paths_basic() {
    let cfg = config(None, None, None, Vec::new(), None, FileIndex::new());
    let results = rewrite_all(&cfg, vec![("main.cpp", empty_result())]);
    let mut count = 0;
    for (abs_path, rel_path, result) in results {
        count += 1;
        assert_eq!(abs_path, PathBuf::from("main.cpp"));
        assert_eq!(rel_path, PathBuf::from("main.cpp"));
        assert_eq!(result, empty_result());
    }
    assert_eq!(count, 1);
}

#[test]
fn path_rewriting_test_rewrite_paths_remove_prefix() {
    let cfg = config(None, None, Some("/home/worker/src/workspace/"), Vec::new(), None, FileIndex::new());
    let results = rewrite_all(&cfg, vec![("/home/worker/src/workspace/main.cpp", empty_result())]);
    let mut count = 0;
    for (abs_path, rel_path, result) in results {
        count += 1;
        assert_eq!(abs_path, PathBuf::from("main.cpp"));
        assert_eq!(rel_path, PathBuf::from("main.cpp"));
        assert_eq!(result, empty_result());
    }
    assert_eq!(count, 1);
}

#[test]
fn path_rewriting_test_rewrite_paths_ignore_a_directory() {
    let cfg = config(None, None, None, vec!["mydir/*".to_string()], None, FileIndex::new());
    let results = rewrite_all(&cfg, vec![("main.cpp", empty_result()), ("mydir/prova.h", empty_result())]);
    let mut count = 0;
    for (abs_path, rel_path, result) in results {
        count += 1;
        assert_eq!(abs_path, PathBuf::from("main.cpp"));
        assert_eq!(rel_path, PathBuf::from("main.cpp"));
        assert_eq!(result, empty_result());
    }
    assert_eq!(count, 1);
}

#[test]
fn path_rewriting_test_rewrite_paths_ignore_multiple_directories() {
    let mut ignore_dirs = vec!["mydir/*".to_string(), "mydir2/*".to_string()];
    for _ in 0..2 {
        let cfg = config(None, None, None, ignore_dirs.clone(), None, FileIndex::new());
        let results = rewrite_all(
            &cfg,
            vec![("main.cpp", empty_result()), ("mydir/prova.h", empty_result()), ("mydir2/prova.h", empty_result())],
        );
        let mut count = 0;
        for (abs_path, rel_path, result) in results {
            count += 1;
            assert_eq!(abs_path, PathBuf::from("main.cpp"));
            assert_eq!(rel_path, PathBuf::from("main.cpp"));
            assert_eq!(result, empty_result());
        }
        assert_eq!(count, 1);
        ignore_dirs.reverse();
    }
}

#[test]
fn path_rewriting_test_rewrite_paths_rewrite_path_using_mapping() {
    let cfg = config(Some(r#"{"class/main.cpp": "rewritten/main.cpp"}"#), None, None, Vec::new(), None, FileIndex::new());
    let results = rewrite_all(&cfg, vec![("class/main.cpp", empty_result())]);
    let mut count = 0;
    for (abs_path, rel_path, result) in results {
        count += 1;
        assert_eq!(abs_path, PathBuf::from("rewritten/main.cpp"));
        assert_eq!(rel_path, PathBuf::from("rewritten/main.cpp"));
        assert_eq!(result, empty_result());
    }
    assert_eq!(count, 1);
}

#[test]
fn test_rewrite_paths_only_covered() {
    let cfg = config(None, None, None, Vec::new(), Some(true), FileIndex::new());
    let results = rewrite_all(&cfg, vec![("covered.cpp", covered_result()), ("uncovered.cpp", uncovered_result())]);
    let mut count = 0;
    for (abs_path, rel_path, result) in results {
        count += 1;
        assert_eq!(abs_path, PathBuf::from("covered.cpp"));
        assert_eq!(rel_path, PathBuf::from("covered.cpp"));
        assert_eq!(result, covered_result());
    }
    assert_eq!(count, 1);
}

#[test]
fn test_rewrite_paths_only_uncovered() {
    let cfg = config(None, None, None, Vec::new(), Some(false), FileIndex::new());
    let results = rewrite_all(&cfg, vec![("covered.cpp", covered_result()), ("uncovered.cpp", uncovered_result())]);
    let mut count = 0;
    for (abs_path, rel_path, result) in results {
        count += 1;
        assert_eq!(abs_path, PathBuf::from("uncovered.cpp"));
        assert_eq!(rel_path, PathBuf::from("uncovered.cpp"));
        assert_eq!(result, uncovered_result());
    }
    assert_eq!(count, 1);
}

#[test]
fn prefix_stripping_yields_relative_paths() {
    let cfg = config(None, None, Some("/home/w/src/workspace/"), Vec::new(), None, FileIndex::new());
    let results = rewrite_all(&cfg, vec![("/home/w/src/workspace/main.cpp", empty_result())]);
    assert_eq!(results.len(), 1);
    assert_eq!(results[0].0, PathBuf::from("main.cpp"));
    assert_eq!(results[0].1, PathBuf::from("main.cpp"));
}

#[test]
fn mapping_applies_before_the_prefix_is_removed() {
    let cfg = config(
        Some(r#"{"/home/worker/src/workspace/rewritten/main.cpp": "/home/worker/src/workspace/class/main.cpp"}"#),
        None,
        Some("/home/worker/src/workspace"),
        Vec::new(),
        None,
        FileIndex::new(),
    );
    let results = rewrite_all(&cfg, vec![("/home/worker/src/workspace/rewritten/main.cpp", empty_result())]);
    assert_eq!(results.len(), 1);
    assert_eq!(results[0].1, PathBuf::from("class/main.cpp"));
}

#[test]
fn mapping_matches_a_key_with_a_flipped_first_character() {
    let cfg = config(Some(r#"{"C:/work/a.cpp": "lib/a.cpp"}"#), None, None, Vec::new(), None, FileIndex::new());
    let results = rewrite_all(&cfg, vec![("c:\\work\\a.cpp", empty_result())]);
    assert_eq!(results.len(), 1);
    assert_eq!(results[0].0, PathBuf::from("lib/a.cpp"));
}

#[test]
fn ignored_paths_are_dropped_whatever_the_filters() {
    let cfg = config(None, None, None, vec!["gen/**".to_string()], Some(true), FileIndex::new());
    let results = rewrite_all(&cfg, vec![("gen/x/a.cpp", covered_result()), ("src/a.cpp", covered_result())]);
    assert_eq!(results.len(), 1);
    assert_eq!(results[0].1, PathBuf::from("src/a.cpp"));
}

#[test]
fn source_directory_ancestor_is_guessed_and_cached() {
    let cfg = config(None, Some("/home/w/src"), None, Vec::new(), None, FileIndex::new());
    let results = rewrite_all(&cfg, vec![("src/a.cpp", empty_result()), ("src/b/c.cpp", empty_result())]);
    assert_eq!(results.len(), 2);
    assert_eq!(results[0].0, PathBuf::from("/home/w/src/a.cpp"));
    assert_eq!(results[0].1, PathBuf::from("a.cpp"));
    assert_eq!(results[1].0, PathBuf::from("/home/w/src/b/c.cpp"));
    assert_eq!(results[1].1, PathBuf::from("b/c.cpp"));
}

#[test]
fn partial_java_paths_resolve_through_the_index() {
    let mut index = FileIndex::new();
    index.add_file(SourcePath::parse("test/java/main.java"));
    index.add_file(SourcePath::parse("main.rs"));
    let cfg = config(None, Some("/repo"), None, Vec::new(), None, index);
    let results = rewrite_all(&cfg, vec![("java/main.java", empty_result())]);
    assert_eq!(results.len(), 1);
    assert_eq!(results[0].0, PathBuf::from("/repo/test/java/main.java"));
    assert_eq!(results[0].1, PathBuf::from("test/java/main.java"));
}

#[test]
fn ambiguous_partial_paths_are_refused() {
    let mut index = FileIndex::new();
    index.add_file(SourcePath::parse("a/x/Main.java"));
    index.add_file(SourcePath::parse("b/x/Main.java"));
    let r = map_partial_path(&index, SourcePath::parse("x/Main.java"));
    assert_eq!(r.unwrap_err(), RewriteError::AmbiguousPath("x/Main.java".to_string()));
    let r = map_partial_path(&index, SourcePath::parse("b/x/Main.java")).unwrap();
    assert_eq!(r.to_text(), "b/x/Main.java");
    let r = map_partial_path(&index, SourcePath::parse("y/Main.java")).unwrap();
    assert_eq!(r.to_text(), "y/Main.java");
}

#[test]
fn walked_files_are_indexed_unless_ignored() {
    let root = SourcePath::parse("/repo");
    let ignore = IgnoreGlobs::new(&vec!["build/*".to_string()]).unwrap();
    let mut index = FileIndex::new();
    index.add_walked_file(&root, "/repo/src/Main.java", &ignore);
    index.add_walked_file(&root, "/repo/build/Main.java", &ignore);
    let r = map_partial_path(&index, SourcePath::parse("Main.java")).unwrap();
    assert_eq!(r.to_text(), "src/Main.java");
}

#[test]
fn paths_parse_and_print_by_components() {
    assert_eq!(SourcePath::parse("/a//b/./c/").to_text(), "/a/b/c");
    assert_eq!(SourcePath::parse("a/b").to_text(), "a/b");
    assert_eq!(SourcePath::parse("").to_text(), "");
    assert!(SourcePath::parse("/a/b").starts_with(&SourcePath::parse("/a")));
    assert!(!SourcePath::parse("/ab").starts_with(&SourcePath::parse("/a")));
    assert!(SourcePath::parse("/x/a/b").ends_with(&SourcePath::parse("a/b")));
    assert_eq!(SourcePath::parse("/x").join(&SourcePath::parse("y/z")).to_text(), "/x/y/z");
    assert_eq!(SourcePath::parse("/x").join(&SourcePath::parse("/y")).to_text(), "/y");
}

#[test]
fn prefix_is_removed_only_where_it_leads() {
    let prefix = Some(SourcePath::parse("/home/w"));
    assert_eq!(remove_prefix(&prefix, SourcePath::parse("/home/w/a.c")).to_text(), "a.c");
    assert_eq!(remove_prefix(&prefix, SourcePath::parse("/home/wx/a.c")).to_text(), "/home/wx/a.c");
    assert_eq!(remove_prefix(&None, SourcePath::parse("/home/w/a.c")).to_text(), "/home/w/a.c");
}

#[test]
fn guessing_uses_the_longest_ancestor_then_the_cache() {
    let prefix = SourcePath::parse("/p/a/b");
    let mut cache = None;
    let r = guess_abs_path(&prefix, &SourcePath::parse("a/b/f.c"), &mut cache);
    assert_eq!(r.to_text(), "/p/a/b/f.c");
    assert_eq!(cache.as_ref().unwrap().to_text(), "a/b");
    let r = guess_abs_path(&prefix, &SourcePath::parse("a/b/g/h.c"), &mut cache);
    assert_eq!(r.to_text(), "/p/a/b/g/h.c");
    let r = guess_abs_path(&prefix, &SourcePath::parse("q/f.c"), &mut cache);
    assert_eq!(r.to_text(), "/p/a/b/q/f.c");
    assert_eq!(cache.as_ref().unwrap().to_text(), "a/b");
}

#[test]
fn relative_path_follows_the_resolved_absolute_path() {
    let src = Some(SourcePath::parse("/repo"));
    let abs = SourcePath::parse("/repo/lib/a.c");
    assert_eq!(fixup_rel_path(&src, &abs, SourcePath::parse("link/a.c")).to_text(), "lib/a.c");
    let outside = SourcePath::parse("/other/a.c");
    assert_eq!(fixup_rel_path(&src, &outside, SourcePath::parse("/x/a.c")).to_text(), "/other/a.c");
    assert_eq!(fixup_rel_path(&src, &outside, SourcePath::parse("x/a.c")).to_text(), "x/a.c");
}

#[test]
fn extensions_follow_the_last_dot() {
    assert!(check_extension(&SourcePath::parse("a/Main.java"), "java"));
    assert!(!check_extension(&SourcePath::parse("a/Main.javax"), "java"));
    assert!(!check_extension(&SourcePath::parse("a/.java"), "java"));
    assert!(check_extension(&SourcePath::parse("a.b/c.d.java"), "java"));
    assert!(!check_extension(&SourcePath::parse("java"), "java"));
}

#[test]
fn separators_hidden_names_and_coverage() {
    assert_eq!(normalize_separators("a\\b/c\\d"), "a/b/c/d");
    assert!(is_hidden(".git"));
    assert!(!is_hidden("src"));
    assert!(is_covered(&covered_result()));
    assert!(!is_covered(&uncovered_result()));
    assert!(!is_covered(&empty_result()));
}

#[test]
fn resolved_paths_replace_the_candidate() {
    let cfg = config(None, Some("/repo"), None, Vec::new(), None, FileIndex::new());
    let mut cache = None;
    let located = locate_entry(&cfg, "link/a.c", &mut cache).unwrap();
    let settled = settle_entry(&cfg, located, Some(SourcePath::parse("/repo/real/a.c")), true, empty_result()).unwrap();
    assert_eq!(settled.0, "/repo/real/a.c");
    assert_eq!(settled.1, "real/a.c");
}

#[test]
fn missing_files_are_dropped_when_asked() {
    let mut cfg = config(None, None, None, Vec::new(), None, FileIndex::new());
    cfg.ignore_not_existing = true;
    let mut cache = None;
    let located = locate_entry(&cfg, "gone.c", &mut cache).unwrap();
    assert!(settle_entry(&cfg, located, None, false, empty_result()).is_none());
    let located = locate_entry(&cfg, "here.c", &mut cache).unwrap();
    assert!(settle_entry(&cfg, located, None, true, empty_result()).is_some());
}

#[test]
fn invalid_ignore_patterns_are_refused() {
    assert!(matches!(IgnoreGlobs::new(&vec!["a[".to_string()]), Err(RewriteError::InvalidGlob)));
    assert!(IgnoreGlobs::new(&vec!["a/*".to_string(), "*.h".to_string()]).is_ok());
    let globs = IgnoreGlobs::new(&vec!["*.h".to_string()]).unwrap();
    assert!(globs.is_match("x/y.h"));
    assert!(!globs.is_match("x/y.c"));
}

const CWD: &str = "/work";

/// The files of the simulated disk, as absolute paths.
const DISK: &[&str] = &["/work/tests/class/main.cpp", "/work/test/java/main.java"];

/// Resolves a path on the simulated disk, as the file system would.
fn resolve(candidate: &SourcePath) -> Option<SourcePath> {
    let text = candidate.to_text();
    let abs = if candidate.is_absolute() { text } else { format!("{}/{}", CWD, text) };
    if DISK.contains(&abs.as_str()) {
        Some(SourcePath::parse(&abs))
    } else {
        None
    }
}

/// The index of the files under `dir` on the simulated disk.
fn index_under(dir: &str) -> FileIndex {
    let root = SourcePath::parse(dir);
    let ignore = IgnoreGlobs::new(&Vec::new()).unwrap();
    let mut index = FileIndex::new();
    for file in DISK {
        index.add_walked_file(&root, file, &ignore);
    }
    index
}

/// Runs every entry through the rewriter against the simulated disk.
fn rewrite_on_disk(cfg: &RewriteConfig, entries: Vec<(&str, CovResult)>) -> Vec<(PathBuf, PathBuf, CovResult)> {
    let mut cache = None;
    let mut out = Vec::new();
    for (key, result) in entries {
        let located = locate_entry(cfg, key, &mut cache).unwrap();
        let canonical = resolve(&located.candidate);
        let exists = canonical.is_some();
        if let Some((abs, rel, result)) = settle_entry(cfg, located, canonical, exists, result) {
            out.push((PathBuf::from(abs), PathBuf::from(rel), result));
        }
    }
    out
}

fn disk_config(mapping: Option<&str>, source_dir: Option<&str>, prefix_dir: Option<&str>) -> RewriteConfig {
    let index = match source_dir {
        Some(dir) => index_under(dir),
        None => FileIndex::new(),
    };
    let mut cfg = config(mapping, source_dir, prefix_dir, Vec::new(), None, index);
    cfg.ignore_not_existing = true;
    cfg
}

#[test]
fn path_rewriting_test_rewrite_paths_ignore_non_existing_files() {
    let cfg = disk_config(None, None, None);
    let results =
        rewrite_on_disk(&cfg, vec![("tests/class/main.cpp", empty_result()), ("tests/class/doesntexist.cpp", empty_result())]);
    let mut count = 0;
    for (abs_path, rel_path, result) in results {
        count += 1;
        assert!(abs_path.is_absolute(), "{} is not absolute", abs_path.display());
        assert!(abs_path.ends_with("tests/class/main.cpp"));
        assert!(rel_path.ends_with("tests/class/main.cpp"));
        assert_eq!(result, empty_result());
    }
    assert_eq!(count, 1);
}

#[test]
fn path_rewriting_test_rewrite_paths_rewrite_path_using_absolute_source_directory() {
    let cfg = disk_config(None, Some("/work/test"), None);
    let results =
        rewrite_on_disk(&cfg, vec![("java/main.java", empty_result()), ("test/java/main.java", empty_result())]);
    let mut count = 0;
    for (abs_path, rel_path, result) in results {
        count += 1;
        assert!(abs_path.is_absolute());
        assert!(abs_path.ends_with("test/java/main.java"));
        assert_eq!(rel_path, PathBuf::from("java/main.java"));
        assert_eq!(result, empty_result());
    }
    assert_eq!(count, 2);
}

#[test]
fn path_rewriting_test_rewrite_paths_rewrite_path_for_java_and_rust() {
    let cfg = disk_config(None, Some(CWD), None);
    let mut results = rewrite_on_disk(&cfg, vec![("java/main.java", empty_result()), ("main.rs", empty_result())]);
    assert!(results.len() == 1);

    let (abs_path, rel_path, result) = results.remove(0);
    assert!(abs_path.is_absolute());
    assert!(abs_path.ends_with("test/java/main.java"));
    assert_eq!(rel_path, PathBuf::from("test/java/main.java"));
    assert_eq!(result, empty_result());
}

#[test]
fn path_rewriting_test_rewrite_paths_rewrite_path_using_absolute_source_directory_and_partial_path() {
    let cfg = disk_config(None, Some(CWD), None);
    let results = rewrite_on_disk(&cfg, vec![("java/main.java", empty_result())]);
    let mut count = 0;
    for (abs_path, rel_path, result) in results {
        count += 1;
        assert!(abs_path.is_absolute());
        assert!(abs_path.ends_with("test/java/main.java"));
        assert_eq!(rel_path, PathBuf::from("test/java/main.java"));
        assert_eq!(result, empty_result());
    }
    assert_eq!(count, 1);
}

#[test]
fn path_rewriting_test_rewrite_paths_rewrite_path_and_remove_prefix() {
    let cfg = disk_config(None, Some("/work/tests"), Some("/home/worker/src/workspace"));
    let results = rewrite_on_disk(&cfg, vec![("/home/worker/src/workspace/class/main.cpp", empty_result())]);
    let mut count = 0;
    for (abs_path, rel_path, result) in results {
        count += 1;
        assert!(abs_path.is_absolute());
        assert!(abs_path.ends_with("tests/class/main.cpp"));
        assert_eq!(rel_path, PathBuf::from("class/main.cpp"));
        assert_eq!(result, empty_result());
    }
    assert_eq!(count, 1);
}

#[test]
fn path_rewriting_test_rewrite_paths_rewrite_path_using_mapping_and_ignore_non_existing() {
    let cfg = disk_config(
        Some(r#"{"rewritten/main.cpp": "tests/class/main.cpp", "tests/class/main.cpp": "rewritten/main.cpp"}"#),
        None,
        None,
    );
    let results =
        rewrite_on_disk(&cfg, vec![("rewritten/main.cpp", empty_result()), ("tests/class/main.cpp", empty_result())]);
    let mut count = 0;
    for (abs_path, rel_path, result) in results {
        count += 1;
        assert!(abs_path.is_absolute());
        assert!(abs_path.ends_with("tests/class/main.cpp"));
        assert_eq!(rel_path, PathBuf::from("tests/class/main.cpp"));
        assert_eq!(result, empty_result());
    }
    assert_eq!(count, 1);
}

#[test]
fn path_rewriting_test_rewrite_paths_rewrite_path_using_mapping_and_remove_prefix() {
    let cfg = disk_config(
        Some(r#"{"/home/worker/src/workspace/rewritten/main.cpp": "tests/class/main.cpp"}"#),
        None,
        Some("/home/worker/src/workspace"),
    );
    let results = rewrite_on_disk(&cfg, vec![("/home/worker/src/workspace/rewritten/main.cpp", empty_result())]);
    let mut count = 0;
    for (abs_path, rel_path, result) in results {
        count += 1;
        assert!(abs_path.is_absolute());
        assert!(abs_path.ends_with("tests/class/main.cpp"));
        assert_eq!(rel_path, PathBuf::from("tests/class/main.cpp"));
        assert_eq!(result, empty_result());
    }
    assert_eq!(count, 1);
}

#[test]
fn path_rewriting_test_rewrite_paths_rewrite_path_using_mapping_and_source_directory_and_remove_prefix() {
    let cfg = disk_config(
        Some(r#"{"/home/worker/src/workspace/rewritten/main.cpp": "class/main.cpp"}"#),
        Some("/work/tests"),
        Some("/home/worker/src/workspace"),
    );
    let results = rewrite_on_disk(&cfg, vec![("/home/worker/src/workspace/rewritten/main.cpp", empty_result())]);
    let mut count = 0;
    for (abs_path, rel_path, result) in results {
        count += 1;
        assert!(abs_path.is_absolute());
        assert!(abs_path.ends_with("tests/class/main.cpp"));
        assert_eq!(rel_path, PathBuf::from("class/main.cpp"));
        assert_eq!(result, empty_result());
    }
    assert_eq!(count, 1);
}

#[test]
fn test_rewrite_paths_remove_prefix_with_slash() {
    let cfg = config(None, None, Some("C:/Users/worker/src/workspace/"), Vec::new(), None, FileIndex::new());
    let results = rewrite_all(&cfg, vec![("C:/Users/worker/src/workspace/main.cpp", empty_result())]);
    let mut count = 0;
    for (abs_path, rel_path, result) in results {
        count += 1;
        assert_eq!(abs_path, PathBuf::from("main.cpp"));
        assert_eq!(rel_path, PathBuf::from("main.cpp"));
        assert_eq!(result, empty_result());
    }
    assert_eq!(count, 1);
}

#[test]
fn test_rewrite_paths_remove_prefix_with_slash_longer_path() {
    let cfg = config(None, None, Some("C:/Users/worker/src/"), Vec::new(), None, FileIndex::new());
    let results = rewrite_all(&cfg, vec![("C:/Users/worker/src/workspace/main.cpp", empty_result())]);
    let mut count = 0;
    for (abs_path, rel_path, result) in results {
        count += 1;
        assert_eq!(abs_path, PathBuf::from("workspace/main.cpp"));
        assert_eq!(rel_path.to_str().unwrap(), "workspace/main.cpp");
        assert_eq!(result, empty_result());
    }
    assert_eq!(count, 1);
}

#[test]
fn absolute_keys_report_the_resolved_path_without_a_source_directory() {
    let abs = SourcePath::parse("/real/a.c");
    assert_eq!(fixup_rel_path(&None, &abs, SourcePath::parse("/link/a.c")).to_text(), "/real/a.c");
    assert_eq!(fixup_rel_path(&None, &abs, SourcePath::parse("link/a.c")).to_text(), "link/a.c");
    let cfg = config(None, None, None, Vec::new(), None, FileIndex::new());
    let mut cache = None;
    let located = locate_entry(&cfg, "/link/a.c", &mut cache).unwrap();
    let settled = settle_entry(&cfg, located, Some(SourcePath::parse("/real/a.c")), true, empty_result()).unwrap();
    assert_eq!(settled.0, "/real/a.c");
    assert_eq!(settled.1, "/real/a.c");
}

#[test]
fn mapping_to_a_value_that_is_not_text_is_an_error() {
    let cfg = config(Some(r#"{"a.c": 3}"#), None, None, Vec::new(), None, FileIndex::new());
    let mut cache = None;
    assert!(matches!(locate_entry(&cfg, "a.c", &mut cache), Err(RewriteError::MappingNotText(_))));
    assert!(locate_entry(&cfg, "b.c", &mut cache).is_ok());
}

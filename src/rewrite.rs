//! The rewriter: from the raw key of a result to its absolute and relative
//! reporting paths, and the filters that leave results out.
//!
//! Each entry goes through two steps. `locate_entry` computes the relative
//! path and the absolute path to resolve on disk; the caller resolves it
//! (symbolic links, `.` and `..`) and checks that it exists; `settle_entry`
//! then computes the reported paths and applies the filters.

use std::collections::BTreeMap;
use vstd::prelude::*;
use vstd::std_specs::btree::spec_btree_map_iter;
use vstd::std_specs::iter::IteratorSpec;

use crate::defs::{CovModel, CovResult};
use crate::globs::{any_glob_matches, IgnoreGlobs};
use crate::mapping::{apply_mapping, json_members, mapped};
use crate::text::lowercase_first;
use crate::paths::{
    candidate, candidate_abs_path, check_extension, ends_with, fixed_rel, get_abs_path, has_extension,
    opt_view, path_of, remove_prefix, removed_prefix, strip_prefix, starts_with, text_of, PathModel,
    SourcePath,
};
use crate::strmap::StrMap;
use crate::text::{chars_of, string_of};

verus! {

broadcast use vstd::std_specs::btree::group_btree_axioms;

/// Why an entry could not be rewritten.
#[derive(Debug, Clone, PartialEq, Eq)]
pub enum RewriteError {
    /// More than one file of the source tree ends with this path.
    AmbiguousPath(String),
    /// An ignore pattern is not a valid glob.
    InvalidGlob,
    /// The mapping table maps this key to a value that is not text.
    MappingNotText(String),
}

/// `s` with each `\` replaced by `/`.
pub open spec fn normalized(s: Seq<char>) -> Seq<char> {
    s.map_values(|c: char| if c == '\\' { '/' } else { c })
}

/// Replaces each `\` of `s` by `/`.
pub fn normalize_separators(s: &str) -> (r: String)
    ensures
        r@ == normalized(s@),
{
    let cs = chars_of(s);
    let mut out: Vec<char> = Vec::new();
    let mut i: usize = 0;
    while i < cs.len()
        invariant
            cs@ == s@,
            i <= cs@.len(),
            out@ == normalized(cs@.take(i as int)),
        decreases cs@.len() - i,
    {
        let c = cs[i];
        out.push(if c == '\\' { '/' } else { c });
        i = i + 1;
        assert(out@ =~= normalized(cs@.take(i as int)));
    }
    assert(cs@.take(i as int) =~= cs@);
    string_of(out.as_slice())
}

/// Whether a directory entry's name marks it hidden: it starts with a dot.
pub fn is_hidden(name: &str) -> (r: bool)
    ensures
        r == (name@.len() > 0 && name@[0] == '.'),
{
    let cs = chars_of(name);
    cs.len() > 0 && cs[0] == '.'
}

/// Whether any line of the result ran.
pub open spec fn covered(r: CovModel) -> bool {
    exists|k: u32| r.lines.contains_key(k) && r.lines[k] > 0
}

/// Whether any line of `result` ran.
pub fn is_covered(result: &CovResult) -> (r: bool)
    ensures
        r == covered(result@),
{
    let lines: &BTreeMap<u32, u64> = &result.lines;
    let iter0 = lines.iter();
    let ghost s0 = iter0.remaining();
    let mut found = false;
    for kv in it: iter0
        invariant
            it.seq() == s0,
            s0 == spec_btree_map_iter(lines).remaining(),
            found <==> exists|j: int| 0 <= j < it.index() && *s0[j].1 > 0,
    {
        let (_, v) = kv;
        assert(s0[it.index() as int] == kv);
        if *v > 0 {
            found = true;
        }
    }
    proof {
        if found {
            let j = choose|j: int| 0 <= j < s0.len() && *s0[j].1 > 0;
            assert(lines@.contains_key(*s0[j].0));
            assert(lines@[*s0[j].0] == *s0[j].1);
            assert(result@.lines.contains_key(*s0[j].0) && result@.lines[*s0[j].0] > 0);
        }
        if covered(result@) {
            let k = choose|k: u32| lines@.contains_key(k) && lines@[k] > 0;
            assert(s0.contains((&k, &lines@[k])));
            let j = choose|j: int| 0 <= j < s0.len() && s0[j] == (&k, &lines@[k]);
            assert(*s0[j].1 > 0);
        }
    }
    found
}

/// Whether the result passes the covered filter: `Some(true)` keeps the
/// covered ones, `Some(false)` the others, `None` all.
pub open spec fn passes_filter(filter: Option<bool>, r: CovModel) -> bool {
    match filter {
        Some(want) => covered(r) == want,
        None => true,
    }
}

/// The content of a list of paths.
pub open spec fn path_views(v: Seq<SourcePath>) -> Seq<PathModel> {
    v.map_values(|p: SourcePath| p@)
}

/// The files of the source tree, by file name, as paths relative to it.
pub struct FileIndex {
    by_name: StrMap<Vec<SourcePath>>,
}

impl FileIndex {
    /// Each file name, with the relative paths of the files of that name.
    pub closed spec fn spec_index(&self) -> Map<Seq<char>, Seq<PathModel>> {
        self.by_name@.map_values(|v: Vec<SourcePath>| path_views(v@))
    }

    /// An index of no files.
    pub fn new() -> (r: FileIndex)
        ensures
            r.spec_index() == Map::<Seq<char>, Seq<PathModel>>::empty(),
    {
        let r = FileIndex { by_name: StrMap::new() };
        assert(r.spec_index() =~= Map::<Seq<char>, Seq<PathModel>>::empty());
        r
    }

    /// Adds the file at the relative path `rel`, under its file name.
    pub fn add_file(&mut self, rel: SourcePath)
        requires
            rel@.parts.len() > 0,
        ensures
            ({
                let name = rel@.parts.last();
                let before = if old(self).spec_index().contains_key(name) {
                    old(self).spec_index()[name]
                } else {
                    Seq::empty()
                };
                final(self).spec_index() == old(self).spec_index().insert(name, before.push(rel@))
            }),
    {
        let name = rel.file_name();
        let ghost old_index = self.spec_index();
        let ghost old_map = self.by_name@;
        let mut paths = match self.by_name.insert(name.clone(), Vec::new()) {
            Some(v) => v,
            None => Vec::new(),
        };
        let ghost before = path_views(paths@);
        proof {
            if old_index.contains_key(name@) {
                assert(old_map.contains_key(name@));
                assert(before == old_index[name@]);
            } else {
                assert(before =~= Seq::<PathModel>::empty());
            }
        }
        paths.push(rel);
        proof {
            assert(path_views(paths@) =~= before.push(rel@));
        }
        self.by_name.insert(name, paths);
        proof {
            assert(self.spec_index() =~= old_index.insert(rel@.parts.last(), before.push(rel@)));
        }
    }

    /// Adds a file found at `full_path` while walking `source_dir`, unless
    /// a pattern of `ignore` matches its path relative to `source_dir`.
    pub fn add_walked_file(&mut self, source_dir: &SourcePath, full_path: &str, ignore: &IgnoreGlobs)
        ensures
            ({
                let full = path_of(full_path@);
                let rel = strip_prefix(full, source_dir@);
                let name = rel.parts.last();
                let before = if old(self).spec_index().contains_key(name) {
                    old(self).spec_index()[name]
                } else {
                    Seq::empty()
                };
                if starts_with(full, source_dir@) && rel.parts.len() > 0 && !any_glob_matches(
                    ignore.patterns(),
                    text_of(rel),
                ) {
                    final(self).spec_index() == old(self).spec_index().insert(name, before.push(rel))
                } else {
                    final(self).spec_index() == old(self).spec_index()
                }
            }),
    {
        let full = SourcePath::parse(full_path);
        if !full.starts_with(source_dir) {
            return;
        }
        let rel = full.strip_prefix(source_dir);
        if rel.len() == 0 {
            return;
        }
        if ignore.is_match(rel.to_text().as_str()) {
            return;
        }
        self.add_file(rel);
    }
}

impl SourcePath {
    /// The last component, as text.
    pub fn file_name(&self) -> (r: String)
        requires
            self@.parts.len() > 0,
        ensures
            r@ == self@.parts.last(),
    {
        let n = self.len();
        self.last_part(n - 1)
    }
}

/// Whether option `i` ends with `p`.
pub open spec fn suffix_match(opts: Seq<PathModel>, p: PathModel, i: int) -> bool {
    0 <= i < opts.len() && ends_with(opts[i], p)
}

/// Whether two options end with `p`.
pub open spec fn ambiguous(opts: Seq<PathModel>, p: PathModel) -> bool {
    exists|i: int, j: int| i != j && suffix_match(opts, p, i) && suffix_match(opts, p, j)
}

/// The full path of the file that a partial path names: the only file of
/// its name, else the only file of its name that ends with it; `None`
/// where two such files end with it; the path itself where there is no such
/// file.
pub open spec fn partial_mapped(index: Map<Seq<char>, Seq<PathModel>>, p: PathModel) -> Option<PathModel> {
    if p.parts.len() > 0 && index.contains_key(p.parts.last()) {
        let opts = index[p.parts.last()];
        if opts.len() == 1 {
            Some(opts[0])
        } else if ambiguous(opts, p) {
            None
        } else if exists|i: int| suffix_match(opts, p, i) {
            Some(opts[choose|i: int| suffix_match(opts, p, i)])
        } else {
            Some(p)
        }
    } else {
        Some(p)
    }
}

/// Maps a partial path to the full path of the one file of the source tree
/// that it names.
#[verifier::loop_isolation(false)]
pub fn map_partial_path(file_to_paths: &FileIndex, path: SourcePath) -> (r: Result<SourcePath, RewriteError>)
    ensures
        match partial_mapped(file_to_paths.spec_index(), path@) {
            Some(m) => r matches Ok(q) && q@ == m,
            None => r is Err,
        },
{
    if path.len() == 0 {
        return Ok(path);
    }
    let name = path.file_name();
    let options = match file_to_paths.by_name.get(name.as_str()) {
        Some(v) => v,
        None => {
            return Ok(path);
        },
    };
    let ghost opts = path_views(options@);
    proof {
        assert(file_to_paths.spec_index().contains_key(path@.parts.last()));
        assert(file_to_paths.spec_index()[path@.parts.last()] == opts);
    }
    if options.len() == 1 {
        return Ok(options[0].clone());
    }
    let mut result: Option<usize> = None;
    let mut i: usize = 0;
    while i < options.len()
        invariant
            opts == path_views(options@),
            i <= options@.len(),
            match result {
                Some(j) => j < i && suffix_match(opts, path@, j as int) && forall|x: int|
                    0 <= x < i && x != j ==> !suffix_match(opts, path@, x),
                None => forall|x: int| 0 <= x < i ==> !suffix_match(opts, path@, x),
            },
        decreases options@.len() - i,
    {
        if options[i].ends_with(&path) {
            if let Some(j) = result {
                proof {
                    assert(opts.len() != 1);
                    assert(suffix_match(opts, path@, i as int));
                    assert(suffix_match(opts, path@, j as int));
                    assert(ambiguous(opts, path@));
                }
                return Err(RewriteError::AmbiguousPath(path.to_text()));
            }
            result = Some(i);
        }
        i = i + 1;
    }
    proof {
        if ambiguous(opts, path@) {
            let (x, y) = choose|x: int, y: int| x != y && suffix_match(opts, path@, x) && suffix_match(opts, path@, y);
        }
    }
    match result {
        Some(j) => {
            proof {
                let c = choose|x: int| suffix_match(opts, path@, x);
                assert(c == j);
            }
            Ok(options[j].clone())
        },
        None => Ok(path),
    }
}

/// What the rewriter is configured with.
pub struct RewriteConfig {
    /// A table from file keys to the paths they stand for.
    pub path_mapping: Option<serde_json::Value>,
    /// The root of the source tree.
    pub source_dir: Option<SourcePath>,
    /// A prefix to remove from file keys.
    pub prefix_dir: Option<SourcePath>,
    /// Whether to leave out files that do not exist.
    pub ignore_not_existing: bool,
    /// Patterns of relative paths to leave out.
    pub to_ignore: IgnoreGlobs,
    /// `Some(true)` keeps only covered files, `Some(false)` only uncovered ones.
    pub filter_option: Option<bool>,
    /// The files of the source tree by name.
    pub file_to_paths: FileIndex,
}

/// An entry whose paths are computed up to the lookup on disk.
pub struct Located {
    /// The relative path.
    pub rel: SourcePath,
    /// The absolute path to resolve on disk.
    pub candidate: SourcePath,
}

/// The relative path of a key before partial paths are resolved: its
/// separators normalized, mapped through the table, and without the prefix;
/// `None` where the table maps it to a value that is not text.
pub open spec fn keyed_rel(cfg: RewriteConfig, key: Seq<char>) -> Option<PathModel> {
    match mapped(cfg.path_mapping, normalized(key)) {
        Some(p) => Some(removed_prefix(opt_view(cfg.prefix_dir), p)),
        None => None,
    }
}

/// The relative path of a key: a `.java` path is resolved through the
/// index of the source tree; `None` where the mapping or that is in error.
pub open spec fn located_rel(cfg: RewriteConfig, key: Seq<char>) -> Option<PathModel> {
    match keyed_rel(cfg, key) {
        Some(pre) => if has_extension(pre, seq!['j', 'a', 'v', 'a']) {
            partial_mapped(cfg.file_to_paths.spec_index(), pre)
        } else {
            Some(pre)
        },
        None => None,
    }
}

/// Computes the relative path of the result stored under `key`, and the
/// absolute path to resolve on disk.
pub fn locate_entry(cfg: &RewriteConfig, key: &str, cache: &mut Option<SourcePath>) -> (r: Result<Located, RewriteError>)
    ensures
        match located_rel(*cfg, key@) {
            Some(rel) => r matches Ok(l) && l.rel@ == rel && (l.candidate@, opt_view(*final(cache)))
                == candidate(opt_view(cfg.source_dir), rel, opt_view(*old(cache))),
            None => r is Err && *final(cache) == *old(cache),
        },
{
    let path = normalize_separators(key);
    let rel = match apply_mapping(&cfg.path_mapping, path.as_str()) {
        Ok(p) => p,
        Err(e) => {
            return Err(e);
        },
    };
    let rel = remove_prefix(&cfg.prefix_dir, rel);
    let java = check_extension(&rel, "java");
    proof {
        reveal_strlit("java");
        assert("java"@ =~= seq!['j', 'a', 'v', 'a']);
    }
    let rel = if java {
        match map_partial_path(&cfg.file_to_paths, rel) {
            Ok(p) => p,
            Err(e) => {
                return Err(e);
            },
        }
    } else {
        rel
    };
    let candidate = candidate_abs_path(&cfg.source_dir, &rel, cache);
    Ok(Located { rel, candidate })
}

/// The relative path as reported: the corrected relative path, with `/`
/// separators.
pub open spec fn reported_rel(cfg: RewriteConfig, rel: PathModel, abs: PathModel) -> Seq<char> {
    normalized(text_of(fixed_rel(opt_view(cfg.source_dir), abs, rel)))
}

/// Whether an entry is kept: no ignore pattern matches its relative path,
/// it exists where nonexistent files are left out, and it passes the
/// covered filter.
pub open spec fn kept_entry(cfg: RewriteConfig, rel: Seq<char>, exists: bool, result: CovModel) -> bool {
    &&& !any_glob_matches(cfg.to_ignore.patterns(), rel)
    &&& (cfg.ignore_not_existing ==> exists)
    &&& passes_filter(cfg.filter_option, result)
}

/// Finishes an entry: `canonical` is what the disk resolved the candidate
/// path to, if it could, and `exists` whether the resolved path exists.
/// Returns the absolute path, the relative path and the result, or `None`
/// where the entry is left out.
pub fn settle_entry(
    cfg: &RewriteConfig,
    located: Located,
    canonical: Option<SourcePath>,
    exists: bool,
    result: CovResult,
) -> (r: Option<(String, String, CovResult)>)
    ensures
        ({
            let abs = match canonical {
                Some(c) => c@,
                None => located.candidate@,
            };
            let rel = reported_rel(*cfg, located.rel@, abs);
            match r {
                Some(t) => kept_entry(*cfg, rel, exists, result@) && t.0@ == text_of(abs) && t.1@ == rel
                    && t.2 == result,
                None => !kept_entry(*cfg, rel, exists, result@),
            }
        }),
{
    let (abs_path, rel_path) = get_abs_path(&cfg.source_dir, located.rel, located.candidate, canonical);
    let rel = normalize_separators(rel_path.to_text().as_str());
    if cfg.to_ignore.is_match(rel.as_str()) {
        return None;
    }
    if cfg.ignore_not_existing && !exists {
        return None;
    }
    match cfg.filter_option {
        Some(want) => {
            if is_covered(&result) != want {
                return None;
            }
        },
        None => {},
    }
    Some((abs_path.to_text(), rel, result))
}

/// A key found in the mapping table is replaced by its mapped path before
/// the prefix is removed and before the source directory is consulted: the
/// relative path is the mapped path without the prefix.
pub proof fn lemma_mapping_comes_first(cfg: RewriteConfig, key: Seq<char>, value: Seq<char>)
    requires
        cfg.path_mapping matches Some(m) && normalized(key).len() > 0 && json_members(m).contains_key(
            lowercase_first(normalized(key)),
        ) && json_members(m)[lowercase_first(normalized(key))] == Some(value),
    ensures
        keyed_rel(cfg, key) == Some(removed_prefix(opt_view(cfg.prefix_dir), path_of(value))),
{
}

/// An entry whose relative path matches an ignore pattern is left out,
/// whether or not it exists and whatever the covered filter.
pub proof fn lemma_ignored_entries_dropped(cfg: RewriteConfig, rel: Seq<char>, exists: bool, result: CovModel)
    requires
        any_glob_matches(cfg.to_ignore.patterns(), rel),
    ensures
        !kept_entry(cfg, rel, exists, result),
{
}

} // verus!

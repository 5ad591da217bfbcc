//! Aggregation of code-coverage results: the per-file merge of coverage
//! records, the pairing of notes and data artifacts into parse jobs, and the
//! rewriting of raw file keys into reporting paths.

mod defs;
mod globs;
mod mapping;
mod merge;
mod paths;
mod producer;
mod rewrite;
mod strmap;
mod text;

pub use defs::{CovModel, CovResult, CovResultMap, Function, FunctionMap, GcnoBuffers, ItemFormat, ItemType, WorkItem};
pub use globs::{any_glob_matches, glob_builder_patterns, glob_compiles, glob_matches, glob_set_patterns, set_builds, IgnoreGlobs};
pub use mapping::{apply_mapping, json_members, mapped, member_path, opt_text};
pub use merge::{
    add_results, capped, count_of, empty_model, fold_results, keyed_models, lemma_fold_isolates_keys, lemma_fold_order_irrelevant, erase, erased, base_of, total_of,
    lemma_merge_accumulates,
    lemma_merge_associates, lemma_merge_commutes, lemma_merge_empty, lines_fit, merge_results, merged,
    models, or_branches, or_functions, ran, sum_lines, taken_of,
};
pub use paths::{
    candidate, candidate_abs_path, check_extension, ends_with, fixed_rel, fixup_rel_path, get_abs_path,
    guess, guess_abs_path, has_extension, join, longest_anchor, opt_view, path_of, remove_prefix,
    removed_prefix, starts_with, strip_prefix, text_of, PathModel, SourcePath,
};
pub use producer::{
    classify_entry, emit_job, entry_kind, jobs_for, jobs_of_stem, stem_is, would_emit, emitted_count, fetched_count, lemma_emitted_per_stem,
    lemma_orphan_stem, lemma_plan_per_stem, next_gcov_type, owners, planned, text_jobs_for, texts_planned, EntryKind, EntryModel,
    ExplorationIndex, GcovType, JobModel, JobPlan, ProducerError,
};
pub use rewrite::{
    covered, is_covered, is_hidden, kept_entry, lemma_ignored_entries_dropped, lemma_mapping_comes_first,
    locate_entry, located_rel, map_partial_path, normalize_separators, normalized, partial_mapped,
    passes_filter, reported_rel, settle_entry, FileIndex, Located, RewriteConfig, RewriteError,
};
pub use strmap::{distinct_keys, entries_map, StrMap};
pub use text::{lowercase_first, lowercase_of, to_lowercase_first, to_uppercase_first, uppercase_first, uppercase_of};

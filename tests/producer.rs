use grcov::{
    classify_entry, emit_job, next_gcov_type, EntryKind, ExplorationIndex, GcovType, JobPlan, ProducerError,
};

fn index_of(inputs: &[&[&str]]) -> ExplorationIndex {
    let mut index = ExplorationIndex::new();
    for (archive, names) in inputs.iter().enumerate() {
        for name in names.iter() {
            index.record(archive, name);
        }
    }
    index
}

fn jobs_of(plan: &[JobPlan], stem: &str) -> Vec<(Option<usize>, usize)> {
    plan.iter().filter(|j| j.stem == stem).map(|j| (j.data_archive, j.num)).collect()
}

#[test]
fn entries_are_classified_by_extension_and_name() {
    assert_eq!(classify_entry("sub/prova2.gcno"), EntryKind::Notes("sub/prova2".to_string()));
    assert_eq!(classify_entry("main.gcda"), EntryKind::Data("main".to_string()));
    assert_eq!(classify_entry("a/b.info"), EntryKind::Text("a/b.info".to_string()));
    assert_eq!(
        classify_entry("dist/linked-files-map.json"),
        EntryKind::Mapping("dist/linked-files-map.json".to_string())
    );
    assert_eq!(classify_entry("other.json"), EntryKind::Other);
    assert_eq!(classify_entry("dir.gcno/readme"), EntryKind::Other);
    assert_eq!(classify_entry(".gcno"), EntryKind::Other);
    assert_eq!(classify_entry("x.tar.gcda"), EntryKind::Data("x.tar".to_string()));
}

#[test]
fn one_job_per_data_owner_in_input_order() {
    let index = index_of(&[&["S.gcda"], &["S.gcno"], &["S.gcda"]]);
    let plan = index.plan_jobs(false);
    assert_eq!(jobs_of(&plan, "S"), vec![(Some(0), 0), (Some(2), 1)]);
    assert!(plan.iter().all(|j| j.notes_archive == 1));
    let plan = index.plan_jobs(true);
    assert_eq!(jobs_of(&plan, "S"), vec![(Some(0), 0), (Some(2), 1)]);
}

#[test]
fn first_job_without_data_is_kept_unless_orphans_are_ignored() {
    let index = index_of(&[&["S.gcda"], &["S.gcno"], &["S.gcda"]]);
    let plan = index.plan_jobs(false);
    assert!(emit_job(&plan[0], false, false));
    assert!(!emit_job(&plan[0], false, true));
    assert!(!emit_job(&plan[1], false, false));
    assert!(emit_job(&plan[1], true, true));
}

#[test]
fn two_data_archives_pair_with_one_notes_archive() {
    let index = index_of(&[&["A.gcno", "B.gcno"], &["A.gcda"], &["A.gcda"]]);
    let plan = index.plan_jobs(false);
    assert_eq!(jobs_of(&plan, "A"), vec![(Some(1), 0), (Some(2), 1)]);
    assert_eq!(jobs_of(&plan, "B"), vec![(None, 0)]);
    assert_eq!(plan.len(), 3);
    let plan = index.plan_jobs(true);
    assert_eq!(jobs_of(&plan, "A"), vec![(Some(1), 0), (Some(2), 1)]);
    assert!(jobs_of(&plan, "B").is_empty());
    assert_eq!(plan.len(), 2);
}

#[test]
fn data_only_inputs_are_refused() {
    let index = index_of(&[&["main.gcda"]]);
    assert_eq!(index.check(), Err(ProducerError::NothingToParse));
    let index = index_of(&[&["a.info"]]);
    assert_eq!(index.check(), Ok(()));
    let index = index_of(&[&["a.gcno"]]);
    assert_eq!(index.check(), Ok(()));
}

#[test]
fn text_entries_become_one_job_per_owner() {
    let index = index_of(&[&["x.info", "y.info"], &["x.info"]]);
    let mut jobs = index.text_jobs();
    jobs.sort();
    assert_eq!(jobs, vec![("x.info".to_string(), 0), ("x.info".to_string(), 1), ("y.info".to_string(), 0)]);
}

#[test]
fn the_first_mapping_file_wins() {
    let index = index_of(&[&["a.gcno"], &["linked-files-map.json"], &["d/linked-files-map.json"]]);
    assert_eq!(index.mapping, Some(("linked-files-map.json".to_string(), 1)));
}

#[test]
fn output_kind_is_decided_once() {
    assert_eq!(next_gcov_type(GcovType::Unknown, true), GcovType::SingleFile);
    assert_eq!(next_gcov_type(GcovType::Unknown, false), GcovType::MultipleFiles);
    assert_eq!(next_gcov_type(GcovType::SingleFile, false), GcovType::SingleFile);
    assert_eq!(next_gcov_type(GcovType::MultipleFiles, true), GcovType::MultipleFiles);
}

use std::collections::BTreeMap;

use grcov::{add_results, merge_results, CovResult, CovResultMap, Function, FunctionMap};

fn result_of(lines: &[(u32, u64)], branches: &[((u32, u32), bool)], functions: &[(&str, u32, bool)]) -> CovResult {
    let mut fs = FunctionMap::new();
    for (name, start, executed) in functions {
        fs.insert(name.to_string(), Function { start: *start, executed: *executed });
    }
    CovResult {
        lines: lines.iter().cloned().collect(),
        branches: branches.iter().cloned().collect(),
        functions: fs,
    }
}

#[test]
fn test_merge_results() {
    let mut functions1: FunctionMap = FunctionMap::new();
    functions1.insert("f1".to_string(), Function { start: 1, executed: false });
    functions1.insert("f2".to_string(), Function { start: 2, executed: false });
    let mut result = CovResult {
        lines: [(1, 21), (2, 7), (7, 0)].iter().cloned().collect(),
        branches: [((1, 0), false), ((1, 1), false), ((2, 0), false), ((2, 1), true), ((4, 0), true)]
            .iter()
            .cloned()
            .collect(),
        functions: functions1,
    };
    let mut functions2: FunctionMap = FunctionMap::new();
    functions2.insert("f1".to_string(), Function { start: 1, executed: false });
    functions2.insert("f2".to_string(), Function { start: 2, executed: true });
    let mut result2 = CovResult {
        lines: [(1, 21), (3, 42), (4, 7), (2, 0), (8, 0)].iter().cloned().collect(),
        branches: [((1, 0), false), ((1, 1), false), ((2, 0), true), ((2, 1), false), ((3, 0), true)]
            .iter()
            .cloned()
            .collect(),
        functions: functions2,
    };

    merge_results(&mut result, &mut result2);
    assert_eq!(result.lines, [(1, 42), (2, 7), (3, 42), (4, 7), (7, 0), (8, 0)].iter().cloned().collect());
    assert_eq!(
        result.branches,
        [((1, 0), false), ((1, 1), false), ((2, 0), true), ((2, 1), true), ((3, 0), true), ((4, 0), true)]
            .iter()
            .cloned()
            .collect()
    );
    assert!(result.functions.contains_key("f1"));
    assert!(result.functions.contains_key("f2"));
    let mut func = result.functions.get("f1").unwrap();
    assert_eq!(func.start, 1);
    assert_eq!(func.executed, false);
    func = result.functions.get("f2").unwrap();
    assert_eq!(func.start, 2);
    assert_eq!(func.executed, true);
}

#[test]
fn merge_sums_lines_and_ors_flags_over_the_union() {
    let mut a = result_of(&[(1, 3), (5, 0)], &[((1, 0), false)], &[("f", 1, false)]);
    let b = result_of(&[(1, 4), (9, 2)], &[((1, 0), true), ((2, 1), false)], &[("f", 7, true), ("g", 9, false)]);
    merge_results(&mut a, &b);
    assert_eq!(a.lines, [(1, 7), (5, 0), (9, 2)].iter().cloned().collect());
    assert_eq!(a.branches, [((1, 0), true), ((2, 1), false)].iter().cloned().collect());
    assert_eq!(a.functions.len(), 2);
    assert_eq!(*a.functions.get("f").unwrap(), Function { start: 1, executed: true });
    assert_eq!(*a.functions.get("g").unwrap(), Function { start: 9, executed: false });
}

#[test]
fn merge_with_empty_changes_nothing() {
    let base = result_of(&[(1, 3), (2, 0)], &[((1, 0), true)], &[("f", 1, true)]);
    let mut a = base.clone();
    merge_results(&mut a, &CovResult::new());
    assert_eq!(a, base);
    let mut e = CovResult::new();
    merge_results(&mut e, &base);
    assert_eq!(e, base);
}

#[test]
fn merge_commutes_on_counts_and_flags() {
    let a = result_of(&[(1, 3), (4, 1)], &[((1, 0), false), ((3, 0), true)], &[("f", 1, false), ("h", 2, true)]);
    let b = result_of(&[(1, 5), (6, 0)], &[((1, 0), true)], &[("f", 1, true), ("g", 3, false)]);
    let mut ab = a.clone();
    merge_results(&mut ab, &b);
    let mut ba = b.clone();
    merge_results(&mut ba, &a);
    assert_eq!(ab, ba);
}

#[test]
fn merge_saturates_at_the_largest_count() {
    let mut a = result_of(&[(1, u64::MAX - 1)], &[], &[]);
    let b = result_of(&[(1, 5)], &[], &[]);
    merge_results(&mut a, &b);
    assert_eq!(a.lines, [(1, u64::MAX)].iter().cloned().collect::<BTreeMap<u32, u64>>());
}

#[test]
fn results_fold_into_the_map_by_key() {
    let mut map = CovResultMap::new();
    add_results(
        vec![
            ("a.cpp".to_string(), result_of(&[(1, 1)], &[], &[("f", 1, false)])),
            ("b.cpp".to_string(), result_of(&[(2, 2)], &[], &[])),
            ("a.cpp".to_string(), result_of(&[(1, 2), (3, 0)], &[], &[("f", 1, true)])),
        ],
        &mut map,
    );
    assert_eq!(map.len(), 2);
    let a = map.get("a.cpp").unwrap();
    assert_eq!(a.lines, [(1, 3), (3, 0)].iter().cloned().collect());
    assert!(a.functions.get("f").unwrap().executed);
    let b = map.get("b.cpp").unwrap();
    assert_eq!(b.lines, [(2, 2)].iter().cloned().collect());
}

#[test]
fn aggregate_does_not_depend_on_input_order() {
    let inputs = vec![
        ("x.cpp".to_string(), result_of(&[(1, 1), (2, 0)], &[((1, 0), false)], &[("f", 1, false)])),
        ("y.cpp".to_string(), result_of(&[(7, 3)], &[], &[])),
        ("x.cpp".to_string(), result_of(&[(1, 4), (3, 1)], &[((1, 0), true)], &[("f", 1, true)])),
    ];
    let mut forward = CovResultMap::new();
    add_results(inputs.clone(), &mut forward);
    let mut reversed_inputs = inputs.clone();
    reversed_inputs.reverse();
    let mut backward = CovResultMap::new();
    add_results(reversed_inputs, &mut backward);
    assert_eq!(forward.len(), backward.len());
    for key in ["x.cpp", "y.cpp"] {
        assert_eq!(forward.get(key).unwrap(), backward.get(key).unwrap());
    }
}

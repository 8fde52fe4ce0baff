use std::collections::HashMap;

use lcov_parser::branch::{Branch, BranchBlocks, BranchUnit, Branches};
use lcov_parser::merger::ops::{ChecksumError, MergeLine, TryMerge};
use lcov_parser::report::file::{File, Files};
use lcov_parser::report::function::{Function, Functions};
use lcov_parser::report::line::{Line, Lines};
use lcov_parser::report::test::{Test, Tests};
use lcov_parser::{BranchData, FunctionData, FunctionName, LineData, Report};

#[test]
fn branch_unit() {
    let branch1 = BranchUnit(1, 1);
    let branch2 = BranchUnit(1, 2);

    assert!(branch1 != branch2);

    let same_branch1 = BranchUnit(1, 1);
    let same_branch2 = BranchUnit(1, 1);

    assert_eq!(same_branch1, same_branch2);
}

#[test]
fn branch_unit_as_hash_key() {
    let mut container = HashMap::new();
    container.insert(BranchUnit(1, 1), 1);

    assert!(container.contains_key(&BranchUnit(1, 1)));
}

#[test]
fn branch_add_branch_data() {
    let mut branches = BranchBlocks::new();
    let b1 = &BranchData { line: 1, block: 0, branch: 1, taken: 1 };
    let b2 = &BranchData { line: 1, block: 0, branch: 1, taken: 1 };

    branches.try_merge(b1).unwrap();
    branches.try_merge(b2).unwrap();

    let branch = Branch::new(1, 0, 1, 2);
    assert_eq!(branches.get(&BranchUnit::new(0, 1)), Some(&branch));
    assert_eq!(*branches.get(&BranchUnit::new(0, 1)).unwrap().execution_count(), 2);
}

#[test]
fn append_branches() {
    let mut branches = BranchBlocks::new();
    let b1 = &BranchData { line: 1, block: 0, branch: 1, taken: 1 };
    let b2 = &BranchData { line: 1, block: 0, branch: 1, taken: 1 };

    branches.try_merge(b1).unwrap();
    branches.try_merge(b2).unwrap();

    let cloned_branches = branches.copy();
    branches.try_merge(&cloned_branches).unwrap();

    let branch = Branch::new(1, 0, 1, 2);
    assert_eq!(branches.get(&BranchUnit::new(0, 1)), Some(&branch));
    assert_eq!(*branches.get(&BranchUnit::new(0, 1)).unwrap().execution_count(), 4);
}

#[test]
fn branch_blocks_hit_count_and_found_count() {
    let mut branches = BranchBlocks::new();
    let b1 = &BranchData { line: 1, block: 0, branch: 1, taken: 1 };
    let b2 = &BranchData { line: 1, block: 0, branch: 2, taken: 0 };

    branches.try_merge(b1).unwrap();
    branches.try_merge(b2).unwrap();

    assert_eq!(branches.hit_count(), 1);
    assert_eq!(branches.found_count(), 2);
}

#[test]
fn branches_hit_count_and_found_count() {
    let mut branches = Branches::new();
    branches.try_merge(&BranchData { line: 1, block: 0, branch: 1, taken: 1 }).unwrap();
    branches.try_merge(&BranchData { line: 1, block: 0, branch: 2, taken: 0 }).unwrap();

    assert_eq!(branches.hit_count(), 1);
    assert_eq!(branches.found_count(), 2);
}

#[test]
fn branch_records_add_up_and_stay_apart() {
    let mut branches = Branches::new();
    branches.try_merge(&BranchData { line: 1, block: 0, branch: 1, taken: 1 }).unwrap();
    branches.try_merge(&BranchData { line: 1, block: 0, branch: 1, taken: 1 }).unwrap();
    let blocks = branches.get(&1).unwrap();
    assert_eq!(*blocks.get(&BranchUnit::new(0, 1)).unwrap().execution_count(), 2);

    branches.try_merge(&BranchData { line: 1, block: 0, branch: 2, taken: 0 }).unwrap();
    let blocks = branches.get(&1).unwrap();
    assert_eq!(blocks.len(), 2);
    assert_eq!(*blocks.get(&BranchUnit::new(0, 2)).unwrap().execution_count(), 0);
    assert_eq!(branches.hit_count(), 1);
    assert_eq!(branches.found_count(), 2);
}

#[test]
fn branches_are_kept_in_order() {
    let mut branches = Branches::new();
    branches.try_merge(&BranchData { line: 9, block: 1, branch: 0, taken: 1 }).unwrap();
    branches.try_merge(&BranchData { line: 2, block: 1, branch: 1, taken: 1 }).unwrap();
    branches.try_merge(&BranchData { line: 2, block: 0, branch: 3, taken: 1 }).unwrap();
    branches.try_merge(&BranchData { line: 2, block: 1, branch: 0, taken: 1 }).unwrap();
    let lines: Vec<u32> = branches.entries().iter().map(|e| e.0).collect();
    assert_eq!(lines, vec![2, 9]);
    let units: Vec<(u32, u32)> = branches.get(&2).unwrap().entries().iter()
        .map(|b| (*b.block(), *b.branch())).collect();
    assert_eq!(units, vec![(0, 3), (1, 0), (1, 1)]);
}

#[test]
fn branch_of_another_line_is_a_conflict() {
    let mut blocks = BranchBlocks::new();
    blocks.try_merge(&BranchData { line: 1, block: 0, branch: 1, taken: 1 }).unwrap();
    let err = blocks.try_merge(&BranchData { line: 2, block: 0, branch: 1, taken: 1 }).unwrap_err();
    assert_eq!(
        err.to_string(),
        "Branch mismatch: left = line:1 block:0 branch:1, right = line:2 block:0 branch:1"
    );
}

#[test]
fn add_function_data() {
    let mut functions = Functions::new();
    functions.try_merge(&FunctionData { name: "main".to_string(), count: 1 }).unwrap();
    functions.try_merge(&FunctionData { name: "main".to_string(), count: 1 }).unwrap();

    let result = functions.copy();
    assert_eq!(result.get(&"main".to_string()), Some(&Function::new("main".to_string(), 0, 1)));
}

#[test]
fn add_functions_data() {
    let mut functions = Functions::new();
    functions.try_merge(&FunctionData { name: "main".to_string(), count: 1 }).unwrap();

    let cloned_functions = functions.copy();
    functions.try_merge(&cloned_functions).unwrap();

    assert_eq!(functions.get(&"main".to_string()), Some(&Function::new("main".to_string(), 0, 2)));
}

#[test]
fn function_hit_count_and_found_count() {
    let mut functions = Functions::new();
    functions.try_merge(&FunctionData { name: "main".to_string(), count: 1 }).unwrap();
    functions.try_merge(&FunctionData { name: "main".to_string(), count: 0 }).unwrap();
    functions.try_merge(&FunctionData { name: "foo".to_string(), count: 0 }).unwrap();

    assert_eq!(functions.hit_count(), 1);
    assert_eq!(functions.found_count(), 2);
}

#[test]
fn function_counts_add_up() {
    let mut functions = Functions::new();
    functions.try_merge(&FunctionData { name: "main".to_string(), count: 1 }).unwrap();
    functions.try_merge(&FunctionData { name: "main".to_string(), count: 1 }).unwrap();
    let main = functions.get(&"main".to_string()).unwrap();
    assert_eq!(main.name(), "main");
    assert_eq!(*main.line_number(), 0);
    assert_eq!(*main.execution_count(), 2);
}

#[test]
fn function_declaration_sets_the_line() {
    let mut functions = Functions::new();
    functions.try_merge(&FunctionData { name: "zeta".to_string(), count: 3 }).unwrap();
    functions.try_merge(&FunctionName { name: "zeta".to_string(), line: 40 }).unwrap();
    functions.try_merge(&FunctionName { name: "alpha".to_string(), line: 2 }).unwrap();
    let zeta = functions.get(&"zeta".to_string()).unwrap();
    assert_eq!(*zeta.line_number(), 40);
    assert_eq!(*zeta.execution_count(), 3);
    let names: Vec<String> = functions.entries().iter().map(|f| f.name().clone()).collect();
    assert_eq!(names, vec!["alpha".to_string(), "zeta".to_string()]);
}

#[test]
fn function_of_another_name_is_a_conflict() {
    let mut f = Function::new("main".to_string(), 1, 1);
    let err = f.try_merge(&FunctionData { name: "other".to_string(), count: 1 }).unwrap_err();
    assert_eq!(err.to_string(), "Function name mismatch: left = main, right = other");
    assert_eq!(*f.execution_count(), 1);
}

#[test]
fn add_line_data() {
    let mut lines = Lines::new();
    lines.try_merge(&LineData { line: 1, count: 1, checksum: Some("abc".to_string()) }).unwrap();
    lines.try_merge(&LineData { line: 1, count: 1, checksum: Some("abc".to_string()) }).unwrap();

    let result = lines.copy();
    assert_eq!(result.get(&1), Some(&Line::new(1, 2, Some("abc".to_string()))));
}

#[test]
fn add_lines_data() {
    let mut lines = Lines::new();
    lines.try_merge(&LineData { line: 1, count: 1, checksum: Some("abc".to_string()) }).unwrap();

    let cloned_lines = lines.copy();
    lines.try_merge(&cloned_lines).unwrap();

    assert_eq!(lines.get(&1), Some(&Line::new(1, 2, Some("abc".to_string()))));
    assert_eq!(*lines.get(&1).unwrap().execution_count(), 2);
}

#[test]
fn line_hit_count_and_found_count() {
    let mut lines = Lines::new();

    lines.try_merge(&LineData { line: 1, count: 1, checksum: Some("abc".to_string()) }).unwrap();
    lines.try_merge(&LineData { line: 2, count: 0, checksum: Some("def".to_string()) }).unwrap();

    assert_eq!(lines.hit_count(), 1);
    assert_eq!(lines.found_count(), 2);
}

#[test]
fn line_records_with_equal_checksums_add_up() {
    let mut lines = Lines::new();
    let data = LineData { line: 1, count: 2, checksum: Some("abc".to_string()) };
    lines.try_merge(&data).unwrap();
    lines.try_merge(&data).unwrap();
    assert_eq!(lines.len(), 1);
    let line = lines.get(&1).unwrap();
    assert_eq!(*line.line_number(), 1);
    assert_eq!(*line.execution_count(), 4);
    assert_eq!(line.checksum(), Some(&"abc".to_string()));
}

#[test]
fn line_records_with_different_checksums_conflict() {
    let mut lines = Lines::new();
    lines.try_merge(&LineData { line: 1, count: 1, checksum: Some("x".to_string()) }).unwrap();
    let err = lines.try_merge(&LineData { line: 1, count: 1, checksum: Some("y".to_string()) });
    assert_eq!(
        err,
        Err(ChecksumError::Mismatch(
            MergeLine::new(1, Some("x".to_string())),
            MergeLine::new(1, Some("y".to_string()))
        ))
    );
    assert_eq!(*lines.get(&1).unwrap().execution_count(), 1);
}

#[test]
fn line_records_without_checksum_add_up() {
    let mut lines = Lines::new();
    let data = LineData { line: 1, count: 1, checksum: None };
    lines.try_merge(&data).unwrap();
    lines.try_merge(&data).unwrap();
    assert_eq!(*lines.get(&1).unwrap().execution_count(), 2);
    assert_eq!(lines.get(&1).unwrap().checksum(), None);
}

#[test]
fn missing_checksum_after_one_is_a_conflict() {
    let mut lines = Lines::new();
    lines.try_merge(&LineData { line: 3, count: 1, checksum: Some("x".to_string()) }).unwrap();
    let err = lines.try_merge(&LineData { line: 3, count: 1, checksum: None });
    assert_eq!(err, Err(ChecksumError::Empty(MergeLine::new(3, None))));
    let mut other = Lines::new();
    other.try_merge(&LineData { line: 3, count: 1, checksum: None }).unwrap();
    other.try_merge(&LineData { line: 3, count: 4, checksum: Some("x".to_string()) }).unwrap();
    assert_eq!(*other.get(&3).unwrap().execution_count(), 5);
}

#[test]
fn counts_stop_at_the_largest_value() {
    let mut lines = Lines::new();
    lines.try_merge(&LineData { line: 1, count: u32::MAX, checksum: None }).unwrap();
    lines.try_merge(&LineData { line: 1, count: 5, checksum: None }).unwrap();
    assert_eq!(*lines.get(&1).unwrap().execution_count(), u32::MAX);
}

#[test]
fn lines_are_kept_in_order() {
    let mut lines = Lines::new();
    for n in [5u32, 1, 3, 1] {
        lines.try_merge(&LineData { line: n, count: 1, checksum: None }).unwrap();
    }
    let numbers: Vec<u32> = lines.entries().iter().map(|l| *l.line_number()).collect();
    assert_eq!(numbers, vec![1, 3, 5]);
    assert!(lines.contains_key(&3));
    assert!(!lines.contains_key(&4));
    assert_eq!(lines.get(&4), None);
}

#[test]
fn line_equality_follows_checksums() {
    assert_eq!(Line::new(1, 5, Some("a".to_string())), Line::new(2, 1, Some("a".to_string())));
    assert!(Line::new(1, 5, Some("a".to_string())) != Line::new(1, 5, Some("b".to_string())));
    assert_eq!(Line::new(1, 5, None), Line::new(1, 7, Some("b".to_string())));
    assert!(Line::new(1, 5, None) != Line::new(2, 5, None));
}

#[test]
fn test_add_branch_data() {
    let test = {
        let mut test = Test::new();
        test.try_merge(&BranchData { line: 1, block: 1, branch: 1, taken: 2 }).unwrap();
        test
    };
    let branches = {
        let mut branches = BranchBlocks::new();
        branches.try_merge(&BranchData { line: 1, block: 1, branch: 1, taken: 2 }).unwrap();
        branches
    };
    let lookup_branches = {
        let branches = test.branches();
        branches.get(&1)
    };
    assert_eq!(lookup_branches, Some(&branches));
}

#[test]
fn add_test_data() {
    let mut test1 = Test::new();

    test1.try_merge(&LineData { line: 1, count: 1, checksum: Some("xyz".to_string()) }).unwrap();
    test1.try_merge(&FunctionData { name: "main".to_string(), count: 1 }).unwrap();
    test1.try_merge(&BranchData { line: 1, block: 1, branch: 1, taken: 1 }).unwrap();

    let test2 = {
        let mut test2 = Test::new();
        test2.try_merge(&LineData { line: 1, count: 1, checksum: Some("xyz".to_string()) }).unwrap();
        test2.try_merge(&FunctionData { name: "main".to_string(), count: 1 }).unwrap();
        test2.try_merge(&BranchData { line: 1, block: 1, branch: 1, taken: 1 }).unwrap();
        test2
    };
    test1.try_merge(&test2).unwrap();

    let lines = test1.lines();
    assert_eq!(lines.get(&1), Some(&Line::new(1, 2, None)));

    let functions = test1.functions();
    assert_eq!(functions.get(&"main".to_string()), Some(&Function::new("main".to_string(), 0, 2)));

    let mut branches = BranchBlocks::new();
    branches.try_merge(&BranchData { line: 1, block: 1, branch: 1, taken: 2 }).unwrap();

    let lookup_branches = {
        let branches = test1.branches();
        branches.get(&1)
    };
    assert_eq!(lookup_branches, Some(&branches));
}

#[test]
fn add_tests_data() {
    let mut tests = Tests::new();
    let line_data = &LineData { line: 1, count: 1, checksum: None };
    let function_data = &FunctionData { name: "main".to_string(), count: 1 };
    let branch_data = &BranchData { line: 1, block: 1, branch: 1, taken: 1 };
    let test_name = "test1".to_string();
    let function_name = "main".to_string();

    tests.try_merge((&test_name, line_data)).unwrap();
    tests.try_merge((&test_name, function_data)).unwrap();
    tests.try_merge((&test_name, branch_data)).unwrap();

    assert!(tests.contains_key(&test_name));

    let test = tests.get(&test_name).unwrap();
    let lines = test.lines();
    let functions = test.functions();
    let branches = test.branches();
    let branch_blocks = branches.get(&1).unwrap();

    assert_eq!(lines.get(&1), Some(&Line::new(1, 1, None)));
    assert_eq!(functions.get(&function_name), Some(&Function::new("main".to_string(), 0, 1)));
    assert_eq!(branch_blocks.get(&BranchUnit::new(1, 1)), Some(&Branch::new(1, 1, 1, 1)));
}

#[test]
fn tests_are_kept_in_order() {
    let mut tests = Tests::new();
    tests.merge(&"zeta".to_string());
    tests.merge(&"alpha".to_string());
    tests.merge(&"zeta".to_string());
    let names: Vec<String> = tests.entries().iter().map(|e| e.0.clone()).collect();
    assert_eq!(names, vec!["alpha".to_string(), "zeta".to_string()]);
    assert!(tests.get(&"alpha".to_string()).unwrap().lines().is_empty());
}

#[test]
fn report_is_written_back_as_lcov_text() {
    let mut tests = Tests::new();
    let line_data = &LineData { line: 1, count: 1, checksum: None };
    let function_data = &FunctionData { name: "main".to_string(), count: 1 };
    let branch_data = &BranchData { line: 1, block: 1, branch: 1, taken: 1 };
    let test_name = "test1".to_string();

    tests.try_merge((&test_name, line_data)).unwrap();
    tests.try_merge((&test_name, function_data)).unwrap();
    tests.try_merge((&test_name, branch_data)).unwrap();

    let file = File::new(tests);
    let mut files = Files::new();
    files.try_merge((&"a.c".to_string(), &file)).unwrap();

    let report = Report::new(files);
    let expected = "TN:test1\nSF:a.c\nFN:0,main\nFNDA:1,main\nFNF:1\nFNH:1\n\
                    BRDA:1,1,1,1\nBRF:1\nBRH:1\nDA:1,1\nLF:1\nLH:1\nend_of_record\n";
    assert_eq!(report.to_string(), expected);
}

#[test]
fn files_merge_path_by_path() {
    let make = |path: &str, count: u32| {
        let mut tests = Tests::new();
        tests.try_merge((&"t".to_string(), &LineData { line: 2, count, checksum: None })).unwrap();
        let mut files = Files::new();
        files.try_merge((&path.to_string(), &File::new(tests))).unwrap();
        files
    };
    let mut left = make("/a.c", 1);
    let right = make("/a.c", 2);
    let other = make("/0.c", 5);
    left.try_merge(&right).unwrap();
    left.try_merge(&other).unwrap();
    assert_eq!(left.len(), 2);
    let paths: Vec<String> = left.entries().iter().map(|e| e.0.clone()).collect();
    assert_eq!(paths, vec!["/0.c".to_string(), "/a.c".to_string()]);
    let test = left.get(&"/a.c".to_string()).unwrap().get_test(&"t".to_string()).unwrap();
    assert_eq!(*test.lines().get(&2).unwrap().execution_count(), 3);
}

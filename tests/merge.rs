use lcov_parser::merger::ops::{ChecksumError, MergeError, MergeLine, TestError};
use lcov_parser::{merge_files, LCOVRecord, LineData, Report, ReportMerger};

fn line_of(report: &Report, file: &str, test: &str, line: u32) -> (u32, Option<String>) {
    let file = report.get(file).unwrap();
    let test = file.get_test(&test.to_string()).unwrap();
    let line = test.lines().get(&line).unwrap();
    (*line.execution_count(), line.checksum().cloned())
}

#[test]
fn merge_checksum() {
    let fixture1 = "TN:example\nSF:/fixture1.c\nFN:3,main\nFNDA:1,main\n\
                    DA:3,1,3l0MgUNCTdSd2VB0qOVSZg\nDA:6,1,PF4Rz2r7RTliO9u6bZ7h6g\nend_of_record\n";
    let fixture2 = fixture1;
    let report = {
        let mut parse = ReportMerger::new();
        parse.merge(&[fixture1, fixture2]).unwrap()
    };

    let file = report.get("/fixture1.c").unwrap();
    let test = file.get_test(&"example".to_string()).unwrap();
    let lines = test.lines();
    let line = lines.get(&6).unwrap();

    assert_eq!(line.execution_count(), &2);
    assert_eq!(line.checksum(), Some(&"PF4Rz2r7RTliO9u6bZ7h6g".to_string()));
}

#[test]
fn merge_checksum_one_side() {
    let fixture1 = "TN:example\nSF:/fixture1.c\nDA:4,1,y7GE3Y4FyXCeXcrtqgSVzw\nDA:5,0\nend_of_record\n";
    let fixture2 = "TN:example\nSF:/fixture1.c\nDA:4,1,y7GE3Y4FyXCeXcrtqgSVzw\nend_of_record\n";
    let check_merged_report = |report: Report| {
        let file = report.get("/fixture1.c").unwrap();
        let test = file.get_test(&"example".to_string()).unwrap();
        let lines = test.lines();
        let line = lines.get(&4).unwrap();

        assert_eq!(line.execution_count(), &2);
        assert_eq!(line.checksum(), Some(&"y7GE3Y4FyXCeXcrtqgSVzw".to_string()));
    };

    let report1 = {
        let mut parse = ReportMerger::new();
        parse.merge(&[fixture1, fixture2]).unwrap()
    };
    check_merged_report(report1);

    let report2 = {
        let mut parse = ReportMerger::new();
        parse.merge(&[fixture2, fixture1]).unwrap()
    };
    check_merged_report(report2);
}

#[test]
fn merge_error_of_checksum_empty() {
    let merge_line = MergeLine::new(1, None);
    let checksum_error = ChecksumError::Empty(merge_line);
    let test_error = TestError::Checksum(checksum_error);
    let merge_error = MergeError::Process(test_error);
    assert_eq!(merge_error.to_string(), "No source code checksum: line: 1, checksum: ")
}

#[test]
fn merge_error_of_checksum() {
    let merge_line1 = MergeLine::new(1, Some("xyz".to_string()));
    let merge_line2 = MergeLine::new(1, Some("zzz".to_string()));
    let checksum_error = ChecksumError::Mismatch(merge_line1, merge_line2);
    let test_error = TestError::Checksum(checksum_error);
    let merge_error = MergeError::Process(test_error);
    assert_eq!(
        merge_error.to_string(),
        "Source code checksums do not match: line: 1, left: xyz, right: zzz"
    )
}

#[test]
fn single_trace_end_to_end() {
    let text = "TN:t\nSF:/a.c\nDA:1,2\nDA:2,1\nDA:3,5\nend_of_record\n";
    let report = merge_files(&[text]).unwrap();
    assert_eq!(report.len(), 1);
    let file = report.get("/a.c").unwrap();
    assert_eq!(file.tests().len(), 1);
    let test = file.get_test(&"t".to_string()).unwrap();
    assert_eq!(test.lines().found_count(), 3);
    assert_eq!(test.lines().hit_count(), 3);
}

#[test]
fn merge_order_does_not_matter_when_checksums_agree() {
    let a = "TN:x\nSF:/f.c\nDA:4,1,CK1\nend_of_record\n";
    let b = "TN:x\nSF:/f.c\nDA:4,1,CK1\nend_of_record\n";
    let ab = merge_files(&[a, b]).unwrap();
    let ba = merge_files(&[b, a]).unwrap();
    assert_eq!(line_of(&ab, "/f.c", "x", 4), (2, Some("CK1".to_string())));
    assert_eq!(line_of(&ab, "/f.c", "x", 4), line_of(&ba, "/f.c", "x", 4));
}

#[test]
fn unknown_prefix_fails_the_merge() {
    match merge_files(&["XX:1\n"]) {
        Err(MergeError::RecordParse(e)) => assert_eq!(e.line, 1),
        _ => panic!("expected a parse error"),
    }
    match merge_files(&["TN:a\nSF:/f\n", "TN:a\nXX:1\n"]) {
        Err(MergeError::RecordParse(e)) => assert_eq!(e.line, 2),
        _ => panic!("expected a parse error"),
    }
}

#[test]
fn differing_checksums_fail_the_merge() {
    let a = "TN:x\nSF:/f.c\nDA:4,1,y7GE3Y4FyXCeXcrtqgSVzw\nend_of_record\n";
    let b = "TN:x\nSF:/f.c\nDA:4,1,invalid\nend_of_record\n";
    match merge_files(&[a, b]) {
        Err(MergeError::Process(err)) => {
            let expected = TestError::Checksum(ChecksumError::Mismatch(
                MergeLine::new(4, Some("y7GE3Y4FyXCeXcrtqgSVzw".to_string())),
                MergeLine::new(4, Some("invalid".to_string())),
            ));
            assert_eq!(err, expected);
        }
        _ => panic!("expected a checksum conflict"),
    }
}

#[test]
fn test_without_data_still_appears() {
    let report = merge_files(&["TN:empty\nSF:/e.c\nend_of_record\n"]).unwrap();
    let file = report.get("/e.c").unwrap();
    assert!(file.get_test(&"empty".to_string()).unwrap().lines().is_empty());
}

#[test]
fn data_before_any_test_name_is_ignored() {
    let report = merge_files(&["SF:/n.c\nDA:1,1\nend_of_record\n"]).unwrap();
    assert_eq!(report.len(), 1);
    assert!(report.get("/n.c").unwrap().tests().is_empty());
}

#[test]
fn files_and_tests_merge_across_traces() {
    let a = "TN:t1\nSF:/b.c\nFN:2,f\nFNDA:1,f\nBRDA:2,0,0,1\nDA:2,1\nend_of_record\n\
             TN:t1\nSF:/a.c\nDA:7,0\nend_of_record\n";
    let b = "TN:t2\nSF:/b.c\nDA:2,3\nend_of_record\n\
             TN:t1\nSF:/b.c\nFNDA:4,f\nBRDA:2,0,0,-\nBRDA:2,0,1,2\nDA:2,1\nend_of_record\n";
    let report = merge_files(&[a, b]).unwrap();
    let paths: Vec<String> = report.files().entries().iter().map(|e| e.0.clone()).collect();
    assert_eq!(paths, vec!["/a.c".to_string(), "/b.c".to_string()]);
    let file = report.get("/b.c").unwrap();
    assert_eq!(file.tests().len(), 2);
    let t1 = file.get_test(&"t1".to_string()).unwrap();
    assert_eq!(*t1.lines().get(&2).unwrap().execution_count(), 2);
    let f = t1.functions().get(&"f".to_string()).unwrap();
    assert_eq!(*f.line_number(), 2);
    assert_eq!(*f.execution_count(), 5);
    assert_eq!(t1.branches().found_count(), 2);
    assert_eq!(t1.branches().hit_count(), 2);
    let t2 = file.get_test(&"t2".to_string()).unwrap();
    assert_eq!(*t2.lines().get(&2).unwrap().execution_count(), 3);
}

#[test]
fn merger_records_can_be_fed_one_by_one() {
    let mut merger = ReportMerger::new();
    merger.process_record(&LCOVRecord::TestName(None)).unwrap();
    merger.process_record(&LCOVRecord::SourceFile("/s.c".to_string())).unwrap();
    merger
        .process_record(&LCOVRecord::Data(LineData { line: 1, count: 1, checksum: None }))
        .unwrap();
    merger.process_record(&LCOVRecord::LinesFound(99)).unwrap();
    merger.process_record(&LCOVRecord::EndOfRecord).unwrap();
    let report = merger.merge(&[]).unwrap();
    let test = report.get("/s.c").unwrap().get_test(&String::new()).unwrap();
    assert_eq!(test.lines().found_count(), 1);
}

use lcov_parser::{
    parse_record, parse_report, BranchData, FunctionData, FunctionName, LCOVParser, LCOVRecord,
    LineData, ParseError,
};

fn record(input: &str) -> LCOVRecord {
    parse_record(input).unwrap()
}

#[test]
fn combinator_test_name() {
    let result = record("TN:test_name\n");
    assert_eq!(result, LCOVRecord::TestName(Some("test_name".to_string())));
}

#[test]
fn combinator_source_file() {
    let result = record("SF:/path/to/source.rs\n");
    assert_eq!(result, LCOVRecord::SourceFile("/path/to/source.rs".to_string()));
}

#[test]
fn combinator_data() {
    let result = record("DA:1,2\n");
    assert_eq!(result, LCOVRecord::Data(LineData { line: 1, count: 2, checksum: None }));
}

#[test]
fn combinator_data_with_checksum() {
    let result = record("DA:1,2,3sdfjiji56\n");
    let line = LineData { line: 1, count: 2, checksum: Some("3sdfjiji56".to_string()) };
    assert_eq!(result, LCOVRecord::Data(line));
}

#[test]
fn combinator_lines_hit() {
    assert_eq!(record("LH:5\n"), LCOVRecord::LinesHit(5));
}

#[test]
fn combinator_lines_found() {
    assert_eq!(record("LF:10\n"), LCOVRecord::LinesFound(10));
}

#[test]
fn combinator_end_of_record() {
    assert_eq!(record("end_of_record\n"), LCOVRecord::EndOfRecord);
}

#[test]
fn mod_test_name() {
    let with_testname = record("TN:test_name\n");
    assert_eq!(with_testname, LCOVRecord::TestName(Some("test_name".to_string())));

    let without_testname = record("TN:\n");
    assert_eq!(without_testname, LCOVRecord::TestName(None));
}

#[test]
fn mod_source_file() {
    let result = record("SF:/path/to/source.rs\n");
    assert_eq!(result, LCOVRecord::SourceFile("/path/to/source.rs".to_string()));
}

#[test]
fn mod_data() {
    let result = record("DA:1,2\n");
    let line = LineData { line: 1, count: 2, checksum: None };
    assert_eq!(result, LCOVRecord::Data(line));
}

#[test]
fn mod_data_with_checksum() {
    let result = record("DA:1,2,3sdfjiji56\n");
    let line = LineData { line: 1, count: 2, checksum: Some("3sdfjiji56".to_string()) };
    assert_eq!(result, LCOVRecord::Data(line));
}

#[test]
fn function_name() {
    let result = record("FN:5,main\n");
    let func = FunctionName { name: "main".to_string(), line: 5 };
    assert_eq!(result, LCOVRecord::FunctionName(func));
}

#[test]
fn function_data() {
    let result = record("FNDA:5,main\n");
    let func_data = FunctionData { name: "main".to_string(), count: 5 };
    assert_eq!(result, LCOVRecord::FunctionData(func_data));
}

#[test]
fn functions_found() {
    assert_eq!(record("FNF:10\n"), LCOVRecord::FunctionsFound(10));
}

#[test]
fn functions_hit() {
    assert_eq!(record("FNH:10\n"), LCOVRecord::FunctionsHit(10));
}

#[test]
fn mod_lines_hit() {
    assert_eq!(record("LH:5\n"), LCOVRecord::LinesHit(5));
}

#[test]
fn mod_lines_found() {
    assert_eq!(record("LF:10\n"), LCOVRecord::LinesFound(10));
}

#[test]
fn branch_data() {
    let result = record("BRDA:1,2,3,-\n");
    let branch = BranchData { line: 1, block: 2, branch: 3, taken: 0 };
    assert_eq!(result, LCOVRecord::BranchData(branch));
}

#[test]
fn branch_data_with_branch_times() {
    let result = record("BRDA:1,2,3,4\n");
    let branch = BranchData { line: 1, block: 2, branch: 3, taken: 4 };
    assert_eq!(result, LCOVRecord::BranchData(branch));
}

#[test]
fn branches_found() {
    assert_eq!(record("BRF:10\n"), LCOVRecord::BranchesFound(10));
}

#[test]
fn branches_hit() {
    assert_eq!(record("BRH:10\n"), LCOVRecord::BranchesHit(10));
}

#[test]
fn mod_end_of_record() {
    assert_eq!(record("end_of_record\n"), LCOVRecord::EndOfRecord);
}

#[derive(Clone)]
struct LineResult {
    executed: i32,
    unused: i32,
}

#[derive(Clone)]
struct FileResult {
    lines: LineResult,
}

#[test]
fn without_checksum() {
    let buffer = "TN:\nSF:/src/a.rs\nDA:1,1\nDA:2,3\nDA:3,1\nDA:4,7\nend_of_record\n\
                  SF:/src/b.rs\nDA:1,0\nDA:2,0\nDA:3,0\nDA:4,0\nend_of_record\n";
    let records = LCOVParser::new(buffer).parse().unwrap();

    let mut files: Vec<FileResult> = vec![];
    let mut file_result = FileResult { lines: LineResult { executed: 0, unused: 0 } };
    let mut line_result = LineResult { executed: 0, unused: 0 };

    for record in records.iter() {
        match record {
            LCOVRecord::SourceFile(_) => {
                line_result = LineResult { executed: 0, unused: 0 };
                file_result = FileResult { lines: LineResult { executed: 0, unused: 0 } };
            }
            LCOVRecord::Data(data) => {
                if data.count >= 1 {
                    line_result.executed = line_result.executed + 1;
                } else {
                    line_result.unused = line_result.unused + 1;
                }
            }
            LCOVRecord::EndOfRecord => {
                file_result.lines = line_result.clone();
                files.push(file_result.clone());
            }
            _ => {}
        }
    }

    assert_eq!(records.len(), 13);
    assert_eq!(files.len(), 2);
    assert_eq!(files[0].lines.executed, 4);
    assert_eq!(files[0].lines.unused, 0);
    assert_eq!(files[1].lines.executed, 0);
    assert_eq!(files[1].lines.unused, 4);
}

#[test]
fn report_text_parses_in_order() {
    let text = "TN:t\nSF:/a.c\nDA:1,2\nDA:2,1\nDA:3,5\nend_of_record\n";
    let records = parse_report(text).unwrap();
    assert_eq!(
        records,
        vec![
            LCOVRecord::TestName(Some("t".to_string())),
            LCOVRecord::SourceFile("/a.c".to_string()),
            LCOVRecord::Data(LineData { line: 1, count: 2, checksum: None }),
            LCOVRecord::Data(LineData { line: 2, count: 1, checksum: None }),
            LCOVRecord::Data(LineData { line: 3, count: 5, checksum: None }),
            LCOVRecord::EndOfRecord,
        ]
    );
}

#[test]
fn eager_and_lazy_parsing_agree() {
    let text = "TN:t\nSF:/a.c\nFN:3,main\nFNDA:2,main\nBRDA:4,0,1,-\nDA:3,2\nend_of_record\n";
    let eager = parse_report(text).unwrap();
    let mut parser = LCOVParser::new(text);
    let mut lazy = vec![];
    while let Some(r) = parser.next().unwrap() {
        lazy.push(r);
    }
    assert_eq!(eager, lazy);
    assert_eq!(eager.len(), 7);
}

#[test]
fn canonical_text_parses_to_the_same_record() {
    let first = record("DA:007,0002,ab,c\r\n");
    assert_eq!(
        first,
        LCOVRecord::Data(LineData { line: 7, count: 2, checksum: Some("ab,c".to_string()) })
    );
    assert_eq!(record("DA:7,2,ab,c\n"), first);
    let branch = record("BRDA:1,0,2,-\n");
    assert_eq!(record("BRDA:1,0,2,0\n"), branch);
    let name = record("FN:12,a,b\n");
    assert_eq!(name, LCOVRecord::FunctionName(FunctionName { name: "a,b".to_string(), line: 12 }));
}

#[test]
fn unknown_prefix_is_rejected() {
    let err = parse_record("XX:1\n").unwrap_err();
    assert_eq!(err.line, 1);
    assert_eq!(err.column, 1);
    assert_eq!(err.message, "XX:1\n");
}

#[test]
fn line_without_terminator_is_rejected() {
    assert!(parse_record("TN:test_name").is_err());
    assert!(parse_record("").is_err());
}

#[test]
fn malformed_fields_are_rejected() {
    assert!(parse_record("DA:1\n").is_err());
    assert!(parse_record("DA:1,\n").is_err());
    assert!(parse_record("DA:1,2,\n").is_err());
    assert!(parse_record("DA:a,2\n").is_err());
    assert!(parse_record("SF:\n").is_err());
    assert!(parse_record("FN:5\n").is_err());
    assert!(parse_record("FN:5,\n").is_err());
    assert!(parse_record("BRDA:1,2,3\n").is_err());
    assert!(parse_record("BRDA:1,2,3,x\n").is_err());
    assert!(parse_record("LF:10x\n").is_err());
    assert!(parse_record("end_of_record_\n").is_err());
    assert!(parse_record("TN:a\nSF:b\n").is_err());
}

#[test]
fn numbers_must_fit_in_32_bits() {
    assert_eq!(record("LF:4294967295\n"), LCOVRecord::LinesFound(4294967295));
    assert!(parse_record("LF:4294967296\n").is_err());
    assert!(parse_record("DA:99999999999,1\n").is_err());
}

#[test]
fn carriage_return_before_line_feed_is_ignored() {
    assert_eq!(record("LH:5\r\n"), LCOVRecord::LinesHit(5));
    assert_eq!(record("TN:x\r\n"), LCOVRecord::TestName(Some("x".to_string())));
}

#[test]
fn report_error_names_the_line() {
    let err = parse_report("TN:a\nSF:/x\nbogus\nDA:1,1\n").unwrap_err();
    assert_eq!(err.line, 3);
    assert_eq!(err.column, 1);
    assert_eq!(err.message, "bogus\n");
    assert_eq!(parse_report("").unwrap(), vec![]);
    let err = parse_report("TN:a\nDA:1,1").unwrap_err();
    assert_eq!(err.line, 2);
}

#[test]
fn lazy_parser_reports_line_and_goes_on() {
    let mut parser = LCOVParser::new("TN:a\nnope\nLH:1\n");
    assert_eq!(parser.next().unwrap(), Some(LCOVRecord::TestName(Some("a".to_string()))));
    match parser.next() {
        Err(ParseError::RecordParseError(e)) => assert_eq!(e.line, 2),
        _ => panic!("expected a parse error"),
    }
    assert_eq!(parser.next().unwrap(), Some(LCOVRecord::LinesHit(1)));
    assert_eq!(parser.next().unwrap(), None);
}

#[test]
fn error_column_marks_where_reading_stopped() {
    assert_eq!(parse_record("DA:1,x\n").unwrap_err().column, 4);
    assert_eq!(parse_record("BRDA:1,2\n").unwrap_err().column, 6);
    assert_eq!(parse_record("TN:a\nb\n").unwrap_err().column, 5);
    assert_eq!(parse_record("LH:5").unwrap_err().column, 5);
    assert_eq!(parse_record("end_of_record \n").unwrap_err().column, 1);
    let err = parse_report("TN:a\nFNF:x\n").unwrap_err();
    assert_eq!((err.line, err.column), (2, 5));
}

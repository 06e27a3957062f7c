use cargo_junit::parser::{parse, parse_failure, parse_module, parse_number, parse_test_line};
use cargo_junit::text::chars_of;
use cargo_junit::TestResult;

fn chars(text: &str) -> Vec<char> {
    chars_of(text)
}

#[test]
fn filtered_count_present_or_absent() {
    let with = chars("running 0 tests\n\ntest result: ok. 0 passed; 0 failed; 0 ignored; 0 measured; 3 filtered out\n");
    let (m, _) = parse_module(&with, 0).unwrap();
    assert_eq!(m.filtered_count, 3);
    let without = chars("running 0 tests\n\ntest result: ok. 0 passed; 0 failed; 0 ignored; 0 measured\n");
    let (m, _) = parse_module(&without, 0).unwrap();
    assert_eq!(m.filtered_count, 0);
}

#[test]
fn missing_measured_fails_the_whole_parse() {
    let good = "\nrunning 1 test\ntest a ... ok\n\ntest result: ok. 1 passed; 0 failed; 0 ignored; 0 measured\n\n";
    let bad = "\nrunning 0 tests\n\ntest result: ok. 0 passed; 0 failed; 0 ignored; 0\n";
    assert!(parse(good).is_ok());
    assert!(parse(bad).is_err());
    let joined = format!("{}{}", good, bad);
    assert_eq!(parse(&joined), Err(format!("parse failure in summary line at: {}", bad)));
}

#[test]
fn parse_error_names_the_rest() {
    assert_eq!(parse(""), Err("parse failure in module start line at: ".to_string()));
    let text = "\nrunning 0 tests\n\ntest result: ok. 0 passed; 0 failed; 0 ignored; 0 measured\ntrailing";
    assert_eq!(parse(text), Err("parse failure in blank line at: trailing".to_string()));
    assert_eq!(parse("running 0 tests\n\ntest result: ok. 0 passed; 0 failed; 0 ignored; 0 measured\n").map(|ms| ms.len()), Ok(1));
    let two = "running 0 tests\n\ntest result: ok. 0 passed; 0 failed; 0 ignored; 0 measured\nrunning 0 tests\n\ntest result: ok. 0 passed; 0 failed; 0 ignored; 0 measured\n";
    assert_eq!(parse(two), Err(format!("parse failure in blank line at: {}", &two[76..])));
}

#[test]
fn doc_test_name_with_spaces() {
    let s = chars("test src/hexfile.rs - hexfile::MBHexFile::new (line 102) ... ok\n");
    let (t, end) = parse_test_line(&s, 0).unwrap();
    assert_eq!(end, s.len());
    assert_eq!(t.name, "src/hexfile.rs - hexfile::MBHexFile::new (line 102)");
    assert_eq!(t.outcome, TestResult::Passed);
    let s = chars("test a ... b ... ignored\n");
    assert!(parse_test_line(&s, 0).is_none());
    let s = chars("test a b ... ignored\r\n");
    let (t, _) = parse_test_line(&s, 0).unwrap();
    assert_eq!(t.name, "a b");
    assert_eq!(t.outcome, TestResult::Skipped);
}

#[test]
fn message_lines_plain_and_structured() {
    let plain = chars("---- t stdout ----\nthread 't' panicked at 'boom'\n\n");
    let (f, _) = parse_failure(&plain, 0).unwrap();
    assert_eq!(f.message_lines, vec!["thread 't' panicked at 'boom'".to_string()]);
    assert_eq!(f.captured_output, "");
    let structured = chars("---- t stdout ----\n  out\nthread 't' panicked at 'eq'\n  left: `1`,\n right: `2`'\n\n");
    let (f, _) = parse_failure(&structured, 0).unwrap();
    assert_eq!(f.captured_output, "  out\n");
    assert_eq!(
        f.message_lines,
        vec!["thread 't' panicked at 'eq'", "\n", "  left: ", "`1`,", "\n right: ", "`2`'"]
    );
}

#[test]
fn numbers_beyond_32_bits_are_refused() {
    assert_eq!(parse_number(&chars("4294967295;"), 0), Some((4294967295, 10)));
    assert_eq!(parse_number(&chars("4294967296"), 0), None);
    assert_eq!(parse_number(&chars("x1"), 0), None);
}

#[test]
fn single_module_counts_its_lines() {
    let text = "\nrunning 3 tests\ntest a ... ok\ntest b::c ... FAILED\ntest d ... ignored\n\ntest result: FAILED. 1 passed; 1 failed; 1 ignored; 0 measured; 0 filtered out\n";
    let ms = parse(text).unwrap();
    assert_eq!(ms.len(), 1);
    assert_eq!(ms[0].tests.len(), 3);
    assert_eq!(ms[0].failures.len(), 0);
    assert_eq!(ms[0].overall_result, TestResult::Failed);
    assert_eq!(ms[0].tests[1].outcome, TestResult::Failed);
    assert_eq!(ms[0].tests[2].outcome, TestResult::Skipped);
}

#[test]
fn parse_error_names_each_rule() {
    let cases = [
        ("\nrunnin 1 test\n", "module start line"),
        ("\nrunning 1 test\ntest a ... ok\nxyz\n", "test lines"),
        ("\nrunning 1 test\ntest a ... ok\n\nfailures:\n\nnot a block\n", "failures section"),
        ("\nrunning 1 test\ntest a ... ok\n\ntest result: ok.\n", "summary line"),
        ("running 0 tests\n", "test lines"),
        ("\n\nrunning 0 tests\n", "module start line"),
    ];
    for (text, rule) in cases {
        assert_eq!(parse(text), Err(format!("parse failure in {} at: {}", rule, text)));
    }
}

#[test]
fn whole_input_keeps_captured_output_verbatim() {
    let text = "\nrunning 1 test\ntest m::t ... FAILED\n\nfailures:\n\n---- m::t stdout ----\n  indented\nthread 'm::t' panicked at 'eq'\n  left: `1`,\n right: `2`'\n\n\nfailures:\n    m::t\n\ntest result: FAILED. 0 passed; 1 failed; 0 ignored; 0 measured; 0 filtered out\n";
    let ms = parse(text).unwrap();
    assert_eq!(ms.len(), 1);
    assert_eq!(ms[0].tests.len(), 1);
    assert_eq!(ms[0].failures.len(), 1);
    let f = &ms[0].failures[0];
    assert_eq!(f.name, "m::t");
    assert_eq!(f.captured_output, "  indented\n");
    assert_eq!(
        f.message_lines,
        vec!["thread 'm::t' panicked at 'eq'", "\n", "  left: ", "`1`,", "\n right: ", "`2`'"]
    );
    assert_eq!(f.backtrace, "");
}

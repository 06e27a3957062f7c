use cargo_junit::grammar::Summary;
use cargo_junit::parser::{
    parse, parse_failure, parse_failures_section, parse_module, parse_module_start,
    parse_number, parse_outcome, parse_summary, parse_test_line,
};
use cargo_junit::text::chars_of;
use cargo_junit::{Failure, Test, TestModule, TestResult};

fn test(name: &str, outcome: TestResult) -> Test {
    Test { name: name.to_string(), outcome }
}

fn failure(name: &str, output: &str, lines: &[&str], backtrace: &str) -> Failure {
    Failure {
        name: name.to_string(),
        captured_output: output.to_string(),
        message_lines: lines.iter().map(|l| l.to_string()).collect(),
        backtrace: backtrace.to_string(),
    }
}

fn module(
    overall_result: TestResult,
    tests: Vec<Test>,
    failures: Vec<Failure>,
    counts: [u32; 5],
) -> TestModule {
    TestModule {
        overall_result,
        tests,
        failures,
        passed_count: counts[0],
        failed_count: counts[1],
        ignored_count: counts[2],
        measured_count: counts[3],
        filtered_count: counts[4],
    }
}

const PANIC_1: &str =
    "thread 'tests::test_failing' panicked at 'assertion failed: false', src\\main.rs:93:12";
const PANIC_2: &str =
    "thread 'tests::test_failing2' panicked at 'assertion failed: `(left == right)`";
const RIGHT_2: &str = "`\"yes\"`', src\\main.rs:100:9";

const FAILURE: &str = "---- tests::test_failing2 stdout ----\nAgain!!\nthread 'tests::test_failing2' panicked at 'assertion failed: `(left == right)`\n  left: `\"no\"`,\n right: `\"yes\"`', src\\main.rs:100:9\n\n";

const FAILURES: &str = "failures:\n\n---- tests::test_failing stdout ----\nOh noes!!\nthread 'tests::test_failing' panicked at 'assertion failed: false', src\\main.rs:93:12\nnote: Run with `RUST_BACKTRACE=1` for a backtrace.\n\n---- tests::test_failing2 stdout ----\nAgain!!\nthread 'tests::test_failing2' panicked at 'assertion failed: `(left == right)`\n  left: `\"no\"`,\n right: `\"yes\"`', src\\main.rs:100:9\n\n\nfailures:\n    tests::test_failing\n    tests::test_failing2\n\n";

const FAILURES_WITH_BACKTRACE: &str = "failures:\n\n---- tests::test_failing stdout ----\nOh noes!!\nthread 'tests::test_failing' panicked at 'assertion failed: false', src\\main.rs:93:12\nstack backtrace:\n   0: std::sys::windows::backtrace::unwind_backtrace\n             at C:\\projects\\rust\\src\\libstd\\sys\\windows\\backtrace\\mod.rs:65\n   1: std::sys_common::backtrace::_print\n             at C:\\projects\\rust\\src\\libstd\\sys_common\\backtrace.rs:71\n\n---- tests::test_failing2 stdout ----\nAgain!!\nthread 'tests::test_failing2' panicked at 'assertion failed: `(left == right)`\n  left: `\"no\"`,\n right: `\"yes\"`', src\\main.rs:100:9\nstack backtrace:\n   0: std::sys::windows::backtrace::unwind_backtrace\n             at C:\\projects\\rust\\src\\libstd\\sys\\windows\\backtrace\\mod.rs:65\n   1: std::sys_common::backtrace::_print\n             at C:\\projects\\rust\\src\\libstd\\sys_common\\backtrace.rs:71\n\n\nfailures:\n    tests::test_failing\n    tests::test_failing2\n\n";

const BACKTRACE: &str = "   0: std::sys::windows::backtrace::unwind_backtrace
             at C:\\projects\\rust\\src\\libstd\\sys\\windows\\backtrace\\mod.rs:65
   1: std::sys_common::backtrace::_print
             at C:\\projects\\rust\\src\\libstd\\sys_common\\backtrace.rs:71";

const MODULE: &str = "running 5 tests\ntest tests::test_test_case ... ok\ntest test_test_case ... ok\ntest tests::test_test_CASE::xxx ... ok\ntest src/hexfile.rs - hexfile::MBHexFile::new (line 102) ... ok\ntest tests::test_test_function ... ok\n\ntest result: ok. 1 passed; 2 failed; 3 ignored; 4 measured; 5 filtered out\n";

const MODULE_HEAD: &str =
    "running 4 tests\ntest tests::test_test_case ... ok\ntest tests::test_test_function ... ok\n\n";

const MODULE_TAIL: &str =
    "test result: ok. 1 passed; 2 failed; 3 ignored; 4 measured; 5 filtered out\n";

const DOC_MODULE: &str = "running 1 test\ntest src/hexfile.rs - hexfile::MBHexFile::new (line 102) ... ok\n\ntest result: ok. 1 passed; 0 failed; 0 ignored; 0 measured; 0 filtered out\n";

fn two_failures(backtrace: &str) -> Vec<Failure> {
    vec![
        failure("tests::test_failing", "Oh noes!!\n", &[PANIC_1], backtrace),
        failure(
            "tests::test_failing2",
            "Again!!\n",
            &[PANIC_2, "\n", "  left: ", "`\"no\"`,", "\n right: ", RIGHT_2],
            backtrace,
        ),
    ]
}

fn all_parsed<T>(text: &str, f: impl Fn(&[char], usize) -> Option<(T, usize)>) -> Option<T> {
    let s = chars_of(text);
    match f(&s, 0) {
        Some((v, end)) if end == s.len() => Some(v),
        _ => None,
    }
}

#[test]
fn test_number() {
    assert_eq!(all_parsed("0", parse_number), Some(0));
    assert_eq!(all_parsed("1", parse_number), Some(1));
    assert_eq!(all_parsed("99999", parse_number), Some(99999));
}

#[test]
fn test_test_result() {
    assert_eq!(all_parsed("ok", parse_outcome), Some(TestResult::Passed));
    assert_eq!(all_parsed("FAILED", parse_outcome), Some(TestResult::Failed));
}

#[test]
fn test_test_start() {
    assert_eq!(all_parsed("running 1 test\r\n", parse_module_start), Some(1));
    assert_eq!(all_parsed("running 0 tests\r\n", parse_module_start), Some(0));
}

fn summary(result: TestResult, c: [u32; 5]) -> Summary {
    Summary {
        result,
        passed: c[0],
        failed: c[1],
        ignored: c[2],
        measured: c[3],
        filtered: c[4],
    }
}

#[test]
fn test_test_end() {
    assert_eq!(
        all_parsed(
            "test result: ok. 60 passed; 2 failed; 3 ignored; 0 measured; 0 filtered out\r\n",
            parse_summary
        ),
        Some(summary(TestResult::Passed, [60, 2, 3, 0, 0]))
    );
    assert_eq!(
        all_parsed(
            "test result: ok. 10 passed; 2 failed; 3 ignored; 4 measured; 0 filtered out\r\n",
            parse_summary
        ),
        Some(summary(TestResult::Passed, [10, 2, 3, 4, 0]))
    );
    assert_eq!(
        all_parsed(
            "test result: FAILED. 60 passed; 2 failed; 3 ignored; 0 measured; 1 filtered out\r\n",
            parse_summary
        ),
        Some(summary(TestResult::Failed, [60, 2, 3, 0, 1]))
    );
}

#[test]
fn test_test_function() {
    assert_eq!(
        all_parsed("test tests::test_test_case ... ok\r\n", parse_test_line),
        Some(test("tests::test_test_case", TestResult::Passed))
    );
}

#[test]
fn test_test_failure() {
    assert_eq!(
        all_parsed(FAILURE, parse_failure),
        Some(failure(
            "tests::test_failing2",
            "Again!!\n",
            &[PANIC_2, "\n", "  left: ", "`\"no\"`,", "\n right: ", RIGHT_2],
            ""
        ))
    );
}

#[test]
fn test_test_failures() {
    assert_eq!(all_parsed(FAILURES, parse_failures_section), Some(two_failures("")));
}

#[test]
fn test_test_module() {
    assert_eq!(
        all_parsed(MODULE, parse_module),
        Some(module(
            TestResult::Passed,
            vec![
                test("tests::test_test_case", TestResult::Passed),
                test("test_test_case", TestResult::Passed),
                test("tests::test_test_CASE::xxx", TestResult::Passed),
                test("src/hexfile.rs - hexfile::MBHexFile::new (line 102)", TestResult::Passed),
                test("tests::test_test_function", TestResult::Passed),
            ],
            vec![],
            [1, 2, 3, 4, 5]
        ))
    );

    let module2 = format!("{}{}{}", MODULE_HEAD, FAILURES, MODULE_TAIL);
    assert_eq!(
        all_parsed(&module2, parse_module),
        Some(module(
            TestResult::Passed,
            vec![
                test("tests::test_test_case", TestResult::Passed),
                test("tests::test_test_function", TestResult::Passed),
            ],
            two_failures(""),
            [1, 2, 3, 4, 5]
        ))
    );
}

#[test]
fn test_empty_module() {
    assert_eq!(
        all_parsed(
            "running 0 tests\n\ntest result: ok. 0 passed; 0 failed; 0 ignored; 0 measured\n",
            parse_module
        ),
        Some(module(TestResult::Passed, vec![], vec![], [0, 0, 0, 0, 0]))
    );
}

fn suite_modules(backtrace: &str) -> Vec<TestModule> {
    vec![
        module(
            TestResult::Passed,
            vec![
                test("tests::test_test_case", TestResult::Passed),
                test("tests::test_test_function", TestResult::Passed),
            ],
            two_failures(backtrace),
            [1, 2, 3, 4, 5],
        ),
        module(
            TestResult::Passed,
            vec![test(
                "src/hexfile.rs - hexfile::MBHexFile::new (line 102)",
                TestResult::Passed,
            )],
            vec![],
            [1, 0, 0, 0, 0],
        ),
    ]
}

#[test]
fn test_test_suite() {
    let text = format!("\n{}{}{}\n\n{}\n", MODULE_HEAD, FAILURES, MODULE_TAIL, DOC_MODULE);
    assert_eq!(parse(&text), Ok(suite_modules("")));
}

#[test]
fn test_test_suite_with_stack_backtrace() {
    let text = format!(
        "\n{}{}{}\n\n{}\n",
        MODULE_HEAD, FAILURES_WITH_BACKTRACE, MODULE_TAIL, DOC_MODULE
    );
    assert_eq!(parse(&text), Ok(suite_modules(BACKTRACE)));
}

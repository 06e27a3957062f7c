use cargo_junit::junit::{decimal_string, split_name};
use cargo_junit::parser::parse_module;
use cargo_junit::text::chars_of;
use cargo_junit::{parse, parse_data, Failure, Test, TestModule, TestResult};
use xml::{Element, Xml};

fn child_elements(e: &Element) -> Vec<&Element> {
    e.children
        .iter()
        .map(|c| match c {
            Xml::ElementNode(el) => el,
            other => panic!("unexpected node {:?}", other),
        })
        .collect()
}

fn attr<'a>(e: &'a Element, name: &str) -> &'a str {
    e.get_attribute(name, None).unwrap()
}

fn one_module(tests: Vec<Test>, failures: Vec<Failure>, counts: [u32; 5]) -> TestModule {
    TestModule {
        overall_result: TestResult::Passed,
        tests,
        failures,
        passed_count: counts[0],
        failed_count: counts[1],
        ignored_count: counts[2],
        measured_count: counts[3],
        filtered_count: counts[4],
    }
}

fn test(name: &str, outcome: TestResult) -> Test {
    Test { name: name.to_string(), outcome }
}

#[test]
fn single_ok_module_scenario() {
    let text = "running 1 test\r\ntest t::a ... ok\r\n\ntest result: ok. 1 passed; 0 failed; 0 ignored; 0 measured\r\n";
    let expected = one_module(vec![test("t::a", TestResult::Passed)], vec![], [1, 0, 0, 0, 0]);
    assert_eq!(parse(text), Ok(vec![expected.clone()]));
    let s = chars_of(text);
    assert_eq!(parse_module(&s, 0), Some((expected.clone(), s.len())));

    let root = cargo_junit::junit::format(parse(text).unwrap());
    assert_eq!(root.name, "testsuites");
    let suites = child_elements(&root);
    assert_eq!(suites.len(), 1);
    assert_eq!(suites[0].name, "testsuite");
    assert_eq!(attr(suites[0], "failures"), "0");
    assert_eq!(attr(suites[0], "skip"), "0");
    assert_eq!(attr(suites[0], "tests"), "1");
    let cases = child_elements(suites[0]);
    assert_eq!(cases.len(), 1);
    assert_eq!(cases[0].name, "testcase");
    assert_eq!(attr(cases[0], "name"), "a");
    assert_eq!(attr(cases[0], "classname"), "t");
    assert!(cases[0].children.is_empty());

    let report = parse(&format!("\n{}", text)).unwrap();
    assert_eq!(report.len(), 1);
}

#[test]
fn suite_counts_come_from_the_summary_line() {
    let m = one_module(
        vec![test("a::x", TestResult::Skipped), test("a::y", TestResult::Passed)],
        vec![],
        [7, 12, 1, 5, 0],
    );
    let root = cargo_junit::junit::format(vec![m]);
    let suites = child_elements(&root);
    assert_eq!(attr(suites[0], "failures"), "12");
    assert_eq!(attr(suites[0], "skip"), "5");
    assert_eq!(attr(suites[0], "tests"), "2");
    let cases = child_elements(suites[0]);
    let skipped = child_elements(cases[0]);
    assert_eq!(skipped.len(), 1);
    assert_eq!(skipped[0].name, "skipped");
    assert!(skipped[0].children.is_empty());
    assert!(cases[1].children.is_empty());
}

#[test]
fn name_split_on_last_separator() {
    assert_eq!(split_name("a::b::c"), ("c".to_string(), "a.b".to_string()));
    assert_eq!(
        split_name("nodoublecolon"),
        ("nodoublecolon".to_string(), "::".to_string())
    );
    assert_eq!(split_name("tests::test_test_CASE::xxx"), ("xxx".to_string(), "tests.test_test_CASE".to_string()));
    assert_eq!(split_name("::x"), ("x".to_string(), "".to_string()));
    assert_eq!(split_name("a:::b"), ("b".to_string(), "a:".to_string()));
    assert_eq!(split_name(""), ("".to_string(), "::".to_string()));
}

#[test]
fn failed_test_gets_failure_and_output() {
    let f = Failure {
        name: "m::t".to_string(),
        captured_output: "out\n".to_string(),
        message_lines: vec!["head".to_string(), "\n".to_string(), "  left: ".to_string(), "1,".to_string(), "\n right: ".to_string(), "2".to_string()],
        backtrace: "".to_string(),
    };
    let m = one_module(vec![test("m::t", TestResult::Failed)], vec![f], [0, 1, 0, 0, 0]);
    let root = cargo_junit::junit::format(vec![m]);
    let suites = child_elements(&root);
    let cases = child_elements(suites[0]);
    let kids = child_elements(cases[0]);
    assert_eq!(kids.len(), 2);
    assert_eq!(kids[0].name, "failure");
    assert_eq!(attr(kids[0], "message"), "head");
    assert_eq!(kids[0].children, vec![Xml::CDATANode("head\n  left: 1,\n right: 2".to_string())]);
    assert_eq!(kids[1].name, "system-out");
    assert_eq!(kids[1].children, vec![Xml::CharacterNode("out\n".to_string())]);
}

#[test]
fn first_failure_of_a_name_wins() {
    let f = |out: &str| Failure {
        name: "t".to_string(),
        captured_output: out.to_string(),
        message_lines: vec!["m".to_string()],
        backtrace: "".to_string(),
    };
    let m = one_module(vec![test("t", TestResult::Failed)], vec![f("first"), f("second")], [0, 1, 0, 0, 0]);
    let root = cargo_junit::junit::format(vec![m]);
    let cases = child_elements(child_elements(&root)[0]);
    let kids = child_elements(cases[0]);
    assert_eq!(kids.len(), 2);
    assert_eq!(kids[1].children, vec![Xml::CharacterNode("first".to_string())]);
}

#[test]
fn failed_test_without_details_has_no_failure_child() {
    let other = Failure {
        name: "x::other".to_string(),
        captured_output: "".to_string(),
        message_lines: vec!["m".to_string()],
        backtrace: "".to_string(),
    };
    let m = one_module(vec![test("x::lonely", TestResult::Failed)], vec![other], [0, 1, 0, 0, 0]);
    let root = cargo_junit::junit::format(vec![m]);
    let cases = child_elements(child_elements(&root)[0]);
    assert_eq!(cases.len(), 1);
    assert_eq!(attr(cases[0], "name"), "lonely");
    assert_eq!(attr(cases[0], "classname"), "x");
    assert!(cases[0].children.is_empty());
}

#[test]
fn modules_keep_their_order() {
    let a = one_module(vec![], vec![], [0, 1, 0, 0, 0]);
    let b = one_module(vec![], vec![], [0, 2, 0, 0, 0]);
    let root = cargo_junit::junit::format(vec![a, b]);
    let suites = child_elements(&root);
    assert_eq!(suites.len(), 2);
    assert_eq!(attr(suites[0], "failures"), "1");
    assert_eq!(attr(suites[1], "failures"), "2");
    assert_eq!(attr(suites[0], "tests"), "0");
}

#[test]
fn decimal_digits() {
    assert_eq!(decimal_string(0), "0");
    assert_eq!(decimal_string(7), "7");
    assert_eq!(decimal_string(10), "10");
    assert_eq!(decimal_string(4294967295), "4294967295");
}

#[test]
fn utf8_input() {
    assert_eq!(parse_data("running 1 test\n".as_bytes().to_vec()), Some("running 1 test\n".to_string()));
    assert_eq!(parse_data("caf\u{e9}".as_bytes().to_vec()), Some("caf\u{e9}".to_string()));
    assert_eq!(parse_data(vec![0x66, 0xff, 0x66]), None);
}

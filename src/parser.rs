//! The parser: reads the console output of a test run into modules, following
//! the rules of [`crate::grammar`] step by step.
use crate::grammar::{
    backtrace, digit_class, digits_value, eol, failure_block, failure_blocks, failures_section,
    filtered_clause, left_right, line_class, listing_end, listing_line, lit, message_lines_of,
    module, module_start, note, number, outcome, report, report_end, rule_name, failed_rule, module_failed_rule, report_failed_rule,
    first_start, first_item, ParseRule, suite_item,
    suite_items, summary_line, test_line, test_lines, word_class, Summary,
};
use crate::model::{
    failures_view, report_view, strings_view, tests_view, Failure, Test, TestModule, TestResult,
};
use crate::text::{
    chars_of, find, find_from, is_digit, lemma_find_from_bounds, lemma_run_end_bounds, occurs,
    occurs_at, run_end, substring,
};
use vstd::prelude::*;

verus! {

/// The classes of characters that the grammar reads in runs.
pub enum CharClass {
    Digit,
    Word,
    Line,
}

/// The characters that belong to class `k`.
pub open spec fn class_fn(k: CharClass) -> spec_fn(char) -> bool {
    match k {
        CharClass::Digit => digit_class(),
        CharClass::Word => word_class(),
        CharClass::Line => line_class(),
    }
}

fn in_class(c: char, k: &CharClass) -> (r: bool)
    ensures
        r == class_fn(*k)(c),
{
    match k {
        CharClass::Digit => '0' <= c && c <= '9',
        CharClass::Word => ('0' <= c && c <= '9') || ('a' <= c && c <= 'z') || ('A' <= c && c
            <= 'Z'),
        CharClass::Line => c != '\n' && c != '\r',
    }
}

/// The end of the run of characters of class `k` from `p` on.
fn run(s: &[char], p: usize, k: CharClass) -> (r: usize)
    requires
        p <= s@.len(),
    ensures
        r == run_end(s@, p as int, class_fn(k)),
        p <= r <= s@.len(),
{
    proof {
        lemma_run_end_bounds(s@, p as int, class_fn(k));
    }
    let mut i = p;
    while i < s.len() && in_class(s[i], &k)
        invariant
            p <= i <= s@.len(),
            run_end(s@, p as int, class_fn(k)) == run_end(s@, i as int, class_fn(k)),
        decreases s@.len() - i,
    {
        i = i + 1;
    }
    i
}

fn literal(s: &[char], p: usize, l: &str) -> (r: Option<usize>)
    requires
        p <= s@.len(),
    ensures
        r matches Some(q) ==> lit(s@, p as int, l@) == Some(q as int) && q <= s@.len(),
        r is None ==> lit(s@, p as int, l@) is None,
{
    let n = l.unicode_len();
    if n <= s.len() - p && occurs(s, p, l) {
        Some(p + n)
    } else {
        None
    }
}

fn line_end(s: &[char], p: usize) -> (r: Option<usize>)
    requires
        p <= s@.len(),
    ensures
        r matches Some(q) ==> eol(s@, p as int) == Some(q as int) && p < q <= s@.len(),
        r is None ==> eol(s@, p as int) is None,
{
    if p < s.len() && s[p] == '\n' {
        Some(p + 1)
    } else if p < s.len() && s.len() - p >= 2 && s[p] == '\r' && s[p + 1] == '\n' {
        Some(p + 2)
    } else {
        None
    }
}

fn search(s: &[char], from: usize, l: &str) -> (r: Option<usize>)
    requires
        from <= s@.len(),
    ensures
        r matches Some(k) ==> find_from(s@, from as int, l@) == Some(k as int) && from <= k
            && k + l@.len() <= s@.len(),
        r is None ==> find_from(s@, from as int, l@) is None,
{
    proof {
        lemma_find_from_bounds(s@, from as int, l@);
    }
    find(s, from, l)
}

pub proof fn lemma_digits_value_push(d: Seq<char>, c: char)
    ensures
        digits_value(d.push(c)) == digits_value(d) * 10 + (c as nat - '0' as nat) as nat,
{
    assert(d.push(c).drop_last() =~= d);
}

/// An unsigned decimal number that fits in 32 bits, at `p`.
pub fn parse_number(s: &[char], p: usize) -> (r: Option<(u32, usize)>)
    requires
        p <= s@.len(),
    ensures
        r matches Some((n, q)) ==> number(s@, p as int) == Some((n, q as int)) && p < q
            <= s@.len(),
        r is None ==> number(s@, p as int) is None,
{
    let e = run(s, p, CharClass::Digit);
    proof {
        lemma_run_end_bounds(s@, p as int, digit_class());
    }
    let mut value: u64 = 0;
    let mut i = p;
    while i < e
        invariant
            p <= i <= e <= s@.len(),
            e == run_end(s@, p as int, digit_class()),
            forall|k: int| p <= k < e ==> is_digit(s@[k]),
            value <= u32::MAX ==> value == digits_value(s@.subrange(p as int, i as int)),
            value > u32::MAX ==> digits_value(s@.subrange(p as int, i as int)) > u32::MAX,
            value <= u32::MAX + 1,
        decreases e - i,
    {
        let c = s[i];
        assert(is_digit(s@[i as int]));
        let digit = (c as u32 - '0' as u32) as u64;
        proof {
            assert(s@.subrange(p as int, i + 1) =~= s@.subrange(p as int, i as int).push(c));
            lemma_digits_value_push(s@.subrange(p as int, i as int), c);
        }
        if value <= u32::MAX as u64 {
            value = value * 10 + digit;
            if value > u32::MAX as u64 {
                value = u32::MAX as u64 + 1;
            }
        }
        i = i + 1;
    }
    if p < e && value <= u32::MAX as u64 {
        Some((value as u32, e))
    } else {
        None
    }
}

/// The word from `p` to `e` spells `l`.
fn word_is(s: &[char], p: usize, e: usize, l: &str) -> (r: bool)
    requires
        p <= e <= s@.len(),
    ensures
        r == (s@.subrange(p as int, e as int) == l@),
{
    let n = l.unicode_len();
    if n == e - p && occurs(s, p, l) {
        true
    } else {
        proof {
            if n == e - p {
                assert(!occurs_at(s@, p as int, l@));
            }
        }
        false
    }
}

/// An outcome word at `p`.
pub fn parse_outcome(s: &[char], p: usize) -> (r: Option<(TestResult, usize)>)
    requires
        p <= s@.len(),
    ensures
        r matches Some((o, q)) ==> outcome(s@, p as int) == Some((o, q as int)) && p < q
            <= s@.len(),
        r is None ==> outcome(s@, p as int) is None,
{
    let e = run(s, p, CharClass::Word);
    if p == e {
        return None;
    }
    let o = if word_is(s, p, e, "ok") {
        TestResult::Passed
    } else if word_is(s, p, e, "ignored") {
        TestResult::Skipped
    } else {
        TestResult::Failed
    };
    Some((o, e))
}

/// The start line of a module, with the number of tests it announces.
pub fn parse_module_start(s: &[char], p: usize) -> (r: Option<(u32, usize)>)
    requires
        p <= s@.len(),
    ensures
        r matches Some((n, q)) ==> module_start(s@, p as int) == Some((n, q as int)) && p < q
            <= s@.len(),
        r is None ==> module_start(s@, p as int) is None,
{
    let a = match literal(s, p, "running ") {
        Some(a) => a,
        None => return None,
    };
    let (n, b) = match parse_number(s, a) {
        Some(x) => x,
        None => return None,
    };
    let c = match literal(s, b, " tests") {
        Some(c) => c,
        None => match literal(s, b, " test") {
            Some(c) => c,
            None => return None,
        },
    };
    match line_end(s, c) {
        Some(d) => Some((n, d)),
        None => None,
    }
}

/// One test line at `p`.
pub fn parse_test_line(s: &[char], p: usize) -> (r: Option<(Test, usize)>)
    requires
        p <= s@.len(),
    ensures
        r matches Some((t, q)) ==> test_line(s@, p as int) == Some((t@, q as int)) && p < q
            <= s@.len(),
        r is None ==> test_line(s@, p as int) is None,
{
    let a = match literal(s, p, "test ") {
        Some(a) => a,
        None => return None,
    };
    let k = match search(s, a, " ... ") {
        Some(k) => k,
        None => return None,
    };
    assert(s@.len() == s.len());
    let (o, b) = match parse_outcome(s, k + " ... ".unicode_len()) {
        Some(x) => x,
        None => return None,
    };
    match line_end(s, b) {
        Some(c) => {
            let t = Test { name: substring(s, a, k), outcome: o };
            Some((t, c))
        },
        None => None,
    }
}

/// As many test lines as follow one another from `p`.
pub fn parse_test_lines(s: &[char], p: usize) -> (r: (Vec<Test>, usize))
    requires
        p <= s@.len(),
    ensures
        (tests_view(r.0@), r.1 as int) == test_lines(s@, p as int),
        p <= r.1 <= s@.len(),
{
    let mut v: Vec<Test> = Vec::new();
    let mut q = p;
    loop
        invariant
            p <= q <= s@.len(),
            test_lines(s@, p as int) == (tests_view(v@) + test_lines(s@, q as int).0, test_lines(
                s@,
                q as int,
            ).1),
        decreases s@.len() - q,
    {
        match parse_test_line(s, q) {
            Some((t, q2)) => {
                proof {
                    let rest = test_lines(s@, q2 as int).0;
                    assert(tests_view(v@.push(t)) =~= tests_view(v@).push(t@));
                    assert(tests_view(v@) + (seq![t@] + rest) =~= tests_view(v@).push(t@) + rest);
                }
                v.push(t);
                q = q2;
            },
            None => {
                assert(tests_view(v@) + seq![] =~= tests_view(v@));
                return (v, q);
            },
        }
    }
}

/// `  left: <left>` and `\n right: <right>` at `p`.
fn parse_left_right(s: &[char], p: usize) -> (r: Option<(String, String, usize)>)
    requires
        p <= s@.len(),
    ensures
        r matches Some((l, rt, q)) ==> left_right(s@, p as int) == Some((l@, rt@, q as int))
            && p < q <= s@.len(),
        r is None ==> left_right(s@, p as int) is None,
{
    let a = match literal(s, p, "  left: ") {
        Some(a) => a,
        None => return None,
    };
    let b = run(s, a, CharClass::Line);
    let c = match literal(s, b, "\n right: ") {
        Some(c) => c,
        None => return None,
    };
    let k = match search(s, c, "\n") {
        Some(k) => k,
        None => return None,
    };
    proof {
        reveal_strlit("\n");
    }
    assert(s@.len() == s.len());
    Some((substring(s, a, b), substring(s, c, k), k + 1))
}

/// A `note: ...` line at `p`.
fn parse_note(s: &[char], p: usize) -> (r: Option<usize>)
    requires
        p <= s@.len(),
    ensures
        r matches Some(q) ==> note(s@, p as int) == Some(q as int) && p < q <= s@.len(),
        r is None ==> note(s@, p as int) is None,
{
    match literal(s, p, "note: ") {
        Some(a) => line_end(s, run(s, a, CharClass::Line)),
        None => None,
    }
}

/// A stack backtrace at `p`.
fn parse_backtrace(s: &[char], p: usize) -> (r: Option<(String, usize)>)
    requires
        p <= s@.len(),
    ensures
        r matches Some((bt, q)) ==> backtrace(s@, p as int) == Some((bt@, q as int)) && p < q
            <= s@.len(),
        r is None ==> backtrace(s@, p as int) is None,
{
    let a = match literal(s, p, "stack backtrace:") {
        Some(a) => a,
        None => return None,
    };
    let b = match line_end(s, a) {
        Some(b) => b,
        None => return None,
    };
    let k = match search(s, b, "\n\n") {
        Some(k) => k,
        None => return None,
    };
    match line_end(s, k) {
        Some(c) => Some((substring(s, b, k), c)),
        None => None,
    }
}

/// One failure block at `p`.
pub fn parse_failure(s: &[char], p: usize) -> (r: Option<(Failure, usize)>)
    requires
        p <= s@.len(),
    ensures
        r matches Some((f, q)) ==> failure_block(s@, p as int) == Some((f@, q as int)) && p < q
            <= s@.len(),
        r is None ==> failure_block(s@, p as int) is None,
{
    let a = match literal(s, p, "---- ") {
        Some(a) => a,
        None => return None,
    };
    let k = match search(s, a, " stdout ----") {
        Some(k) => k,
        None => return None,
    };
    assert(s@.len() == s.len());
    let b = match line_end(s, k + " stdout ----".unicode_len()) {
        Some(b) => b,
        None => return None,
    };
    let t = match search(s, b, "thread") {
        Some(t) => t,
        None => return None,
    };
    let m = run(s, t, CharClass::Line);
    let d = match line_end(s, m) {
        Some(d) => d,
        None => return None,
    };
    let info = substring(s, t, m);
    let ghost lr = left_right(s@, d as int);
    let (message_lines, e) = match parse_left_right(s, d) {
        Some((l, rt, e)) => {
            let lines = vec![info, "\n".to_owned(), "  left: ".to_owned(), l, "\n right: ".to_owned(), rt];
            (lines, e)
        },
        None => (vec![info], d),
    };
    assert(strings_view(message_lines@) =~= message_lines_of(s@.subrange(t as int, m as int), lr));
    let f = match parse_note(s, e) {
        Some(f) => f,
        None => e,
    };
    let (bt, g) = match parse_backtrace(s, f) {
        Some(x) => x,
        None => (String::new(), f),
    };
    match line_end(s, g) {
        Some(h) => {
            let fl = Failure {
                name: substring(s, a, k),
                captured_output: substring(s, b, t),
                message_lines,
                backtrace: bt,
            };
            Some((fl, h))
        },
        None => None,
    }
}

/// As many failure blocks as follow one another from `p`.
pub fn parse_failures(s: &[char], p: usize) -> (r: (Vec<Failure>, usize))
    requires
        p <= s@.len(),
    ensures
        (failures_view(r.0@), r.1 as int) == failure_blocks(s@, p as int),
        p <= r.1 <= s@.len(),
{
    let mut v: Vec<Failure> = Vec::new();
    let mut q = p;
    loop
        invariant
            p <= q <= s@.len(),
            failure_blocks(s@, p as int) == (failures_view(v@) + failure_blocks(s@, q as int).0,
            failure_blocks(s@, q as int).1),
        decreases s@.len() - q,
    {
        match parse_failure(s, q) {
            Some((f, q2)) => {
                proof {
                    let rest = failure_blocks(s@, q2 as int).0;
                    assert(failures_view(v@.push(f)) =~= failures_view(v@).push(f@));
                    assert(failures_view(v@) + (seq![f@] + rest) =~= failures_view(v@).push(f@)
                        + rest);
                }
                v.push(f);
                q = q2;
            },
            None => {
                assert(failures_view(v@) + seq![] =~= failures_view(v@));
                return (v, q);
            },
        }
    }
}

fn parse_listing_line(s: &[char], p: usize) -> (r: Option<usize>)
    requires
        p <= s@.len(),
    ensures
        r matches Some(q) ==> listing_line(s@, p as int) == Some(q as int) && p < q <= s@.len(),
        r is None ==> listing_line(s@, p as int) is None,
{
    match literal(s, p, "    ") {
        Some(a) => line_end(s, run(s, a, CharClass::Line)),
        None => None,
    }
}

fn parse_listing(s: &[char], p: usize) -> (r: usize)
    requires
        p <= s@.len(),
    ensures
        r == listing_end(s@, p as int),
        p <= r <= s@.len(),
{
    let mut q = p;
    loop
        invariant
            p <= q <= s@.len(),
            listing_end(s@, p as int) == listing_end(s@, q as int),
        decreases s@.len() - q,
    {
        match parse_listing_line(s, q) {
            Some(q2) => q = q2,
            None => return q,
        }
    }
}

/// The `failures:` section at `p`.
pub fn parse_failures_section(s: &[char], p: usize) -> (r: Option<(Vec<Failure>, usize)>)
    requires
        p <= s@.len(),
    ensures
        r matches Some((fs, q)) ==> failures_section(s@, p as int) == Some(
            (failures_view(fs@), q as int),
        ) && p < q <= s@.len(),
        r is None ==> failures_section(s@, p as int) is None,
{
    let a = match literal(s, p, "failures:") {
        Some(a) => a,
        None => return None,
    };
    let b = match line_end(s, a) {
        Some(b) => b,
        None => return None,
    };
    let c = match line_end(s, b) {
        Some(c) => c,
        None => return None,
    };
    let (fs, d) = parse_failures(s, c);
    if fs.len() == 0 {
        return None;
    }
    let e = match line_end(s, d) {
        Some(e) => e,
        None => return None,
    };
    let f = match literal(s, e, "failures:") {
        Some(f) => f,
        None => return None,
    };
    let g = match line_end(s, f) {
        Some(g) => g,
        None => return None,
    };
    if parse_listing_line(s, g).is_none() {
        return None;
    }
    match line_end(s, parse_listing(s, g)) {
        Some(h) => Some((fs, h)),
        None => None,
    }
}

fn parse_filtered(s: &[char], p: usize) -> (r: Option<(u32, usize)>)
    requires
        p <= s@.len(),
    ensures
        r matches Some((x, q)) ==> filtered_clause(s@, p as int) == Some((x, q as int)) && p < q
            <= s@.len(),
        r is None ==> filtered_clause(s@, p as int) is None,
{
    let a = match literal(s, p, "; ") {
        Some(a) => a,
        None => return None,
    };
    let (x, b) = match parse_number(s, a) {
        Some(v) => v,
        None => return None,
    };
    match literal(s, b, " filtered out") {
        Some(c) => Some((x, c)),
        None => None,
    }
}

/// The summary line of a module at `p`.
pub fn parse_summary(s: &[char], p: usize) -> (r: Option<(Summary, usize)>)
    requires
        p <= s@.len(),
    ensures
        r matches Some((x, q)) ==> summary_line(s@, p as int) == Some((x, q as int)) && p < q
            <= s@.len(),
        r is None ==> summary_line(s@, p as int) is None,
{
    let a = match literal(s, p, "test result: ") {
        Some(a) => a,
        None => return None,
    };
    let (result, b) = match parse_outcome(s, a) {
        Some(v) => v,
        None => return None,
    };
    let c = match literal(s, b, ". ") {
        Some(c) => c,
        None => return None,
    };
    let (passed, d) = match parse_number(s, c) {
        Some(v) => v,
        None => return None,
    };
    let e = match literal(s, d, " passed; ") {
        Some(e) => e,
        None => return None,
    };
    let (failed, f) = match parse_number(s, e) {
        Some(v) => v,
        None => return None,
    };
    let g = match literal(s, f, " failed; ") {
        Some(g) => g,
        None => return None,
    };
    let (ignored, h) = match parse_number(s, g) {
        Some(v) => v,
        None => return None,
    };
    let i = match literal(s, h, " ignored; ") {
        Some(i) => i,
        None => return None,
    };
    let (measured, j) = match parse_number(s, i) {
        Some(v) => v,
        None => return None,
    };
    let k = match literal(s, j, " measured") {
        Some(k) => k,
        None => return None,
    };
    let (filtered, l) = match parse_filtered(s, k) {
        Some(v) => v,
        None => (0u32, k),
    };
    match line_end(s, l) {
        Some(m) => Some((Summary { result, passed, failed, ignored, measured, filtered }, m)),
        None => None,
    }
}

/// One module at `p`.
pub fn parse_module(s: &[char], p: usize) -> (r: Option<(TestModule, usize)>)
    requires
        p <= s@.len(),
    ensures
        r matches Some((m, q)) ==> module(s@, p as int) == Some((m@, q as int)) && p < q
            <= s@.len(),
        r is None ==> module(s@, p as int) is None,
{
    let a = match parse_module_start(s, p) {
        Some((_, a)) => a,
        None => return None,
    };
    let (tests, b) = parse_test_lines(s, a);
    let c = match line_end(s, b) {
        Some(c) => c,
        None => return None,
    };
    let (failures, d) = match parse_failures_section(s, c) {
        Some(v) => v,
        None => {
            let none: Vec<Failure> = Vec::new();
            assert(failures_view(none@) =~= Seq::empty());
            (none, c)
        },
    };
    match parse_summary(s, d) {
        Some((sum, e)) => {
            let m = TestModule {
                overall_result: sum.result,
                tests,
                failures,
                passed_count: sum.passed,
                failed_count: sum.failed,
                ignored_count: sum.ignored,
                measured_count: sum.measured,
                filtered_count: sum.filtered,
            };
            Some((m, e))
        },
        None => None,
    }
}

fn parse_suite_item(s: &[char], p: usize) -> (r: Option<(TestModule, usize)>)
    requires
        p <= s@.len(),
    ensures
        r matches Some((m, q)) ==> suite_item(s@, p as int) == Some((m@, q as int)) && p < q
            <= s@.len(),
        r is None ==> suite_item(s@, p as int) is None,
{
    let a = match line_end(s, p) {
        Some(a) => a,
        None => return None,
    };
    let (m, b) = match parse_module(s, a) {
        Some(v) => v,
        None => return None,
    };
    match line_end(s, b) {
        Some(c) => Some((m, c)),
        None => Some((m, b)),
    }
}

/// As many modules as follow one another from `p`.
pub fn parse_modules(s: &[char], p: usize) -> (r: (Vec<TestModule>, usize))
    requires
        p <= s@.len(),
    ensures
        (report_view(r.0@), r.1 as int) == suite_items(s@, p as int),
        p <= r.1 <= s@.len(),
{
    let mut v: Vec<TestModule> = Vec::new();
    let mut q = p;
    loop
        invariant
            p <= q <= s@.len(),
            suite_items(s@, p as int) == (report_view(v@) + suite_items(s@, q as int).0,
            suite_items(s@, q as int).1),
        decreases s@.len() - q,
    {
        match parse_suite_item(s, q) {
            Some((m, q2)) => {
                proof {
                    let rest = suite_items(s@, q2 as int).0;
                    assert(report_view(v@.push(m)) =~= report_view(v@).push(m@));
                    assert(report_view(v@) + (seq![m@] + rest) =~= report_view(v@).push(m@)
                        + rest);
                }
                v.push(m);
                q = q2;
            },
            None => {
                assert(report_view(v@) + seq![] =~= report_view(v@));
                return (v, q);
            },
        }
    }
}

/// The first rule that fails when a module is read from `a`, its start
/// line.
pub fn module_failed_rule_at(s: &[char], a: usize) -> (r: ParseRule)
    requires
        a <= s@.len(),
    ensures
        r == module_failed_rule(s@, a as int),
{
    let b = match parse_module_start(s, a) {
        Some((_, b)) => b,
        None => return ParseRule::ModuleStart,
    };
    let (_, tests_end) = parse_test_lines(s, b);
    let c = match line_end(s, tests_end) {
        Some(c) => c,
        None => return ParseRule::TestLines,
    };
    if literal(s, c, "failures:").is_some() && parse_failures_section(s, c).is_none() {
        ParseRule::FailureSection
    } else {
        ParseRule::SummaryLine
    }
}

/// The first rule that fails when a blank line and a module are read from
/// `p`.
pub fn failed_rule_at(s: &[char], p: usize) -> (r: ParseRule)
    requires
        p <= s@.len(),
    ensures
        r == failed_rule(s@, p as int),
{
    match line_end(s, p) {
        Some(a) => module_failed_rule_at(s, a),
        None => ParseRule::BlankLine,
    }
}

/// The message of a parse error: the rule that failed, and the input left
/// from `from` on.
fn failure_message(s: &[char], rule: ParseRule, from: usize) -> (r: String)
    requires
        from <= s@.len(),
    ensures
        r@ == "parse failure in "@ + rule_name(rule) + " at: "@ + s@.subrange(
            from as int,
            s@.len() as int,
        ),
{
    let rest = substring(s, from, s.len());
    let head = "parse failure in ".to_owned();
    head.concat(rule_text(rule)).concat(" at: ").concat(rest.as_str())
}

fn rule_text(r: ParseRule) -> (t: &'static str)
    ensures
        t@ == rule_name(r),
{
    match r {
        ParseRule::BlankLine => "blank line",
        ParseRule::ModuleStart => "module start line",
        ParseRule::TestLines => "test lines",
        ParseRule::FailureSection => "failures section",
        ParseRule::SummaryLine => "summary line",
    }
}

/// Parses the whole console output of a test run.
///
/// Succeeds exactly when the input is one or more modules and nothing else,
/// each module but the first preceded by a blank line; the error then names
/// the rule that fails where reading stopped, and the input that is left
/// after the modules that could be read.
pub fn parse(string: &str) -> (r: Result<Vec<TestModule>, String>)
    ensures
        r is Ok <==> report(string@) is Some,
        r matches Ok(ms) ==> report(string@) == Some(report_view(ms@)),
        r matches Err(e) ==> e@ == "parse failure in "@ + rule_name(report_failed_rule(string@))
            + " at: "@ + string@.subrange(report_end(string@), string@.len() as int),
{
    let chars = chars_of(string);
    let s = chars.as_slice();
    let a = match line_end(s, 0) {
        Some(a) => a,
        None => 0,
    };
    assert(a == first_start(s@));
    let (first, q) = match parse_module(s, a) {
        Some((m, b)) => match line_end(s, b) {
            Some(c) => (m, c),
            None => (m, b),
        },
        None => {
            return Err(failure_message(s, module_failed_rule_at(s, a), 0));
        },
    };
    let (mut rest, e) = parse_modules(s, q);
    if e == s.len() {
        let mut modules = vec![first];
        let ghost first_view = modules@;
        modules.append(&mut rest);
        assert(report_view(modules@) =~= seq![first_view[0]@] + suite_items(s@, q as int).0);
        Ok(modules)
    } else {
        Err(failure_message(s, failed_rule_at(s, e), e))
    }
}

} // verus!

//! The grammar of a test run's console output, as spec functions.
//!
//! Each rule reads `s` from index `p` and gives the value it recognised and
//! the index where the rest of the input starts, or `None` where the input
//! does not fit the rule.
use crate::model::{FailureView, ModuleView, TestResult, TestView};
use crate::text::{find_from, lemma_find_from_bounds, is_alphanumeric, is_digit, occurs_at, run_end};
use vstd::prelude::*;

verus! {

/// The figures of a module's summary line.
#[derive(Clone, Copy, Debug, PartialEq, Eq, Structural)]
pub struct Summary {
    pub result: TestResult,
    pub passed: u32,
    pub failed: u32,
    pub ignored: u32,
    pub measured: u32,
    pub filtered: u32,
}

pub open spec fn digit_class() -> spec_fn(char) -> bool {
    |c: char| is_digit(c)
}

pub open spec fn word_class() -> spec_fn(char) -> bool {
    |c: char| is_alphanumeric(c)
}

/// Any character but the two that end a line.
pub open spec fn line_class() -> spec_fn(char) -> bool {
    |c: char| c != '\n' && c != '\r'
}

/// The literal `l` at `p`.
pub open spec fn lit(s: Seq<char>, p: int, l: Seq<char>) -> Option<int> {
    if occurs_at(s, p, l) {
        Some(p + l.len())
    } else {
        None
    }
}

/// A line ending: `"\n"` or `"\r\n"`.
pub open spec fn eol(s: Seq<char>, p: int) -> Option<int> {
    if 0 <= p < s.len() && s[p] == '\n' {
        Some(p + 1)
    } else if 0 <= p && p + 1 < s.len() && s[p] == '\r' && s[p + 1] == '\n' {
        Some(p + 2)
    } else {
        None
    }
}

/// The number that the decimal digits `d` write.
pub open spec fn digits_value(d: Seq<char>) -> nat
    decreases d.len(),
{
    if d.len() == 0 {
        0
    } else {
        digits_value(d.drop_last()) * 10 + (d.last() as nat - '0' as nat) as nat
    }
}

/// An unsigned decimal number that fits in 32 bits.
pub open spec fn number(s: Seq<char>, p: int) -> Option<(u32, int)> {
    let e = run_end(s, p, digit_class());
    if p < e && digits_value(s.subrange(p, e)) <= u32::MAX {
        Some((digits_value(s.subrange(p, e)) as u32, e))
    } else {
        None
    }
}

pub open spec fn outcome_of(w: Seq<char>) -> TestResult {
    if w == "ok"@ {
        TestResult::Passed
    } else if w == "ignored"@ {
        TestResult::Skipped
    } else {
        TestResult::Failed
    }
}

/// An outcome word: a run of letters and digits.
pub open spec fn outcome(s: Seq<char>, p: int) -> Option<(TestResult, int)> {
    let e = run_end(s, p, word_class());
    if p < e {
        Some((outcome_of(s.subrange(p, e)), e))
    } else {
        None
    }
}

/// `running <n> test` or `running <n> tests`, then a line ending.
pub open spec fn module_start(s: Seq<char>, p: int) -> Option<(u32, int)> {
    match lit(s, p, "running "@) {
        None => None,
        Some(a) => match number(s, a) {
            None => None,
            Some((n, b)) => {
                let c = match lit(s, b, " tests"@) {
                    Some(c) => Some(c),
                    None => lit(s, b, " test"@),
                };
                match c {
                    None => None,
                    Some(c) => match eol(s, c) {
                        None => None,
                        Some(d) => Some((n, d)),
                    },
                }
            },
        },
    }
}

/// `test <name> ... <outcome>`, the name being all that comes before the
/// first `" ... "`.
pub open spec fn test_line(s: Seq<char>, p: int) -> Option<(TestView, int)> {
    match lit(s, p, "test "@) {
        None => None,
        Some(a) => match find_from(s, a, " ... "@) {
            None => None,
            Some(k) => match outcome(s, k + " ... "@.len()) {
                None => None,
                Some((o, b)) => match eol(s, b) {
                    None => None,
                    Some(c) => Some((TestView { name: s.subrange(a, k), outcome: o }, c)),
                },
            },
        },
    }
}

/// As many test lines as follow one another from `p`.
pub open spec fn test_lines(s: Seq<char>, p: int) -> (Seq<TestView>, int)
    decreases s.len() - p,
{
    match test_line(s, p) {
        Some((t, q)) => if p < q <= s.len() {
            let (rest, e) = test_lines(s, q);
            (seq![t] + rest, e)
        } else {
            (seq![], p)
        },
        None => (seq![], p),
    }
}

/// `  left: <left>` and `\n right: <right>` up to the next `"\n"`.
pub open spec fn left_right(s: Seq<char>, p: int) -> Option<(Seq<char>, Seq<char>, int)> {
    match lit(s, p, "  left: "@) {
        None => None,
        Some(a) => {
            let b = run_end(s, a, line_class());
            match lit(s, b, "\n right: "@) {
                None => None,
                Some(c) => match find_from(s, c, "\n"@) {
                    None => None,
                    Some(k) => Some((s.subrange(a, b), s.subrange(c, k), k + 1)),
                },
            }
        },
    }
}

/// A `note: ...` line.
pub open spec fn note(s: Seq<char>, p: int) -> Option<int> {
    match lit(s, p, "note: "@) {
        None => None,
        Some(a) => eol(s, run_end(s, a, line_class())),
    }
}

/// `stack backtrace:`, a line ending, then all up to the first blank line.
pub open spec fn backtrace(s: Seq<char>, p: int) -> Option<(Seq<char>, int)> {
    match lit(s, p, "stack backtrace:"@) {
        None => None,
        Some(a) => match eol(s, a) {
            None => None,
            Some(b) => match find_from(s, b, "\n\n"@) {
                None => None,
                Some(k) => match eol(s, k) {
                    None => None,
                    Some(c) => Some((s.subrange(b, k), c)),
                },
            },
        },
    }
}

/// The message lines of a failure: the panic line alone, or with the two
/// sides of a failed equality in six fragments.
pub open spec fn message_lines_of(info: Seq<char>, lr: Option<(Seq<char>, Seq<char>, int)>) -> Seq<
    Seq<char>,
> {
    match lr {
        Some((l, r, _)) => seq![info, "\n"@, "  left: "@, l, "\n right: "@, r],
        None => seq![info],
    }
}

/// One `---- <name> stdout ----` block.
pub open spec fn failure_block(s: Seq<char>, p: int) -> Option<(FailureView, int)> {
    match lit(s, p, "---- "@) {
        None => None,
        Some(a) => match find_from(s, a, " stdout ----"@) {
            None => None,
            Some(k) => match eol(s, k + " stdout ----"@.len()) {
                None => None,
                Some(b) => {
                    match find_from(s, b, "thread"@) {
                        None => None,
                        Some(t) => {
                            let m = run_end(s, t, line_class());
                            match eol(s, m) {
                                None => None,
                                Some(d) => {
                                    let lr = left_right(s, d);
                                    let e = match lr {
                                        Some((_, _, e)) => e,
                                        None => d,
                                    };
                                    let f = match note(s, e) {
                                        Some(f) => f,
                                        None => e,
                                    };
                                    let (bt, g) = match backtrace(s, f) {
                                        Some((bt, g)) => (bt, g),
                                        None => (Seq::empty(), f),
                                    };
                                    match eol(s, g) {
                                        None => None,
                                        Some(h) => Some(
                                            (
                                                FailureView {
                                                    name: s.subrange(a, k),
                                                    captured_output: s.subrange(b, t),
                                                    message_lines: message_lines_of(
                                                        s.subrange(t, m),
                                                        lr,
                                                    ),
                                                    backtrace: bt,
                                                },
                                                h,
                                            ),
                                        ),
                                    }
                                },
                            }
                        },
                    }
                },
            },
        },
    }
}

/// As many failure blocks as follow one another from `p`.
pub open spec fn failure_blocks(s: Seq<char>, p: int) -> (Seq<FailureView>, int)
    decreases s.len() - p,
{
    match failure_block(s, p) {
        Some((f, q)) => if p < q <= s.len() {
            let (rest, e) = failure_blocks(s, q);
            (seq![f] + rest, e)
        } else {
            (seq![], p)
        },
        None => (seq![], p),
    }
}

/// One indented line of the listing of failed tests.
pub open spec fn listing_line(s: Seq<char>, p: int) -> Option<int> {
    match lit(s, p, "    "@) {
        None => None,
        Some(a) => eol(s, run_end(s, a, line_class())),
    }
}

/// The end of as many listing lines as follow one another from `p`.
pub open spec fn listing_end(s: Seq<char>, p: int) -> int
    decreases s.len() - p,
{
    match listing_line(s, p) {
        Some(q) => if p < q <= s.len() {
            listing_end(s, q)
        } else {
            p
        },
        None => p,
    }
}

/// The `failures:` section: the blocks, then the listing of their names.
pub open spec fn failures_section(s: Seq<char>, p: int) -> Option<(Seq<FailureView>, int)> {
    match lit(s, p, "failures:"@) {
        None => None,
        Some(a) => match eol(s, a) {
            None => None,
            Some(b) => match eol(s, b) {
                None => None,
                Some(c) => {
                    let (fs, d) = failure_blocks(s, c);
                    if fs.len() == 0 {
                        None
                    } else {
                        match eol(s, d) {
                            None => None,
                            Some(e) => match lit(s, e, "failures:"@) {
                                None => None,
                                Some(f) => match eol(s, f) {
                                    None => None,
                                    Some(g) => match listing_line(s, g) {
                                        None => None,
                                        Some(_) => match eol(s, listing_end(s, g)) {
                                            None => None,
                                            Some(h) => Some((fs, h)),
                                        },
                                    },
                                },
                            },
                        }
                    }
                },
            },
        },
    }
}

/// `test result: <outcome>. <P> passed; <F> failed; <I> ignored; <M>
/// measured`, optionally `; <X> filtered out`, then a line ending.
pub open spec fn summary_line(s: Seq<char>, p: int) -> Option<(Summary, int)> {
    match lit(s, p, "test result: "@) {
        None => None,
        Some(a) => match outcome(s, a) {
            None => None,
            Some((result, b)) => match lit(s, b, ". "@) {
                None => None,
                Some(c) => match number(s, c) {
                    None => None,
                    Some((passed, d)) => match lit(s, d, " passed; "@) {
                        None => None,
                        Some(e) => match number(s, e) {
                            None => None,
                            Some((failed, f)) => match lit(s, f, " failed; "@) {
                                None => None,
                                Some(g) => match number(s, g) {
                                    None => None,
                                    Some((ignored, h)) => match lit(s, h, " ignored; "@) {
                                        None => None,
                                        Some(i) => match number(s, i) {
                                            None => None,
                                            Some((measured, j)) => match lit(
                                                s,
                                                j,
                                                " measured"@,
                                            ) {
                                                None => None,
                                                Some(k) => {
                                                    let (filtered, l) = match filtered_clause(s, k) {
                                                        Some((x, l)) => (x, l),
                                                        None => (0u32, k),
                                                    };
                                                    match eol(s, l) {
                                                        None => None,
                                                        Some(m) => Some(
                                                            (
                                                                Summary {
                                                                    result,
                                                                    passed,
                                                                    failed,
                                                                    ignored,
                                                                    measured,
                                                                    filtered,
                                                                },
                                                                m,
                                                            ),
                                                        ),
                                                    }
                                                },
                                            },
                                        },
                                    },
                                },
                            },
                        },
                    },
                },
            },
        },
    }
}

/// `; <X> filtered out`.
pub open spec fn filtered_clause(s: Seq<char>, p: int) -> Option<(u32, int)> {
    match lit(s, p, "; "@) {
        None => None,
        Some(a) => match number(s, a) {
            None => None,
            Some((x, b)) => match lit(s, b, " filtered out"@) {
                None => None,
                Some(c) => Some((x, c)),
            },
        },
    }
}

/// One module: its start line, its test lines, a blank line, an optional
/// failures section and its summary line.
pub open spec fn module(s: Seq<char>, p: int) -> Option<(ModuleView, int)> {
    match module_start(s, p) {
        None => None,
        Some((_, a)) => {
            let (tests, b) = test_lines(s, a);
            match eol(s, b) {
                None => None,
                Some(c) => {
                    let (failures, d) = match failures_section(s, c) {
                        Some((fs, d)) => (fs, d),
                        None => (Seq::empty(), c),
                    };
                    match summary_line(s, d) {
                        None => None,
                        Some((sum, e)) => Some(
                            (
                                ModuleView {
                                    overall_result: sum.result,
                                    tests,
                                    failures,
                                    passed_count: sum.passed,
                                    failed_count: sum.failed,
                                    ignored_count: sum.ignored,
                                    measured_count: sum.measured,
                                    filtered_count: sum.filtered,
                                },
                                e,
                            ),
                        ),
                    }
                },
            }
        },
    }
}

/// A line ending, a module, and an optional line ending after it.
pub open spec fn suite_item(s: Seq<char>, p: int) -> Option<(ModuleView, int)> {
    match eol(s, p) {
        None => None,
        Some(a) => match module(s, a) {
            None => None,
            Some((m, b)) => match eol(s, b) {
                Some(c) => Some((m, c)),
                None => Some((m, b)),
            },
        },
    }
}

/// As many modules as follow one another from `p`.
pub open spec fn suite_items(s: Seq<char>, p: int) -> (Seq<ModuleView>, int)
    decreases s.len() - p,
{
    match suite_item(s, p) {
        Some((m, q)) => if p < q <= s.len() {
            let (rest, e) = suite_items(s, q);
            (seq![m] + rest, e)
        } else {
            (seq![], p)
        },
        None => (seq![], p),
    }
}

/// Where the rest of the input starts after a rule that succeeded.
pub open spec fn end_of<T>(r: Option<(T, int)>) -> int {
    match r {
        Some((_, q)) => q,
        None => 0,
    }
}

/// The value that a rule that succeeded read.
pub open spec fn value_of<T>(r: Option<(T, int)>) -> T {
    match r {
        Some((v, _)) => v,
        None => arbitrary(),
    }
}

/// Where the first module starts: after the line ending that the input
/// starts with, if there is one.
pub open spec fn first_start(s: Seq<char>) -> int {
    match eol(s, 0) {
        Some(a) => a,
        None => 0,
    }
}

/// The first module, whose blank line before it is optional, and an
/// optional line ending after it.
pub open spec fn first_item(s: Seq<char>) -> Option<(ModuleView, int)> {
    match module(s, first_start(s)) {
        None => None,
        Some((m, b)) => match eol(s, b) {
            Some(c) => Some((m, c)),
            None => Some((m, b)),
        },
    }
}

/// The report that `s` holds: one or more modules and nothing after them.
/// Each module but the first is preceded by a blank line.
pub open spec fn report(s: Seq<char>) -> Option<Seq<ModuleView>> {
    match first_item(s) {
        None => None,
        Some((m, q)) => {
            let (rest, e) = suite_items(s, q);
            if e == s.len() {
                Some(seq![m] + rest)
            } else {
                None
            }
        },
    }
}

/// The rule that the input breaks where reading stopped.
#[derive(Clone, Copy, Debug, PartialEq, Eq, Structural)]
pub enum ParseRule {
    /// No line ending before a module (also: input left after the last module).
    BlankLine,
    /// No `running <n> tests` line.
    ModuleStart,
    /// The test lines are not followed by a blank line.
    TestLines,
    /// A `failures:` section that does not fit its rule.
    FailureSection,
    /// No valid summary line.
    SummaryLine,
}

/// The first rule that fails when a module is read from `a`, its start line.
pub open spec fn module_failed_rule(s: Seq<char>, a: int) -> ParseRule {
    match module_start(s, a) {
        None => ParseRule::ModuleStart,
        Some((_, b)) => match eol(s, test_lines(s, b).1) {
            None => ParseRule::TestLines,
            Some(c) => if lit(s, c, "failures:"@) is Some && failures_section(s, c) is None {
                ParseRule::FailureSection
            } else {
                ParseRule::SummaryLine
            },
        },
    }
}

/// The first rule that fails when a blank line and a module are read from
/// `p`.
pub open spec fn failed_rule(s: Seq<char>, p: int) -> ParseRule {
    match eol(s, p) {
        None => ParseRule::BlankLine,
        Some(a) => module_failed_rule(s, a),
    }
}

/// The rule that `s` breaks where reading stopped: in the first module, or
/// after the modules that were read.
pub open spec fn report_failed_rule(s: Seq<char>) -> ParseRule {
    match first_item(s) {
        None => module_failed_rule(s, first_start(s)),
        Some(_) => failed_rule(s, report_end(s)),
    }
}

/// How a rule is named in a parse error.
pub open spec fn rule_name(r: ParseRule) -> Seq<char> {
    match r {
        ParseRule::BlankLine => "blank line"@,
        ParseRule::ModuleStart => "module start line"@,
        ParseRule::TestLines => "test lines"@,
        ParseRule::FailureSection => "failures section"@,
        ParseRule::SummaryLine => "summary line"@,
    }
}

/// Where the modules that `s` starts with end.
pub open spec fn report_end(s: Seq<char>) -> int {
    match first_item(s) {
        None => 0,
        Some((_, q)) => suite_items(s, q).1,
    }
}

/// A test line's name is all that stands between `test ` and the first
/// `" ... "` after it: it may hold spaces and other words, and holds no
/// `" ... "` itself.
pub proof fn lemma_test_name(s: Seq<char>, p: int)
    requires
        test_line(s, p) is Some,
    ensures
        ({
            let found = test_line(s, p)->0;
            let name = found.0.name;
            let a = p + "test "@.len();
            &&& occurs_at(s, p, "test "@)
            &&& s.subrange(a, a + name.len()) == name
            &&& occurs_at(s, a + name.len(), " ... "@)
            &&& forall|j: int| a <= j < a + name.len() ==> !occurs_at(s, j, " ... "@)
        }),
{
    let a = p + "test "@.len();
    lemma_find_from_bounds(s, a, " ... "@);
}

/// A failure block's message lines are either the panic line alone, or six
/// fragments in a fixed order: the panic line, `"\n"`, `"  left: "`, the
/// left value, `"\n right: "` and the right value.
pub proof fn lemma_message_lines(s: Seq<char>, p: int)
    requires
        failure_block(s, p) is Some,
    ensures
        ({
            let found = failure_block(s, p)->0;
            let lines = found.0.message_lines;
            ||| lines.len() == 1
            ||| (lines.len() == 6 && lines[1] == "\n"@ && lines[2] == "  left: "@ && lines[4]
                == "\n right: "@)
        }),
{
}

proof fn lemma_test_line_advances(s: Seq<char>, p: int)
    requires
        test_line(s, p) is Some,
    ensures
        ({
            let found = test_line(s, p)->0;
            p < found.1 <= s.len()
        }),
{
    reveal_strlit("test ");
    let a = p + "test "@.len();
    lemma_find_from_bounds(s, a, " ... "@);
    let k = find_from(s, a, " ... "@)->0;
    crate::text::lemma_run_end_bounds(s, k + " ... "@.len(), word_class());
}

/// The test lines that start at `xs[j]`, each ending where the next starts,
/// and that are followed by a blank line at `xs[K]`, are read as `K - j` tests
/// that end at `xs[K]`.
proof fn lemma_test_lines_count(s: Seq<char>, xs: Seq<int>, j: int)
    requires
        xs.len() >= 1,
        0 <= j < xs.len(),
        forall|k: int|
            0 <= k < xs.len() - 1 ==> #[trigger] test_line(s, xs[k]) is Some && end_of(
                test_line(s, xs[k]),
            ) == xs[k + 1],
        0 <= xs[xs.len() - 1] < s.len(),
        s[xs[xs.len() - 1]] == '\n',
    ensures
        test_lines(s, xs[j]).0.len() == xs.len() - 1 - j,
        test_lines(s, xs[j]).1 == xs[xs.len() - 1],
        forall|i: int|
            0 <= i < xs.len() - 1 - j ==> test_lines(s, xs[j]).0[i] == value_of(
                test_line(s, xs[j + i]),
            ),
    decreases xs.len() - j,
{
    if j == xs.len() - 1 {
        reveal_strlit("test ");
        let p = xs[j];
        if occurs_at(s, p, "test "@) {
            assert(s.subrange(p, p + 5)[0] == s[p]);
        }
    } else {
        lemma_test_line_advances(s, xs[j]);
        lemma_test_lines_count(s, xs, j + 1);
        assert forall|i: int| 0 < i < xs.len() - 1 - j implies test_lines(s, xs[j]).0[i]
            == value_of(test_line(s, xs[j + i])) by {
            assert(xs[(j + 1) + (i - 1)] == xs[j + i]);
        }
    }
}

/// An input made of a blank line, a module's start line, `K` test lines, a
/// blank line and a summary line, with at most a line ending after it, is
/// read as exactly one module with `K` tests and no failures.
///
/// The test lines are the ones that start at `xs[0]`, ..., `xs[K - 1]`, each
/// ending where the next starts; the blank line stands at `xs[K]`.
pub proof fn lemma_single_module(s: Seq<char>, xs: Seq<int>)
    requires
        xs.len() >= 1,
        s.len() > 0 && s[0] == '\n',
        module_start(s, 1) is Some && end_of(module_start(s, 1)) == xs[0],
        forall|k: int|
            0 <= k < xs.len() - 1 ==> #[trigger] test_line(s, xs[k]) is Some && end_of(
                test_line(s, xs[k]),
            ) == xs[k + 1],
        0 <= xs[xs.len() - 1] < s.len(),
        s[xs[xs.len() - 1]] == '\n',
        summary_line(s, xs[xs.len() - 1] + 1) is Some,
        ({
            let e = end_of(summary_line(s, xs[xs.len() - 1] + 1));
            e == s.len() || (e + 1 == s.len() && s[e] == '\n')
        }),
    ensures
        report(s) is Some,
        report(s)->0.len() == 1,
        report(s)->0[0].tests.len() == xs.len() - 1,
        report(s)->0[0].failures.len() == 0,
        forall|i: int|
            0 <= i < xs.len() - 1 ==> report(s)->0[0].tests[i] == value_of(test_line(s, xs[i])),
{
    let last = xs[xs.len() - 1];
    lemma_test_lines_count(s, xs, 0);
    reveal_strlit("test result: ");
    reveal_strlit("failures:");
    let c = last + 1;
    assert(s.subrange(c, c + 13)[0] == s[c]);
    if occurs_at(s, c, "failures:"@) {
        assert(s.subrange(c, c + 9)[0] == s[c]);
    }
    assert(failures_section(s, c) is None);
    let m = module(s, 1);
    assert(m is Some);
    assert(first_start(s) == 1);
    assert(first_item(s) is Some);
    let q = end_of(first_item(s));
    assert(q == s.len());
    assert(suite_item(s, q) is None);
    assert(suite_items(s, q) == (Seq::<ModuleView>::empty(), q));
    let found = m->0;
    assert(seq![found.0] + Seq::<ModuleView>::empty() =~= seq![found.0]);
}

/// As [`lemma_single_module`], for a module whose test lines and blank line
/// are followed by a failures section: the module is read with the failures
/// that the section holds.
pub proof fn lemma_module_with_failures(s: Seq<char>, xs: Seq<int>, fs: Seq<FailureView>)
    requires
        xs.len() >= 1,
        s.len() > 0 && s[0] == '\n',
        module_start(s, 1) is Some && end_of(module_start(s, 1)) == xs[0],
        forall|k: int|
            0 <= k < xs.len() - 1 ==> #[trigger] test_line(s, xs[k]) is Some && end_of(
                test_line(s, xs[k]),
            ) == xs[k + 1],
        0 <= xs[xs.len() - 1] < s.len(),
        s[xs[xs.len() - 1]] == '\n',
        failures_section(s, xs[xs.len() - 1] + 1) is Some,
        value_of(failures_section(s, xs[xs.len() - 1] + 1)) == fs,
        summary_line(s, end_of(failures_section(s, xs[xs.len() - 1] + 1))) is Some,
        ({
            let e = end_of(summary_line(s, end_of(failures_section(s, xs[xs.len() - 1] + 1))));
            e == s.len() || (e + 1 == s.len() && s[e] == '\n')
        }),
    ensures
        report(s) is Some,
        report(s)->0.len() == 1,
        report(s)->0[0].tests.len() == xs.len() - 1,
        report(s)->0[0].failures == fs,
        forall|i: int|
            0 <= i < xs.len() - 1 ==> report(s)->0[0].tests[i] == value_of(test_line(s, xs[i])),
{
    lemma_test_lines_count(s, xs, 0);
    let m = module(s, 1);
    assert(m is Some);
    assert(first_start(s) == 1);
    assert(first_item(s) is Some);
    let q = end_of(first_item(s));
    assert(q == s.len());
    assert(suite_item(s, q) is None);
    assert(suite_items(s, q) == (Seq::<ModuleView>::empty(), q));
    let found = m->0;
    assert(seq![found.0] + Seq::<ModuleView>::empty() =~= seq![found.0]);
}

} // verus!

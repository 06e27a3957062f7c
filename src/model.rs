use vstd::prelude::*;

verus! {

/// The outcome of a single test, or of a whole module.
#[derive(Clone, Copy, Debug, PartialEq, Eq, Structural)]
pub enum TestResult {
    Passed,
    Skipped,
    Failed,
}

/// One executed test: its name and its outcome.
#[derive(Clone, Debug, PartialEq)]
pub struct Test {
    pub name: String,
    pub outcome: TestResult,
}

/// The details printed for one failed test.
#[derive(Clone, Debug, PartialEq)]
pub struct Failure {
    pub name: String,
    pub captured_output: String,
    pub message_lines: Vec<String>,
    pub backtrace: String,
}

/// One test binary's block of output.
#[derive(Clone, Debug, PartialEq)]
pub struct TestModule {
    pub overall_result: TestResult,
    pub tests: Vec<Test>,
    pub failures: Vec<Failure>,
    pub passed_count: u32,
    pub failed_count: u32,
    pub ignored_count: u32,
    pub measured_count: u32,
    pub filtered_count: u32,
}

/// Mathematical model of a [`Test`].
pub struct TestView {
    pub name: Seq<char>,
    pub outcome: TestResult,
}

/// Mathematical model of a [`Failure`].
pub struct FailureView {
    pub name: Seq<char>,
    pub captured_output: Seq<char>,
    pub message_lines: Seq<Seq<char>>,
    pub backtrace: Seq<char>,
}

/// Mathematical model of a [`TestModule`].
pub struct ModuleView {
    pub overall_result: TestResult,
    pub tests: Seq<TestView>,
    pub failures: Seq<FailureView>,
    pub passed_count: u32,
    pub failed_count: u32,
    pub ignored_count: u32,
    pub measured_count: u32,
    pub filtered_count: u32,
}

impl View for Test {
    type V = TestView;

    open spec fn view(&self) -> TestView {
        TestView { name: self.name@, outcome: self.outcome }
    }
}

pub open spec fn strings_view(v: Seq<String>) -> Seq<Seq<char>> {
    v.map_values(|l: String| l@)
}

impl View for Failure {
    type V = FailureView;

    open spec fn view(&self) -> FailureView {
        FailureView {
            name: self.name@,
            captured_output: self.captured_output@,
            message_lines: strings_view(self.message_lines@),
            backtrace: self.backtrace@,
        }
    }
}

pub open spec fn tests_view(v: Seq<Test>) -> Seq<TestView> {
    v.map_values(|t: Test| t@)
}

pub open spec fn failures_view(v: Seq<Failure>) -> Seq<FailureView> {
    v.map_values(|f: Failure| f@)
}

impl View for TestModule {
    type V = ModuleView;

    open spec fn view(&self) -> ModuleView {
        ModuleView {
            overall_result: self.overall_result,
            tests: tests_view(self.tests@),
            failures: failures_view(self.failures@),
            passed_count: self.passed_count,
            failed_count: self.failed_count,
            ignored_count: self.ignored_count,
            measured_count: self.measured_count,
            filtered_count: self.filtered_count,
        }
    }
}

/// The model of a whole report: its modules in order.
pub open spec fn report_view(v: Seq<TestModule>) -> Seq<ModuleView> {
    v.map_values(|m: TestModule| m@)
}

} // verus!

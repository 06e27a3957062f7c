//! The formatter: maps parsed modules to a JUnit XML element tree.
use crate::markup::{
    element, element_markup, new_element, pairs_view, push_cdata, push_element, push_text,
    Markup,
};
use crate::model::{
    failures_view, report_view, strings_view, Failure, FailureView, ModuleView, Test, TestModule,
    TestResult, TestView,
};
use crate::text::{chars_of, string_from};
use vstd::prelude::*;

verus! {

/// The last index at or below `i` where `"::"` stands in `s`.
pub open spec fn last_separator_from(s: Seq<char>, i: int) -> Option<int>
    decreases i + 1,
{
    if i < 0 {
        None
    } else if i + 1 < s.len() && s[i] == ':' && s[i + 1] == ':' {
        Some(i)
    } else {
        last_separator_from(s, i - 1)
    }
}

/// The index of the last `"::"` in `s`.
pub open spec fn last_separator(s: Seq<char>) -> Option<int> {
    last_separator_from(s, s.len() - 2)
}

/// `s` with each `"::"`, read from the left, replaced by `"."`.
pub open spec fn dotted(s: Seq<char>) -> Seq<char>
    decreases s.len(),
{
    if s.len() == 0 {
        seq![]
    } else if s.len() >= 2 && s[0] == ':' && s[1] == ':' {
        seq!['.'] + dotted(s.subrange(2, s.len() as int))
    } else {
        seq![s[0]] + dotted(s.subrange(1, s.len() as int))
    }
}

/// The base name and the class name of a test name: what follows the last
/// `"::"`, and what precedes it with `"::"` written `"."`; without `"::"`,
/// the whole name and `"::"`.
pub open spec fn name_parts(name: Seq<char>) -> (Seq<char>, Seq<char>) {
    match last_separator(name) {
        Some(i) => (name.subrange(i + 2, name.len() as int), dotted(name.subrange(0, i))),
        None => (name, seq![':', ':']),
    }
}

pub open spec fn digit_char(d: nat) -> char {
    seq!['0', '1', '2', '3', '4', '5', '6', '7', '8', '9'][d as int]
}

/// The decimal digits of `n`, without leading zeros.
pub open spec fn decimal(n: nat) -> Seq<char>
    decreases n,
{
    if n < 10 {
        seq![digit_char(n)]
    } else {
        decimal(n / 10).push(digit_char(n % 10))
    }
}

/// The first failure of that name.
pub open spec fn first_failure(fs: Seq<FailureView>, name: Seq<char>) -> Option<FailureView>
    decreases fs.len(),
{
    if fs.len() == 0 {
        None
    } else if fs[0].name == name {
        Some(fs[0])
    } else {
        first_failure(fs.drop_first(), name)
    }
}

/// The message lines of a failure, one after the other.
pub open spec fn joined(lines: Seq<Seq<char>>) -> Seq<char>
    decreases lines.len(),
{
    if lines.len() == 0 {
        seq![]
    } else {
        joined(lines.drop_last()) + lines.last()
    }
}

/// The message of a failure: its first message line.
pub open spec fn message_text(f: FailureView) -> Seq<char> {
    if f.message_lines.len() > 0 {
        f.message_lines[0]
    } else {
        seq![]
    }
}

/// The `failure` element of a failure.
pub open spec fn failure_markup(f: FailureView) -> Markup {
    element("failure"@, seq![("message"@, message_text(f))], seq![Markup::CData(joined(f.message_lines))])
}

/// The `system-out` element of a failure.
pub open spec fn output_markup(f: FailureView) -> Markup {
    element("system-out"@, seq![], seq![Markup::Text(f.captured_output)])
}

/// The children of a test's `testcase` element.
pub open spec fn case_children(t: TestView, fs: Seq<FailureView>) -> Seq<Markup> {
    match t.outcome {
        TestResult::Passed => seq![],
        TestResult::Skipped => seq![element("skipped"@, seq![], seq![])],
        TestResult::Failed => match first_failure(fs, t.name) {
            Some(f) => seq![failure_markup(f), output_markup(f)],
            None => seq![],
        },
    }
}

/// The `testcase` element of a test of a module with failures `fs`.
pub open spec fn case_markup(t: TestView, fs: Seq<FailureView>) -> Markup {
    element(
        "testcase"@,
        seq![("name"@, name_parts(t.name).0), ("classname"@, name_parts(t.name).1)],
        case_children(t, fs),
    )
}

/// The attributes of a module's `testsuite` element.
pub open spec fn suite_attributes(m: ModuleView) -> Seq<(Seq<char>, Seq<char>)> {
    seq![
        ("failures"@, decimal(m.failed_count as nat)),
        ("skip"@, decimal(m.measured_count as nat)),
        ("tests"@, decimal(m.tests.len())),
    ]
}

/// One `testcase` element for each test of a module, in order.
pub open spec fn suite_children(m: ModuleView) -> Seq<Markup> {
    m.tests.map_values(|t: TestView| case_markup(t, m.failures))
}

/// The `testsuite` element of a module.
pub open spec fn suite_markup(m: ModuleView) -> Markup {
    element("testsuite"@, suite_attributes(m), suite_children(m))
}

/// One `testsuite` element for each module, in order.
pub open spec fn report_children(ms: Seq<ModuleView>) -> Seq<Markup> {
    ms.map_values(|m: ModuleView| suite_markup(m))
}

/// The `testsuites` element of a report.
pub open spec fn report_markup(ms: Seq<ModuleView>) -> Markup {
    element("testsuites"@, seq![], report_children(ms))
}

fn digit(d: usize) -> (r: char)
    requires
        d < 10,
    ensures
        r == digit_char(d as nat),
{
    if d == 0 {
        '0'
    } else if d == 1 {
        '1'
    } else if d == 2 {
        '2'
    } else if d == 3 {
        '3'
    } else if d == 4 {
        '4'
    } else if d == 5 {
        '5'
    } else if d == 6 {
        '6'
    } else if d == 7 {
        '7'
    } else if d == 8 {
        '8'
    } else {
        '9'
    }
}

fn push_decimal(n: usize, out: &mut Vec<char>)
    ensures
        final(out)@ == old(out)@ + decimal(n as nat),
    decreases n,
{
    if n >= 10 {
        push_decimal(n / 10, out);
    }
    let ghost mid = out@;
    out.push(digit(n % 10));
    proof {
        if n >= 10 {
            assert(mid.push(digit_char((n % 10) as nat)) =~= old(out)@ + decimal(n as nat));
        } else {
            assert(out@ =~= old(out)@ + decimal(n as nat));
        }
    }
}

/// The decimal digits of `n`.
pub fn decimal_string(n: usize) -> (r: String)
    ensures
        r@ == decimal(n as nat),
{
    let mut v: Vec<char> = Vec::new();
    push_decimal(n, &mut v);
    assert(v@ =~= decimal(n as nat));
    string_from(v.as_slice())
}

fn dotted_string(t: &[char]) -> (r: String)
    ensures
        r@ == dotted(t@),
{
    let mut out: Vec<char> = Vec::new();
    let mut j: usize = 0;
    assert(out@ + dotted(t@.subrange(0, t@.len() as int)) =~= dotted(t@)) by {
        assert(t@.subrange(0, t@.len() as int) =~= t@);
    }
    while j < t.len()
        invariant
            j <= t@.len(),
            dotted(t@) == out@ + dotted(t@.subrange(j as int, t@.len() as int)),
        decreases t@.len() - j,
    {
        let ghost rest = t@.subrange(j as int, t@.len() as int);
        if t.len() - j >= 2 && t[j] == ':' && t[j + 1] == ':' {
            assert(rest.subrange(2, rest.len() as int) =~= t@.subrange(j + 2, t@.len() as int));
            assert(out@ + (seq!['.'] + dotted(rest.subrange(2, rest.len() as int))) =~= out@.push(
                '.',
            ) + dotted(t@.subrange(j + 2, t@.len() as int)));
            out.push('.');
            j = j + 2;
        } else {
            assert(rest.subrange(1, rest.len() as int) =~= t@.subrange(j + 1, t@.len() as int));
            assert(out@ + (seq![t@[j as int]] + dotted(rest.subrange(1, rest.len() as int)))
                =~= out@.push(t@[j as int]) + dotted(t@.subrange(j + 1, t@.len() as int)));
            out.push(t[j]);
            j = j + 1;
        }
    }
    assert(out@ + dotted(t@.subrange(j as int, t@.len() as int)) =~= out@);
    string_from(out.as_slice())
}

/// Splits a test name into its base name and its class name: the text after
/// the last `"::"`, and the text before it with every `"::"` written `"."`.
/// A name without `"::"` is its own base name and has the class name `"::"`.
pub fn split_name(name: &str) -> (r: (String, String))
    ensures
        (r.0@, r.1@) == name_parts(name@),
{
    let cs = chars_of(name);
    let s = cs.as_slice();
    let n = s.len();
    assert(s@ == name@);
    proof {
        reveal_strlit("::");
    }
    if n < 2 {
        return (name.to_owned(), "::".to_owned());
    }
    let mut i: usize = n - 2;
    loop
        invariant
            n == s@.len(),
            s@ == name@,
            i + 2 <= n,
            last_separator(s@) == last_separator_from(s@, i as int),
        decreases i,
    {
        if s[i] == ':' && s[i + 1] == ':' {
            assert(last_separator_from(s@, i as int) == Some(i as int));
            let base = crate::text::substring(s, i + 2, n);
            let class = dotted_string(vstd::slice::slice_subrange(s, 0, i));
            return (base, class);
        }
        if i == 0 {
            assert(last_separator_from(s@, -1) is None);
            proof {
                reveal_strlit("::");
            }
            return (name.to_owned(), "::".to_owned());
        }
        i = i - 1;
    }
}

/// The index of the first failure of that name.
fn find_failure(failures: &Vec<Failure>, name: &String) -> (r: Option<usize>)
    ensures
        r matches Some(i) ==> i < failures@.len() && first_failure(
            failures_view(failures@),
            name@,
        ) == Some(failures@[i as int]@),
        r is None ==> first_failure(failures_view(failures@), name@) is None,
{
    let ghost fv = failures_view(failures@);
    let mut i: usize = 0;
    assert(fv.subrange(0, fv.len() as int) =~= fv);
    while i < failures.len()
        invariant
            i <= failures@.len(),
            fv == failures_view(failures@),
            first_failure(fv, name@) == first_failure(fv.subrange(i as int, fv.len() as int), name@),
        decreases failures@.len() - i,
    {
        let ghost rest = fv.subrange(i as int, fv.len() as int);
        assert(rest[0] == failures@[i as int]@);
        if failures[i].name == *name {
            return Some(i);
        }
        assert(rest.drop_first() =~= fv.subrange(i + 1, fv.len() as int));
        i = i + 1;
    }
    None
}

/// The message lines of a failure, one after the other.
fn join_lines(lines: &Vec<String>) -> (r: String)
    ensures
        r@ == joined(strings_view(lines@)),
{
    let ghost lv = strings_view(lines@);
    let mut acc = String::new();
    let mut i: usize = 0;
    assert(lv.take(0) =~= seq![]);
    while i < lines.len()
        invariant
            i <= lines@.len(),
            lv == strings_view(lines@),
            acc@ == joined(lv.take(i as int)),
        decreases lines@.len() - i,
    {
        assert(lv.take(i + 1).drop_last() =~= lv.take(i as int));
        acc = acc.concat(lines[i].as_str());
        i = i + 1;
    }
    assert(lv.take(i as int) =~= lv);
    acc
}

/// The `failure` and `system-out` elements of a failure, pushed onto `case`.
fn push_failure(case: &mut xml::Element, f: &Failure)
    ensures
        element_markup(*final(case)) == crate::markup::with_child(
            crate::markup::with_child(element_markup(*old(case)), failure_markup(f@)),
            output_markup(f@),
        ),
{
    let message = if f.message_lines.len() > 0 {
        f.message_lines[0].clone()
    } else {
        String::new()
    };
    let attrs = vec![("message".to_owned(), message)];
    assert(pairs_view(attrs@) =~= seq![("message"@, message_text(f@))]);
    let mut failure = new_element("failure".to_owned(), attrs);
    push_cdata(&mut failure, join_lines(&f.message_lines));
    assert(seq![].push(Markup::CData(joined(f@.message_lines))) =~= seq![
        Markup::CData(joined(f@.message_lines)),
    ]);
    push_element(case, failure);
    let none: Vec<(String, String)> = Vec::new();
    assert(pairs_view(none@) =~= seq![]);
    let mut output = new_element("system-out".to_owned(), none);
    push_text(&mut output, f.captured_output.clone());
    assert(seq![].push(Markup::Text(f@.captured_output)) =~= seq![
        Markup::Text(f@.captured_output),
    ]);
    push_element(case, output);
}

/// The `testcase` element of a test of a module with these failures.
pub fn format_case(t: &Test, failures: &Vec<Failure>) -> (r: xml::Element)
    ensures
        element_markup(r) == case_markup(t@, failures_view(failures@)),
{
    let (base, class) = split_name(t.name.as_str());
    let attrs = vec![("name".to_owned(), base), ("classname".to_owned(), class)];
    assert(pairs_view(attrs@) =~= seq![
        ("name"@, name_parts(t@.name).0),
        ("classname"@, name_parts(t@.name).1),
    ]);
    let mut case = new_element("testcase".to_owned(), attrs);
    let ghost fv = failures_view(failures@);
    match t.outcome {
        TestResult::Passed => {},
        TestResult::Skipped => {
            let none: Vec<(String, String)> = Vec::new();
            assert(pairs_view(none@) =~= seq![]);
            let skipped = new_element("skipped".to_owned(), none);
            push_element(&mut case, skipped);
            assert(seq![].push(element("skipped"@, seq![], seq![])) =~= case_children(t@, fv));
        },
        TestResult::Failed => match find_failure(failures, &t.name) {
            Some(i) => {
                push_failure(&mut case, &failures[i]);
                assert(seq![].push(failure_markup(failures@[i as int]@)).push(
                    output_markup(failures@[i as int]@),
                ) =~= case_children(t@, fv));
            },
            None => {},
        },
    }
    case
}

/// The `testsuite` element of a module.
pub fn format_suite(m: &TestModule) -> (r: xml::Element)
    ensures
        element_markup(r) == suite_markup(m@),
{
    let attrs = vec![
        ("failures".to_owned(), decimal_string(m.failed_count as usize)),
        ("skip".to_owned(), decimal_string(m.measured_count as usize)),
        ("tests".to_owned(), decimal_string(m.tests.len())),
    ];
    assert(pairs_view(attrs@) =~= suite_attributes(m@));
    let mut suite = new_element("testsuite".to_owned(), attrs);
    let ghost children = suite_children(m@);
    let mut i: usize = 0;
    assert(children.take(0) =~= seq![]);
    while i < m.tests.len()
        invariant
            i <= m.tests@.len(),
            children == suite_children(m@),
            children.len() == m.tests@.len(),
            element_markup(suite) == element(
                "testsuite"@,
                suite_attributes(m@),
                children.take(i as int),
            ),
        decreases m.tests@.len() - i,
    {
        let case = format_case(&m.tests[i], &m.failures);
        push_element(&mut suite, case);
        assert(children.take(i as int).push(children[i as int]) =~= children.take(i + 1));
        i = i + 1;
    }
    assert(children.take(i as int) =~= children);
    suite
}

/// Maps parsed modules to a JUnit report: a `testsuites` element holding
/// one `testsuite` element for each module, which holds one `testcase`
/// element for each of its tests.
pub fn format(data: Vec<TestModule>) -> (r: xml::Element)
    ensures
        element_markup(r) == report_markup(report_view(data@)),
{
    let none: Vec<(String, String)> = Vec::new();
    assert(pairs_view(none@) =~= seq![]);
    let mut root = new_element("testsuites".to_owned(), none);
    let ghost children = report_children(report_view(data@));
    let mut i: usize = 0;
    assert(children.take(0) =~= seq![]);
    while i < data.len()
        invariant
            i <= data@.len(),
            children == report_children(report_view(data@)),
            children.len() == data@.len(),
            element_markup(root) == element("testsuites"@, seq![], children.take(i as int)),
        decreases data@.len() - i,
    {
        let suite = format_suite(&data[i]);
        push_element(&mut root, suite);
        assert(children.take(i as int).push(children[i as int]) =~= children.take(i + 1));
        i = i + 1;
    }
    assert(children.take(i as int) =~= children);
    root
}

/// The children of an element; nothing for a text or CDATA node.
pub open spec fn children_of(m: Markup) -> Seq<Markup> {
    match m {
        Markup::Element { children, .. } => children,
        _ => seq![],
    }
}

/// The attributes of an element; none for a text or CDATA node.
pub open spec fn attributes_of(m: Markup) -> Map<(Seq<char>, Option<Seq<char>>), Seq<char>> {
    match m {
        Markup::Element { attributes, .. } => attributes,
        _ => Map::empty(),
    }
}

/// Each `testsuite` element carries the figures of its module's summary
/// line, not figures counted again from its tests: `failures` is the failed
/// count and `skip` the measured count; `tests` is the number of test lines
/// that were read.
pub proof fn lemma_suite_counts(ms: Seq<ModuleView>, i: int)
    requires
        0 <= i < ms.len(),
    ensures
        children_of(report_markup(ms)).len() == ms.len(),
        attributes_of(children_of(report_markup(ms))[i])[("failures"@, None)] == decimal(
            ms[i].failed_count as nat,
        ),
        attributes_of(children_of(report_markup(ms))[i])[("skip"@, None)] == decimal(
            ms[i].measured_count as nat,
        ),
        attributes_of(children_of(report_markup(ms))[i])[("tests"@, None)] == decimal(
            ms[i].tests.len(),
        ),
{
    reveal_strlit("failures");
    reveal_strlit("skip");
    reveal_strlit("tests");
    let attrs = suite_attributes(ms[i]);
    reveal_with_fuel(crate::markup::attribute_map, 4);
    assert(attrs.drop_last().drop_last().drop_last() =~= seq![]);
    assert(("failures"@, None::<Seq<char>>) != ("skip"@, None::<Seq<char>>)) by {
        assert("failures"@.len() != "skip"@.len());
    }
    assert(("failures"@, None::<Seq<char>>) != ("tests"@, None::<Seq<char>>)) by {
        assert("failures"@.len() != "tests"@.len());
    }
    assert(("skip"@, None::<Seq<char>>) != ("tests"@, None::<Seq<char>>)) by {
        assert("skip"@.len() != "tests"@.len());
    }
}

proof fn lemma_no_failure_named(fs: Seq<FailureView>, name: Seq<char>)
    requires
        forall|j: int| 0 <= j < fs.len() ==> fs[j].name != name,
    ensures
        first_failure(fs, name) is None,
    decreases fs.len(),
{
    if fs.len() > 0 {
        assert forall|j: int| 0 <= j < fs.drop_first().len() implies fs.drop_first()[j].name
            != name by {
            assert(fs.drop_first()[j] == fs[j + 1]);
        }
        lemma_no_failure_named(fs.drop_first(), name);
    }
}

/// A failed test that no failure block of its module names gets a
/// `testcase` element without children: no `failure` element is made up for
/// it.
pub proof fn lemma_failed_without_details(t: TestView, fs: Seq<FailureView>)
    requires
        t.outcome == TestResult::Failed,
        forall|j: int| 0 <= j < fs.len() ==> fs[j].name != t.name,
    ensures
        children_of(case_markup(t, fs)) == Seq::<Markup>::empty(),
{
    lemma_no_failure_named(fs, t.name);
}

/// `"::"` stands in `s` at `j`.
pub open spec fn separator_at(s: Seq<char>, j: int) -> bool {
    0 <= j && j + 1 < s.len() && s[j] == ':' && s[j + 1] == ':'
}

proof fn lemma_last_separator_from(s: Seq<char>, k: int)
    ensures
        last_separator_from(s, k) matches Some(i) ==> 0 <= i <= k && separator_at(s, i) && (
        forall|j: int| i < j <= k ==> !separator_at(s, j)),
        last_separator_from(s, k) is None ==> forall|j: int| 0 <= j <= k ==> !separator_at(s, j),
    decreases k + 1,
{
    if k >= 0 && !(k + 1 < s.len() && s[k] == ':' && s[k + 1] == ':') {
        lemma_last_separator_from(s, k - 1);
    }
}

/// The split of a test name is made at its last `"::"` and at no other: the
/// name is the part before it, `"::"` and the base name, and the base name
/// holds no `"::"`. A name without `"::"` is its own base name.
pub proof fn lemma_name_parts(name: Seq<char>)
    ensures
        last_separator(name) matches Some(i) ==> name == name.subrange(0, i) + seq![':', ':']
            + name_parts(name).0 && last_separator(name_parts(name).0) is None,
        last_separator(name) is None ==> name_parts(name) == (name, seq![':', ':']),
{
    lemma_last_separator_from(name, name.len() - 2);
    if let Some(i) = last_separator(name) {
        let base = name_parts(name).0;
        assert(name =~= name.subrange(0, i) + seq![':', ':'] + base);
        lemma_last_separator_from(base, base.len() - 2);
        if let Some(j) = last_separator(base) {
            assert(separator_at(name, i + 2 + j));
        }
    }
}

} // verus!

//! Laws about whole inputs written out as text: what the parser reads from
//! a module assembled from its lines.
use crate::grammar::{
    backtrace, digit_class, end_of, eol, failure_block, failure_blocks, failures_section,
    left_right, lemma_module_with_failures, lemma_single_module, line_class, listing_end,
    listing_line, lit, module_start, note, number, outcome, outcome_of, report, summary_line,
    test_line, value_of, word_class,
};
use crate::model::{FailureView, TestView};
use crate::text::{find_from, is_alphanumeric, is_digit, occurs_at, run_end};
use vstd::prelude::*;

verus! {

/// The separator between a test's name and its outcome.
pub open spec fn separator() -> Seq<char> {
    " ... "@
}

/// `n` can stand as a test name: the first `" ... "` in `n + " ... "` is the
/// one after `n`.
pub open spec fn name_fits(n: Seq<char>) -> bool {
    forall|j: int| 0 <= j < n.len() ==> !occurs_at(n + separator(), j, separator())
}

/// `w` can stand as an outcome word: letters and digits, at least one.
pub open spec fn word_fits(w: Seq<char>) -> bool {
    w.len() > 0 && forall|j: int| 0 <= j < w.len() ==> is_alphanumeric(#[trigger] w[j])
}

/// The line `test <n> ... <w>`.
pub open spec fn test_line_text(n: Seq<char>, w: Seq<char>) -> Seq<char> {
    "test "@ + n + separator() + w + seq!['\n']
}

proof fn lemma_run_stops(s: Seq<char>, i: int, j: int, p: spec_fn(char) -> bool)
    requires
        0 <= i <= j < s.len(),
        forall|k: int| i <= k < j ==> p(#[trigger] s[k]),
        !p(s[j]),
    ensures
        run_end(s, i, p) == j,
    decreases j - i,
{
    if i < j {
        lemma_run_stops(s, i + 1, j, p);
    }
}

proof fn lemma_find_at(s: Seq<char>, i: int, k: int, l: Seq<char>)
    requires
        0 <= i <= k,
        occurs_at(s, k, l),
        forall|j: int| i <= j < k ==> !occurs_at(s, j, l),
    ensures
        find_from(s, i, l) == Some(k),
    decreases k - i,
{
    if i < k {
        lemma_find_at(s, i + 1, k, l);
    }
}

/// A test line that stands anywhere in the input is read as the test it
/// names, with the outcome its word gives, and ends where the line ends.
pub proof fn lemma_test_line_at(pre: Seq<char>, n: Seq<char>, w: Seq<char>, post: Seq<char>)
    requires
        name_fits(n),
        word_fits(w),
    ensures
        test_line(pre + test_line_text(n, w) + post, pre.len() as int) == Some(
            (
                TestView { name: n, outcome: outcome_of(w) },
                (pre.len() + test_line_text(n, w).len()) as int,
            ),
        ),
{
    reveal_strlit("test ");
    reveal_strlit(" ... ");
    let line = test_line_text(n, w);
    let s = pre + line + post;
    let o = pre.len() as int;
    let sep = separator();
    assert(s.subrange(o, o + 5) =~= "test "@);
    let a = o + 5;
    let k = a + n.len();
    assert(s.subrange(k, k + 5) =~= sep);
    assert forall|j: int| a <= j < k implies !occurs_at(s, j, sep) by {
        assert(s.subrange(j, j + 5) =~= (n + sep).subrange(j - a, j - a + 5));
        assert(!occurs_at(n + sep, j - a, sep));
    }
    lemma_find_at(s, a, k, sep);
    let w0 = k + 5;
    assert forall|i: int| w0 <= i < w0 + w.len() implies word_class()(#[trigger] s[i]) by {
        assert(s[i] == w[i - w0]);
    }
    assert(s[w0 + w.len()] == '\n');
    lemma_run_stops(s, w0, w0 + w.len(), word_class());
    assert(s.subrange(w0, w0 + w.len()) =~= w);
    assert(s.subrange(a, k) =~= n);
}

/// `d` can stand as a count: decimal digits, at least one, of a number that
/// fits in 32 bits.
pub open spec fn digits_fit(d: Seq<char>) -> bool {
    &&& d.len() > 0
    &&& forall|j: int| 0 <= j < d.len() ==> is_digit(#[trigger] d[j])
    &&& crate::grammar::digits_value(d) <= u32::MAX
}

/// The line `running <d> tests`, or `running <d> test`.
pub open spec fn start_line_text(d: Seq<char>, plural: bool) -> Seq<char> {
    "running "@ + d + (if plural {
        " tests"@
    } else {
        " test"@
    }) + seq!['\n']
}

/// A module's start line that stands anywhere in the input is read with
/// the count it announces.
pub proof fn lemma_start_line_at(pre: Seq<char>, d: Seq<char>, plural: bool, post: Seq<char>)
    requires
        digits_fit(d),
    ensures
        module_start(pre + start_line_text(d, plural) + post, pre.len() as int) == Some(
            (
                crate::grammar::digits_value(d) as u32,
                (pre.len() + start_line_text(d, plural).len()) as int,
            ),
        ),
{
    reveal_strlit("running ");
    reveal_strlit(" tests");
    reveal_strlit(" test");
    let line = start_line_text(d, plural);
    let s = pre + line + post;
    let o = pre.len() as int;
    assert(s.subrange(o, o + 8) =~= "running "@);
    let a = o + 8;
    let b = a + d.len();
    assert forall|i: int| a <= i < b implies digit_class()(#[trigger] s[i]) by {
        assert(s[i] == d[i - a]);
    }
    assert(s[b] == ' ');
    lemma_run_stops(s, a, b, digit_class());
    assert(s.subrange(a, b) =~= d);
    if plural {
        assert(s.subrange(b, b + 6) =~= " tests"@);
        assert(s[b + 6] == '\n');
    } else {
        if b + 6 <= s.len() {
            assert(s.subrange(b, b + 6)[5] == s[b + 5]);
            assert(s[b + 5] == '\n');
        }
        assert(!occurs_at(s, b, " tests"@));
        assert(s.subrange(b, b + 5) =~= " test"@);
        assert(s[b + 5] == '\n');
    }
}

/// Test lines, one after the other.
pub open spec fn test_lines_text(ns: Seq<Seq<char>>, ws: Seq<Seq<char>>) -> Seq<char>
    decreases ns.len(),
{
    if ns.len() == 0 || ws.len() == 0 {
        seq![]
    } else {
        test_line_text(ns[0], ws[0]) + test_lines_text(ns.drop_first(), ws.drop_first())
    }
}

proof fn lemma_lines_split(ns: Seq<Seq<char>>, ws: Seq<Seq<char>>, k: int)
    requires
        ns.len() == ws.len(),
        0 <= k < ns.len(),
    ensures
        test_lines_text(ns, ws) == test_lines_text(ns.take(k), ws.take(k)) + test_line_text(
            ns[k],
            ws[k],
        ) + test_lines_text(ns.skip(k + 1), ws.skip(k + 1)),
    decreases k,
{
    if k == 0 {
        assert(ns.skip(1) =~= ns.drop_first());
        assert(ws.skip(1) =~= ws.drop_first());
        assert(test_lines_text(ns.take(0), ws.take(0)) == Seq::<char>::empty());
        assert(test_lines_text(ns, ws) =~= Seq::<char>::empty() + test_line_text(ns[0], ws[0])
            + test_lines_text(ns.skip(1), ws.skip(1)));
    } else {
        let (dn, dw) = (ns.drop_first(), ws.drop_first());
        lemma_lines_split(dn, dw, k - 1);
        assert(ns.take(k).drop_first() =~= dn.take(k - 1));
        assert(ws.take(k).drop_first() =~= dw.take(k - 1));
        assert(dn.skip(k) =~= ns.skip(k + 1));
        assert(dw.skip(k) =~= ws.skip(k + 1));
        assert(ns.take(k)[0] == ns[0]);
        assert(ws.take(k)[0] == ws[0]);
        assert(dn[k - 1] == ns[k]);
        assert(dw[k - 1] == ws[k]);
        let first = test_line_text(ns[0], ws[0]);
        assert(test_lines_text(ns.take(k), ws.take(k)) == first + test_lines_text(
            dn.take(k - 1),
            dw.take(k - 1),
        ));
        assert(test_lines_text(ns, ws) =~= test_lines_text(ns.take(k), ws.take(k))
            + test_line_text(ns[k], ws[k]) + test_lines_text(ns.skip(k + 1), ws.skip(k + 1)));
    }
}

proof fn lemma_run_shift(s: Seq<char>, x: Seq<char>, t: Seq<char>, p: int, f: spec_fn(char) -> bool)
    requires
        s == x + t,
        0 <= p <= t.len(),
    ensures
        run_end(s, x.len() + p, f) == x.len() + run_end(t, p, f),
    decreases t.len() - p,
{
    if p < t.len() {
        assert(s[x.len() + p] == t[p]);
        if f(t[p]) {
            lemma_run_shift(s, x, t, p + 1, f);
        }
    }
}

/// The rules that read a summary line read the same wherever the text
/// stands, as long as nothing follows it.
proof fn lemma_shift_rules(s: Seq<char>, x: Seq<char>, t: Seq<char>)
    requires
        s == x + t,
    ensures
        forall|q: int, l: Seq<char>|
            x.len() <= q ==> #[trigger] lit(s, q, l) == match lit(t, q - x.len(), l) {
                Some(e) => Some(e + x.len()),
                None => None,
            },
        forall|q: int|
            x.len() <= q ==> #[trigger] eol(s, q) == match eol(t, q - x.len()) {
                Some(e) => Some(e + x.len()),
                None => None,
            },
        forall|q: int|
            x.len() <= q ==> #[trigger] number(s, q) == match number(t, q - x.len()) {
                Some((v, e)) => Some((v, e + x.len())),
                None => None,
            },
        forall|q: int|
            x.len() <= q ==> #[trigger] outcome(s, q) == match outcome(t, q - x.len()) {
                Some((v, e)) => Some((v, e + x.len())),
                None => None,
            },
{
    let o = x.len() as int;
    assert forall|q: int, l: Seq<char>| o <= q implies #[trigger] lit(s, q, l) == match lit(
        t,
        q - o,
        l,
    ) {
        Some(e) => Some(e + o),
        None => None,
    } by {
        if q - o + l.len() <= t.len() {
            assert(s.subrange(q, q + l.len()) =~= t.subrange(q - o, q - o + l.len()));
        }
    }
    assert forall|q: int| o <= q implies #[trigger] eol(s, q) == match eol(t, q - o) {
        Some(e) => Some(e + o),
        None => None,
    } by {
        if q < s.len() {
            assert(s[q] == t[q - o]);
        }
        if q + 1 < s.len() {
            assert(s[q + 1] == t[q - o + 1]);
        }
    }
    assert forall|q: int| o <= q implies #[trigger] number(s, q) == match number(t, q - o) {
        Some((v, e)) => Some((v, e + o)),
        None => None,
    } by {
        if q - o <= t.len() {
            lemma_run_shift(s, x, t, q - o, digit_class());
            crate::text::lemma_run_end_bounds(t, q - o, digit_class());
            let e = run_end(t, q - o, digit_class());
            assert(s.subrange(q, e + o) =~= t.subrange(q - o, e));
        }
    }
    assert forall|q: int| o <= q implies #[trigger] outcome(s, q) == match outcome(t, q - o) {
        Some((v, e)) => Some((v, e + o)),
        None => None,
    } by {
        if q - o <= t.len() {
            lemma_run_shift(s, x, t, q - o, word_class());
            crate::text::lemma_run_end_bounds(t, q - o, word_class());
            let e = run_end(t, q - o, word_class());
            assert(s.subrange(q, e + o) =~= t.subrange(q - o, e));
        }
    }
}

/// A summary line that ends the input is read wherever it stands.
pub proof fn lemma_summary_at_end(x: Seq<char>, t: Seq<char>)
    requires
        summary_line(t, 0) is Some,
    ensures
        summary_line(x + t, x.len() as int) == match summary_line(t, 0) {
            Some((v, e)) => Some((v, e + x.len())),
            None => None,
        },
{
    lemma_shift_rules(x + t, x, t);
}

/// A single module as text: a blank line, its start line, its test lines, a
/// blank line and its summary line.
pub open spec fn single_module_text(
    d: Seq<char>,
    plural: bool,
    ns: Seq<Seq<char>>,
    ws: Seq<Seq<char>>,
    summary: Seq<char>,
) -> Seq<char> {
    seq!['\n'] + start_line_text(d, plural) + test_lines_text(ns, ws) + seq!['\n'] + summary
}

proof fn lemma_line_positions(ns: Seq<Seq<char>>, ws: Seq<Seq<char>>, k: int)
    requires
        ns.len() == ws.len(),
        0 <= k < ns.len(),
    ensures
        test_lines_text(ns.take(k + 1), ws.take(k + 1)) == test_lines_text(ns.take(k), ws.take(k))
            + test_line_text(ns[k], ws[k]),
{
    let (tn, tw) = (ns.take(k + 1), ws.take(k + 1));
    lemma_lines_split(tn, tw, k);
    assert(tn.take(k) =~= ns.take(k));
    assert(tw.take(k) =~= ws.take(k));
    assert(tn.skip(k + 1).len() == 0);
    assert(test_lines_text(tn.skip(k + 1), tw.skip(k + 1)) =~= Seq::<char>::empty());
    assert(test_lines_text(tn, tw) =~= test_lines_text(ns.take(k), ws.take(k)) + test_line_text(
        ns[k],
        ws[k],
    ));
}

/// Where the test line of index `k` starts in a single module's text.
pub open spec fn line_start(
    d: Seq<char>,
    plural: bool,
    ns: Seq<Seq<char>>,
    ws: Seq<Seq<char>>,
    k: int,
) -> int {
    1 + start_line_text(d, plural).len() as int + test_lines_text(ns.take(k), ws.take(k)).len() as int
}

/// A module's first lines as text: a blank line, its start line and its
/// test lines, then `tail`.
pub open spec fn module_text(
    d: Seq<char>,
    plural: bool,
    ns: Seq<Seq<char>>,
    ws: Seq<Seq<char>>,
    tail: Seq<char>,
) -> Seq<char> {
    seq!['\n'] + start_line_text(d, plural) + test_lines_text(ns, ws) + tail
}

proof fn lemma_line_in_module(
    d: Seq<char>,
    plural: bool,
    ns: Seq<Seq<char>>,
    ws: Seq<Seq<char>>,
    tail: Seq<char>,
    k: int,
)
    requires
        ns.len() == ws.len(),
        0 <= k < ns.len(),
        name_fits(ns[k]),
        word_fits(ws[k]),
    ensures
        test_line(module_text(d, plural, ns, ws, tail), line_start(d, plural, ns, ws, k)) == Some(
            (
                TestView { name: ns[k], outcome: outcome_of(ws[k]) },
                line_start(d, plural, ns, ws, k + 1),
            ),
        ),
{
    let s = module_text(d, plural, ns, ws, tail);
    let nl = seq!['\n'];
    let start = start_line_text(d, plural);
    lemma_lines_split(ns, ws, k);
    lemma_line_positions(ns, ws, k);
    let pre = nl + start + test_lines_text(ns.take(k), ws.take(k));
    let post = test_lines_text(ns.skip(k + 1), ws.skip(k + 1)) + tail;
    assert(s =~= pre + test_line_text(ns[k], ws[k]) + post);
    lemma_test_line_at(pre, ns[k], ws[k], post);
}

proof fn lemma_module_frame(
    d: Seq<char>,
    plural: bool,
    ns: Seq<Seq<char>>,
    ws: Seq<Seq<char>>,
    summary: Seq<char>,
)
    requires
        digits_fit(d),
        ns.len() == ws.len(),
        summary_line(summary, 0) is Some,
        end_of(summary_line(summary, 0)) == summary.len(),
    ensures
        ({
            let s = single_module_text(d, plural, ns, ws, summary);
            let last = line_start(d, plural, ns, ws, ns.len() as int);
            &&& s.len() > 0 && s[0] == '\n'
            &&& module_start(s, 1) is Some
            &&& end_of(module_start(s, 1)) == line_start(d, plural, ns, ws, 0)
            &&& 0 <= last < s.len()
            &&& s[last] == '\n'
            &&& summary_line(s, last + 1) is Some
            &&& end_of(summary_line(s, last + 1)) == s.len()
        }),
{
    let s = single_module_text(d, plural, ns, ws, summary);
    let nl = seq!['\n'];
    let start = start_line_text(d, plural);
    let body = test_lines_text(ns, ws);
    let k_all = ns.len() as int;
    assert(s =~= nl + start + (body + nl + summary));
    lemma_start_line_at(nl, d, plural, body + nl + summary);
    assert(test_lines_text(ns.take(0), ws.take(0)) =~= Seq::<char>::empty());
    assert(ns.take(k_all) =~= ns);
    assert(ws.take(k_all) =~= ws);
    let x = nl + start + body + nl;
    assert(s =~= x + summary);
    lemma_summary_at_end(x, summary);
}

/// A single module with `K` test lines and no failures section, followed
/// by nothing, is read as exactly one module holding `K` tests, in order,
/// each with its own name and the outcome its word gives, and no failures.
#[verifier::rlimit(100)]
pub proof fn lemma_single_module_text(
    d: Seq<char>,
    plural: bool,
    ns: Seq<Seq<char>>,
    ws: Seq<Seq<char>>,
    summary: Seq<char>,
)
    requires
        digits_fit(d),
        ns.len() == ws.len(),
        forall|i: int| 0 <= i < ns.len() ==> name_fits(#[trigger] ns[i]) && word_fits(ws[i]),
        summary_line(summary, 0) is Some,
        end_of(summary_line(summary, 0)) == summary.len(),
    ensures
        ({
            let s = single_module_text(d, plural, ns, ws, summary);
            &&& report(s) is Some
            &&& report(s)->0.len() == 1
            &&& report(s)->0[0].tests.len() == ns.len()
            &&& report(s)->0[0].failures.len() == 0
            &&& forall|i: int|
                0 <= i < ns.len() ==> report(s)->0[0].tests[i] == TestView {
                    name: ns[i],
                    outcome: outcome_of(ws[i]),
                }
        }),
{
    let s = single_module_text(d, plural, ns, ws, summary);
    let k_all = ns.len() as int;
    let xs: Seq<int> = Seq::new((k_all + 1) as nat, |k: int| line_start(d, plural, ns, ws, k));
    lemma_module_frame(d, plural, ns, ws, summary);
    assert forall|k: int| 0 <= k < xs.len() - 1 implies #[trigger] test_line(s, xs[k]) is Some
        && end_of(test_line(s, xs[k])) == xs[k + 1] && value_of(test_line(s, xs[k]))
        == (TestView { name: ns[k], outcome: outcome_of(ws[k]) }) by {
        assert(name_fits(ns[k]) && word_fits(ws[k]));
        assert(s =~= module_text(d, plural, ns, ws, seq!['\n'] + summary));
        lemma_line_in_module(d, plural, ns, ws, seq!['\n'] + summary, k);
    }
    lemma_single_module(s, xs);
    assert forall|i: int| 0 <= i < ns.len() implies report(s)->0[0].tests[i] == TestView {
        name: ns[i],
        outcome: outcome_of(ws[i]),
    } by {
        assert(test_line(s, xs[i]) is Some);
    }
}

/// A single module whose one test line names a test with spaces in its name
/// (a doc test such as `src/a.rs - a::f (line 3)`) is read as one test of
/// that whole name: the name ends only at the first `" ... "`.
pub proof fn lemma_name_with_spaces(d: Seq<char>, plural: bool, n: Seq<char>, summary: Seq<char>)
    requires
        digits_fit(d),
        name_fits(n),
        summary_line(summary, 0) is Some,
        end_of(summary_line(summary, 0)) == summary.len(),
    ensures
        ({
            let s = single_module_text(d, plural, seq![n], seq!["ok"@], summary);
            &&& report(s) is Some
            &&& report(s)->0.len() == 1
            &&& report(s)->0[0].tests =~= seq![TestView { name: n, outcome: crate::model::TestResult::Passed }]
        }),
{
    reveal_strlit("ok");
    assert(word_fits("ok"@));
    lemma_single_module_text(d, plural, seq![n], seq!["ok"@], summary);
}

/// No line break in `w`.
pub open spec fn one_line(w: Seq<char>) -> bool {
    forall|j: int| 0 <= j < w.len() ==> #[trigger] w[j] != '\n' && w[j] != '\r'
}

/// A failure block as text: its header, the captured output `o`, the panic
/// line `h`, optionally the two sides of a failed equality, and a blank line.
pub open spec fn failure_text(
    n: Seq<char>,
    o: Seq<char>,
    h: Seq<char>,
    sides: Option<(Seq<char>, Seq<char>)>,
) -> Seq<char> {
    "---- "@ + n + " stdout ----"@ + seq!['\n'] + o + h + seq!['\n'] + match sides {
        Some((l, r)) => "  left: "@ + l + "\n right: "@ + r + seq!['\n'],
        None => Seq::empty(),
    } + seq!['\n']
}

/// What the failure block of `failure_text` holds.
pub open spec fn failure_value(
    n: Seq<char>,
    o: Seq<char>,
    h: Seq<char>,
    sides: Option<(Seq<char>, Seq<char>)>,
) -> FailureView {
    FailureView {
        name: n,
        captured_output: o,
        message_lines: match sides {
            Some((l, r)) => seq![h, "\n"@, "  left: "@, l, "\n right: "@, r],
            None => seq![h],
        },
        backtrace: Seq::empty(),
    }
}

proof fn lemma_failure_head(
    pre: Seq<char>,
    n: Seq<char>,
    o: Seq<char>,
    h: Seq<char>,
    sides: Option<(Seq<char>, Seq<char>)>,
    post: Seq<char>,
)
    requires
        forall|j: int| 0 <= j < n.len() ==> !occurs_at(n + " stdout ----"@, j, " stdout ----"@),
        forall|j: int| 0 <= j < o.len() ==> !occurs_at(o + "thread"@, j, "thread"@),
        h.len() >= 6 && h.subrange(0, 6) == "thread"@,
        one_line(h),
    ensures
        ({
            let s = pre + failure_text(n, o, h, sides) + post;
            let a = pre.len() + 5int;
            let k = a + n.len() as int;
            let b = k + 13;
            let tt = b + o.len() as int;
            let m = tt + h.len() as int;
            &&& lit(s, pre.len() as int, "---- "@) == Some(a)
            &&& find_from(s, a, " stdout ----"@) == Some(k)
            &&& k + " stdout ----"@.len() == k + 12
            &&& eol(s, k + 12) == Some(b)
            &&& find_from(s, b, "thread"@) == Some(tt)
            &&& run_end(s, tt, line_class()) == m
            &&& eol(s, m) == Some(m + 1)
            &&& s.subrange(a, k) == n
            &&& s.subrange(b, tt) == o
            &&& s.subrange(tt, m) == h
            &&& s.subrange(m + 1, s.len() as int) == (match sides {
                Some((l, r)) => "  left: "@ + l + "\n right: "@ + r + seq!['\n'],
                None => Seq::empty(),
            } + seq!['\n'] + post)
        }),
{
    reveal_strlit("---- ");
    reveal_strlit(" stdout ----");
    reveal_strlit("thread");
    let block = failure_text(n, o, h, sides);
    let s = pre + block + post;
    let p = pre.len() as int;
    let head = " stdout ----"@;
    assert(s.subrange(p, p + 5) =~= "---- "@);
    let a = p + 5;
    let k = a + n.len();
    assert(s.subrange(k, k + 12) =~= head);
    assert forall|j: int| a <= j < k implies !occurs_at(s, j, head) by {
        assert(s.subrange(j, j + 12) =~= (n + head).subrange(j - a, j - a + 12));
        assert(!occurs_at(n + head, j - a, head));
    }
    lemma_find_at(s, a, k, head);
    assert(s[k + 12] == '\n');
    let b = k + 13;
    let tt = b + o.len();
    let th = "thread"@;
    assert(s.subrange(tt, tt + 6) =~= h.subrange(0, 6));
    assert forall|j: int| b <= j < tt implies !occurs_at(s, j, th) by {
        assert forall|i: int| 0 <= i < 6 implies #[trigger] s.subrange(j, j + 6)[i] == (o
            + th).subrange(j - b, j - b + 6)[i] by {
            if j + i >= tt {
                assert(h[j + i - tt] == h.subrange(0, 6)[j + i - tt]);
            }
        }
        assert(s.subrange(j, j + 6) =~= (o + th).subrange(j - b, j - b + 6));
        assert(!occurs_at(o + th, j - b, th));
    }
    lemma_find_at(s, b, tt, th);
    let m = tt + h.len();
    assert forall|i: int| tt <= i < m implies line_class()(#[trigger] s[i]) by {
        assert(s[i] == h[i - tt]);
    }
    lemma_run_stops(s, tt, m, line_class());
    assert(s.subrange(b, tt) =~= o);
    assert(s.subrange(tt, m) =~= h);
    assert(s.subrange(a, k) =~= n);
    assert(s.subrange(m + 1, s.len() as int) =~= (match sides {
        Some((l, r)) => "  left: "@ + l + "\n right: "@ + r + seq!['\n'],
        None => Seq::empty(),
    } + seq!['\n'] + post));
}

proof fn lemma_failure_tail(
    s: Seq<char>,
    d: int,
    sides: Option<(Seq<char>, Seq<char>)>,
    post: Seq<char>,
)
    requires
        0 <= d <= s.len(),
        s.subrange(d, s.len() as int) == (match sides {
            Some((l, r)) => "  left: "@ + l + "\n right: "@ + r + seq!['\n'],
            None => Seq::empty(),
        } + seq!['\n'] + post),
        sides matches Some((l, r)) ==> one_line(l) && one_line(r),
    ensures
        ({
            let e = match sides {
                Some((l, r)) => d + 8 + l.len() + 9 + r.len() + 1,
                None => d,
            };
            &&& left_right(s, d) == match sides {
                Some((l, r)) => Some((l, r, e)),
                None => None,
            }
            &&& note(s, e) is None
            &&& backtrace(s, e) is None
            &&& eol(s, e) == Some(e + 1)
        }),
{
    reveal_strlit("  left: ");
    reveal_strlit("\n right: ");
    reveal_strlit("\n");
    reveal_strlit("note: ");
    reveal_strlit("stack backtrace:");
    let rest = s.subrange(d, s.len() as int);
    let e = match sides {
        Some((l, r)) => d + 8 + l.len() + 9 + r.len() + 1,
        None => d,
    };
    let part = match sides {
        Some((l, r)) => "  left: "@ + l + "\n right: "@ + r + seq!['\n'],
        None => Seq::empty(),
    };
    assert(rest == part + seq!['\n'] + post);
    assert(rest.len() == s.len() - d);
    assert(part.len() == e - d);
    assert(rest[e - d] == '\n');
    match sides {
        Some((l, r)) => {
            assert(s.subrange(d, d + 8) =~= rest.subrange(0, 8));
            assert(rest.subrange(0, 8) =~= "  left: "@);
            let a2 = d + 8;
            let b2 = a2 + l.len();
            assert forall|i: int| a2 <= i < b2 implies line_class()(#[trigger] s[i]) by {
                assert(s[i] == rest[i - d]);
                assert(rest[i - d] == l[i - a2]);
            }
            assert(s[b2] == rest[b2 - d]);
            lemma_run_stops(s, a2, b2, line_class());
            assert(s.subrange(b2, b2 + 9) =~= "\n right: "@) by {
                assert forall|i: int| 0 <= i < 9 implies #[trigger] s.subrange(b2, b2 + 9)[i]
                    == "\n right: "@[i] by {
                    assert(s[b2 + i] == rest[b2 + i - d]);
                }
            }
            let c2 = b2 + 9;
            let k2 = c2 + r.len();
            assert(s[k2] == rest[k2 - d]);
            assert(s.subrange(k2, k2 + 1) =~= "\n"@);
            assert forall|j: int| c2 <= j < k2 implies !occurs_at(s, j, "\n"@) by {
                assert(s.subrange(j, j + 1)[0] == s[j]);
                assert(s[j] == rest[j - d]);
                assert(rest[j - d] == r[j - c2]);
            }
            lemma_find_at(s, c2, k2, "\n"@);
            assert(s.subrange(a2, b2) =~= l) by {
                assert forall|i: int| 0 <= i < l.len() implies #[trigger] s.subrange(a2, b2)[i]
                    == l[i] by {
                    assert(s[a2 + i] == rest[a2 + i - d]);
                }
            }
            assert(s.subrange(c2, k2) =~= r) by {
                assert forall|i: int| 0 <= i < r.len() implies #[trigger] s.subrange(c2, k2)[i]
                    == r[i] by {
                    assert(s[c2 + i] == rest[c2 + i - d]);
                }
            }
        },
        None => {},
    }
    assert(s[e] == rest[e - d]);
    assert(s[e] == '\n');
    if e + 8 <= s.len() {
        assert(s.subrange(e, e + 8)[0] == s[e]);
    }
    if e + 6 <= s.len() {
        assert(s.subrange(e, e + 6)[0] == s[e]);
    }
    if e + 16 <= s.len() {
        assert(s.subrange(e, e + 16)[0] == s[e]);
    }
}

/// A failure block written out as text, anywhere in the input, is read with
/// its name, its whole captured output (up to the first `thread`, spaces
/// included), and one message line for a plain panic or six fragments in
/// fixed order for a failed equality.
pub proof fn lemma_failure_at(
    pre: Seq<char>,
    n: Seq<char>,
    o: Seq<char>,
    h: Seq<char>,
    sides: Option<(Seq<char>, Seq<char>)>,
    post: Seq<char>,
)
    requires
        forall|j: int| 0 <= j < n.len() ==> !occurs_at(n + " stdout ----"@, j, " stdout ----"@),
        forall|j: int| 0 <= j < o.len() ==> !occurs_at(o + "thread"@, j, "thread"@),
        h.len() >= 6 && h.subrange(0, 6) == "thread"@,
        one_line(h),
        sides matches Some((l, r)) ==> one_line(l) && one_line(r),
    ensures
        failure_block(pre + failure_text(n, o, h, sides) + post, pre.len() as int) == Some(
            (failure_value(n, o, h, sides), (pre.len() + failure_text(n, o, h, sides).len()) as int),
        ),
{
    let s = pre + failure_text(n, o, h, sides) + post;
    lemma_failure_head(pre, n, o, h, sides, post);
    let d: int = (pre.len() + 5 + n.len() + 13 + o.len() + h.len() + 1) as int;
    lemma_failure_tail(s, d, sides, post);
    reveal_strlit("\n");
    reveal_strlit("  left: ");
    reveal_strlit("\n right: ");
}

/// A failures section as text holding one failure block, then the listing
/// of the failed test's name.
pub open spec fn section_text(
    n: Seq<char>,
    o: Seq<char>,
    h: Seq<char>,
    sides: Option<(Seq<char>, Seq<char>)>,
) -> Seq<char> {
    "failures:"@ + seq!['\n', '\n'] + failure_text(n, o, h, sides) + seq!['\n'] + "failures:"@
        + seq!['\n'] + "    "@ + n + seq!['\n', '\n']
}

/// What a failure block needs of its parts to be read back as written.
pub open spec fn failure_parts_fit(
    n: Seq<char>,
    o: Seq<char>,
    h: Seq<char>,
    sides: Option<(Seq<char>, Seq<char>)>,
) -> bool {
    &&& forall|j: int| 0 <= j < n.len() ==> !occurs_at(n + " stdout ----"@, j, " stdout ----"@)
    &&& forall|j: int| 0 <= j < o.len() ==> !occurs_at(o + "thread"@, j, "thread"@)
    &&& h.len() >= 6 && h.subrange(0, 6) == "thread"@
    &&& one_line(h)
    &&& sides matches Some((l, r)) ==> one_line(l) && one_line(r)
}

proof fn lemma_listing_at(s: Seq<char>, g: int, n: Seq<char>)
    requires
        0 <= g,
        g + 5 + n.len() < s.len(),
        s.subrange(g, g + 4) == "    "@,
        forall|i: int| 0 <= i < n.len() ==> #[trigger] s[g + 4 + i] == n[i],
        one_line(n),
        s[g + 4 + n.len()] == '\n',
        s[g + 5 + n.len()] == '\n',
    ensures
        listing_line(s, g) == Some(g + 5 + n.len()),
        listing_end(s, g) == g + 5 + n.len(),
        eol(s, g + 5 + n.len()) == Some(g + 6 + n.len()),
{
    reveal_strlit("    ");
    let a = g + 4;
    let b = a + n.len();
    assert forall|i: int| a <= i < b implies line_class()(#[trigger] s[i]) by {
        assert(s[g + 4 + (i - a)] == n[i - a]);
    }
    lemma_run_stops(s, a, b, line_class());
    let g2 = b + 1;
    if g2 + 4 <= s.len() {
        assert(s.subrange(g2, g2 + 4)[0] == s[g2]);
    }
    assert(listing_line(s, g2) is None);
    assert(listing_end(s, g2) == g2);
}

/// A failures section with one block, anywhere in the input, is read as that
/// one failure.
#[verifier::rlimit(100)]
pub proof fn lemma_section_at(
    pre: Seq<char>,
    n: Seq<char>,
    o: Seq<char>,
    h: Seq<char>,
    sides: Option<(Seq<char>, Seq<char>)>,
    post: Seq<char>,
)
    requires
        failure_parts_fit(n, o, h, sides),
        one_line(n),
    ensures
        failures_section(pre + section_text(n, o, h, sides) + post, pre.len() as int) == Some(
            (
                seq![failure_value(n, o, h, sides)],
                (pre.len() + section_text(n, o, h, sides).len()) as int,
            ),
        ),
{
    reveal_strlit("failures:");
    reveal_strlit("    ");
    reveal_strlit("---- ");
    let nl = seq!['\n'];
    let ft = failure_text(n, o, h, sides);
    let sec = section_text(n, o, h, sides);
    let s = pre + sec + post;
    let p = pre.len() as int;
    assert(s.subrange(p, p + 9) =~= "failures:"@);
    assert(s[p + 9] == '\n');
    assert(s[p + 10] == '\n');
    let c = p + 11;
    let pre2 = pre + "failures:"@ + seq!['\n', '\n'];
    let post2 = nl + "failures:"@ + nl + "    "@ + n + seq!['\n', '\n'] + post;
    assert(s =~= pre2 + ft + post2);
    lemma_failure_at(pre2, n, o, h, sides, post2);
    let q = c + ft.len();
    assert(s[q] == '\n');
    if q + 5 <= s.len() {
        assert(s.subrange(q, q + 5)[0] == s[q]);
    }
    assert(failure_block(s, q) is None);
    assert(failure_blocks(s, q) == (Seq::<FailureView>::empty(), q));
    assert(failure_blocks(s, c).0 =~= seq![failure_value(n, o, h, sides)]);
    let f0 = q + 1;
    assert(s.subrange(f0, f0 + 9) =~= "failures:"@);
    assert(s[f0 + 9] == '\n');
    let g = f0 + 10;
    assert(s.subrange(g, g + 4) =~= "    "@);
    assert forall|i: int| 0 <= i < n.len() implies #[trigger] s[g + 4 + i] == n[i] by {}
    assert(s[g + 4 + n.len()] == '\n');
    assert(s[g + 5 + n.len()] == '\n');
    lemma_listing_at(s, g, n);
}

/// A single module as text whose failures section holds one block.
pub open spec fn failing_module_text(
    d: Seq<char>,
    plural: bool,
    ns: Seq<Seq<char>>,
    ws: Seq<Seq<char>>,
    n: Seq<char>,
    o: Seq<char>,
    h: Seq<char>,
    sides: Option<(Seq<char>, Seq<char>)>,
    summary: Seq<char>,
) -> Seq<char> {
    module_text(d, plural, ns, ws, seq!['\n'] + section_text(n, o, h, sides) + summary)
}

proof fn lemma_failing_module_frame(
    d: Seq<char>,
    plural: bool,
    ns: Seq<Seq<char>>,
    ws: Seq<Seq<char>>,
    n: Seq<char>,
    o: Seq<char>,
    h: Seq<char>,
    sides: Option<(Seq<char>, Seq<char>)>,
    summary: Seq<char>,
)
    requires
        digits_fit(d),
        ns.len() == ws.len(),
        failure_parts_fit(n, o, h, sides),
        one_line(n),
        summary_line(summary, 0) is Some,
        end_of(summary_line(summary, 0)) == summary.len(),
    ensures
        ({
            let s = failing_module_text(d, plural, ns, ws, n, o, h, sides, summary);
            let last = line_start(d, plural, ns, ws, ns.len() as int);
            let section = failures_section(s, last + 1);
            &&& s.len() > 0 && s[0] == '\n'
            &&& module_start(s, 1) is Some
            &&& end_of(module_start(s, 1)) == line_start(d, plural, ns, ws, 0)
            &&& 0 <= last < s.len()
            &&& s[last] == '\n'
            &&& section is Some
            &&& value_of(section) == seq![failure_value(n, o, h, sides)]
            &&& summary_line(s, end_of(section)) is Some
            &&& end_of(summary_line(s, end_of(section))) == s.len()
        }),
{
    let s = failing_module_text(d, plural, ns, ws, n, o, h, sides, summary);
    let nl = seq!['\n'];
    let start = start_line_text(d, plural);
    let body = test_lines_text(ns, ws);
    let sec = section_text(n, o, h, sides);
    let k_all = ns.len() as int;
    assert(s =~= nl + start + (body + nl + sec + summary));
    lemma_start_line_at(nl, d, plural, body + nl + sec + summary);
    assert(test_lines_text(ns.take(0), ws.take(0)) =~= Seq::<char>::empty());
    assert(ns.take(k_all) =~= ns);
    assert(ws.take(k_all) =~= ws);
    let x = nl + start + body + nl;
    assert(s =~= x + sec + summary);
    lemma_section_at(x, n, o, h, sides, summary);
    assert(s =~= (x + sec) + summary);
    lemma_summary_at_end(x + sec, summary);
}

/// A single module whose failures section holds one failure block is read
/// as one module with its `K` tests and exactly that failure: its name, its
/// whole captured output, and one message line for a plain panic or six
/// fragments in fixed order for a failed equality.
#[verifier::rlimit(100)]
pub proof fn lemma_failing_module_text(
    d: Seq<char>,
    plural: bool,
    ns: Seq<Seq<char>>,
    ws: Seq<Seq<char>>,
    n: Seq<char>,
    o: Seq<char>,
    h: Seq<char>,
    sides: Option<(Seq<char>, Seq<char>)>,
    summary: Seq<char>,
)
    requires
        digits_fit(d),
        ns.len() == ws.len(),
        forall|i: int| 0 <= i < ns.len() ==> name_fits(#[trigger] ns[i]) && word_fits(ws[i]),
        failure_parts_fit(n, o, h, sides),
        one_line(n),
        summary_line(summary, 0) is Some,
        end_of(summary_line(summary, 0)) == summary.len(),
    ensures
        ({
            let s = failing_module_text(d, plural, ns, ws, n, o, h, sides, summary);
            &&& report(s) is Some
            &&& report(s)->0.len() == 1
            &&& report(s)->0[0].tests.len() == ns.len()
            &&& report(s)->0[0].failures == seq![failure_value(n, o, h, sides)]
            &&& forall|i: int|
                0 <= i < ns.len() ==> report(s)->0[0].tests[i] == TestView {
                    name: ns[i],
                    outcome: outcome_of(ws[i]),
                }
        }),
{
    let s = failing_module_text(d, plural, ns, ws, n, o, h, sides, summary);
    let tail = seq!['\n'] + section_text(n, o, h, sides) + summary;
    let k_all = ns.len() as int;
    let xs: Seq<int> = Seq::new((k_all + 1) as nat, |k: int| line_start(d, plural, ns, ws, k));
    lemma_failing_module_frame(d, plural, ns, ws, n, o, h, sides, summary);
    assert forall|k: int| 0 <= k < xs.len() - 1 implies #[trigger] test_line(s, xs[k]) is Some
        && end_of(test_line(s, xs[k])) == xs[k + 1] && value_of(test_line(s, xs[k]))
        == (TestView { name: ns[k], outcome: outcome_of(ws[k]) }) by {
        assert(name_fits(ns[k]) && word_fits(ws[k]));
        lemma_line_in_module(d, plural, ns, ws, tail, k);
    }
    lemma_module_with_failures(s, xs, seq![failure_value(n, o, h, sides)]);
    assert forall|i: int| 0 <= i < ns.len() implies report(s)->0[0].tests[i] == TestView {
        name: ns[i],
        outcome: outcome_of(ws[i]),
    } by {
        assert(test_line(s, xs[i]) is Some);
    }
}

} // verus!

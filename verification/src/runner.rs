//! The decisions and the text of a test runner: which tests run, what is
//! printed for each result, the tallies at the end and the JUnit XML report.
use vstd::prelude::*;
use vstd::string::*;
use crate::text::{
    lemma_affixes, chars_of, concat, decimal, decimal_string, lemma_replace_keeps_absent, lemma_replace_nothing,
    lemma_replace_removes, push_char, replace_all, replace_str, views,
};
use itertools::Itertools;

verus! {

/// The outcome of one unit test (or of a whole target when `unit` is `None`).
#[derive(Debug, PartialEq, Eq)]
pub struct TestResult {
    pub target: String,
    pub unit: Option<String>,
    /// How many times the test was run; 0 when it was skipped.
    pub attempts: u32,
    pub passed: bool,
    /// Wall time of the last attempt, in milliseconds.
    pub duration_ms: u64,
    pub stdout: String,
    pub stderr: String,
    pub contacts: Vec<String>,
}

/// A test result as plain values.
pub struct TestResultView {
    pub target: Seq<char>,
    pub unit: Option<Seq<char>>,
    pub attempts: nat,
    pub passed: bool,
    pub duration_ms: nat,
    pub stdout: Seq<char>,
    pub stderr: Seq<char>,
    pub contacts: Seq<Seq<char>>,
}

pub open spec fn opt_view(o: Option<String>) -> Option<Seq<char>> {
    match o {
        Some(s) => Some(s@),
        None => None,
    }
}

impl View for TestResult {
    type V = TestResultView;

    open spec fn view(&self) -> TestResultView {
        TestResultView {
            target: self.target@,
            unit: opt_view(self.unit),
            attempts: self.attempts as nat,
            passed: self.passed,
            duration_ms: self.duration_ms as nat,
            stdout: self.stdout@,
            stderr: self.stderr@,
            contacts: views(self.contacts@),
        }
    }
}

pub open spec fn result_views(tests: Seq<TestResult>) -> Seq<TestResultView> {
    tests.map_values(|t: TestResult| t@)
}

/// A test that ran and never passed.
pub open spec fn is_failure(t: TestResultView) -> bool {
    !t.passed && t.attempts > 0
}

/// A test that was not run.
pub open spec fn is_skip(t: TestResultView) -> bool {
    !t.passed && t.attempts == 0
}

pub open spec fn count_passed(s: Seq<TestResultView>) -> nat
    decreases s.len(),
{
    if s.len() == 0 {
        0
    } else {
        count_passed(s.drop_last()) + if s.last().passed { 1nat } else { 0nat }
    }
}

pub open spec fn count_failed(s: Seq<TestResultView>) -> nat
    decreases s.len(),
{
    if s.len() == 0 {
        0
    } else {
        count_failed(s.drop_last()) + if is_failure(s.last()) { 1nat } else { 0nat }
    }
}

pub open spec fn count_skipped(s: Seq<TestResultView>) -> nat
    decreases s.len(),
{
    if s.len() == 0 {
        0
    } else {
        count_skipped(s.drop_last()) + if is_skip(s.last()) { 1nat } else { 0nat }
    }
}

/// The line printed for a finished test called `name`.
pub open spec fn status_text(name: Seq<char>, t: TestResultView) -> Seq<char> {
    if t.passed {
        "[PASS] "@ + name + " ("@ + decimal(t.duration_ms) + " ms)"@ + if t.attempts > 1 {
            " ("@ + decimal(t.attempts) + " attempts needed)\n"@
        } else {
            "\n"@
        }
    } else if t.attempts == 0 {
        "[SKIP] "@ + name + "\n"@
    } else {
        "[FAIL] "@ + name + " ("@ + decimal(t.duration_ms) + " ms)\n"@
    }
}

/// The pieces of `s` between its line feeds: one more piece than there are
/// line feeds (as `str::split` on `"\n"` gives them).
pub open spec fn split_lines(s: Seq<char>) -> Seq<Seq<char>>
    decreases s.len(),
{
    if s.len() == 0 {
        seq![Seq::empty()]
    } else {
        let pieces = split_lines(s.drop_last());
        if s.last() == '\n' {
            pieces.push(Seq::empty())
        } else {
            pieces.update(pieces.len() - 1, pieces.last().push(s.last()))
        }
    }
}

/// Each line of `s` indented by four spaces and ended by a line feed.
pub open spec fn indented(s: Seq<char>) -> Seq<char> {
    concat(split_lines(s).map_values(|line: Seq<char>| "    "@ + line + "\n"@))
}

/// What `format!("{:?}", v)` of std gives for a vector `v` of strings with
/// these views.
pub uninterp spec fn debug_text_list(items: Seq<Seq<char>>) -> Seq<char>;

/// The message kept for a test called `name` that failed.
pub open spec fn failure_text(name: Seq<char>, t: TestResultView) -> Seq<char> {
    "\nTest "@ + name + " failed after "@ + decimal(t.attempts) + " unsuccessful attempts:\n"@
        + indented(t.stderr) + if t.contacts.len() > 0 {
        "Please report this to "@ + debug_text_list(t.contacts) + "\n"@
    } else {
        Seq::empty()
    }
}

/// The failure messages of the failed tests among `tests`, in order; the
/// name of `tests[i]` is `names[i]`.
pub open spec fn failure_texts(names: Seq<Seq<char>>, tests: Seq<TestResultView>) -> Seq<Seq<char>>
    decreases tests.len(),
{
    if tests.len() == 0 {
        Seq::empty()
    } else {
        let earlier = failure_texts(names.take(tests.len() - 1), tests.drop_last());
        if is_failure(tests.last()) {
            earlier.push(failure_text(names[tests.len() - 1], tests.last()))
        } else {
            earlier
        }
    }
}

/// The closing line of a run.
pub open spec fn summary_text(total: nat, passed: nat, failed: nat, skipped: nat) -> Seq<char> {
    "Out of "@ + decimal(total) + " tests, "@ + decimal(passed) + " passed, "@ + decimal(failed)
        + " failed, "@ + decimal(skipped) + " were skipped\n"@
}

/// `format!("{:?}", items)` of std: the debug text of a list of strings.
#[verifier::external_body]
fn debug_list(items: &Vec<String>) -> (r: String)
    ensures
        r@ == debug_text_list(views(items@)),
{
    format!("{:?}", items)
}

/// The result recorded for a test that is disabled and so not run.
pub fn skipped_result(target: String, unit: Option<String>, contacts: Vec<String>) -> (r: TestResult)
    ensures
        r@ == (TestResultView {
            target: target@,
            unit: opt_view(unit),
            attempts: 0,
            passed: false,
            duration_ms: 0,
            stdout: Seq::empty(),
            stderr: Seq::empty(),
            contacts: views(contacts@),
        }),
{
    TestResult {
        target,
        unit,
        attempts: 0,
        passed: false,
        duration_ms: 0,
        stdout: String::new(),
        stderr: String::new(),
        contacts,
    }
}

/// The key of a disabled test as stored in the test database: an empty
/// test name stands for the whole target.
pub fn disabled_key(target: String, test: String) -> (r: (String, Option<String>))
    ensures
        r.0@ == target@,
        opt_view(r.1) == if test@.len() == 0 { None } else { Some(test@) },
{
    let test = if test.as_str().is_empty() { None } else { Some(test) };
    (target, test)
}

/// Whether (`target`, `unit`) is among the disabled tests.
pub fn is_disabled(disabled: &Vec<(String, Option<String>)>, target: &String, unit: &Option<String>) -> (r: bool)
    ensures
        r == exists|i: int|
            0 <= i < disabled@.len() && #[trigger] disabled@[i].0@ == target@ && opt_view(disabled@[i].1)
                == opt_view(*unit),
{
    let mut i: usize = 0;
    while i < disabled.len()
        invariant
            i <= disabled@.len(),
            forall|j: int|
                0 <= j < i ==> !(#[trigger] disabled@[j].0@ == target@ && opt_view(disabled@[j].1)
                    == opt_view(*unit)),
        decreases disabled@.len() - i,
    {
        let same_unit = match (&disabled[i].1, unit) {
            (Some(a), Some(b)) => *a == *b,
            (None, None) => true,
            _ => false,
        };
        if disabled[i].0 == *target && same_unit {
            return true;
        }
        i = i + 1;
    }
    false
}

/// The line printed for a finished test called `name`.
pub fn status_line(name: &str, t: &TestResult) -> (r: String)
    ensures
        r@ == status_text(name@, t@),
{
    let mut out = String::new();
    if t.passed {
        out.append("[PASS] ");
        out.append(name);
        out.append(" (");
        out.append(decimal_string(t.duration_ms).as_str());
        out.append(" ms)");
        if t.attempts > 1 {
            out.append(" (");
            out.append(decimal_string(t.attempts as u64).as_str());
            out.append(" attempts needed)\n");
        } else {
            out.append("\n");
        }
    } else if t.attempts == 0 {
        out.append("[SKIP] ");
        out.append(name);
        out.append("\n");
    } else {
        out.append("[FAIL] ");
        out.append(name);
        out.append(" (");
        out.append(decimal_string(t.duration_ms).as_str());
        out.append(" ms)\n");
    }
    assert(out@ =~= status_text(name@, t@));
    out
}

/// Each line of `s` indented by four spaces and ended by a line feed.
pub fn indent_lines(s: &str) -> (r: String)
    ensures
        r@ == indented(s@),
{
    let cs = chars_of(s);
    let mut lines: Vec<String> = Vec::new();
    let mut cur = String::new();
    let mut i: usize = 0;
    assert(s@.take(0) =~= Seq::<char>::empty());
    assert(views(lines@).push(cur@) =~= seq![Seq::<char>::empty()]);
    while i < cs.len()
        invariant
            cs@ == s@,
            i <= cs@.len(),
            views(lines@).push(cur@) == split_lines(s@.take(i as int)),
        decreases cs@.len() - i,
    {
        let ghost before = views(lines@);
        let ghost cur_before = cur@;
        assert(s@.take(i + 1).drop_last() =~= s@.take(i as int));
        assert(s@.take(i + 1).last() == cs@[i as int]);
        if cs[i] == '\n' {
            lines.push(cur);
            cur = String::new();
            assert(views(lines@) =~= before.push(cur_before));
            assert(views(lines@).push(cur@) =~= before.push(cur_before).push(Seq::empty()));
        } else {
            push_char(&mut cur, cs[i]);
            assert(views(lines@).push(cur@) =~= before.push(cur_before).update(
                before.len() as int,
                cur_before.push(cs@[i as int]),
            ));
        }
        i = i + 1;
    }
    let ghost last_before = views(lines@);
    lines.push(cur);
    assert(s@.take(cs@.len() as int) =~= s@);
    assert(views(lines@) =~= split_lines(s@));
    let ghost pieces = views(lines@).map_values(|line: Seq<char>| "    "@ + line + "\n"@);
    let mut out = String::new();
    let mut k: usize = 0;
    while k < lines.len()
        invariant
            k <= lines@.len(),
            pieces == views(lines@).map_values(|line: Seq<char>| "    "@ + line + "\n"@),
            out@ == concat(pieces.take(k as int)),
        decreases lines@.len() - k,
    {
        assert(pieces.take(k + 1).drop_last() =~= pieces.take(k as int));
        out.append("    ");
        out.append(lines[k].as_str());
        out.append("\n");
        assert(out@ =~= concat(pieces.take(k as int)) + pieces[k as int]);
        k = k + 1;
    }
    assert(pieces.take(lines@.len() as int) =~= pieces);
    out
}

/// The message kept for a test called `name` that failed.
pub fn failure_message(name: &str, t: &TestResult) -> (r: String)
    ensures
        r@ == failure_text(name@, t@),
{
    let mut out = String::new();
    out.append("\nTest ");
    out.append(name);
    out.append(" failed after ");
    out.append(decimal_string(t.attempts as u64).as_str());
    out.append(" unsuccessful attempts:\n");
    out.append(indent_lines(t.stderr.as_str()).as_str());
    if t.contacts.len() > 0 {
        out.append("Please report this to ");
        out.append(debug_list(&t.contacts).as_str());
        out.append("\n");
    }
    assert(out@ =~= failure_text(name@, t@));
    out
}

/// The tallies of a finished run.
#[derive(Debug, PartialEq, Eq)]
pub struct Summary {
    pub passed: usize,
    pub skipped: usize,
    /// One message for each failed test, in the order of the tests.
    pub errors: Vec<String>,
}

/// Counts the passed and the skipped tests and writes a message for each
/// failed one; `names[i]` is the name of `tests[i]`.
pub fn summarize(tests: &Vec<TestResult>, names: &Vec<String>) -> (s: Summary)
    requires
        names@.len() == tests@.len(),
    ensures
        s.passed == count_passed(result_views(tests@)),
        s.skipped == count_skipped(result_views(tests@)),
        views(s.errors@) == failure_texts(views(names@), result_views(tests@)),
        s.passed + s.skipped + s.errors@.len() == tests@.len(),
{
    let ghost rv = result_views(tests@);
    let ghost nv = views(names@);
    let mut passed: usize = 0;
    let mut skipped: usize = 0;
    let mut errors: Vec<String> = Vec::new();
    let mut i: usize = 0;
    assert(rv.take(0) =~= Seq::<TestResultView>::empty());
    assert(views(errors@) =~= Seq::<Seq<char>>::empty());
    while i < tests.len()
        invariant
            names@.len() == tests@.len(),
            rv == result_views(tests@),
            nv == views(names@),
            i <= tests@.len(),
            passed == count_passed(rv.take(i as int)),
            skipped == count_skipped(rv.take(i as int)),
            passed + skipped <= i,
            views(errors@) == failure_texts(nv.take(i as int), rv.take(i as int)),
        decreases tests@.len() - i,
    {
        let ghost errors_before = views(errors@);
        assert(rv.take(i + 1).drop_last() =~= rv.take(i as int));
        assert(nv.take(i + 1).take(i as int) =~= nv.take(i as int));
        assert(rv.take(i + 1).last() == tests@[i as int]@);
        assert(nv.take(i + 1)[i as int] == names@[i as int]@);
        let t = &tests[i];
        if t.passed {
            passed = passed + 1;
        } else if t.attempts == 0 {
            skipped = skipped + 1;
        } else {
            let message = failure_message(names[i].as_str(), t);
            errors.push(message);
            assert(views(errors@) =~= errors_before.push(failure_text(names@[i as int]@, tests@[i as int]@)));
        }
        i = i + 1;
    }
    assert(rv.take(tests@.len() as int) =~= rv);
    assert(nv.take(tests@.len() as int) =~= nv);
    proof {
        lemma_outcomes_add_up(nv, rv);
        assert(views(errors@).len() == errors@.len());
    }
    Summary { passed, skipped, errors }
}

/// The closing line of a run.
pub fn summary_line(total: u64, passed: u64, failed: u64, skipped: u64) -> (r: String)
    ensures
        r@ == summary_text(total as nat, passed as nat, failed as nat, skipped as nat),
{
    let mut out = String::new();
    out.append("Out of ");
    out.append(decimal_string(total).as_str());
    out.append(" tests, ");
    out.append(decimal_string(passed).as_str());
    out.append(" passed, ");
    out.append(decimal_string(failed).as_str());
    out.append(" failed, ");
    out.append(decimal_string(skipped).as_str());
    out.append(" were skipped\n");
    assert(out@ =~= summary_text(total as nat, passed as nat, failed as nat, skipped as nat));
    out
}

/// A finished test and the text of its duration in seconds.
pub open spec fn case_views(cases: Seq<(TestResult, String)>) -> Seq<(TestResultView, Seq<char>)> {
    cases.map_values(|c: (TestResult, String)| (c.0@, c.1@))
}

pub open spec fn case_results(cases: Seq<(TestResultView, Seq<char>)>) -> Seq<TestResultView> {
    cases.map_values(|c: (TestResultView, Seq<char>)| c.0)
}

pub open spec fn group_views(groups: Seq<(String, Vec<(TestResult, String)>)>) -> Seq<
    (Seq<char>, Seq<(TestResultView, Seq<char>)>),
> {
    groups.map_values(|g: (String, Vec<(TestResult, String)>)| (g.0@, case_views(g.1@)))
}

/// The cases of `target`, in their order.
pub open spec fn of_target(cases: Seq<(TestResultView, Seq<char>)>, target: Seq<char>) -> Seq<
    (TestResultView, Seq<char>),
> {
    cases.filter(|c: (TestResultView, Seq<char>)| c.0.target == target)
}

/// `groups` puts the cases of each target together: one group for each
/// target that occurs, holding exactly that target's cases in their order.
pub open spec fn is_grouping(
    cases: Seq<(TestResultView, Seq<char>)>,
    groups: Seq<(Seq<char>, Seq<(TestResultView, Seq<char>)>)>,
) -> bool {
    &&& forall|i: int, j: int|
        0 <= i < groups.len() && 0 <= j < groups.len() && i != j ==> #[trigger] groups[i].0
            != #[trigger] groups[j].0
    &&& forall|i: int|
        0 <= i < groups.len() ==> #[trigger] groups[i].1.len() > 0 && groups[i].1 == of_target(
            cases,
            groups[i].0,
        )
    &&& forall|k: int|
        0 <= k < cases.len() ==> exists|i: int|
            0 <= i < groups.len() && #[trigger] groups[i].0 == #[trigger] cases[k].0.target
}

/// Text made safe for the body of an XML element: `<` is replaced by
/// `&lt;`, then `&` by `&amp;`.
pub open spec fn escape_text(s: Seq<char>) -> Seq<char> {
    replace_all(replace_all(s, "<"@, "&lt;"@), "&"@, "&amp;"@)
}

/// Every test counts once, as passed, as failed or as skipped, and each
/// failed test has one failure message.
pub proof fn lemma_outcomes_add_up(names: Seq<Seq<char>>, tests: Seq<TestResultView>)
    ensures
        count_passed(tests) + count_failed(tests) + count_skipped(tests) == tests.len(),
        failure_texts(names, tests).len() == count_failed(tests),
    decreases tests.len(),
{
    if tests.len() > 0 {
        lemma_outcomes_add_up(names.take(tests.len() - 1), tests.drop_last());
    }
}

/// The number of tests in the suites, added up.
pub open spec fn suite_sizes(groups: Seq<(Seq<char>, Seq<(TestResultView, Seq<char>)>)>) -> nat
    decreases groups.len(),
{
    if groups.len() == 0 {
        0
    } else {
        suite_sizes(groups.drop_last()) + groups.last().1.len()
    }
}

/// The number of failed tests in the suites, added up.
pub open spec fn suite_failures(groups: Seq<(Seq<char>, Seq<(TestResultView, Seq<char>)>)>) -> nat
    decreases groups.len(),
{
    if groups.len() == 0 {
        0
    } else {
        suite_failures(groups.drop_last()) + count_failed(case_results(groups.last().1))
    }
}

/// How many of `keys` are `t`.
spec fn key_count(keys: Seq<Seq<char>>, t: Seq<char>) -> nat
    decreases keys.len(),
{
    if keys.len() == 0 {
        0
    } else {
        key_count(keys.drop_last(), t) + if keys.last() == t { 1nat } else { 0nat }
    }
}

/// The number of cases of each of `keys`, added up.
spec fn keys_len_sum(keys: Seq<Seq<char>>, cases: Seq<(TestResultView, Seq<char>)>) -> nat
    decreases keys.len(),
{
    if keys.len() == 0 {
        0
    } else {
        keys_len_sum(keys.drop_last(), cases) + of_target(cases, keys.last()).len()
    }
}

/// The number of failed cases of each of `keys`, added up.
spec fn keys_failed_sum(keys: Seq<Seq<char>>, cases: Seq<(TestResultView, Seq<char>)>) -> nat
    decreases keys.len(),
{
    if keys.len() == 0 {
        0
    } else {
        keys_failed_sum(keys.drop_last(), cases) + count_failed(
            case_results(of_target(cases, keys.last())),
        )
    }
}

proof fn lemma_of_target_push(cases: Seq<(TestResultView, Seq<char>)>, c: (TestResultView, Seq<char>), k: Seq<char>)
    ensures
        of_target(cases.push(c), k) == if c.0.target == k {
            of_target(cases, k).push(c)
        } else {
            of_target(cases, k)
        },
{
    reveal(Seq::filter);
    assert(cases.push(c).drop_last() =~= cases);
}

proof fn lemma_count_failed_push(cases: Seq<(TestResultView, Seq<char>)>, c: (TestResultView, Seq<char>))
    ensures
        count_failed(case_results(cases.push(c))) == count_failed(case_results(cases)) + if is_failure(
            c.0,
        ) {
            1nat
        } else {
            0nat
        },
{
    assert(case_results(cases.push(c)).drop_last() =~= case_results(cases));
}

proof fn lemma_sums_push(keys: Seq<Seq<char>>, cases: Seq<(TestResultView, Seq<char>)>, c: (TestResultView, Seq<char>))
    ensures
        keys_len_sum(keys, cases.push(c)) == keys_len_sum(keys, cases) + key_count(keys, c.0.target),
        keys_failed_sum(keys, cases.push(c)) == keys_failed_sum(keys, cases) + if is_failure(c.0) {
            key_count(keys, c.0.target)
        } else {
            0nat
        },
    decreases keys.len(),
{
    if keys.len() > 0 {
        lemma_sums_push(keys.drop_last(), cases, c);
        lemma_of_target_push(cases, c, keys.last());
        lemma_count_failed_push(of_target(cases, keys.last()), c);
    }
}

proof fn lemma_key_count_one(keys: Seq<Seq<char>>, t: Seq<char>, at: int)
    requires
        forall|i: int, j: int|
            0 <= i < keys.len() && 0 <= j < keys.len() && i != j ==> #[trigger] keys[i] != #[trigger] keys[j],
        0 <= at < keys.len(),
        keys[at] == t,
    ensures
        key_count(keys, t) == 1,
    decreases keys.len(),
{
    let rest = keys.drop_last();
    if at == keys.len() - 1 {
        lemma_key_count_zero(rest, t);
    } else {
        assert(keys.last() != t) by {
            assert(keys[keys.len() - 1] != keys[at]);
        }
        lemma_key_count_one(rest, t, at);
    }
}

proof fn lemma_key_count_zero(keys: Seq<Seq<char>>, t: Seq<char>)
    requires
        forall|i: int| 0 <= i < keys.len() ==> keys[i] != t,
    ensures
        key_count(keys, t) == 0,
    decreases keys.len(),
{
    if keys.len() > 0 {
        lemma_key_count_zero(keys.drop_last(), t);
    }
}

proof fn lemma_sums_cover(keys: Seq<Seq<char>>, cases: Seq<(TestResultView, Seq<char>)>)
    requires
        forall|i: int, j: int|
            0 <= i < keys.len() && 0 <= j < keys.len() && i != j ==> #[trigger] keys[i] != #[trigger] keys[j],
        forall|k: int| 0 <= k < cases.len() ==> keys.contains(#[trigger] cases[k].0.target),
    ensures
        keys_len_sum(keys, cases) == cases.len(),
        keys_failed_sum(keys, cases) == count_failed(case_results(cases)),
    decreases cases.len(),
{
    if cases.len() == 0 {
        lemma_sums_empty(keys, cases);
    } else {
        let rest = cases.drop_last();
        let c = cases.last();
        assert forall|k: int| 0 <= k < rest.len() implies keys.contains(#[trigger] rest[k].0.target) by {
            assert(rest[k] == cases[k]);
            assert(keys.contains(cases[k].0.target));
        }
        lemma_sums_cover(keys, rest);
        assert(rest.push(c) =~= cases);
        lemma_sums_push(keys, rest, c);
        lemma_count_failed_push(rest, c);
        assert(cases[cases.len() - 1] == c);
        assert(keys.contains(cases[cases.len() - 1].0.target));
        let at = choose|i: int| 0 <= i < keys.len() && keys[i] == c.0.target;
        lemma_key_count_one(keys, c.0.target, at);
    }
}

proof fn lemma_sums_empty(keys: Seq<Seq<char>>, cases: Seq<(TestResultView, Seq<char>)>)
    requires
        cases.len() == 0,
    ensures
        keys_len_sum(keys, cases) == 0,
        keys_failed_sum(keys, cases) == 0,
    decreases keys.len(),
{
    if keys.len() > 0 {
        lemma_sums_empty(keys.drop_last(), cases);
        reveal(Seq::filter);
        assert(of_target(cases, keys.last()).len() == 0);
        assert(case_results(of_target(cases, keys.last())).len() == 0);
    }
}

proof fn lemma_suite_sums(cases: Seq<(TestResultView, Seq<char>)>, groups: Seq<(Seq<char>, Seq<(TestResultView, Seq<char>)>)>)
    requires
        forall|i: int| 0 <= i < groups.len() ==> #[trigger] groups[i].1 == of_target(cases, groups[i].0),
    ensures
        suite_sizes(groups) == keys_len_sum(groups.map_values(|g: (Seq<char>, Seq<(TestResultView, Seq<char>)>)| g.0), cases),
        suite_failures(groups) == keys_failed_sum(groups.map_values(|g: (Seq<char>, Seq<(TestResultView, Seq<char>)>)| g.0), cases),
    decreases groups.len(),
{
    let keys = groups.map_values(|g: (Seq<char>, Seq<(TestResultView, Seq<char>)>)| g.0);
    if groups.len() > 0 {
        let rest = groups.drop_last();
        assert forall|i: int| 0 <= i < rest.len() implies #[trigger] rest[i].1 == of_target(cases, rest[i].0) by {
            assert(rest[i] == groups[i]);
        }
        lemma_suite_sums(cases, rest);
        assert(keys.drop_last() =~= rest.map_values(|g: (Seq<char>, Seq<(TestResultView, Seq<char>)>)| g.0));
        assert(groups.last() == groups[groups.len() - 1]);
    }
}

/// The counts of the suites add up to the totals of the report: every
/// test is in exactly one suite.
pub proof fn lemma_report_totals(
    cases: Seq<(TestResultView, Seq<char>)>,
    groups: Seq<(Seq<char>, Seq<(TestResultView, Seq<char>)>)>,
)
    requires
        is_grouping(cases, groups),
    ensures
        suite_sizes(groups) == cases.len(),
        suite_failures(groups) == count_failed(case_results(cases)),
{
    let keys = groups.map_values(|g: (Seq<char>, Seq<(TestResultView, Seq<char>)>)| g.0);
    assert forall|i: int| 0 <= i < groups.len() implies #[trigger] groups[i].1 == of_target(cases, groups[i].0) by {
        assert(groups[i].1.len() > 0);
    }
    lemma_suite_sums(cases, groups);
    assert forall|i: int, j: int|
        0 <= i < keys.len() && 0 <= j < keys.len() && i != j implies #[trigger] keys[i] != #[trigger] keys[j] by {
        assert(groups[i].0 != groups[j].0);
    }
    assert forall|k: int| 0 <= k < cases.len() implies keys.contains(#[trigger] cases[k].0.target) by {
        let i = choose|i: int| 0 <= i < groups.len() && #[trigger] groups[i].0 == #[trigger] cases[k].0.target;
        assert(keys[i] == groups[i].0);
    }
    lemma_sums_cover(keys, cases);
}

/// What the status line of a finished test shows: a passed test starts
/// with `[PASS]`, its name and its time, and ends with a note of how many
/// attempts it needed exactly when it needed two or more; a skipped test is
/// `[SKIP]` and its name; a failed one is `[FAIL]`, its name and its time.
pub proof fn lemma_status_line_shows(name: Seq<char>, t: TestResultView)
    ensures
        t.passed ==> ("[PASS] "@ + name + " ("@ + decimal(t.duration_ms) + " ms)"@).is_prefix_of(
            status_text(name, t),
        ),
        t.passed && t.attempts >= 2 ==> (" ("@ + decimal(t.attempts) + " attempts needed)\n"@).is_suffix_of(
            status_text(name, t),
        ),
        t.passed && t.attempts <= 1 ==> status_text(name, t) =~= "[PASS] "@ + name + " ("@ + decimal(
            t.duration_ms,
        ) + " ms)"@ + "\n"@,
        !t.passed && t.attempts == 0 ==> status_text(name, t) =~= "[SKIP] "@ + name + "\n"@,
        !t.passed && t.attempts > 0 ==> status_text(name, t) =~= "[FAIL] "@ + name + " ("@
            + decimal(t.duration_ms) + " ms)\n"@,
{
    let s = status_text(name, t);
    if t.passed {
        let head = "[PASS] "@ + name + " ("@ + decimal(t.duration_ms) + " ms)"@;
        let note = if t.attempts > 1 {
            " ("@ + decimal(t.attempts) + " attempts needed)\n"@
        } else {
            "\n"@
        };
        lemma_affixes(s, head, Seq::empty(), note);
    }
}

/// What the failure message of a failed test shows: it starts with the
/// test's name and its number of attempts, then its standard error line by
/// line, and it ends with a line naming the contacts to report to exactly
/// when the test has at least one contact.
pub proof fn lemma_failure_message_shows(name: Seq<char>, t: TestResultView)
    ensures
        ("\nTest "@ + name + " failed after "@ + decimal(t.attempts) + " unsuccessful attempts:\n"@
            + indented(t.stderr)).is_prefix_of(failure_text(name, t)),
        t.contacts.len() >= 1 ==> ("Please report this to "@ + debug_text_list(t.contacts)
            + "\n"@).is_suffix_of(failure_text(name, t)),
        t.contacts.len() == 0 ==> failure_text(name, t) =~= "\nTest "@ + name + " failed after "@
            + decimal(t.attempts) + " unsuccessful attempts:\n"@ + indented(t.stderr),
{
    let s = failure_text(name, t);
    let head = "\nTest "@ + name + " failed after "@ + decimal(t.attempts) + " unsuccessful attempts:\n"@
        + indented(t.stderr);
    let tail = if t.contacts.len() > 0 {
        "Please report this to "@ + debug_text_list(t.contacts) + "\n"@
    } else {
        Seq::empty()
    };
    lemma_affixes(s, head, Seq::empty(), tail);
}

/// What the closing line of a run shows: the total and the passed count
/// first, then the failed count right before `failed` and the skipped count
/// right before `were skipped`.
pub proof fn lemma_summary_line_shows(total: nat, passed: nat, failed: nat, skipped: nat)
    ensures
        ("Out of "@ + decimal(total) + " tests, "@ + decimal(passed) + " passed, "@).is_prefix_of(
            summary_text(total, passed, failed, skipped),
        ),
        (decimal(failed) + " failed, "@ + decimal(skipped) + " were skipped\n"@).is_suffix_of(
            summary_text(total, passed, failed, skipped),
        ),
{
    lemma_affixes(
        summary_text(total, passed, failed, skipped),
        "Out of "@ + decimal(total) + " tests, "@ + decimal(passed) + " passed, "@,
        Seq::empty(),
        decimal(failed) + " failed, "@ + decimal(skipped) + " were skipped\n"@,
    );
}

/// Escaped text holds no `<`.
pub proof fn lemma_escaped_has_no_lt(s: Seq<char>)
    ensures
        forall|k: int| 0 <= k < escape_text(s).len() ==> escape_text(s)[k] != '<',
{
    reveal_strlit("<");
    reveal_strlit("&lt;");
    reveal_strlit("&");
    reveal_strlit("&amp;");
    assert("<"@ =~= seq!['<']);
    lemma_replace_removes(s, '<', "&lt;"@);
    lemma_replace_keeps_absent(replace_all(s, "<"@, "&lt;"@), "&"@, "&amp;"@, '<');
}

/// Text with neither `<` nor `&` is left as it is by escaping.
pub proof fn lemma_plain_text_unescaped(s: Seq<char>)
    requires
        forall|k: int| 0 <= k < s.len() ==> s[k] != '<' && s[k] != '&',
    ensures
        escape_text(s) == s,
{
    reveal_strlit("<");
    reveal_strlit("&");
    lemma_replace_nothing(s, "<"@, "&lt;"@);
    lemma_replace_nothing(s, "&"@, "&amp;"@);
}

/// The `testcase` element of one finished test.
pub open spec fn case_text(c: (TestResultView, Seq<char>)) -> Seq<char> {
    let t = c.0;
    let name = match t.unit {
        Some(u) => u,
        None => t.target,
    };
    "    <testcase classname=\""@ + t.target + "\" name=\""@ + name + "\" time=\""@ + c.1 + "\""@
        + if t.passed {
        " />\n"@
    } else {
        ">\n"@ + "      <failure>Test failed after "@ + decimal(t.attempts)
            + " unsuccessful attempts</failure>\n"@ + "      <system-out>"@ + escape_text(t.stdout)
            + "</system-out>\n"@ + "      <system-err>"@ + escape_text(t.stderr)
            + "</system-err>\n"@ + "    </testcase>\n"@
    }
}

/// The `testsuite` element of the tests of one target.
pub open spec fn suite_text(target: Seq<char>, cases: Seq<(TestResultView, Seq<char>)>) -> Seq<char> {
    "  <testsuite name=\""@ + target + "\" tests=\""@ + decimal(cases.len()) + "\" failures=\""@
        + decimal(count_failed(case_results(cases))) + "\" skipped=\""@ + decimal(
        count_skipped(case_results(cases)),
    ) + "\">\n"@ + concat(cases.map_values(|c: (TestResultView, Seq<char>)| case_text(c)))
        + "  </testsuite>\n"@
}

/// The JUnit XML report of `total` tests of which `failures` failed, with
/// the suites in the order of `suites`.
pub open spec fn report_text(
    total: nat,
    failures: nat,
    suites: Seq<(Seq<char>, Seq<(TestResultView, Seq<char>)>)>,
) -> Seq<char> {
    "<?xml version=\"1.0\" encoding=\"UTF-8\"?>\n"@ + "<testsuites tests=\""@ + decimal(total)
        + "\" failures=\""@ + decimal(failures) + "\">\n"@ + concat(
        suites.map_values(|s: (Seq<char>, Seq<(TestResultView, Seq<char>)>)| suite_text(s.0, s.1)),
    ) + "</testsuites>\n"@
}

/// `itertools::Itertools::into_group_map_by` keyed by each test's target,
/// its map then walked into a vector. Each group holds exactly the cases of
/// its target in their order, and each target has one group; the order of
/// the groups is that of the map's walk and is left open.
#[verifier::external_body]
fn group_by_target(cases: Vec<(TestResult, String)>) -> (groups: Vec<(String, Vec<(TestResult, String)>)>)
    ensures
        is_grouping(case_views(cases@), group_views(groups@)),
{
    cases.into_iter().into_group_map_by(|case| case.0.target.clone()).into_iter().collect()
}

/// `text` with `<` replaced by `&lt;`, then `&` by `&amp;`.
pub fn xml_escape_text(unescaped: String) -> (r: String)
    ensures
        r@ == escape_text(unescaped@),
{
    proof {
        reveal_strlit("<");
        reveal_strlit("&");
    }
    let lt = replace_str(unescaped.as_str(), "<", "&lt;");
    replace_str(lt.as_str(), "&", "&amp;")
}

/// How many of `cases` failed and how many were skipped.
fn count_outcomes(cases: &Vec<(TestResult, String)>) -> (r: (usize, usize))
    ensures
        r.0 == count_failed(case_results(case_views(cases@))),
        r.1 == count_skipped(case_results(case_views(cases@))),
{
    let ghost rs = case_results(case_views(cases@));
    let mut failed: usize = 0;
    let mut skipped: usize = 0;
    let mut i: usize = 0;
    while i < cases.len()
        invariant
            rs == case_results(case_views(cases@)),
            i <= cases@.len(),
            failed == count_failed(rs.take(i as int)),
            skipped == count_skipped(rs.take(i as int)),
            failed + skipped <= i,
        decreases cases@.len() - i,
    {
        assert(rs.take(i + 1).drop_last() =~= rs.take(i as int));
        assert(rs.take(i + 1).last() == cases@[i as int].0@);
        let t = &cases[i].0;
        if !t.passed {
            if t.attempts > 0 {
                failed = failed + 1;
            } else {
                skipped = skipped + 1;
            }
        }
        i = i + 1;
    }
    assert(rs.take(cases@.len() as int) =~= rs);
    (failed, skipped)
}

/// The `testcase` element of one finished test.
fn case_element(case: &(TestResult, String)) -> (r: String)
    ensures
        r@ == case_text((case.0@, case.1@)),
{
    let t = &case.0;
    let mut out = String::new();
    out.append("    <testcase classname=\"");
    out.append(t.target.as_str());
    out.append("\" name=\"");
    match &t.unit {
        Some(u) => out.append(u.as_str()),
        None => out.append(t.target.as_str()),
    }
    out.append("\" time=\"");
    out.append(case.1.as_str());
    out.append("\"");
    if t.passed {
        out.append(" />\n");
    } else {
        out.append(">\n");
        out.append("      <failure>Test failed after ");
        out.append(decimal_string(t.attempts as u64).as_str());
        out.append(" unsuccessful attempts</failure>\n");
        out.append("      <system-out>");
        out.append(xml_escape_text(t.stdout.clone()).as_str());
        out.append("</system-out>\n");
        out.append("      <system-err>");
        out.append(xml_escape_text(t.stderr.clone()).as_str());
        out.append("</system-err>\n");
        out.append("    </testcase>\n");
    }
    assert(out@ =~= case_text((case.0@, case.1@)));
    out
}

/// The `testsuite` element of the tests of one target.
fn suite_element(target: &String, cases: &Vec<(TestResult, String)>) -> (r: String)
    ensures
        r@ == suite_text(target@, case_views(cases@)),
{
    let ghost cv = case_views(cases@);
    let ghost pieces = cv.map_values(|c: (TestResultView, Seq<char>)| case_text(c));
    let counts = count_outcomes(cases);
    let mut out = String::new();
    out.append("  <testsuite name=\"");
    out.append(target.as_str());
    out.append("\" tests=\"");
    out.append(decimal_string(cases.len() as u64).as_str());
    out.append("\" failures=\"");
    out.append(decimal_string(counts.0 as u64).as_str());
    out.append("\" skipped=\"");
    out.append(decimal_string(counts.1 as u64).as_str());
    out.append("\">\n");
    let ghost head = out@;
    let mut i: usize = 0;
    assert(head + concat(pieces.take(0)) =~= head);
    while i < cases.len()
        invariant
            cv == case_views(cases@),
            pieces == cv.map_values(|c: (TestResultView, Seq<char>)| case_text(c)),
            i <= cases@.len(),
            out@ == head + concat(pieces.take(i as int)),
        decreases cases@.len() - i,
    {
        assert(pieces.take(i + 1).drop_last() =~= pieces.take(i as int));
        out.append(case_element(&cases[i]).as_str());
        assert(out@ =~= head + concat(pieces.take(i + 1)));
        i = i + 1;
    }
    assert(pieces.take(cases@.len() as int) =~= pieces);
    out.append("  </testsuite>\n");
    assert(out@ =~= suite_text(target@, cv));
    out
}

/// The JUnit XML report of `total` tests of which `failures` failed, with
/// one `testsuite` element for each of `suites`, in their order.
pub fn render_report(total: usize, failures: usize, suites: &Vec<(String, Vec<(TestResult, String)>)>) -> (r: String)
    ensures
        r@ == report_text(total as nat, failures as nat, group_views(suites@)),
{
    let ghost gv = group_views(suites@);
    let ghost pieces = gv.map_values(
        |s: (Seq<char>, Seq<(TestResultView, Seq<char>)>)| suite_text(s.0, s.1),
    );
    let mut out = String::new();
    out.append("<?xml version=\"1.0\" encoding=\"UTF-8\"?>\n");
    out.append("<testsuites tests=\"");
    out.append(decimal_string(total as u64).as_str());
    out.append("\" failures=\"");
    out.append(decimal_string(failures as u64).as_str());
    out.append("\">\n");
    let ghost head = out@;
    let mut i: usize = 0;
    assert(head + concat(pieces.take(0)) =~= head);
    while i < suites.len()
        invariant
            gv == group_views(suites@),
            pieces == gv.map_values(
                |s: (Seq<char>, Seq<(TestResultView, Seq<char>)>)| suite_text(s.0, s.1),
            ),
            i <= suites@.len(),
            out@ == head + concat(pieces.take(i as int)),
        decreases suites@.len() - i,
    {
        assert(pieces.take(i + 1).drop_last() =~= pieces.take(i as int));
        out.append(suite_element(&suites[i].0, &suites[i].1).as_str());
        assert(out@ =~= head + concat(pieces.take(i + 1)));
        i = i + 1;
    }
    assert(pieces.take(suites@.len() as int) =~= pieces);
    out.append("</testsuites>\n");
    assert(out@ =~= report_text(total as nat, failures as nat, gv));
    out
}

/// The JUnit XML report of `cases`: the totals over all of them, then the
/// tests grouped by target, one `testsuite` element for each target. The
/// order of the suites is that in which the grouping hands them out.
pub fn report_xml(cases: Vec<(TestResult, String)>) -> (r: String)
    ensures
        exists|suites: Seq<(Seq<char>, Seq<(TestResultView, Seq<char>)>)>|
            is_grouping(case_views(cases@), suites) && r@ == report_text(
                cases@.len() as nat,
                count_failed(case_results(case_views(cases@))),
                suites,
            ),
{
    let total = cases.len();
    let counts = count_outcomes(&cases);
    let ghost cv = case_views(cases@);
    let suites = group_by_target(cases);
    let r = render_report(total, counts.0, &suites);
    assert(is_grouping(cv, group_views(suites@)));
    r
}

} // verus!

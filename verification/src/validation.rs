//! The validation suite's rules: which reference files name a test, which
//! decks a test runs, how a run's status message is judged, and the tally
//! of the outcomes.
use vstd::prelude::*;
use crate::analysis::{contains_str, has_run};
use crate::deck::CardView;
use crate::inp::{Card, Deck, Parameter};
use crate::model::ModelSummary;
use crate::text::{ascii_upper_seq, chars_of, owned, push_char, str_eq, to_ascii_upper, to_uppercase, unicode_uppercase};

verus! {

broadcast use vstd::string::group_string_axioms;

/// `s` ends with `suffix`.
pub open spec fn ends_with(s: Seq<char>, suffix: Seq<char>) -> bool {
    suffix.len() <= s.len() && s.subrange(s.len() - suffix.len(), s.len() as int) == suffix
}

/// The suffix `.dat`.
pub open spec fn dat_suffix() -> Seq<char> {
    seq!['.', 'd', 'a', 't']
}

/// `s` without all its trailing `.dat` runs (`str::trim_end_matches`).
pub open spec fn trim_dat(s: Seq<char>) -> Seq<char>
    decreases s.len(),
{
    if ends_with(s, dat_suffix()) {
        trim_dat(s.subrange(0, s.len() - 4))
    } else {
        s
    }
}

/// The test a file of the fixtures directory is the reference of: a file
/// `<stem>.ref` whose stem ends in `.dat` names the test
/// `<stem without its trailing .dat runs>`.
pub open spec fn reference_test_name(file_name: Seq<char>) -> Option<Seq<char>> {
    if ends_with(file_name, ".dat.ref"@) {
        Some(trim_dat(file_name.subrange(0, file_name.len() - 4)))
    } else {
        None
    }
}

fn ends_with_chars(s: &Vec<char>, len: usize, suffix: &str) -> (r: bool)
    requires
        len <= s@.len(),
    ensures
        r == ends_with(s@.subrange(0, len as int), suffix@),
{
    let t = chars_of(suffix);
    if t.len() > len {
        return false;
    }
    let start = len - t.len();
    let mut i: usize = 0;
    while i < t.len()
        invariant
            t@ == suffix@,
            t@.len() <= len <= s@.len(),
            start == len - t@.len(),
            i <= t@.len(),
            forall|k: int| 0 <= k < i ==> s@[start + k] == t@[k],
        decreases t.len() - i,
    {
        if s[start + i] != t[i] {
            assert(s@.subrange(0, len as int).subrange(start as int, len as int)[i as int] != suffix@[i as int]);
            return false;
        }
        i += 1;
    }
    assert(s@.subrange(0, len as int).subrange(start as int, len as int) =~= suffix@);
    true
}

/// The test name a reference file gives (see `reference_test_name`).
pub fn reference_test(file_name: &str) -> (r: Option<String>)
    ensures
        match r {
            Some(n) => reference_test_name(file_name@) == Some(n@),
            None => reference_test_name(file_name@) is None,
        },
{
    proof {
        reveal_strlit(".dat.ref");
        reveal_strlit(".dat");
        assert(".dat"@ =~= dat_suffix());
    }
    let s = chars_of(file_name);
    assert(s@.subrange(0, s@.len() as int) =~= s@);
    if !ends_with_chars(&s, s.len(), ".dat.ref") {
        return None;
    }
    let mut len: usize = s.len() - 4;
    let ghost stem = s@.subrange(0, len as int);
    assert(trim_dat(stem) == trim_dat(s@.subrange(0, len as int)));
    while ends_with_chars(&s, len, ".dat")
        invariant
            len <= s@.len(),
            ".dat"@ == dat_suffix(),
            trim_dat(stem) == trim_dat(s@.subrange(0, len as int)),
        decreases len,
    {
        assert(s@.subrange(0, len as int).subrange(0, len - 4) =~= s@.subrange(0, len - 4));
        len = len - 4;
    }
    let mut name = String::new();
    let mut i: usize = 0;
    while i < len
        invariant
            len <= s@.len(),
            i <= len,
            name@ == s@.subrange(0, i as int),
        decreases len - i,
    {
        push_char(&mut name, s[i]);
        assert(s@.subrange(0, i + 1) =~= s@.subrange(0, i as int).push(s@[i as int]));
        i += 1;
    }
    Some(name)
}


/// An element type the validation suite runs.
pub open spec fn validated_type(u: Seq<char>) -> bool {
    u == "T3D2"@ || u == "B31"@ || u == "S4"@ || u == "C3D8"@
}

/// Some `ELEMENT` card (keyword compared ignoring ASCII case) has a `TYPE`
/// parameter (key compared ignoring ASCII case) whose upper-cased value
/// is a type the validation suite runs.
pub open spec fn declares_validated_elements(cards: Seq<CardView>) -> bool {
    exists|j: int, p: int|
        0 <= j < cards.len() && 0 <= p < cards[j].parameters.len()
        && ascii_upper_seq(cards[j].keyword) == "ELEMENT"@
        && ascii_upper_seq(#[trigger] cards[j].parameters[p].key) == "TYPE"@
        && cards[j].parameters[p].value is Some
        && validated_type(unicode_uppercase(cards[j].parameters[p].value->0))
}

fn ascii_upper_is(s: &str, target: &str) -> (r: bool)
    ensures
        r == (ascii_upper_seq(s@) == target@),
{
    let u = to_ascii_upper(chars_of(s).as_slice());
    let t = chars_of(target);
    if u.len() != t.len() {
        return false;
    }
    let mut i: usize = 0;
    while i < u.len()
        invariant
            u@ == ascii_upper_seq(s@),
            t@ == target@,
            u@.len() == t@.len(),
            i <= u@.len(),
            forall|k: int| 0 <= k < i ==> u@[k] == t@[k],
        decreases u.len() - i,
    {
        if u[i] != t[i] {
            return false;
        }
        i += 1;
    }
    assert(u@ =~= t@);
    true
}

fn card_declares_validated(card: &Card) -> (r: bool)
    ensures
        r == (exists|p: int|
            0 <= p < card@.parameters.len()
            && ascii_upper_seq(card@.keyword) == "ELEMENT"@
            && ascii_upper_seq(#[trigger] card@.parameters[p].key) == "TYPE"@
            && card@.parameters[p].value is Some
            && validated_type(unicode_uppercase(card@.parameters[p].value->0))),
{
    if !ascii_upper_is(card.keyword.as_str(), "ELEMENT") {
        return false;
    }
    let ghost pv = card@.parameters;
    let mut p: usize = 0;
    while p < card.parameters.len()
        invariant
            pv == card@.parameters,
            pv == card.parameters@.map_values(|q: Parameter| q@),
            ascii_upper_seq(card@.keyword) == "ELEMENT"@,
            p <= card.parameters@.len(),
            forall|i: int| 0 <= i < p ==> !(ascii_upper_seq(#[trigger] pv[i].key) == "TYPE"@
                && pv[i].value is Some
                && validated_type(unicode_uppercase(pv[i].value->0))),
        decreases card.parameters.len() - p,
    {
        let param = &card.parameters[p];
        if ascii_upper_is(param.key.as_str(), "TYPE") {
            match &param.value {
                Some(v) => {
                    let t = to_uppercase(v.as_str());
                    if str_eq(t.as_str(), "T3D2") || str_eq(t.as_str(), "B31") || str_eq(t.as_str(), "S4")
                        || str_eq(t.as_str(), "C3D8") {
                        assert(ascii_upper_seq(pv[p as int].key) == "TYPE"@);
                        return true;
                    }
                },
                None => {},
            }
        }
        p += 1;
    }
    false
}

/// Whether the deck declares elements the validation suite runs (see
/// `declares_validated_elements`).
pub fn has_validated_elements(deck: &Deck) -> (r: bool)
    ensures
        r == declares_validated_elements(deck@),
{
    let ghost cv = deck@;
    let mut j: usize = 0;
    while j < deck.cards.len()
        invariant
            cv == deck.cards@.map_values(|c: Card| c@),
            j <= deck.cards@.len(),
            forall|i: int, p: int| 0 <= i < j && 0 <= p < cv[i].parameters.len() ==> !(
                ascii_upper_seq(cv[i].keyword) == "ELEMENT"@
                && ascii_upper_seq(#[trigger] cv[i].parameters[p].key) == "TYPE"@
                && cv[i].parameters[p].value is Some
                && validated_type(unicode_uppercase(cv[i].parameters[p].value->0))),
        decreases deck.cards.len() - j,
    {
        if card_declares_validated(&deck.cards[j]) {
            assert(deck.cards@[j as int]@ == cv[j as int]);
            return true;
        }
        j += 1;
    }
    false
}

/// Why a deck is not run as a validation test, if it is not: it must be a
/// plain static analysis with at least two node rows, an element row and
/// an element type the suite runs.
pub open spec fn validation_skip_reason(s: ModelSummary, supported: bool) -> Option<Seq<char>> {
    if !s.has_static {
        Some("Not a static analysis"@)
    } else if s.has_dynamic || s.has_heat_transfer || s.has_frequency {
        Some("Complex analysis type"@)
    } else if s.node_rows < 2 || s.element_rows < 1 {
        Some("Insufficient geometry"@)
    } else if !supported {
        Some("No supported elements (T3D2, B31, S4, or C3D8)"@)
    } else {
        None
    }
}

/// Decides whether a deck is run as a validation test (see
/// `validation_skip_reason`); `summary` is the deck's summary.
pub fn validation_gate(summary: &ModelSummary, deck: &Deck) -> (r: Result<(), String>)
    ensures
        match r {
            Ok(_) => validation_skip_reason(*summary, declares_validated_elements(deck@)) is None,
            Err(e) => validation_skip_reason(*summary, declares_validated_elements(deck@)) == Some(e@),
        },
{
    if !summary.has_static {
        return Err(owned("Not a static analysis"));
    }
    if summary.has_dynamic || summary.has_heat_transfer || summary.has_frequency {
        return Err(owned("Complex analysis type"));
    }
    if summary.node_rows < 2 || summary.element_rows < 1 {
        return Err(owned("Insufficient geometry"));
    }
    if !has_validated_elements(deck) {
        return Err(owned("No supported elements (T3D2, B31, S4, or C3D8)"));
    }
    Ok(())
}

/// How a run's status message is judged: solved, or the reason it did not.
pub open spec fn solve_verdict(message: Seq<char>) -> Result<(), Seq<char>> {
    if has_run(message, "[SOLVED]"@) {
        Ok(())
    } else if has_run(message, "[SOLVE FAILED:"@) {
        Err("Solve failed"@)
    } else if has_run(message, "[ASSEMBLY FAILED:"@) {
        Err("Assembly failed"@)
    } else {
        Err("Solver did not run"@)
    }
}

/// Judges a run's status message (see `solve_verdict`).
pub fn check_solved(message: &str) -> (r: Result<(), String>)
    ensures
        match r {
            Ok(_) => solve_verdict(message@) is Ok,
            Err(e) => solve_verdict(message@) == Err::<(), Seq<char>>(e@),
        },
{
    if contains_str(message, "[SOLVED]") {
        Ok(())
    } else if contains_str(message, "[SOLVE FAILED:") {
        Err(owned("Solve failed"))
    } else if contains_str(message, "[ASSEMBLY FAILED:") {
        Err(owned("Assembly failed"))
    } else {
        Err(owned("Solver did not run"))
    }
}


/// Outcome of one validation test.
#[derive(Debug, Clone, Copy, PartialEq, Eq, Structural)]
pub enum TestStatus {
    Passed,
    Failed,
    Skipped,
}

/// One validation test: its name, outcome and, unless it passed, why.
#[derive(Debug, Clone)]
pub struct TestResult {
    pub name: String,
    pub status: TestStatus,
    pub error_message: Option<String>,
}

/// View of a test result: name, status, message.
pub struct TestResultView {
    pub name: Seq<char>,
    pub status: TestStatus,
    pub error_message: Option<Seq<char>>,
}

impl View for TestResult {
    type V = TestResultView;

    open spec fn view(&self) -> TestResultView {
        TestResultView {
            name: self.name@,
            status: self.status,
            error_message: match self.error_message {
                Some(m) => Some(m@),
                None => None,
            },
        }
    }
}

/// Views of the results `v`.
pub open spec fn results_view(v: Seq<TestResult>) -> Seq<TestResultView> {
    v.map_values(|t: TestResult| t@)
}

/// How many of the results have status `st`.
pub open spec fn status_count(rs: Seq<TestResultView>, st: TestStatus) -> nat
    decreases rs.len(),
{
    if rs.len() == 0 {
        0
    } else {
        status_count(rs.drop_last(), st) + (if rs.last().status == st { 1nat } else { 0nat })
    }
}

/// The result a test gets: `Ok(true)` passes, `Ok(false)` fails on an
/// output mismatch, an error skips the test with that error.
pub open spec fn outcome_result(name: Seq<char>, outcome: Result<bool, Seq<char>>) -> TestResultView {
    match outcome {
        Ok(true) => TestResultView { name, status: TestStatus::Passed, error_message: None },
        Ok(false) => TestResultView { name, status: TestStatus::Failed, error_message: Some("Output mismatch"@) },
        Err(e) => TestResultView { name, status: TestStatus::Skipped, error_message: Some(e) },
    }
}

/// Message of a reference file without its deck.
pub open spec fn msg_no_input() -> Seq<char> {
    "No corresponding .inp file found"@
}

/// The tally of a validation run.
#[derive(Debug, Clone)]
pub struct ValidationReport {
    /// Number of reference files found.
    pub total_tests: usize,
    pub passed_tests: usize,
    pub failed_tests: usize,
    pub skipped_tests: usize,
    /// The tests in the order they ran.
    pub test_results: Vec<TestResult>,
}

impl ValidationReport {
    /// The counts are those of the recorded results.
    pub open spec fn well_formed(&self) -> bool {
        let rs = results_view(self.test_results@);
        &&& self.passed_tests == status_count(rs, TestStatus::Passed)
        &&& self.failed_tests == status_count(rs, TestStatus::Failed)
        &&& self.skipped_tests == status_count(rs, TestStatus::Skipped)
    }

    /// An empty report for `total_tests` reference files.
    pub fn new(total_tests: usize) -> (r: ValidationReport)
        ensures
            r.well_formed(),
            r.total_tests == total_tests,
            r.test_results@.len() == 0,
            r.passed_tests == 0 && r.failed_tests == 0 && r.skipped_tests == 0,
    {
        let r = ValidationReport { total_tests, passed_tests: 0, failed_tests: 0, skipped_tests: 0, test_results: Vec::new() };
        assert(results_view(r.test_results@) =~= Seq::<TestResultView>::empty());
        r
    }

    fn push_result(&mut self, t: TestResult)
        requires
            old(self).well_formed(),
            old(self).test_results@.len() < usize::MAX,
        ensures
            final(self).well_formed(),
            final(self).total_tests == old(self).total_tests,
            results_view(final(self).test_results@) == results_view(old(self).test_results@).push(t@),
    {
        proof {
            lemma_status_counts_cover(results_view(self.test_results@));
        }
        let ghost before = results_view(self.test_results@);
        match t.status {
            TestStatus::Passed => { self.passed_tests = self.passed_tests + 1; },
            TestStatus::Failed => { self.failed_tests = self.failed_tests + 1; },
            TestStatus::Skipped => { self.skipped_tests = self.skipped_tests + 1; },
        }
        self.test_results.push(t);
        assert(results_view(self.test_results@) =~= before.push(t@));
        assert(results_view(self.test_results@).drop_last() =~= before);
    }

    /// Records the outcome of the test `name`: `Ok(true)` passed,
    /// `Ok(false)` an output mismatch, `Err` a skip with its reason (see
    /// `outcome_result`).
    pub fn record(&mut self, name: String, outcome: Result<bool, String>)
        requires
            old(self).well_formed(),
            old(self).test_results@.len() < usize::MAX,
        ensures
            final(self).well_formed(),
            final(self).total_tests == old(self).total_tests,
            results_view(final(self).test_results@) == results_view(old(self).test_results@).push(
                outcome_result(name@, match outcome { Ok(b) => Ok(b), Err(e) => Err(e@) })),
    {
        let t = match outcome {
            Ok(true) => TestResult { name, status: TestStatus::Passed, error_message: None },
            Ok(false) => TestResult { name, status: TestStatus::Failed, error_message: Some(owned("Output mismatch")) },
            Err(e) => TestResult { name, status: TestStatus::Skipped, error_message: Some(e) },
        };
        self.push_result(t);
    }

    /// Records a reference file whose deck is missing: the test is skipped.
    pub fn record_missing_input(&mut self, name: String)
        requires
            old(self).well_formed(),
            old(self).test_results@.len() < usize::MAX,
        ensures
            final(self).well_formed(),
            final(self).total_tests == old(self).total_tests,
            results_view(final(self).test_results@) == results_view(old(self).test_results@).push(
                TestResultView { name: name@, status: TestStatus::Skipped, error_message: Some(msg_no_input()) }),
    {
        let t = TestResult { name, status: TestStatus::Skipped, error_message: Some(owned("No corresponding .inp file found")) };
        self.push_result(t);
    }
}

/// Every recorded test is counted once: passed, failed and skipped add up
/// to the number of results.
pub proof fn lemma_status_counts_cover(rs: Seq<TestResultView>)
    ensures
        status_count(rs, TestStatus::Passed) + status_count(rs, TestStatus::Failed)
            + status_count(rs, TestStatus::Skipped) == rs.len(),
    decreases rs.len(),
{
    if rs.len() > 0 {
        lemma_status_counts_cover(rs.drop_last());
    }
}

} // verus!

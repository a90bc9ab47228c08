//! Evaluating checks against what was observed of the generated output.
use vstd::prelude::*;
use crate::align::{DiffLine, is_alignment, lines_of, views};
use crate::report::{Diff, DiffSettings, is_default, join_lines, line_diff, opt_view, report_text};
use crate::text::{first_absent, first_missing, has_fragment, holds_name, lemma_first_absent_place};

verus! {

/// The verdict on one check.
#[derive(Debug)]
pub enum CheckStatus {
    Success,
    Fail { reason: String },
}

/// A defect of the configuration or the environment, not of the output
/// under check.
#[derive(Debug)]
pub enum FatalError {
    /// The command holds no words, or its quoting does not close.
    BadCommand { cmd: String },
    /// The command could not be started.
    Spawn { cmd: String },
    /// A template could not be loaded or rendered.
    Template { message: String },
    /// Checks of this kind cannot be evaluated.
    Unimplemented,
}

/// One expectation on the generated output.
#[derive(Debug)]
pub enum CheckType {
    File { path: String, contains: Vec<String>, template: Option<String>, contents: Option<String> },
    Directory { path: String, children: Vec<String> },
    Command {
        cmd: String,
        code: i32,
        expected_stdout: Option<String>,
        expected_stderr: Option<String>,
        stdout_contains: Vec<String>,
        stderr_contains: Vec<String>,
    },
    Http {
        method: String,
        code: u16,
        url: String,
        body_contains: Vec<String>,
        expected_body: Option<String>,
    },
    VarSet { key: String, value: Option<String> },
}

/// What was found at a file's path.
#[derive(Debug)]
pub enum FileState {
    /// No regular file is there.
    Missing,
    /// A file is there but it could not be read as text.
    Unreadable,
    Text(String),
}

/// What was found at a directory's path.
#[derive(Debug)]
pub enum DirState {
    /// No directory is there.
    Missing,
    /// A directory is there but it could not be listed.
    Unreadable,
    /// The names of its immediate entries.
    Entries(Vec<String>),
}

/// The outcome of a check together with the diff reports it printed.
#[derive(Debug)]
pub struct Evaluation {
    pub status: Result<CheckStatus, FatalError>,
    pub reports: Vec<String>,
}

/// The reason of a failed check; `None` for a success.
pub open spec fn failure(s: CheckStatus) -> Option<Seq<char>> {
    match s {
        CheckStatus::Success => None,
        CheckStatus::Fail { reason } => Some(reason@),
    }
}

pub open spec fn outcome(r: Result<CheckStatus, FatalError>) -> Result<Option<Seq<char>>, FatalError> {
    match r {
        Ok(s) => Ok(failure(s)),
        Err(e) => Err(e),
    }
}

/// A named text to compare.
#[derive(Debug)]
pub struct DiffInput<'a> {
    pub name: &'a str,
    pub content: &'a str,
}

impl<'a> DiffInput<'a> {
    pub fn new(name: &'a str, content: &'a str) -> (r: Self)
        ensures
            r.name == name,
            r.content == content,
    {
        DiffInput { name, content }
    }
}

/// `rep` is the report, with default settings, of an alignment of the lines
/// of `left` (named `left_name`) with those of `right` (named `right_name`).
pub open spec fn is_report_of(
    rep: Seq<char>,
    left_name: Seq<char>,
    left: Seq<char>,
    right_name: Seq<char>,
    right: Seq<char>,
) -> bool {
    exists|s: DiffSettings, d: Seq<DiffLine>|
        is_alignment(d, lines_of(left), lines_of(right))
            && is_default(DiffSettings { left_name: None, right_name: None, ..s })
            && opt_view(s.left_name) == Some(left_name) && opt_view(s.right_name) == Some(right_name)
            && rep == join_lines(#[trigger] report_text(s, d))
}

fn owned(s: &str) -> (r: String)
    ensures
        r@ == s@,
{
    String::from_str(s)
}

/// Whether the two texts hold the same lines; where they do not and `print`
/// holds, their report is added to `reports`.
pub fn string_diff(expected: DiffInput, actual: DiffInput, print: bool, reports: &mut Vec<String>) -> (r: bool)
    ensures
        r == (lines_of(expected.content@) == lines_of(actual.content@)),
        !r && print ==> final(reports)@.len() == old(reports)@.len() + 1
            && final(reports)@.take(old(reports)@.len() as int) == old(reports)@
            && is_report_of(final(reports)@.last()@, expected.name@, expected.content@, actual.name@, actual.content@),
        r || !print ==> final(reports)@ == old(reports)@,
{
    let settings = DiffSettings::new().names(owned(expected.name), owned(actual.name));
    let d = line_diff(expected.content, actual.content, &settings);
    match &d {
        Diff::Same => true,
        Diff::Diff { settings: s, diff } => {
            if print {
                let rep = d.plain_report();
                proof {
                    let ghost st = **s;
                    assert(is_default(DiffSettings { left_name: None, right_name: None, ..st }));
                }
                reports.push(rep);
                proof {
                    assert(reports@.take(reports@.len() - 1) =~= old(reports)@);
                }
            }
            false
        },
    }
}

pub open spec fn ref_view(o: Option<&String>) -> Option<Seq<char>> {
    match o {
        Some(s) => Some(s@),
        None => None,
    }
}

pub open spec fn missing_file(path: Seq<char>) -> Seq<char> {
    "Missing file "@ + path
}

pub open spec fn unreadable_file(path: Seq<char>) -> Seq<char> {
    "Unable to read file "@ + path
}

pub open spec fn contents_mismatch() -> Seq<char> {
    "File contents do not match expected contents"@
}

pub open spec fn template_mismatch() -> Seq<char> {
    "File contents do not match rendered template"@
}

pub open spec fn fragment_missing(path: Seq<char>, fragment: Seq<char>) -> Seq<char> {
    path + " did not contain expected fragment '"@ + fragment + "'"@
}

/// The file was read and its lines are not those of `contents`.
pub open spec fn contents_differ(contents: Option<Seq<char>>, state: FileState) -> bool {
    state is Text && contents is Some && lines_of(contents->0) != lines_of(state->Text_0@)
}

/// The file was read, matched `contents`, and its lines are not those of the
/// rendered template.
pub open spec fn template_differs(
    contents: Option<Seq<char>>,
    rendered: Option<Result<String, FatalError>>,
    state: FileState,
) -> bool {
    &&& state is Text
    &&& !contents_differ(contents, state)
    &&& rendered matches Some(Ok(t))
    &&& lines_of(rendered->0->Ok_0@) != lines_of(state->Text_0@)
}

/// The outcome of a file check at `path`, given what was found there and the
/// rendered template, if the check names one. The first failing condition
/// decides: the file must be there and readable, its lines must be those of
/// `contents` and of the template, and each of `contains` must occur in it.
pub open spec fn file_outcome(
    path: Seq<char>,
    contains: Seq<Seq<char>>,
    contents: Option<Seq<char>>,
    rendered: Option<Result<String, FatalError>>,
    state: FileState,
) -> Result<Option<Seq<char>>, FatalError> {
    match state {
        FileState::Missing => Ok(Some(missing_file(path))),
        FileState::Unreadable => Ok(Some(unreadable_file(path))),
        FileState::Text(a) => if contents_differ(contents, state) {
            Ok(Some(contents_mismatch()))
        } else if template_differs(contents, rendered, state) {
            Ok(Some(template_mismatch()))
        } else {
            match rendered {
                Some(Err(e)) => Err(e),
                _ => match first_absent(a@, contains) {
                    Some(k) => Ok(Some(fragment_missing(path, contains[k]))),
                    None => Ok(None),
                },
            }
        },
    }
}

fn concat2(a: &str, b: &str) -> (r: String)
    ensures
        r@ == a@ + b@,
{
    let mut s = String::from_str(a);
    s.append(b);
    s
}

/// Evaluates a file check at `path`: `contents` is the text expected, if
/// any, `rendered` the rendered template, if the check names one, and
/// `state` what was found at the path. Where `print` holds, a mismatch of
/// lines adds the report of the diff.
pub fn evaluate_file(
    path: &String,
    contains: &Vec<String>,
    contents: Option<&String>,
    rendered: Option<Result<String, FatalError>>,
    state: FileState,
    print: bool,
) -> (r: Evaluation)
    ensures
        outcome(r.status) == file_outcome(path@, views(contains@), ref_view(contents), rendered, state),
        r.reports@.len() == if print && (contents_differ(ref_view(contents), state) || template_differs(
            ref_view(contents), rendered, state)) { 1nat } else { 0nat },
        print && contents_differ(ref_view(contents), state) ==> is_report_of(
            r.reports@[0]@, "Expected"@, contents->0@, "Actual"@, state->Text_0@),
        print && template_differs(ref_view(contents), rendered, state) ==> is_report_of(
            r.reports@[0]@, "Template"@, rendered->0->Ok_0@, "Actual"@, state->Text_0@),
{
    let mut reports: Vec<String> = Vec::new();
    let ghost st = state;
    let ghost rd = rendered;
    let actual = match state {
        FileState::Missing => {
            let reason = concat2("Missing file ", path.as_str());
            return Evaluation { status: Ok(CheckStatus::Fail { reason }), reports };
        },
        FileState::Unreadable => {
            let reason = concat2("Unable to read file ", path.as_str());
            return Evaluation { status: Ok(CheckStatus::Fail { reason }), reports };
        },
        FileState::Text(a) => a,
    };
    proof {
        reveal_strlit("File contents do not match expected contents");
        reveal_strlit("File contents do not match rendered template");
    }
    if let Some(expected) = contents {
        if !string_diff(DiffInput::new("Expected", expected.as_str()), DiffInput::new("Actual", actual.as_str()), print, &mut reports) {
            let reason = String::from_str("File contents do not match expected contents");
            return Evaluation { status: Ok(CheckStatus::Fail { reason }), reports };
        }
    }
    match rendered {
        Some(Err(e)) => {
            return Evaluation { status: Err(e), reports };
        },
        Some(Ok(t)) => {
            if !string_diff(DiffInput::new("Template", t.as_str()), DiffInput::new("Actual", actual.as_str()), print, &mut reports) {
                let reason = String::from_str("File contents do not match rendered template");
                return Evaluation { status: Ok(CheckStatus::Fail { reason }), reports };
            }
        },
        None => {},
    }
    match first_missing(actual.as_str(), contains) {
        Some(k) => {
            let mut reason = concat2(path.as_str(), " did not contain expected fragment '");
            reason.append(contains[k].as_str());
            reason.append("'");
            proof {
                assert(reason@ =~= fragment_missing(path@, views(contains@)[k as int]));
            }
            Evaluation { status: Ok(CheckStatus::Fail { reason }), reports }
        },
        None => Evaluation { status: Ok(CheckStatus::Success), reports },
    }
}

/// The place of the first of `children` that `entries` does not hold.
pub open spec fn first_unlisted(entries: Seq<Seq<char>>, children: Seq<Seq<char>>) -> Option<int>
    decreases children.len(),
{
    if children.len() == 0 {
        None
    } else {
        match first_unlisted(entries, children.drop_last()) {
            Some(k) => Some(k),
            None => if entries.contains(children.last()) { None } else { Some(children.len() - 1) },
        }
    }
}

proof fn lemma_first_unlisted_place(entries: Seq<Seq<char>>, children: Seq<Seq<char>>)
    ensures
        match first_unlisted(entries, children) {
            Some(k) => 0 <= k < children.len() && !entries.contains(children[k]),
            None => forall|j: int| 0 <= j < children.len() ==> entries.contains(#[trigger] children[j]),
        },
    decreases children.len(),
{
    if children.len() > 0 {
        let g = children.drop_last();
        lemma_first_unlisted_place(entries, g);
        match first_unlisted(entries, g) {
            Some(k) => {
                assert(g[k] == children[k]);
            },
            None => {
                assert forall|j: int| 0 <= j < children.len() - 1 implies entries.contains(
                    #[trigger] children[j],
                ) by {
                    assert(g[j] == children[j]);
                }
            },
        }
    }
}

proof fn lemma_first_unlisted_none(entries: Seq<Seq<char>>, children: Seq<Seq<char>>)
    requires
        forall|j: int| 0 <= j < children.len() ==> entries.contains(#[trigger] children[j]),
    ensures
        first_unlisted(entries, children) is None,
    decreases children.len(),
{
    if children.len() > 0 {
        let g = children.drop_last();
        assert forall|j: int| 0 <= j < g.len() implies entries.contains(#[trigger] g[j]) by {
            assert(g[j] == children[j]);
        }
        lemma_first_unlisted_none(entries, g);
        assert(entries.contains(children[children.len() - 1]));
    }
}

/// The reason a directory check fails on a directory holding `entries`.
pub open spec fn listed_failure(path: Seq<char>, children: Seq<Seq<char>>, entries: Seq<Seq<char>>) -> Option<Seq<char>> {
    match first_unlisted(entries, children) {
        Some(k) => Some("Expected child "@ + children[k] + " of "@ + path + " does not exist"@),
        None => None,
    }
}

/// The reason a directory check at `path` fails, given what was found there;
/// `None` where it succeeds.
pub open spec fn directory_failure(path: Seq<char>, children: Seq<Seq<char>>, state: DirState) -> Option<Seq<char>> {
    match state {
        DirState::Missing => Some("Missing directory: "@ + path),
        DirState::Unreadable => Some("Unable to read directory "@ + path),
        DirState::Entries(e) => listed_failure(path, children, views(e@)),
    }
}

/// Evaluates a directory check at `path`: each of `children` must be an
/// entry of the directory; other entries do not matter.
pub fn evaluate_directory(path: &String, children: &Vec<String>, state: &DirState) -> (r: CheckStatus)
    ensures
        failure(r) == directory_failure(path@, views(children@), *state),
{
    let entries = match state {
        DirState::Missing => {
            return CheckStatus::Fail { reason: concat2("Missing directory: ", path.as_str()) };
        },
        DirState::Unreadable => {
            return CheckStatus::Fail { reason: concat2("Unable to read directory ", path.as_str()) };
        },
        DirState::Entries(e) => e,
    };
    let ghost ev = views(entries@);
    let ghost c = views(children@);
    let mut k: usize = 0;
    while k < children.len()
        invariant
            k <= children@.len(),
            c == views(children@),
            ev == views(entries@),
            *state == DirState::Entries(*entries),
            first_unlisted(ev, c.take(k as int)) is None,
        decreases children.len() - k,
    {
        proof {
            assert(c.take(k + 1).drop_last() == c.take(k as int));
        }
        if !holds_name(entries, &children[k]) {
            proof {
                assert forall|j: int| 0 <= j < ev.len() implies ev[j] != c[k as int] by {
                    assert(ev[j] == entries@[j]@);
                }
                assert(c.take(k + 1).last() == c[k as int]);
                assert(!ev.contains(c[k as int]));
                assert(first_unlisted(ev, c.take(k + 1)) == Some(k as int));
                lemma_first_unlisted_prefix(ev, c, k + 1);
            }
            let mut reason = concat2("Expected child ", children[k].as_str());
            reason.append(" of ");
            reason.append(path.as_str());
            reason.append(" does not exist");
            proof {
                assert(reason@ =~= "Expected child "@ + c[k as int] + " of "@ + path@ + " does not exist"@);
            }
            return CheckStatus::Fail { reason };
        }
        proof {
            let j = choose|j: int| 0 <= j < entries@.len() && #[trigger] entries@[j]@ == children@[k as int]@;
            assert(ev[j] == c[k as int]);
        }
        k = k + 1;
    }
    proof {
        assert(c.take(k as int) == c);
    }
    CheckStatus::Success
}

proof fn lemma_first_unlisted_prefix(entries: Seq<Seq<char>>, children: Seq<Seq<char>>, m: int)
    requires
        0 <= m <= children.len(),
        first_unlisted(entries, children.take(m)) is Some,
    ensures
        first_unlisted(entries, children) == first_unlisted(entries, children.take(m)),
    decreases children.len() - m,
{
    if m < children.len() {
        assert(children.take(m + 1).drop_last() == children.take(m));
        lemma_first_unlisted_prefix(entries, children, m + 1);
    } else {
        assert(children.take(m) == children);
    }
}

/// A directory check that names no children succeeds on any directory that
/// is there and can be listed, and one that succeeds still succeeds when the
/// directory holds more entries.
pub proof fn lemma_directory_subset(
    path: Seq<char>,
    children: Seq<Seq<char>>,
    entries: Seq<Seq<char>>,
    more: Seq<Seq<char>>,
)
    requires
        forall|j: int| 0 <= j < entries.len() ==> more.contains(#[trigger] entries[j]),
    ensures
        listed_failure(path, Seq::empty(), entries) is None,
        listed_failure(path, children, entries) is None ==> listed_failure(path, children, more) is None,
{
    if listed_failure(path, children, entries) is None {
        lemma_first_unlisted_place(entries, children);
        assert forall|j: int| 0 <= j < children.len() implies more.contains(#[trigger] children[j]) by {
            assert(entries.contains(children[j]));
            let i = choose|i: int| 0 <= i < entries.len() && entries[i] == children[j];
            assert(more.contains(entries[i]));
        }
        lemma_first_unlisted_none(more, children);
    }
}

/// A file check with neither expected contents nor a template, on a file
/// that was read, fails exactly when one of `contains` does not occur in it.
pub proof fn lemma_file_contains_only(path: Seq<char>, contains: Seq<Seq<char>>, text: String)
    ensures
        file_outcome(path, contains, None, None, FileState::Text(text)) is Ok,
        file_outcome(path, contains, None, None, FileState::Text(text))->Ok_0 is Some <==> exists|j: int|
            0 <= j < contains.len() && !has_fragment(text@, #[trigger] contains[j]),
{
    lemma_first_absent_place(text@, contains);
}

/// The value of the first pair of `vars` whose key is `key`.
pub open spec fn var_lookup(vars: Seq<(String, String)>, key: Seq<char>) -> Option<Seq<char>>
    decreases vars.len(),
{
    if vars.len() == 0 {
        None
    } else if vars[0].0@ == key {
        Some(vars[0].1@)
    } else {
        var_lookup(vars.drop_first(), key)
    }
}

/// The value of `key` among `vars`.
pub fn lookup_variable<'a>(vars: &'a Vec<(String, String)>, key: &String) -> (r: Option<&'a String>)
    ensures
        ref_view(r) == var_lookup(vars@, key@),
{
    let mut i: usize = 0;
    proof {
        assert(vars@.skip(0) == vars@);
    }
    while i < vars.len()
        invariant
            i <= vars@.len(),
            var_lookup(vars@.skip(i as int), key@) == var_lookup(vars@, key@),
        decreases vars.len() - i,
    {
        proof {
            assert(vars@.skip(i as int).drop_first() == vars@.skip(i + 1));
            assert(vars@.skip(i as int)[0] == vars@[i as int]);
        }
        if vars[i].0 == *key {
            return Some(&vars[i].1);
        }
        i = i + 1;
    }
    None
}

pub open spec fn not_set(key: Seq<char>) -> Seq<char> {
    "Variable '"@ + key + "' not set"@
}

pub open spec fn wrong_value(key: Seq<char>, value: Seq<char>, actual: Seq<char>) -> Seq<char> {
    "Variable '"@ + key + "' did not match expected value '"@ + value + "' (was '"@ + actual + "')"@
}

/// The reason a variable check fails: the variable must be set, and hold
/// `value` where one is given; `None` where it succeeds.
pub open spec fn var_set_failure(key: Seq<char>, value: Option<Seq<char>>, actual: Option<Seq<char>>) -> Option<Seq<char>> {
    match actual {
        None => Some(not_set(key)),
        Some(a) => match value {
            Some(v) => if a != v { Some(wrong_value(key, v, a)) } else { None },
            None => None,
        },
    }
}

/// Evaluates a check that the variable `key` is set among `vars`, to
/// `value` where one is given.
pub fn evaluate_var_set(key: &String, value: Option<&String>, vars: &Vec<(String, String)>) -> (r: CheckStatus)
    ensures
        failure(r) == var_set_failure(key@, ref_view(value), var_lookup(vars@, key@)),
{
    match lookup_variable(vars, key) {
        None => {
            let mut reason = concat2("Variable '", key.as_str());
            reason.append("' not set");
            proof {
                assert(reason@ =~= not_set(key@));
            }
            CheckStatus::Fail { reason }
        },
        Some(actual) => match value {
            Some(v) => {
                if *actual != *v {
                    let mut reason = concat2("Variable '", key.as_str());
                    reason.append("' did not match expected value '");
                    reason.append(v.as_str());
                    reason.append("' (was '");
                    reason.append(actual.as_str());
                    reason.append("')");
                    proof {
                        assert(reason@ =~= wrong_value(key@, v@, actual@));
                    }
                    CheckStatus::Fail { reason }
                } else {
                    CheckStatus::Success
                }
            },
            None => CheckStatus::Success,
        },
    }
}

/// A name for the text `String::from_utf8_lossy` decodes from bytes.
pub uninterp spec fn utf8_lossy(b: Seq<u8>) -> Seq<char>;

/// Relies on `String::from_utf8_lossy`: the text of the bytes, each invalid
/// sequence replaced; the result depends on the bytes alone.
#[verifier::external_body]
fn decode_lossy(b: &Vec<u8>) -> (r: String)
    ensures
        r@ == utf8_lossy(b@),
{
    String::from_utf8_lossy(b.as_slice()).into_owned()
}

/// The reason a captured stream fails its expectations: where `expected`
/// is given, the text must equal it and hold each of `contains`; where it is
/// not, nothing is asked of the stream.
pub open spec fn stream_failure(
    actual: Seq<char>,
    expected: Option<Seq<char>>,
    contains: Seq<Seq<char>>,
    stream_type: Seq<char>,
) -> Option<Seq<char>> {
    match expected {
        None => None,
        Some(e) => if actual != e {
            Some(stream_type + " did not match expected output"@)
        } else {
            match first_absent(actual, contains) {
                Some(k) => Some(stream_type + " did not contain expected fragment '"@ + contains[k] + "'"@),
                None => None,
            }
        },
    }
}

/// Checks the decoded text of a stream against its expectations.
pub fn stream_text_matches(
    actual: &str,
    expected_match: Option<&String>,
    contains: &Vec<String>,
    stream_type: &str,
) -> (r: CheckStatus)
    ensures
        failure(r) == stream_failure(actual@, ref_view(expected_match), views(contains@), stream_type@),
{
    if let Some(expected) = expected_match {
        if !text_eq(actual, expected.as_str()) {
            return CheckStatus::Fail { reason: concat2(stream_type, " did not match expected output") };
        }
        match first_missing(actual, contains) {
            Some(k) => {
                let mut reason = concat2(stream_type, " did not contain expected fragment '");
                reason.append(contains[k].as_str());
                reason.append("'");
                proof {
                    assert(reason@ =~= stream_type@ + " did not contain expected fragment '"@ + views(contains@)[k as int] + "'"@);
                }
                return CheckStatus::Fail { reason };
            },
            None => {},
        }
    }
    CheckStatus::Success
}

/// Whether two texts are equal.
fn text_eq(a: &str, b: &str) -> (r: bool)
    ensures
        r == (a@ == b@),
{
    let x = String::from_str(a);
    let y = String::from_str(b);
    x == y
}

/// Checks a captured stream against its expectations, decoding its bytes
/// leniently.
pub fn stream_matches(
    stream: &Vec<u8>,
    expected_match: Option<&String>,
    contains: &Vec<String>,
    stream_type: &str,
) -> (r: CheckStatus)
    ensures
        failure(r) == stream_failure(utf8_lossy(stream@), ref_view(expected_match), views(contains@), stream_type@),
{
    let actual = decode_lossy(stream);
    stream_text_matches(actual.as_str(), expected_match, contains, stream_type)
}

/// The reason a command check fails, given the exit code and the decoded
/// output of the command: the exit code first, then standard output, then
/// standard error.
pub open spec fn command_failure(
    cmd: Seq<char>,
    code: i32,
    exit_code: Option<i32>,
    stdout: Seq<char>,
    stderr: Seq<char>,
    expected_stdout: Option<Seq<char>>,
    expected_stderr: Option<Seq<char>>,
    stdout_contains: Seq<Seq<char>>,
    stderr_contains: Seq<Seq<char>>,
) -> Option<Seq<char>> {
    if exit_code != Some(code) {
        Some("Command "@ + cmd + " exited with unexpected code"@)
    } else {
        match stream_failure(stdout, expected_stdout, stdout_contains, "stdout"@) {
            Some(r) => Some(r),
            None => stream_failure(stderr, expected_stderr, stderr_contains, "stderr"@),
        }
    }
}

/// An expected text is given for a stream and its lines are not those of
/// the captured text.
pub open spec fn stream_differs(actual: Seq<char>, expected: Option<Seq<char>>) -> bool {
    expected is Some && lines_of(expected->0) != lines_of(actual)
}

/// Checks one captured stream; where its lines differ from the expected
/// text and `print` holds, adds the report of the diff.
fn check_stream(
    stream: &Vec<u8>,
    expected: Option<&String>,
    contains: &Vec<String>,
    stream_type: &str,
    print: bool,
    reports: &mut Vec<String>,
) -> (r: CheckStatus)
    ensures
        failure(r) == stream_failure(utf8_lossy(stream@), ref_view(expected), views(contains@), stream_type@),
        print && stream_differs(utf8_lossy(stream@), ref_view(expected)) ==> final(reports)@.len() == old(
            reports,
        )@.len() + 1 && final(reports)@.take(old(reports)@.len() as int) == old(reports)@ && is_report_of(
            final(reports)@.last()@,
            "Expected"@,
            expected->0@,
            "Actual"@,
            utf8_lossy(stream@),
        ),
        !(print && stream_differs(utf8_lossy(stream@), ref_view(expected))) ==> final(reports)@ == old(
            reports,
        )@,
{
    let actual = decode_lossy(stream);
    let status = stream_text_matches(actual.as_str(), expected, contains, stream_type);
    if let Some(e) = expected {
        if print {
            string_diff(DiffInput::new("Expected", e.as_str()), DiffInput::new("Actual", actual.as_str()), true, reports);
        }
    }
    status
}

/// Evaluates what a command left: its exit code (`None` where it ended by a
/// signal) and its captured output. Where `print` holds, a stream whose
/// lines differ from its expected text adds the report of the diff.
pub fn evaluate_command(
    cmd: &String,
    code: i32,
    expected_stdout: Option<&String>,
    expected_stderr: Option<&String>,
    stdout_contains: &Vec<String>,
    stderr_contains: &Vec<String>,
    exit_code: Option<i32>,
    stdout: &Vec<u8>,
    stderr: &Vec<u8>,
    print: bool,
) -> (r: Evaluation)
    ensures
        outcome(r.status) == Ok::<Option<Seq<char>>, FatalError>(command_failure(
            cmd@,
            code,
            exit_code,
            utf8_lossy(stdout@),
            utf8_lossy(stderr@),
            ref_view(expected_stdout),
            ref_view(expected_stderr),
            views(stdout_contains@),
            views(stderr_contains@),
        )),
        ({
            let out_report = stream_differs(utf8_lossy(stdout@), ref_view(expected_stdout));
            let err_report = stream_failure(
                utf8_lossy(stdout@),
                ref_view(expected_stdout),
                views(stdout_contains@),
                "stdout"@,
            ) is None && stream_differs(utf8_lossy(stderr@), ref_view(expected_stderr));
            &&& r.reports@.len() == if print && exit_code == Some(code) && (out_report || err_report) {
                1nat
            } else {
                0nat
            }
            &&& print && exit_code == Some(code) && out_report ==> is_report_of(
                r.reports@[0]@,
                "Expected"@,
                expected_stdout->0@,
                "Actual"@,
                utf8_lossy(stdout@),
            )
            &&& print && exit_code == Some(code) && err_report ==> is_report_of(
                r.reports@[0]@,
                "Expected"@,
                expected_stderr->0@,
                "Actual"@,
                utf8_lossy(stderr@),
            )
        }),
{
    let mut reports: Vec<String> = Vec::new();
    if exit_code != Some(code) {
        let mut reason = concat2("Command ", cmd.as_str());
        reason.append(" exited with unexpected code");
        proof {
            assert(reason@ =~= "Command "@ + cmd@ + " exited with unexpected code"@);
        }
        return Evaluation { status: Ok(CheckStatus::Fail { reason }), reports };
    }
    let out = check_stream(stdout, expected_stdout, stdout_contains, "stdout", print, &mut reports);
    if let CheckStatus::Fail { reason } = out {
        proof {
            if print && stream_differs(utf8_lossy(stdout@), ref_view(expected_stdout)) {
                assert(reports@ =~= seq![reports@.last()]);
            }
        }
        return Evaluation { status: Ok(CheckStatus::Fail { reason }), reports };
    }
    proof {
        if stream_differs(utf8_lossy(stdout@), ref_view(expected_stdout)) {
            assert(utf8_lossy(stdout@) != expected_stdout->0@);
        }
    }
    let err = check_stream(stderr, expected_stderr, stderr_contains, "stderr", print, &mut reports);
    proof {
        if print && stream_differs(utf8_lossy(stderr@), ref_view(expected_stderr)) {
            assert(reports@ =~= seq![reports@.last()]);
        }
    }
    Evaluation { status: Ok(err), reports }
}

/// Without an expected text for standard output, the fragments asked of
/// standard output have no bearing on the outcome.
pub proof fn lemma_stdout_contains_gated(
    cmd: Seq<char>,
    code: i32,
    exit_code: Option<i32>,
    stdout: Seq<char>,
    stderr: Seq<char>,
    expected_stderr: Option<Seq<char>>,
    stdout_contains: Seq<Seq<char>>,
    stderr_contains: Seq<Seq<char>>,
)
    ensures
        stream_failure(stdout, None, stdout_contains, "stdout"@) is None,
        command_failure(cmd, code, exit_code, stdout, stderr, None, expected_stderr, stdout_contains, stderr_contains)
            == command_failure(cmd, code, exit_code, stdout, stderr, None, expected_stderr, Seq::empty(), stderr_contains),
{
}

/// A name for the words `shlex::split` finds in a command line; `None` where
/// its quoting does not close.
pub uninterp spec fn shell_words(s: Seq<char>) -> Option<Seq<Seq<char>>>;

/// Relies on `shlex::split`: the words of a command line under POSIX shell
/// quoting, or `None` where the line is malformed.
#[verifier::external_body]
fn split_words(cmd: &str) -> (r: Option<Vec<String>>)
    ensures
        match r {
            Some(v) => shell_words(cmd@) == Some(views(v@)),
            None => shell_words(cmd@) is None,
        },
{
    shlex::split(cmd)
}

/// The argument vector of a command, given the words found in it: an error
/// where there are none or the line was malformed.
pub fn argv_from_words(cmd: &String, words: Option<Vec<String>>) -> (r: Result<Vec<String>, FatalError>)
    ensures
        match words {
            Some(v) if v@.len() > 0 => r == Ok::<Vec<String>, FatalError>(v),
            _ => r matches Err(FatalError::BadCommand { cmd: c }) && c@ == cmd@,
        },
{
    match words {
        Some(v) => {
            if v.len() > 0 {
                Ok(v)
            } else {
                Err(FatalError::BadCommand { cmd: cmd.clone() })
            }
        },
        None => Err(FatalError::BadCommand { cmd: cmd.clone() }),
    }
}

/// The argument vector of a command line, split by shell rules: the program
/// first, then its arguments.
pub fn command_argv(cmd: &String) -> (r: Result<Vec<String>, FatalError>)
    ensures
        match shell_words(cmd@) {
            Some(w) if w.len() > 0 => r matches Ok(v) && views(v@) == w,
            _ => r matches Err(FatalError::BadCommand { cmd: c }) && c@ == cmd@,
        },
{
    let words = split_words(cmd.as_str());
    argv_from_words(cmd, words)
}

/// Evaluates a check of a kind that cannot be evaluated: always a fatal
/// error.
pub fn evaluate_http() -> (r: Result<CheckStatus, FatalError>)
    ensures
        r matches Err(FatalError::Unimplemented),
{
    Err(FatalError::Unimplemented)
}

} // verus!

//! The execution-trace parser and the runner configuration it belongs to.
//!
//! The external test-runner process is launched outside this crate; what
//! arrives here are the captured text streams. [`Runner::parse_response_from_very_verbose`]
//! recovers the HTTP response (status, headers, body, timing) from the
//! diagnostic stream, and [`Runner::parse_asserts`] recovers the
//! per-assertion outcomes. [`Runner::collect_result`] combines both with
//! the captured streams and exit status into an [`ExecutionResult`].
//!
//! Both scans are total functions of the text: a trace without a
//! recognizable response gives `response == None`, never an error.

use vstd::prelude::*;

use crate::text::{
    find_char, find_char_from, find_sub, find_sub_from, join_lines, lemma_find_char_from,
    lemma_find_sub_from, parse_secs_ms, parse_u16, spec_contains, spec_dec_digits,
    spec_find_sub, spec_join_nl, spec_lines, spec_parse_secs_ms, spec_parse_u16,
    spec_starts_with, spec_strip_leading, spec_trim, spec_ws_tokens, split_lines, str_contains,
    str_starts_with, strip_all_suffix, strip_leading, sub_string, trim_of, u64_to_decimal,
    ws_split,
};

verus! {

/// Declares std's owned filesystem path so the runner can carry the
/// configured location of the external binary. The crate only stores such
/// a value and hands it back; it never inspects it.
#[verifier::external_type_specification]
#[verifier::external_body]
pub struct ExPathBuf(std::path::PathBuf);

/// Configuration for invoking the external test-runner binary.
#[derive(Debug)]
pub struct Runner {
    /// Path to the binary; `None` means it is resolved from the search
    /// path.
    pub hurl_path: Option<std::path::PathBuf>,
    /// Maximum time handed to the binary, in seconds.
    pub timeout: u64,
}

impl Runner {
    /// A runner that resolves the binary from the search path and allows
    /// thirty seconds per run.
    pub fn new() -> (r: Self)
        ensures
            r.hurl_path is None,
            r.timeout == 30,
    {
        Runner { hurl_path: None, timeout: 30 }
    }

    /// The same runner with the binary at a fixed path.
    pub fn with_hurl_path(self, path: std::path::PathBuf) -> (r: Self)
        ensures
            r.hurl_path == Some(path),
            r.timeout == self.timeout,
    {
        Runner { hurl_path: Some(path), ..self }
    }

    /// The same runner with another timeout.
    pub fn with_timeout(self, timeout: u64) -> (r: Self)
        ensures
            r.hurl_path == self.hurl_path,
            r.timeout == timeout,
    {
        Runner { timeout, ..self }
    }
}

/// The command-line arguments of one run, after the target file's path:
/// maximal diagnostic verbosity, the run-time bound in seconds, and the
/// variables file when one is given.
pub open spec fn spec_run_args(timeout: u64, vars: Option<Seq<char>>) -> Seq<Seq<char>> {
    let base = seq!["--very-verbose"@, "--max-time"@, spec_dec_digits(timeout as int)];
    match vars {
        Some(v) => base + seq!["--variables-file"@, v],
        None => base,
    }
}

impl Runner {
    /// The arguments to hand to the external binary after the target
    /// file's path. The binary's own location and the file path are
    /// opaque paths, so the launching front end supplies those two
    /// itself and appends these.
    pub fn run_args(&self, variables_file: Option<&str>) -> (r: Vec<String>)
        ensures
            r.deep_view() == spec_run_args(
                self.timeout,
                (match variables_file {
                    Some(v) => Some(v@),
                    None => None,
                }),
            ),
    {
        let mut args: Vec<String> = Vec::new();
        args.push("--very-verbose".to_owned());
        args.push("--max-time".to_owned());
        args.push(u64_to_decimal(self.timeout));
        match variables_file {
            Some(v) => {
                args.push("--variables-file".to_owned());
                args.push(v.to_owned());
                proof {
                    assert(args.deep_view() =~= spec_run_args(self.timeout, Some(v@)));
                }
            },
            None => {
                proof {
                    assert(args.deep_view() =~= spec_run_args(
                        self.timeout,
                        None::<Seq<char>>,
                    ));
                }
            },
        }
        args
    }
}

impl Default for Runner {
    fn default() -> (r: Self)
        ensures
            r.hurl_path is None,
            r.timeout == 30,
    {
        Runner::new()
    }
}

/// The response recovered from a trace.
#[derive(Debug, Clone, PartialEq, Eq)]
pub struct Response {
    pub status_code: u16,
    /// Response headers in trace order, duplicates preserved.
    pub headers: Vec<(String, String)>,
    pub body: String,
    pub duration_ms: u64,
}

pub ghost struct ResponseView {
    pub status_code: u16,
    pub headers: Seq<(Seq<char>, Seq<char>)>,
    pub body: Seq<char>,
    pub duration_ms: u64,
}

impl View for Response {
    type V = ResponseView;

    open spec fn view(&self) -> ResponseView {
        ResponseView {
            status_code: self.status_code,
            headers: self.headers.deep_view(),
            body: self.body@,
            duration_ms: self.duration_ms,
        }
    }
}

impl DeepView for Response {
    type V = ResponseView;

    open spec fn deep_view(&self) -> ResponseView {
        self@
    }
}

/// The outcome of one assertion, as far as the trace shows it.
#[derive(Debug, Clone, PartialEq, Eq)]
pub struct AssertionResult {
    pub success: bool,
    pub text: String,
    /// Not recoverable from the trace; kept for consumers that may learn
    /// it elsewhere.
    pub expected: Option<String>,
    pub actual: Option<String>,
    /// The raw failure line, for failed outcomes.
    pub message: Option<String>,
}

pub ghost struct AssertionResultView {
    pub success: bool,
    pub text: Seq<char>,
    pub expected: Option<Seq<char>>,
    pub actual: Option<Seq<char>>,
    pub message: Option<Seq<char>>,
}

impl View for AssertionResult {
    type V = AssertionResultView;

    open spec fn view(&self) -> AssertionResultView {
        AssertionResultView {
            success: self.success,
            text: self.text@,
            expected: self.expected.deep_view(),
            actual: self.actual.deep_view(),
            message: self.message.deep_view(),
        }
    }
}

impl DeepView for AssertionResult {
    type V = AssertionResultView;

    open spec fn deep_view(&self) -> AssertionResultView {
        self@
    }
}

/// Everything one run of the external binary produced.
#[derive(Debug, Clone, PartialEq, Eq)]
pub struct ExecutionResult {
    /// Mirrors the exit status of the process.
    pub success: bool,
    pub response: Option<Response>,
    pub assertions: Vec<AssertionResult>,
    /// The raw captured streams, kept even on success.
    pub stdout: String,
    pub stderr: String,
    pub exit_code: i32,
}

pub ghost struct ExecutionResultView {
    pub success: bool,
    pub response: Option<ResponseView>,
    pub assertions: Seq<AssertionResultView>,
    pub stdout: Seq<char>,
    pub stderr: Seq<char>,
    pub exit_code: i32,
}

impl View for ExecutionResult {
    type V = ExecutionResultView;

    open spec fn view(&self) -> ExecutionResultView {
        ExecutionResultView {
            success: self.success,
            response: self.response.deep_view(),
            assertions: self.assertions.deep_view(),
            stdout: self.stdout@,
            stderr: self.stderr@,
            exit_code: self.exit_code,
        }
    }
}

/// The accumulator of the response scan.
pub ghost struct RespAcc {
    /// Zero until a status line has been seen.
    pub status: u16,
    pub headers: Seq<(Seq<char>, Seq<char>)>,
    pub in_headers: bool,
    pub in_body: bool,
    pub body_lines: Seq<Seq<char>>,
    pub duration_ms: u64,
}

/// The accumulator before any trace line has been read.
pub open spec fn init_resp_acc() -> RespAcc {
    RespAcc {
        status: 0,
        headers: Seq::empty(),
        in_headers: false,
        in_body: false,
        body_lines: Seq::empty(),
        duration_ms: 0,
    }
}

/// The timing field of a line carrying the timing token: what stands
/// between the first occurrence of the token and the next one (or the
/// end), trimmed and with trailing seconds-unit markers removed.
pub open spec fn time_total_field(l: Seq<char>) -> Seq<char> {
    let p = "time_total:"@;
    match spec_find_sub(l, p) {
        Some(k1) => {
            let start = k1 + p.len();
            let seg = match find_sub_from(l, p, start) {
                Some(k2) => l.subrange(start, k2),
                None => l.subrange(start, l.len() as int),
            };
            spec_trim(
                crate::text::strip_suffix_all(
                    crate::text::strip_suffix_all(spec_trim(seg), " s"@),
                    "s"@,
                ),
            )
        },
        None => Seq::empty(),
    }
}

/// One step of the response scan on the raw line `l`.
///
/// A status line restarts response capture (last one wins); header lines
/// are collected until an empty marker line, after which marked body lines
/// are collected until a next-section marker; a timing line sets the
/// duration.
pub open spec fn resp_step(acc: RespAcc, l: Seq<char>) -> RespAcc {
    if spec_starts_with(l, "< HTTP/"@) {
        let toks = spec_ws_tokens(l);
        if toks.len() >= 2 && spec_parse_u16(toks[1]) is Some {
            RespAcc {
                status: spec_parse_u16(toks[1])->0,
                in_headers: true,
                in_body: false,
                ..acc
            }
        } else if toks.len() >= 3 && spec_parse_u16(toks[2]) is Some {
            RespAcc {
                status: spec_parse_u16(toks[2])->0,
                in_headers: true,
                in_body: false,
                ..acc
            }
        } else {
            acc
        }
    } else if acc.in_headers && spec_starts_with(l, "< "@) {
        let h = l.skip(2);
        if spec_trim(h).len() == 0 {
            RespAcc { in_headers: false, in_body: true, ..acc }
        } else {
            match find_char_from(h, ':', 0) {
                Some(ci) => RespAcc {
                    headers: acc.headers.push(
                        (
                            spec_trim(h.subrange(0, ci)),
                            spec_trim(h.subrange(ci + 1, h.len() as int)),
                        ),
                    ),
                    ..acc
                },
                None => acc,
            }
        }
    } else if spec_starts_with(l, "* Response body:"@) {
        RespAcc { in_body: true, ..acc }
    } else if acc.in_body && spec_starts_with(l, "* "@) {
        let b = l.skip(2);
        if spec_starts_with(b, "Executing entry"@) || spec_starts_with(b, "Cookie store:"@)
            || spec_starts_with(b, "Request:"@) || spec_contains(b, "Timings:"@) {
            RespAcc { in_body: false, ..acc }
        } else {
            RespAcc { body_lines: acc.body_lines.push(b), ..acc }
        }
    } else if spec_contains(l, "time_total:"@) {
        match spec_parse_secs_ms(time_total_field(l)) {
            Some(ms) => RespAcc { duration_ms: ms, ..acc },
            None => acc,
        }
    } else {
        acc
    }
}

/// Folds the response scan over the lines from `i` on.
pub open spec fn resp_fold(lines: Seq<Seq<char>>, i: int, acc: RespAcc) -> RespAcc
    decreases lines.len() - i when 0 <= i
{
    if i >= lines.len() {
        acc
    } else {
        resp_fold(lines, i + 1, resp_step(acc, lines[i]))
    }
}

/// What the response scan recovers from the two streams: the response is
/// present exactly when a nonzero status was recorded, and its body falls
/// back to the whole primary stream when no marked body line was seen.
pub open spec fn spec_parse_response(stderr: Seq<char>, stdout: Seq<char>) -> Option<
    ResponseView,
> {
    let acc = resp_fold(spec_lines(stderr), 0, init_resp_acc());
    if acc.status > 0 {
        Some(
            ResponseView {
                status_code: acc.status,
                headers: acc.headers,
                body: if acc.body_lines.len() == 0 {
                    stdout
                } else {
                    spec_join_nl(acc.body_lines)
                },
                duration_ms: acc.duration_ms,
            },
        )
    } else {
        None
    }
}

/// One step of the assertion scan on the raw line `l`: a line carrying a
/// failure marker yields a failed outcome with the line as its message; a
/// starred line mentioning an assertion yields a passed outcome.
pub open spec fn assert_step(res: Seq<AssertionResultView>, l: Seq<char>) -> Seq<
    AssertionResultView,
> {
    if spec_contains(l, "Assert failure"@) || spec_contains(l, "assert failure"@) {
        res.push(
            AssertionResultView {
                success: false,
                text: spec_trim(l),
                expected: None,
                actual: None,
                message: Some(l),
            },
        )
    } else if spec_starts_with(spec_trim(l), "*"@) && spec_contains(l, "assert"@) {
        res.push(
            AssertionResultView {
                success: true,
                text: spec_trim(spec_strip_leading(l, '*')),
                expected: None,
                actual: None,
                message: None,
            },
        )
    } else {
        res
    }
}

/// Folds the assertion scan over the lines from `i` on.
pub open spec fn assert_fold(
    lines: Seq<Seq<char>>,
    i: int,
    res: Seq<AssertionResultView>,
) -> Seq<AssertionResultView>
    decreases lines.len() - i when 0 <= i
{
    if i >= lines.len() {
        res
    } else {
        assert_fold(lines, i + 1, assert_step(res, lines[i]))
    }
}

/// What the assertion scan recovers from the diagnostic stream.
pub open spec fn spec_parse_asserts(stderr: Seq<char>) -> Seq<AssertionResultView> {
    assert_fold(spec_lines(stderr), 0, Seq::empty())
}

/// The mutable state of the response scan.
struct RespState {
    status: u16,
    headers: Vec<(String, String)>,
    in_headers: bool,
    in_body: bool,
    body_lines: Vec<String>,
    duration_ms: u64,
}

impl RespState {
    spec fn acc(&self) -> RespAcc {
        RespAcc {
            status: self.status,
            headers: self.headers.deep_view(),
            in_headers: self.in_headers,
            in_body: self.in_body,
            body_lines: self.body_lines.deep_view(),
            duration_ms: self.duration_ms,
        }
    }
}

/// Advances the response scan over the raw line `l`.
fn resp_state_step(st: &mut RespState, l: &str)
    ensures
        final(st).acc() == resp_step(old(st).acc(), l@),
{
    let n = l.unicode_len();
    if str_starts_with(l, "< HTTP/") {
        let toks = ws_split(l);
        let mut matched = false;
        if toks.len() >= 2 {
            proof {
                assert(toks.deep_view()[1] == toks@[1]@);
            }
            match parse_u16(toks[1].as_str()) {
                Some(v) => {
                    st.status = v;
                    st.in_headers = true;
                    st.in_body = false;
                    matched = true;
                },
                None => {},
            }
        }
        if !matched && toks.len() >= 3 {
            proof {
                assert(toks.deep_view()[2] == toks@[2]@);
            }
            match parse_u16(toks[2].as_str()) {
                Some(v) => {
                    st.status = v;
                    st.in_headers = true;
                    st.in_body = false;
                },
                None => {},
            }
        }
    } else if st.in_headers && str_starts_with(l, "< ") {
        proof {
            reveal_strlit("< ");
        }
        let h = sub_string(l, 2, n);
        proof {
            assert(h@ =~= l@.skip(2));
        }
        let ht = trim_of(h.as_str());
        if ht.unicode_len() == 0 {
            st.in_headers = false;
            st.in_body = true;
        } else {
            let hn = h.as_str().unicode_len();
            match find_char(h.as_str(), ':', 0) {
                Some(ci) => {
                    proof {
                        lemma_find_char_from(h@, ':', 0);
                    }
                    let ghost hs0 = st.headers.deep_view();
                    let name = trim_of(h.as_str().substring_char(0, ci)).to_owned();
                    let value = trim_of(h.as_str().substring_char(ci + 1, hn)).to_owned();
                    st.headers.push((name, value));
                    proof {
                        assert(st.headers.deep_view() =~= hs0.push((name@, value@)));
                    }
                },
                None => {},
            }
        }
    } else if str_starts_with(l, "* Response body:") {
        st.in_body = true;
    } else if st.in_body && str_starts_with(l, "* ") {
        proof {
            reveal_strlit("* ");
        }
        let b = sub_string(l, 2, n);
        proof {
            assert(b@ =~= l@.skip(2));
        }
        if str_starts_with(b.as_str(), "Executing entry") || str_starts_with(
            b.as_str(),
            "Cookie store:",
        ) || str_starts_with(b.as_str(), "Request:") || str_contains(b.as_str(), "Timings:") {
            st.in_body = false;
        } else {
            let ghost bl0 = st.body_lines.deep_view();
            st.body_lines.push(b);
            proof {
                assert(st.body_lines.deep_view() =~= bl0.push(l@.skip(2)));
            }
        }
    } else if str_contains(l, "time_total:") {
        let p = "time_total:";
        match find_sub(l, p, 0) {
            Some(k1) => {
                proof {
                    lemma_find_sub_from(l@, p@, 0);
                }
                let plen = p.unicode_len();
                let start = k1 + plen;
                let seg = match find_sub(l, p, start) {
                    Some(k2) => {
                        proof {
                            lemma_find_sub_from(l@, p@, start as int);
                        }
                        sub_string(l, start, k2)
                    },
                    None => sub_string(l, start, n),
                };
                let t1 = trim_of(seg.as_str()).to_owned();
                proof {
                    reveal_strlit(" s");
                    reveal_strlit("s");
                }
                let t2 = strip_all_suffix(t1.as_str(), " s");
                let t3 = strip_all_suffix(t2.as_str(), "s");
                let t4 = trim_of(t3.as_str());
                match parse_secs_ms(t4) {
                    Some(ms) => {
                        st.duration_ms = ms;
                    },
                    None => {},
                }
            },
            None => {},
        }
    }
}

impl Runner {
    /// Recovers the response from the diagnostic stream, falling back to
    /// the primary stream for the body. The response is present exactly
    /// when a status line with a readable code occurs in the trace.
    pub fn parse_response_from_very_verbose(&self, stderr: &str, stdout: &str) -> (r: Option<
        Response,
    >)
        ensures
            r.deep_view() == spec_parse_response(stderr@, stdout@),
    {
        let lines = split_lines(stderr);
        let ghost lv = lines.deep_view();
        let mut st = RespState {
            status: 0,
            headers: Vec::new(),
            in_headers: false,
            in_body: false,
            body_lines: Vec::new(),
            duration_ms: 0,
        };
        proof {
            assert(st.acc().headers =~= init_resp_acc().headers);
            assert(st.acc().body_lines =~= init_resp_acc().body_lines);
            assert(st.acc() == init_resp_acc());
        }
        let mut i: usize = 0;
        while i < lines.len()
            invariant
                0 <= i <= lines@.len(),
                lv == lines.deep_view(),
                lv.len() == lines@.len(),
                resp_fold(lv, 0, init_resp_acc()) == resp_fold(lv, i as int, st.acc()),
            decreases lines@.len() - i,
        {
            proof {
                assert(lv[i as int] == lines@[i as int]@);
            }
            resp_state_step(&mut st, lines[i].as_str());
            i = i + 1;
        }
        if st.status > 0 {
            let body = if st.body_lines.len() == 0 {
                stdout.to_owned()
            } else {
                join_lines(&st.body_lines)
            };
            Some(
                Response {
                    status_code: st.status,
                    headers: st.headers,
                    body,
                    duration_ms: st.duration_ms,
                },
            )
        } else {
            None
        }
    }

    /// Recovers the per-assertion outcomes from the diagnostic stream.
    pub fn parse_asserts(&self, stderr: &str) -> (r: Vec<AssertionResult>)
        ensures
            r.deep_view() == spec_parse_asserts(stderr@),
    {
        let lines = split_lines(stderr);
        let ghost lv = lines.deep_view();
        let mut res: Vec<AssertionResult> = Vec::new();
        proof {
            assert(res.deep_view() =~= Seq::<AssertionResultView>::empty());
        }
        let mut i: usize = 0;
        while i < lines.len()
            invariant
                0 <= i <= lines@.len(),
                lv == lines.deep_view(),
                lv.len() == lines@.len(),
                assert_fold(lv, 0, Seq::empty()) == assert_fold(lv, i as int, res.deep_view()),
            decreases lines@.len() - i,
        {
            let l = lines[i].as_str();
            proof {
                assert(lv[i as int] == lines@[i as int]@);
            }
            let ghost r0 = res.deep_view();
            if str_contains(l, "Assert failure") || str_contains(l, "assert failure") {
                let text = trim_of(l).to_owned();
                let a = AssertionResult {
                    success: false,
                    text,
                    expected: None,
                    actual: None,
                    message: Some(l.to_owned()),
                };
                res.push(a);
                proof {
                    assert(res.deep_view() =~= r0.push(a@));
                }
            } else {
                let lt = trim_of(l);
                if str_starts_with(lt, "*") && str_contains(l, "assert") {
                    let stripped = strip_leading(l, '*');
                    let text = trim_of(stripped.as_str()).to_owned();
                    let a = AssertionResult {
                        success: true,
                        text,
                        expected: None,
                        actual: None,
                        message: None,
                    };
                    res.push(a);
                    proof {
                        assert(res.deep_view() =~= r0.push(a@));
                    }
                }
            }
            i = i + 1;
        }
        res
    }

    /// Builds the result of one run from the captured streams and exit
    /// status. The success flag and exit code are handed through from the
    /// process; the parsers never derive them.
    pub fn collect_result(
        &self,
        stdout: String,
        stderr: String,
        success: bool,
        exit_code: i32,
    ) -> (r: ExecutionResult)
        ensures
            r.success == success,
            r.exit_code == exit_code,
            r@.stdout == stdout@,
            r@.stderr == stderr@,
            r@.response == spec_parse_response(stderr@, stdout@),
            r@.assertions == spec_parse_asserts(stderr@),
    {
        let response = self.parse_response_from_very_verbose(stderr.as_str(), stdout.as_str());
        let assertions = self.parse_asserts(stderr.as_str());
        ExecutionResult { success, response, assertions, stdout, stderr, exit_code }
    }
}

/// The response scan never records a status from lines that are not
/// status lines.
proof fn lemma_resp_fold_keeps_zero(lines: Seq<Seq<char>>, i: int, acc: RespAcc)
    requires
        0 <= i,
        acc.status == 0,
        forall|k: int| i <= k < lines.len() ==> !spec_starts_with(lines[k], "< HTTP/"@),
    ensures
        resp_fold(lines, i, acc).status == 0,
    decreases lines.len() - i,
{
    if i < lines.len() {
        lemma_resp_fold_keeps_zero(lines, i + 1, resp_step(acc, lines[i]));
    }
}

/// A trace without a status line yields no response, whatever else it and
/// the primary stream contain.
pub proof fn lemma_no_status_line_no_response(stderr: Seq<char>, stdout: Seq<char>)
    requires
        forall|k: int| 0 <= k < spec_lines(stderr).len() ==> !spec_starts_with(
            #[trigger] spec_lines(stderr)[k],
            "< HTTP/"@,
        ),
    ensures
        spec_parse_response(stderr, stdout) is None,
{
    lemma_resp_fold_keeps_zero(spec_lines(stderr), 0, init_resp_acc());
}

/// The assertion scan only appends: what is in the accumulator stays, at
/// its index.
proof fn lemma_assert_fold_extends(lines: Seq<Seq<char>>, i: int, res: Seq<AssertionResultView>)
    requires
        0 <= i,
    ensures
        assert_fold(lines, i, res).len() >= res.len(),
        forall|j: int| 0 <= j < res.len() ==> #[trigger] assert_fold(lines, i, res)[j] == res[j],
    decreases lines.len() - i,
{
    if i < lines.len() {
        lemma_assert_fold_extends(lines, i + 1, assert_step(res, lines[i]));
        assert forall|j: int| 0 <= j < res.len() implies #[trigger] assert_fold(
            lines,
            i,
            res,
        )[j] == res[j] by {
            assert(assert_step(res, lines[i]).len() >= res.len());
            assert(forall|m: int| 0 <= m < res.len() ==> #[trigger] assert_step(
                res,
                lines[i],
            )[m] == res[m]);
        }
    }
}

/// From a failure-marker line onward, the scan ends with a failed outcome
/// somewhere.
proof fn lemma_assert_fold_failure(
    lines: Seq<Seq<char>>,
    i: int,
    k: int,
    res: Seq<AssertionResultView>,
)
    requires
        0 <= i <= k < lines.len(),
        spec_contains(lines[k], "Assert failure"@) || spec_contains(lines[k], "assert failure"@),
    ensures
        exists|j: int| 0 <= j < assert_fold(lines, i, res).len() && !(#[trigger] assert_fold(
            lines,
            i,
            res,
        )[j]).success,
    decreases k - i,
{
    if i == k {
        let res2 = assert_step(res, lines[i]);
        let jj = res.len() as int;
        assert(!res2[jj].success);
        lemma_assert_fold_extends(lines, i + 1, res2);
        assert(!assert_fold(lines, i + 1, res2)[jj].success);
        assert(assert_fold(lines, i, res) == assert_fold(lines, i + 1, res2));
        assert(0 <= jj < assert_fold(lines, i, res).len());
        assert(!(assert_fold(lines, i, res)[jj]).success);
    } else {
        lemma_assert_fold_failure(lines, i + 1, k, assert_step(res, lines[i]));
    }
}

/// A trace with a failure-marker line anywhere yields at least one failed
/// outcome; in particular the outcome list is not empty.
pub proof fn lemma_failure_marker_gives_failed_outcome(stderr: Seq<char>, k: int)
    requires
        0 <= k < spec_lines(stderr).len(),
        spec_contains(spec_lines(stderr)[k], "Assert failure"@) || spec_contains(
            spec_lines(stderr)[k],
            "assert failure"@,
        ),
    ensures
        exists|j: int| 0 <= j < spec_parse_asserts(stderr).len() && !(#[trigger] spec_parse_asserts(
            stderr,
        )[j]).success,
        spec_parse_asserts(stderr).len() > 0,
{
    lemma_assert_fold_failure(spec_lines(stderr), 0, k, Seq::empty());
    let fold = assert_fold(spec_lines(stderr), 0, Seq::<AssertionResultView>::empty());
    let j = choose|j: int| 0 <= j < fold.len() && !(#[trigger] fold[j]).success;
    assert(!(spec_parse_asserts(stderr)[j]).success);
}

} // verus!

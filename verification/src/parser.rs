//! The test-definition parser.
//!
//! [`parse_hurl_file`] converts the raw text of a line-oriented
//! request/response definition file into a [`HurlFile`]: an ordered sequence
//! of request entries, each carrying its method, URL, headers, optional
//! body, expected response status, assertions, captures and source line
//! span.
//!
//! The parser is a single forward scan over the lines of the input. It is
//! total: malformed lines are skipped or folded into the nearest open
//! section, and no input is rejected. Its exact behaviour is given by
//! [`spec_parse_file`], a specification-level interpreter over the line
//! sequence, and the executable scanner is proved to compute it.

use vstd::prelude::*;

use crate::text::{
    find_char, find_char_from, is_space, is_space_char, join_lines, lemma_find_sub_from,
    parse_u16, skip_nonspace_idx, skip_space_idx, spec_contains, spec_find_sub, spec_join_nl, spec_lines, spec_parse_u16, spec_starts_with,
    spec_trim, spec_ws_tokens, split_lines, str_eq, str_starts_with, sub_string, trim_of,
    ws_split,
};

verus! {

/// One request header, name and value.
#[derive(Debug, Clone, PartialEq, Eq)]
pub struct Header {
    pub name: String,
    pub value: String,
}

pub ghost struct HeaderView {
    pub name: Seq<char>,
    pub value: Seq<char>,
}

impl View for Header {
    type V = HeaderView;

    open spec fn view(&self) -> HeaderView {
        HeaderView { name: self.name@, value: self.value@ }
    }
}

impl DeepView for Header {
    type V = HeaderView;

    open spec fn deep_view(&self) -> HeaderView {
        self@
    }
}

/// One assertion of an `[Asserts]` section.
///
/// `predicate` is the empty string exactly when no predicate token of the
/// fixed priority list occurs in the line after the query type; that is a
/// valid terminal state, not an error.
#[derive(Debug, Clone, PartialEq, Eq)]
pub struct Assert {
    /// The whole assertion line, trimmed.
    pub text: String,
    /// The first whitespace-separated token (`jsonpath`, `status`, ...).
    pub query_type: String,
    /// What stands between the query type and the predicate, trimmed.
    pub query: String,
    /// The matched predicate token, or empty when none was found.
    pub predicate: String,
    /// What follows the predicate, trimmed; `None` when empty.
    pub expected: Option<String>,
    /// Line index in the source text.
    pub line: usize,
}

pub ghost struct AssertView {
    pub text: Seq<char>,
    pub query_type: Seq<char>,
    pub query: Seq<char>,
    pub predicate: Seq<char>,
    pub expected: Option<Seq<char>>,
    pub line: int,
}

impl View for Assert {
    type V = AssertView;

    open spec fn view(&self) -> AssertView {
        AssertView {
            text: self.text@,
            query_type: self.query_type@,
            query: self.query@,
            predicate: self.predicate@,
            expected: match self.expected {
                Some(e) => Some(e@),
                None => None,
            },
            line: self.line as int,
        }
    }
}

impl DeepView for Assert {
    type V = AssertView;

    open spec fn deep_view(&self) -> AssertView {
        self@
    }
}

/// One capture of a `[Captures]` section. The name is never empty: lines
/// that would give an empty name are dropped.
#[derive(Debug, Clone, PartialEq, Eq)]
pub struct Capture {
    pub name: String,
    pub query_type: String,
    pub query: String,
    /// Line index in the source text.
    pub line: usize,
}

pub ghost struct CaptureView {
    pub name: Seq<char>,
    pub query_type: Seq<char>,
    pub query: Seq<char>,
    pub line: int,
}

impl View for Capture {
    type V = CaptureView;

    open spec fn view(&self) -> CaptureView {
        CaptureView {
            name: self.name@,
            query_type: self.query_type@,
            query: self.query@,
            line: self.line as int,
        }
    }
}

impl DeepView for Capture {
    type V = CaptureView;

    open spec fn deep_view(&self) -> CaptureView {
        self@
    }
}

/// One entry of a definition file: a request together with its expected
/// response, assertions and captures, and the line span it occupies.
#[derive(Debug, Clone, PartialEq, Eq)]
pub struct HurlEntry {
    /// The HTTP verb token that opened the entry.
    pub method: String,
    /// The rest of the verb line; placeholders are not resolved.
    pub url: String,
    /// Request headers, in order, duplicates preserved.
    pub headers: Vec<Header>,
    /// The body block, if one was detected.
    pub body: Option<String>,
    /// The status of a response-expectation line, if one was seen.
    pub expected_status: Option<u16>,
    pub asserts: Vec<Assert>,
    pub captures: Vec<Capture>,
    /// Index of the verb line.
    pub line_start: usize,
    /// Index of the last line belonging to this entry.
    pub line_end: usize,
}

pub ghost struct HurlEntryView {
    pub method: Seq<char>,
    pub url: Seq<char>,
    pub headers: Seq<HeaderView>,
    pub body: Option<Seq<char>>,
    pub expected_status: Option<u16>,
    pub asserts: Seq<AssertView>,
    pub captures: Seq<CaptureView>,
    pub line_start: int,
    pub line_end: int,
}

impl View for HurlEntry {
    type V = HurlEntryView;

    open spec fn view(&self) -> HurlEntryView {
        HurlEntryView {
            method: self.method@,
            url: self.url@,
            headers: self.headers.deep_view(),
            body: match self.body {
                Some(b) => Some(b@),
                None => None,
            },
            expected_status: self.expected_status,
            asserts: self.asserts.deep_view(),
            captures: self.captures.deep_view(),
            line_start: self.line_start as int,
            line_end: self.line_end as int,
        }
    }
}

impl DeepView for HurlEntry {
    type V = HurlEntryView;

    open spec fn deep_view(&self) -> HurlEntryView {
        self@
    }
}

/// A parsed definition file: its entries and its raw text.
#[derive(Debug, Clone, PartialEq, Eq)]
pub struct HurlFile {
    /// The entries, in source order.
    pub entries: Vec<HurlEntry>,
    /// The unparsed source text, kept verbatim.
    pub content: String,
}

pub ghost struct HurlFileView {
    pub entries: Seq<HurlEntryView>,
    pub content: Seq<char>,
}

impl View for HurlFile {
    type V = HurlFileView;

    open spec fn view(&self) -> HurlFileView {
        HurlFileView { entries: self.entries.deep_view(), content: self.content@ }
    }
}

/// The scanning state inside an entry. The states are mutually exclusive:
/// a line is interpreted according to exactly one of them.
#[derive(Debug, Clone, Copy, PartialEq, Eq, Structural)]
pub enum ScanSection {
    /// The default state, in which colon lines before the status line are
    /// request headers.
    Headers,
    /// Inside an `[Asserts]` section.
    Asserts,
    /// Inside a `[Captures]` section.
    Captures,
    /// Inside a body block.
    Body,
}

/// The accumulator of the entry scan.
pub ghost struct EntryAcc {
    pub headers: Seq<HeaderView>,
    pub body: Option<Seq<char>>,
    pub body_lines: Seq<Seq<char>>,
    pub expected_status: Option<u16>,
    pub asserts: Seq<AssertView>,
    pub captures: Seq<CaptureView>,
    pub section: ScanSection,
}

/// The accumulator at the start of an entry body.
pub open spec fn init_acc() -> EntryAcc {
    EntryAcc {
        headers: Seq::empty(),
        body: None,
        body_lines: Seq::empty(),
        expected_status: None,
        asserts: Seq::empty(),
        captures: Seq::empty(),
        section: ScanSection::Headers,
    }
}

/// The HTTP verb that prefixes `t`, or the empty sequence if none does.
/// No verb is a prefix of another, so the choice is unambiguous.
pub open spec fn spec_verb_of(t: Seq<char>) -> Seq<char> {
    if spec_starts_with(t, "GET"@) {
        "GET"@
    } else if spec_starts_with(t, "POST"@) {
        "POST"@
    } else if spec_starts_with(t, "PUT"@) {
        "PUT"@
    } else if spec_starts_with(t, "DELETE"@) {
        "DELETE"@
    } else if spec_starts_with(t, "PATCH"@) {
        "PATCH"@
    } else if spec_starts_with(t, "HEAD"@) {
        "HEAD"@
    } else if spec_starts_with(t, "OPTIONS"@) {
        "OPTIONS"@
    } else if spec_starts_with(t, "CONNECT"@) {
        "CONNECT"@
    } else if spec_starts_with(t, "TRACE"@) {
        "TRACE"@
    } else {
        Seq::empty()
    }
}

/// A trimmed line that opens an entry: an HTTP verb, at least one
/// whitespace character, and a non-empty remainder.
pub open spec fn is_verb_line(t: Seq<char>) -> bool {
    let v = spec_verb_of(t);
    v.len() > 0 && v.len() < t.len() && is_space_char(t[v.len() as int]) && skip_space_idx(
        t,
        v.len() as int,
    ) < t.len()
}

/// The method token of a verb line.
pub open spec fn spec_verb_method(t: Seq<char>) -> Seq<char> {
    spec_verb_of(t)
}

/// The URL of a verb line: everything after the whitespace run that follows
/// the verb, taken verbatim.
pub open spec fn spec_verb_url(t: Seq<char>) -> Seq<char> {
    t.subrange(skip_space_idx(t, spec_verb_of(t).len() as int), t.len() as int)
}

/// A section marker that closes any open section without opening a modeled
/// one.
pub open spec fn is_neutral_marker(t: Seq<char>) -> bool {
    ||| t == "[Options]"@
    ||| t == "[QueryStringParams]"@
    ||| t == "[FormParams]"@
    ||| t == "[MultipartFormData]"@
    ||| t == "[Cookies]"@
    ||| t == "[BasicAuth]"@
}

/// A trimmed line that opens a body block.
pub open spec fn is_body_open(t: Seq<char>) -> bool {
    spec_starts_with(t, "```"@) || spec_starts_with(t, "{"@) || spec_starts_with(t, "["@)
}

/// A trimmed line that closes a body block.
pub open spec fn is_body_close(t: Seq<char>) -> bool {
    spec_starts_with(t, "```"@) || t == "}"@ || t == "]"@
}

/// The status carried by a response-expectation line: the second
/// whitespace-separated token, when it reads as a `u16`.
pub open spec fn status_of_line(t: Seq<char>) -> Option<u16> {
    let toks = spec_ws_tokens(t);
    if toks.len() >= 2 {
        spec_parse_u16(toks[1])
    } else {
        None
    }
}

/// The fixed, priority-ordered list of predicate tokens an assertion line
/// is scanned for.
pub open spec fn pred_token(k: int) -> Seq<char> {
    if k == 0 {
        "=="@
    } else if k == 1 {
        "!="@
    } else if k == 2 {
        ">="@
    } else if k == 3 {
        "<="@
    } else if k == 4 {
        ">"@
    } else if k == 5 {
        "<"@
    } else if k == 6 {
        "contains"@
    } else if k == 7 {
        "startsWith"@
    } else if k == 8 {
        "endsWith"@
    } else if k == 9 {
        "matches"@
    } else if k == 10 {
        "exists"@
    } else if k == 11 {
        "isNumber"@
    } else if k == 12 {
        "isString"@
    } else if k == 13 {
        "isBoolean"@
    } else if k == 14 {
        "isCollection"@
    } else {
        "count"@
    }
}

/// The first entry of the predicate list, from position `k` on, that occurs
/// anywhere in `rest`.
pub open spec fn first_pred_from(rest: Seq<char>, k: int) -> Option<int>
    decreases 16 - k when 0 <= k
{
    if k >= 16 {
        None
    } else if spec_contains(rest, pred_token(k)) {
        Some(k)
    } else {
        first_pred_from(rest, k + 1)
    }
}

/// What an assertion line contributes: `None` for blank and comment lines,
/// otherwise the line split into query type, query, predicate and expected
/// value. The predicate is the first token of the fixed priority list that
/// occurs anywhere in the remainder; list position decides, not position in
/// the line.
pub open spec fn spec_parse_assert(l: Seq<char>, line: int) -> Option<AssertView> {
    let t = spec_trim(l);
    if t.len() == 0 || t[0] == '#' {
        None
    } else {
        let ws = skip_nonspace_idx(t, 0);
        let query_type = t.subrange(0, ws);
        let rest = if ws < t.len() {
            t.subrange(ws + 1, t.len() as int)
        } else {
            Seq::empty()
        };
        match first_pred_from(rest, 0) {
            Some(k) => {
                let p = pred_token(k);
                let pos = spec_find_sub(rest, p)->0;
                let after = spec_trim(rest.subrange(pos + p.len(), rest.len() as int));
                Some(
                    AssertView {
                        text: t,
                        query_type,
                        query: spec_trim(rest.subrange(0, pos)),
                        predicate: p,
                        expected: if after.len() > 0 {
                            Some(after)
                        } else {
                            None
                        },
                        line,
                    },
                )
            },
            None => Some(
                AssertView {
                    text: t,
                    query_type,
                    query: rest,
                    predicate: Seq::empty(),
                    expected: None,
                    line,
                },
            ),
        }
    }
}

/// What a capture line contributes: `None` for blank and comment lines,
/// lines without a colon, and lines whose name would be empty.
pub open spec fn spec_parse_capture(l: Seq<char>, line: int) -> Option<CaptureView> {
    let t = spec_trim(l);
    if t.len() == 0 || t[0] == '#' {
        None
    } else {
        match find_char_from(t, ':', 0) {
            None => None,
            Some(ci) => {
                let name = spec_trim(t.subrange(0, ci));
                if name.len() == 0 {
                    None
                } else {
                    let rest = spec_trim(t.subrange(ci + 1, t.len() as int));
                    let ws = skip_nonspace_idx(rest, 0);
                    let query = if ws < rest.len() {
                        rest.subrange(ws + 1, rest.len() as int)
                    } else {
                        Seq::empty()
                    };
                    Some(
                        CaptureView {
                            name,
                            query_type: rest.subrange(0, ws),
                            query,
                            line,
                        },
                    )
                }
            },
        }
    }
}

/// What a header line contributes in the `Headers` state: before a status
/// line has been seen, a non-comment line with a colon is split at the
/// first colon, both sides trimmed.
pub open spec fn header_of_line(t: Seq<char>) -> Option<HeaderView> {
    if t.len() > 0 && t[0] != '#' {
        match find_char_from(t, ':', 0) {
            Some(ci) => Some(
                HeaderView {
                    name: spec_trim(t.subrange(0, ci)),
                    value: spec_trim(t.subrange(ci + 1, t.len() as int)),
                },
            ),
            None => None,
        }
    } else {
        None
    }
}

/// One step of the entry scan on the trimmed line `t` at line index `i`.
///
/// Priorities: blank lines are skipped in every state. A status line is
/// handled first (it records the status and exits `Asserts` and
/// `Captures`, but an open body block survives it), then the section
/// markers, which exit every state, an open body block included (its
/// collected lines are kept, in case a later block closes). Only then is
/// the line read according to the current section: in `Body` it is body
/// text and the block closes on a closing delimiter; elsewhere a body
/// opener starts a block, and the line is otherwise an assertion, a
/// capture or a header.
pub open spec fn entry_step(acc: EntryAcc, t: Seq<char>, i: int) -> EntryAcc {
    if t.len() == 0 {
        acc
    } else if spec_starts_with(t, "HTTP"@) {
        let st = status_of_line(t);
        EntryAcc {
            expected_status: if st is Some {
                st
            } else {
                acc.expected_status
            },
            section: if acc.section == ScanSection::Body {
                ScanSection::Body
            } else {
                ScanSection::Headers
            },
            ..acc
        }
    } else if t == "[Asserts]"@ {
        EntryAcc { section: ScanSection::Asserts, ..acc }
    } else if t == "[Captures]"@ {
        EntryAcc { section: ScanSection::Captures, ..acc }
    } else if is_neutral_marker(t) {
        EntryAcc { section: ScanSection::Headers, ..acc }
    } else if acc.section == ScanSection::Body {
        let bl = acc.body_lines.push(t);
        if is_body_close(t) {
            EntryAcc {
                body: Some(spec_join_nl(bl)),
                body_lines: Seq::empty(),
                section: ScanSection::Headers,
                ..acc
            }
        } else {
            EntryAcc { body_lines: bl, ..acc }
        }
    } else if is_body_open(t) {
        EntryAcc { body_lines: acc.body_lines.push(t), section: ScanSection::Body, ..acc }
    } else if acc.section == ScanSection::Asserts {
        match spec_parse_assert(t, i) {
            Some(a) => EntryAcc { asserts: acc.asserts.push(a), ..acc },
            None => acc,
        }
    } else if acc.section == ScanSection::Captures {
        match spec_parse_capture(t, i) {
            Some(c) => EntryAcc { captures: acc.captures.push(c), ..acc },
            None => acc,
        }
    } else {
        if acc.expected_status is None {
            match header_of_line(t) {
                Some(h) => EntryAcc { headers: acc.headers.push(h), ..acc },
                None => acc,
            }
        } else {
            acc
        }
    }
}

/// Runs the entry scan from line `i` until the next verb line or the end of
/// the file, returning the final accumulator and the stop index.
pub open spec fn scan_entry_rec(lines: Seq<Seq<char>>, i: int, acc: EntryAcc) -> (EntryAcc, int)
    decreases lines.len() - i when 0 <= i
{
    if i >= lines.len() || is_verb_line(spec_trim(lines[i])) {
        (acc, i)
    } else {
        scan_entry_rec(lines, i + 1, entry_step(acc, spec_trim(lines[i]), i))
    }
}

pub proof fn lemma_scan_entry_rec_end(lines: Seq<Seq<char>>, i: int, acc: EntryAcc)
    requires
        0 <= i <= lines.len(),
    ensures
        i <= scan_entry_rec(lines, i, acc).1 <= lines.len(),
    decreases lines.len() - i,
{
    if !(i >= lines.len() || is_verb_line(spec_trim(lines[i]))) {
        lemma_scan_entry_rec_end(lines, i + 1, entry_step(acc, spec_trim(lines[i]), i));
    }
}

/// The entry opened by the verb line at index `i`.
pub open spec fn spec_entry_at(lines: Seq<Seq<char>>, i: int) -> HurlEntryView {
    let t = spec_trim(lines[i]);
    let se = scan_entry_rec(lines, i + 1, init_acc());
    HurlEntryView {
        method: spec_verb_method(t),
        url: spec_verb_url(t),
        headers: se.0.headers,
        body: se.0.body,
        expected_status: se.0.expected_status,
        asserts: se.0.asserts,
        captures: se.0.captures,
        line_start: i,
        line_end: se.1 - 1,
    }
}

/// The entries of the line sequence from index `i` on: lines that do not
/// open an entry are skipped, and each verb line yields one entry whose
/// scan continues to the next verb line or the end.
pub open spec fn scan_file_rec(lines: Seq<Seq<char>>, i: int) -> Seq<HurlEntryView>
    decreases lines.len() - i when 0 <= i via scan_file_rec_dec
{
    if i >= lines.len() {
        Seq::empty()
    } else if is_verb_line(spec_trim(lines[i])) {
        seq![spec_entry_at(lines, i)] + scan_file_rec(
            lines,
            scan_entry_rec(lines, i + 1, init_acc()).1,
        )
    } else {
        scan_file_rec(lines, i + 1)
    }
}

#[via_fn]
proof fn scan_file_rec_dec(lines: Seq<Seq<char>>, i: int) {
    if 0 <= i && i < lines.len() && is_verb_line(spec_trim(lines[i])) {
        lemma_scan_entry_rec_end(lines, i + 1, init_acc());
    }
}

/// What [`parse_hurl_file`] returns on the text `s`.
pub open spec fn spec_parse_file(s: Seq<char>) -> HurlFileView {
    HurlFileView { entries: scan_file_rec(spec_lines(s), 0), content: s }
}


/// The predicate token at position `k` of the priority list.
fn pred_token_at(k: usize) -> (r: &'static str)
    requires
        k < 16,
    ensures
        r@ == pred_token(k as int),
{
    match k {
        0 => "==",
        1 => "!=",
        2 => ">=",
        3 => "<=",
        4 => ">",
        5 => "<",
        6 => "contains",
        7 => "startsWith",
        8 => "endsWith",
        9 => "matches",
        10 => "exists",
        11 => "isNumber",
        12 => "isString",
        13 => "isBoolean",
        14 => "isCollection",
        _ => "count",
    }
}

/// Finds the first predicate of the priority list that occurs in `rest`,
/// returning its list position and its leftmost position in `rest`.
fn find_predicate(rest: &str) -> (r: Option<(usize, usize)>)
    ensures
        match r {
            Some(kp) => kp.0 < 16 && first_pred_from(rest@, 0) == Some(kp.0 as int) && Some(
                kp.1 as int,
            ) == spec_find_sub(rest@, pred_token(kp.0 as int)),
            None => first_pred_from(rest@, 0) is None,
        },
{
    let mut k: usize = 0;
    while k < 16
        invariant
            0 <= k <= 16,
            first_pred_from(rest@, 0) == first_pred_from(rest@, k as int),
        decreases 16 - k,
    {
        let p = pred_token_at(k);
        match crate::text::find_sub(rest, p, 0) {
            Some(pos) => {
                return Some((k, pos));
            },
            None => {},
        }
        k = k + 1;
    }
    None
}

/// Parses one assertion line; blank lines and comment lines give `None`.
pub fn parse_assert(line: &str, line_num: usize) -> (r: Option<Assert>)
    ensures
        r.deep_view() == spec_parse_assert(line@, line_num as int),
{
    let t = trim_of(line);
    let n = t.unicode_len();
    if n == 0 {
        return None;
    }
    if t.get_char(0) == '#' {
        return None;
    }
    let mut ws: usize = 0;
    while ws < n && !is_space(t.get_char(ws))
        invariant
            0 <= ws <= n,
            n == t@.len(),
            skip_nonspace_idx(t@, 0) == skip_nonspace_idx(t@, ws as int),
        decreases n - ws,
    {
        ws = ws + 1;
    }
    proof {
        assert(ws as int == skip_nonspace_idx(t@, ws as int));
    }
    let query_type = sub_string(t, 0, ws);
    let rest: String = if ws < n {
        sub_string(t, ws + 1, n)
    } else {
        String::new()
    };
    match find_predicate(rest.as_str()) {
        Some((k, pos)) => {
            let p = pred_token_at(k);
            proof {
                lemma_find_sub_from(rest@, p@, 0);
            }
            let plen = p.unicode_len();
            let rn = rest.as_str().unicode_len();
            let query = trim_of(rest.as_str().substring_char(0, pos)).to_owned();
            let after = trim_of(rest.as_str().substring_char(pos + plen, rn)).to_owned();
            let expected = if after.as_str().unicode_len() > 0 {
                Some(after)
            } else {
                None
            };
            Some(
                Assert {
                    text: t.to_owned(),
                    query_type,
                    query,
                    predicate: p.to_owned(),
                    expected,
                    line: line_num,
                },
            )
        },
        None => Some(
            Assert {
                text: t.to_owned(),
                query_type,
                query: rest,
                predicate: String::new(),
                expected: None,
                line: line_num,
            },
        ),
    }
}

/// Parses one capture line; lines without a colon or with an empty name
/// give `None`.
pub fn parse_capture(line: &str, line_num: usize) -> (r: Option<Capture>)
    ensures
        r.deep_view() == spec_parse_capture(line@, line_num as int),
{
    let t = trim_of(line);
    let n = t.unicode_len();
    if n == 0 {
        return None;
    }
    if t.get_char(0) == '#' {
        return None;
    }
    match find_char(t, ':', 0) {
        None => None,
        Some(ci) => {
            proof {
                crate::text::lemma_find_char_from(t@, ':', 0);
            }
            let name = trim_of(t.substring_char(0, ci)).to_owned();
            if name.as_str().unicode_len() == 0 {
                return None;
            }
            let rest = trim_of(t.substring_char(ci + 1, n)).to_owned();
            let rn = rest.as_str().unicode_len();
            let mut ws: usize = 0;
            while ws < rn && !is_space(rest.as_str().get_char(ws))
                invariant
                    0 <= ws <= rn,
                    rn == rest@.len(),
                    skip_nonspace_idx(rest@, 0) == skip_nonspace_idx(rest@, ws as int),
                decreases rn - ws,
            {
                ws = ws + 1;
            }
            proof {
                assert(ws as int == skip_nonspace_idx(rest@, ws as int));
            }
            let query_type = sub_string(rest.as_str(), 0, ws);
            let query = if ws < rn {
                sub_string(rest.as_str(), ws + 1, rn)
            } else {
                String::new()
            };
            Some(Capture { name, query_type, query, line: line_num })
        },
    }
}

/// Reads a request header from a trimmed line in the `Headers` state.
fn header_from_line(t: &str) -> (r: Option<Header>)
    ensures
        r.deep_view() == header_of_line(t@),
{
    let n = t.unicode_len();
    if n == 0 {
        return None;
    }
    if t.get_char(0) == '#' {
        return None;
    }
    match find_char(t, ':', 0) {
        Some(ci) => {
            proof {
                crate::text::lemma_find_char_from(t@, ':', 0);
            }
            let name = trim_of(t.substring_char(0, ci)).to_owned();
            let value = trim_of(t.substring_char(ci + 1, n)).to_owned();
            Some(Header { name, value })
        },
        None => None,
    }
}

/// The length of the verb prefixing `t`, if one does.
fn detect_verb(t: &str) -> (r: Option<usize>)
    ensures
        match r {
            Some(l) => spec_verb_of(t@).len() == l && l > 0 && spec_verb_of(t@) == t@.subrange(
                0,
                l as int,
            ),
            None => spec_verb_of(t@).len() == 0,
        },
{
    proof {
        reveal_strlit("GET");
        reveal_strlit("POST");
        reveal_strlit("PUT");
        reveal_strlit("DELETE");
        reveal_strlit("PATCH");
        reveal_strlit("HEAD");
        reveal_strlit("OPTIONS");
        reveal_strlit("CONNECT");
        reveal_strlit("TRACE");
    }
    if str_starts_with(t, "GET") {
        Some(3)
    } else if str_starts_with(t, "POST") {
        Some(4)
    } else if str_starts_with(t, "PUT") {
        Some(3)
    } else if str_starts_with(t, "DELETE") {
        Some(6)
    } else if str_starts_with(t, "PATCH") {
        Some(5)
    } else if str_starts_with(t, "HEAD") {
        Some(4)
    } else if str_starts_with(t, "OPTIONS") {
        Some(7)
    } else if str_starts_with(t, "CONNECT") {
        Some(7)
    } else if str_starts_with(t, "TRACE") {
        Some(5)
    } else {
        None
    }
}

/// Splits a trimmed line that opens an entry into its method and URL;
/// `None` when the line opens no entry.
fn parse_verb_line(t: &str) -> (r: Option<(String, String)>)
    ensures
        match r {
            Some(mu) => is_verb_line(t@) && mu.0@ == spec_verb_method(t@) && mu.1@
                == spec_verb_url(t@),
            None => !is_verb_line(t@),
        },
{
    let n = t.unicode_len();
    match detect_verb(t) {
        Some(l) => {
            if l >= n {
                return None;
            }
            if !is_space(t.get_char(l)) {
                return None;
            }
            let mut j: usize = l;
            while j < n && is_space(t.get_char(j))
                invariant
                    l <= j <= n,
                    n == t@.len(),
                    skip_space_idx(t@, l as int) == skip_space_idx(t@, j as int),
                decreases n - j,
            {
                j = j + 1;
            }
            proof {
                assert(j as int == skip_space_idx(t@, j as int));
            }
            if j >= n {
                return None;
            }
            let method = sub_string(t, 0, l);
            let url = sub_string(t, j, n);
            Some((method, url))
        },
        None => None,
    }
}

/// The mutable scanning state of one entry.
struct EntryState {
    headers: Vec<Header>,
    body: Option<String>,
    body_lines: Vec<String>,
    expected_status: Option<u16>,
    asserts: Vec<Assert>,
    captures: Vec<Capture>,
    section: ScanSection,
}

impl EntryState {
    spec fn acc(&self) -> EntryAcc {
        EntryAcc {
            headers: self.headers.deep_view(),
            body: self.body.deep_view(),
            body_lines: self.body_lines.deep_view(),
            expected_status: self.expected_status,
            asserts: self.asserts.deep_view(),
            captures: self.captures.deep_view(),
            section: self.section,
        }
    }
}

/// Decides whether a trimmed line closes a body block.
fn is_body_close_str(t: &str) -> (b: bool)
    ensures
        b == is_body_close(t@),
{
    str_starts_with(t, "```") || str_eq(t, "}") || str_eq(t, "]")
}

/// Decides whether a trimmed line opens a body block.
fn is_body_open_str(t: &str) -> (b: bool)
    ensures
        b == is_body_open(t@),
{
    str_starts_with(t, "```") || str_starts_with(t, "{") || str_starts_with(t, "[")
}

/// Decides whether a trimmed line is a neutral section marker.
fn is_neutral_marker_str(t: &str) -> (b: bool)
    ensures
        b == is_neutral_marker(t@),
{
    str_eq(t, "[Options]") || str_eq(t, "[QueryStringParams]") || str_eq(t, "[FormParams]")
        || str_eq(t, "[MultipartFormData]") || str_eq(t, "[Cookies]") || str_eq(t, "[BasicAuth]")
}

/// Advances the entry state over the trimmed line `t` at line index `i`.
fn entry_state_step(st: &mut EntryState, t: &str, i: usize)
    ensures
        final(st).acc() == entry_step(old(st).acc(), t@, i as int),
{
    let n = t.unicode_len();
    if n == 0 {
        return;
    }
    if str_starts_with(t, "HTTP") {
        let toks = ws_split(t);
        if toks.len() >= 2 {
            proof {
                assert(toks.deep_view()[1] == toks@[1]@);
            }
            match parse_u16(toks[1].as_str()) {
                Some(v) => {
                    st.expected_status = Some(v);
                },
                None => {},
            }
        }
        match st.section {
            ScanSection::Body => {},
            _ => {
                st.section = ScanSection::Headers;
            },
        }
    } else if str_eq(t, "[Asserts]") {
        st.section = ScanSection::Asserts;
    } else if str_eq(t, "[Captures]") {
        st.section = ScanSection::Captures;
    } else if is_neutral_marker_str(t) {
        st.section = ScanSection::Headers;
    } else {
        match st.section {
            ScanSection::Body => {
                let ghost bl0 = st.body_lines.deep_view();
                st.body_lines.push(t.to_owned());
                proof {
                    assert(st.body_lines.deep_view() =~= bl0.push(t@));
                }
                if is_body_close_str(t) {
                    let joined = join_lines(&st.body_lines);
                    st.body = Some(joined);
                    st.body_lines = Vec::new();
                    st.section = ScanSection::Headers;
                    proof {
                        assert(st.body_lines.deep_view() =~= Seq::<Seq<char>>::empty());
                    }
                }
            },
            _ => {
                if is_body_open_str(t) {
                    let ghost bl0 = st.body_lines.deep_view();
                    st.body_lines.push(t.to_owned());
                    st.section = ScanSection::Body;
                    proof {
                        assert(st.body_lines.deep_view() =~= bl0.push(t@));
                    }
                } else {
                    match st.section {
                        ScanSection::Asserts => {
                            let ghost as0 = st.asserts.deep_view();
                            match parse_assert(t, i) {
                                Some(a) => {
                                    st.asserts.push(a);
                                    proof {
                                        assert(st.asserts.deep_view() =~= as0.push(a@));
                                    }
                                },
                                None => {},
                            }
                        },
                        ScanSection::Captures => {
                            let ghost cs0 = st.captures.deep_view();
                            match parse_capture(t, i) {
                                Some(c) => {
                                    st.captures.push(c);
                                    proof {
                                        assert(st.captures.deep_view() =~= cs0.push(c@));
                                    }
                                },
                                None => {},
                            }
                        },
                        _ => {
                            if st.expected_status.is_none() {
                                let ghost hs0 = st.headers.deep_view();
                                match header_from_line(t) {
                                    Some(h) => {
                                        st.headers.push(h);
                                        proof {
                                            assert(st.headers.deep_view() =~= hs0.push(h@));
                                        }
                                    },
                                    None => {},
                                }
                            }
                        },
                    }
                }
            },
        }
    }
}

/// Parses the entry whose verb line stands at `*index`, leaving `*index` at
/// the next verb line or the end of the file. A call on a line that opens
/// no entry returns `None` and leaves `*index` unchanged.
pub fn parse_entry(lines: &Vec<String>, index: &mut usize) -> (r: Option<HurlEntry>)
    requires
        *old(index) < lines@.len(),
    ensures
        match r {
            Some(e) => {
                &&& is_verb_line(spec_trim(lines.deep_view()[*old(index) as int]))
                &&& e@ == spec_entry_at(lines.deep_view(), *old(index) as int)
                &&& *final(index) == scan_entry_rec(
                    lines.deep_view(),
                    *old(index) + 1,
                    init_acc(),
                ).1
            },
            None => !is_verb_line(spec_trim(lines.deep_view()[*old(index) as int]))
                && *final(index) == *old(index),
        },
{
    let ghost lv = lines.deep_view();
    let nl = lines.len();
    let start = *index;
    let t0 = trim_of(lines[start].as_str());
    let mu = match parse_verb_line(t0) {
        Some(mu) => mu,
        None => {
            return None;
        },
    };
    *index = start + 1;
    let mut st = EntryState {
        headers: Vec::new(),
        body: None,
        body_lines: Vec::new(),
        expected_status: None,
        asserts: Vec::new(),
        captures: Vec::new(),
        section: ScanSection::Headers,
    };
    proof {
        assert(st.acc().headers =~= init_acc().headers);
        assert(st.acc().body_lines =~= init_acc().body_lines);
        assert(st.acc().asserts =~= init_acc().asserts);
        assert(st.acc().captures =~= init_acc().captures);
        assert(st.acc() == init_acc());
    }
    while *index < lines.len()
        invariant
            start + 1 <= *index <= lines@.len(),
            lv == lines.deep_view(),
            lv.len() == lines@.len(),
            nl == lines@.len(),
            scan_entry_rec(lv, start + 1, init_acc()) == scan_entry_rec(
                lv,
                *index as int,
                st.acc(),
            ),
        ensures
            start + 1 <= *index <= lines@.len(),
            scan_entry_rec(lv, start + 1, init_acc()) == (st.acc(), *index as int),
        decreases lines@.len() - *index,
    {
        let li = *index;
        let t = trim_of(lines[li].as_str());
        match parse_verb_line(t) {
            Some(_) => {
                proof {
                    assert(lv[li as int] == lines@[li as int]@);
                }
                break ;
            },
            None => {},
        }
        entry_state_step(&mut st, t, li);
        *index = li + 1;
    }
    let line_end = *index - 1;
    let ghost se = scan_entry_rec(lv, start + 1, init_acc());
    Some(
        HurlEntry {
            method: mu.0,
            url: mu.1,
            headers: st.headers,
            body: st.body,
            expected_status: st.expected_status,
            asserts: st.asserts,
            captures: st.captures,
            line_start: start,
            line_end,
        },
    )
}

pub proof fn lemma_scan_file_spans(lines: Seq<Seq<char>>, i: int)
    requires
        0 <= i <= lines.len(),
    ensures
        forall|k: int| 0 <= k < scan_file_rec(lines, i).len() ==> i
            <= #[trigger] scan_file_rec(lines, i)[k].line_start <= scan_file_rec(
            lines,
            i,
        )[k].line_end,
        forall|k1: int, k2: int|
            0 <= k1 < k2 < scan_file_rec(lines, i).len() ==> #[trigger] scan_file_rec(
                lines,
                i,
            )[k1].line_end < #[trigger] scan_file_rec(lines, i)[k2].line_start,
    decreases lines.len() - i,
{
    let es = scan_file_rec(lines, i);
    if i >= lines.len() {
    } else if is_verb_line(spec_trim(lines[i])) {
        let e0 = spec_entry_at(lines, i);
        let end = scan_entry_rec(lines, i + 1, init_acc()).1;
        lemma_scan_entry_rec_end(lines, i + 1, init_acc());
        lemma_scan_file_spans(lines, end);
        let rest = scan_file_rec(lines, end);
        assert(es == seq![e0] + rest);
        assert(es[0] == e0);
        assert forall|k: int| 1 <= k < es.len() implies es[k] == rest[k - 1] by {
            assert(es[k] == (seq![e0] + rest)[k]);
        }
        assert forall|k: int| 0 <= k < es.len() implies i <= #[trigger] es[k].line_start
            <= es[k].line_end by {
            if k == 0 {
            } else {
                assert(es[k] == rest[k - 1]);
            }
        }
        assert forall|k1: int, k2: int| 0 <= k1 < k2 < es.len() implies #[trigger] es[k1].line_end
            < #[trigger] es[k2].line_start by {
            assert(es[k2] == rest[k2 - 1]);
            if k1 == 0 {
                assert(e0.line_end == end - 1);
                assert(rest[k2 - 1].line_start >= end);
            } else {
                assert(es[k1] == rest[k1 - 1]);
            }
        }
    } else {
        lemma_scan_file_spans(lines, i + 1);
    }
}

/// Entries of a parsed file occupy disjoint line spans in source order: a
/// later entry begins strictly after an earlier entry ends.
pub proof fn lemma_entry_spans_ordered(text: Seq<char>)
    ensures
        forall|i: int, j: int|
            0 <= i < j < spec_parse_file(text).entries.len() ==> #[trigger] spec_parse_file(
                text,
            ).entries[i].line_end < #[trigger] spec_parse_file(text).entries[j].line_start,
{
    lemma_scan_file_spans(spec_lines(text), 0);
}

/// Parses the text of a definition file. The parse is total: it never
/// fails, and unparseable lines are skipped. The result holds the input
/// text verbatim in `content`, and its entries stand in source order with
/// disjoint line spans.
pub fn parse_hurl_file(content: &str) -> (r: HurlFile)
    ensures
        r@ == spec_parse_file(content@),
        r@.content == content@,
        forall|i: int, j: int|
            0 <= i < j < r@.entries.len() ==> #[trigger] r@.entries[i].line_end
                < #[trigger] r@.entries[j].line_start,
{
    let lines = split_lines(content);
    let ghost lv = lines.deep_view();
    let mut entries: Vec<HurlEntry> = Vec::new();
    let mut i: usize = 0;
    proof {
        assert(entries.deep_view() + scan_file_rec(lv, 0) =~= scan_file_rec(lv, 0));
    }
    while i < lines.len()
        invariant
            0 <= i <= lines@.len(),
            lv == lines.deep_view(),
            lv.len() == lines@.len(),
            entries.deep_view() + scan_file_rec(lv, i as int) == scan_file_rec(lv, 0),
        decreases lines@.len() - i,
    {
        let ghost old_dv = entries.deep_view();
        let mut idx = i;
        match parse_entry(&lines, &mut idx) {
            Some(e) => {
                proof {
                    lemma_scan_entry_rec_end(lv, i + 1, init_acc());
                }
                entries.push(e);
                proof {
                    assert(entries.deep_view() =~= old_dv.push(e@));
                    assert(old_dv.push(e@) + scan_file_rec(lv, idx as int) =~= old_dv + (seq![
                        e@,
                    ] + scan_file_rec(lv, idx as int)));
                }
                i = idx;
            },
            None => {
                i = i + 1;
            },
        }
    }
    proof {
        assert(entries.deep_view() + scan_file_rec(lv, i as int) =~= entries.deep_view());
        lemma_scan_file_spans(lv, 0);
    }
    HurlFile { entries, content: content.to_owned() }
}


/// Folds the entry scan over the lines `[i, j)` without stopping.
pub open spec fn steps_fold(lines: Seq<Seq<char>>, i: int, j: int, acc: EntryAcc) -> EntryAcc
    decreases j - i when i <= j
{
    if i >= j {
        acc
    } else {
        steps_fold(lines, i + 1, j, entry_step(acc, spec_trim(lines[i]), i))
    }
}

/// Over a range without verb lines, the entry scan is the plain fold of its
/// steps.
proof fn lemma_scan_split(lines: Seq<Seq<char>>, i: int, j: int, acc: EntryAcc)
    requires
        0 <= i <= j <= lines.len(),
        forall|k: int| i <= k < j ==> !is_verb_line(spec_trim(lines[k])),
    ensures
        scan_entry_rec(lines, i, acc) == scan_entry_rec(lines, j, steps_fold(lines, i, j, acc)),
    decreases j - i,
{
    if i < j {
        lemma_scan_split(lines, i + 1, j, entry_step(acc, spec_trim(lines[i]), i));
    }
}

/// The fold over `[i, k)` can be cut at any `j` between.
proof fn lemma_fold_split(lines: Seq<Seq<char>>, i: int, j: int, k: int, acc: EntryAcc)
    requires
        i <= j <= k,
    ensures
        steps_fold(lines, i, k, acc) == steps_fold(lines, j, k, steps_fold(lines, i, j, acc)),
    decreases j - i,
{
    if i < j {
        lemma_fold_split(lines, i + 1, j, k, entry_step(acc, spec_trim(lines[i]), i));
    }
}

/// The recorded status survives any lines that are not status lines.
proof fn lemma_fold_keeps_status(lines: Seq<Seq<char>>, i: int, j: int, acc: EntryAcc)
    requires
        i <= j,
        forall|k: int| i <= k < j ==> !spec_starts_with(spec_trim(lines[k]), "HTTP"@),
    ensures
        steps_fold(lines, i, j, acc).expected_status == acc.expected_status,
    decreases j - i,
{
    if i < j {
        lemma_fold_keeps_status(lines, i + 1, j, entry_step(acc, spec_trim(lines[i]), i));
    }
}

/// Lines that open no entry leave the file scan unchanged.
proof fn lemma_scan_file_skip(lines: Seq<Seq<char>>, i: int, j: int)
    requires
        0 <= i <= j <= lines.len(),
        forall|k: int| i <= k < j ==> !is_verb_line(spec_trim(lines[k])),
    ensures
        scan_file_rec(lines, i) == scan_file_rec(lines, j),
    decreases j - i,
{
    if i < j {
        lemma_scan_file_skip(lines, i + 1, j);
    }
}

/// A well-formed single-entry text: one verb line at `v`, a response
/// status line at `s` whose second token reads as a status, and no further
/// status line after `s`. A status line is honored in every scanning
/// state, so nothing needs to be assumed about the lines in between.
pub open spec fn single_entry_shape(lines: Seq<Seq<char>>, v: int, s: int) -> bool {
    &&& 0 <= v < s < lines.len()
    &&& is_verb_line(spec_trim(lines[v]))
    &&& (forall|k: int| 0 <= k < lines.len() && k != v ==> !is_verb_line(spec_trim(lines[k])))
    &&& spec_starts_with(spec_trim(lines[s]), "HTTP"@)
    &&& status_of_line(spec_trim(lines[s])) is Some
    &&& (forall|k: int| s < k < lines.len() ==> !spec_starts_with(spec_trim(lines[k]), "HTTP"@))
}

/// Parsing a well-formed single-entry text yields exactly one entry whose
/// method, URL and expected status are the source tokens, and whose span
/// covers the verb line through the end of the text.
pub proof fn lemma_single_entry(text: Seq<char>, v: int, s: int)
    requires
        single_entry_shape(spec_lines(text), v, s),
    ensures
        spec_parse_file(text).entries.len() == 1,
        spec_parse_file(text).entries[0].method == spec_verb_method(
            spec_trim(spec_lines(text)[v]),
        ),
        spec_parse_file(text).entries[0].url == spec_verb_url(spec_trim(spec_lines(text)[v])),
        spec_parse_file(text).entries[0].expected_status == status_of_line(
            spec_trim(spec_lines(text)[s]),
        ),
        spec_parse_file(text).entries[0].line_start == v,
        spec_parse_file(text).entries[0].line_end == spec_lines(text).len() - 1,
{
    let lines = spec_lines(text);
    let n = lines.len() as int;
    // The scan skips everything before the verb line.
    lemma_scan_file_skip(lines, 0, v);
    // The entry scan runs to the end of the file: no later line opens an
    // entry.
    let fin = steps_fold(lines, v + 1, n, init_acc());
    lemma_scan_split(lines, v + 1, n, init_acc());
    assert(scan_entry_rec(lines, n, fin) == (fin, n));
    assert(scan_entry_rec(lines, v + 1, init_acc()) == (fin, n));
    assert(scan_file_rec(lines, n) =~= Seq::<HurlEntryView>::empty());
    let e0 = spec_entry_at(lines, v);
    assert(scan_file_rec(lines, v) == seq![e0] + scan_file_rec(lines, n));
    assert(spec_parse_file(text).entries =~= seq![e0]);
    // The status is set by the line at `s`, whatever state the scan is in
    // there, and kept afterwards.
    let before = steps_fold(lines, v + 1, s, init_acc());
    lemma_fold_split(lines, v + 1, s, n, init_acc());
    let at_s = entry_step(before, spec_trim(lines[s]), s);
    // A status line is never blank.
    reveal_strlit("HTTP");
    assert(spec_trim(lines[s]).len() >= 4);
    assert(at_s.expected_status == status_of_line(spec_trim(lines[s])));
    assert(steps_fold(lines, s, n, before) == steps_fold(lines, s + 1, n, at_s));
    lemma_fold_keeps_status(lines, s + 1, n, at_s);
    assert(fin.expected_status == status_of_line(spec_trim(lines[s])));
}

/// Re-parsing the raw text kept in a parse result yields the same result:
/// the parser keeps its input verbatim, so a second parse sees the same
/// text.
pub proof fn lemma_reparse_idempotent(text: Seq<char>)
    ensures
        spec_parse_file(spec_parse_file(text).content) == spec_parse_file(text),
{
}

} // verus!

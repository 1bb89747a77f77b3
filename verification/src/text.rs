//! Verified text utilities shared by both parsers.
//!
//! Every executable function here is specified against a spec function over
//! `Seq<char>`, so the parser contracts can be stated purely in terms of the
//! mathematical view of the input text.

use vstd::prelude::*;

verus! {

/// The Unicode `White_Space` characters, the set used by `str::trim` and
/// `char::is_whitespace`.
pub open spec fn is_space_char(c: char) -> bool {
    ||| c == ' '
    ||| c == '\t'
    ||| c == '\n'
    ||| c == '\u{b}'
    ||| c == '\u{c}'
    ||| c == '\r'
    ||| c == '\u{85}'
    ||| c == '\u{a0}'
    ||| c == '\u{1680}'
    ||| (0x2000 <= c as u32 && c as u32 <= 0x200a)
    ||| c == '\u{2028}'
    ||| c == '\u{2029}'
    ||| c == '\u{202f}'
    ||| c == '\u{205f}'
    ||| c == '\u{3000}'
}

/// Decides membership in the Unicode `White_Space` set.
pub fn is_space(c: char) -> (b: bool)
    ensures
        b == is_space_char(c),
{
    c == ' ' || c == '\t' || c == '\n' || c == '\u{b}' || c == '\u{c}' || c == '\r'
        || c == '\u{85}' || c == '\u{a0}' || c == '\u{1680}'
        || (0x2000 <= c as u32 && c as u32 <= 0x200a) || c == '\u{2028}' || c == '\u{2029}'
        || c == '\u{202f}' || c == '\u{205f}' || c == '\u{3000}'
}

/// Index of the first character at or after `i` that is not whitespace
/// (`s.len()` if there is none).
pub open spec fn skip_space_idx(s: Seq<char>, i: int) -> int
    decreases s.len() - i when 0 <= i <= s.len()
{
    if i >= s.len() {
        s.len() as int
    } else if is_space_char(s[i]) {
        skip_space_idx(s, i + 1)
    } else {
        i
    }
}

/// Index just past the last non-whitespace character strictly before `j`
/// (`0` if there is none).
pub open spec fn rskip_space_idx(s: Seq<char>, j: int) -> int
    decreases j when 0 <= j <= s.len()
{
    if j <= 0 {
        0
    } else if is_space_char(s[j - 1]) {
        rskip_space_idx(s, j - 1)
    } else {
        j
    }
}

/// The text with leading and trailing whitespace removed, as `str::trim`
/// computes it.
pub open spec fn spec_trim(s: Seq<char>) -> Seq<char> {
    let a = skip_space_idx(s, 0);
    let b = rskip_space_idx(s, s.len() as int);
    if a < b {
        s.subrange(a, b)
    } else {
        Seq::empty()
    }
}

pub proof fn lemma_rskip_space_idx(s: Seq<char>, j: int)
    requires
        0 <= j <= s.len(),
    ensures
        0 <= rskip_space_idx(s, j) <= j,
        rskip_space_idx(s, j) > 0 ==> !is_space_char(s[rskip_space_idx(s, j) - 1]),
        forall|k: int| rskip_space_idx(s, j) <= k < j ==> is_space_char(s[k]),
    decreases j,
{
    if j > 0 && is_space_char(s[j - 1]) {
        lemma_rskip_space_idx(s, j - 1);
    }
}

/// Removes leading and trailing whitespace, like `str::trim`.
pub fn trim_of<'a>(s: &'a str) -> (r: &'a str)
    ensures
        r@ == spec_trim(s@),
{
    let n = s.unicode_len();
    let mut a: usize = 0;
    while a < n && is_space(s.get_char(a))
        invariant
            0 <= a <= n,
            n == s@.len(),
            skip_space_idx(s@, 0) == skip_space_idx(s@, a as int),
        decreases n - a,
    {
        a = a + 1;
    }
    proof {
        assert(a as int == skip_space_idx(s@, a as int));
    }
    let mut b: usize = n;
    while b > a && is_space(s.get_char(b - 1))
        invariant
            a <= b <= n,
            n == s@.len(),
            a == skip_space_idx(s@, 0),
            rskip_space_idx(s@, n as int) == rskip_space_idx(s@, b as int),
        decreases b,
    {
        b = b - 1;
    }
    proof {
        if b > a {
            // b is the right trim point: s[b-1] is not a space.
            assert(rskip_space_idx(s@, b as int) == b as int);
        } else {
            // Everything from a on is whitespace, so the trim is empty.
            assert(a == b);
            lemma_rskip_space_idx(s@, b as int);
            assert(spec_trim(s@) =~= s@.subrange(a as int, b as int));
        }
    }
    s.substring_char(a, b)
}

/// `p` is a prefix of `s`.
pub open spec fn spec_starts_with(s: Seq<char>, p: Seq<char>) -> bool {
    p.len() <= s.len() && s.subrange(0, p.len() as int) == p
}

/// Prefix test, like `str::starts_with`.
pub fn str_starts_with(s: &str, p: &str) -> (b: bool)
    ensures
        b == spec_starts_with(s@, p@),
{
    let n = s.unicode_len();
    let m = p.unicode_len();
    if m > n {
        proof {
            assert(!spec_starts_with(s@, p@));
        }
        return false;
    }
    let mut i: usize = 0;
    while i < m
        invariant
            0 <= i <= m <= n,
            n == s@.len(),
            m == p@.len(),
            forall|k: int| 0 <= k < i ==> s@[k] == p@[k],
        decreases m - i,
    {
        if s.get_char(i) != p.get_char(i) {
            proof {
                assert(s@.subrange(0, m as int)[i as int] != p@[i as int]);
            }
            return false;
        }
        i = i + 1;
    }
    proof {
        assert(s@.subrange(0, m as int) =~= p@);
    }
    true
}

/// Character-for-character equality of two string slices.
pub fn str_eq(s: &str, p: &str) -> (b: bool)
    ensures
        b == (s@ == p@),
{
    let n = s.unicode_len();
    let m = p.unicode_len();
    if m != n {
        return false;
    }
    let r = str_starts_with(s, p);
    proof {
        if r {
            assert(s@.subrange(0, m as int) =~= s@);
        } else {
            // If the views were equal the prefix test could not have failed.
            assert(s@ == p@ ==> s@.subrange(0, m as int) =~= p@);
        }
    }
    r
}

/// An owned copy of the characters of `s` in positions `[i, j)`.
pub fn sub_string(s: &str, i: usize, j: usize) -> (r: String)
    requires
        i <= j <= s@.len(),
    ensures
        r@ == s@.subrange(i as int, j as int),
{
    s.substring_char(i, j).to_owned()
}

/// Index of the first occurrence of `c` at or after `from` in `s`.
pub open spec fn find_char_from(s: Seq<char>, c: char, from: int) -> Option<int>
    decreases s.len() - from when 0 <= from
{
    if from >= s.len() {
        None
    } else if s[from] == c {
        Some(from)
    } else {
        find_char_from(s, c, from + 1)
    }
}

pub proof fn lemma_find_char_from(s: Seq<char>, c: char, from: int)
    requires
        0 <= from,
    ensures
        match find_char_from(s, c, from) {
            Some(k) => from <= k < s.len() && s[k] == c && forall|j: int|
                from <= j < k ==> s[j] != c,
            None => forall|j: int| from <= j < s.len() ==> s[j] != c,
        },
    decreases s.len() - from,
{
    if from < s.len() && s[from] != c {
        lemma_find_char_from(s, c, from + 1);
    }
}

/// First occurrence of the character `c` in `s` at or after `from`.
pub fn find_char(s: &str, c: char, from: usize) -> (r: Option<usize>)
    requires
        from <= s@.len(),
    ensures
        match r {
            Some(k) => Some(k as int) == find_char_from(s@, c, from as int),
            None => find_char_from(s@, c, from as int) is None,
        },
{
    let n = s.unicode_len();
    let mut i: usize = from;
    while i < n
        invariant
            from <= i <= n,
            n == s@.len(),
            find_char_from(s@, c, from as int) == find_char_from(s@, c, i as int),
        decreases n - i,
    {
        if s.get_char(i) == c {
            return Some(i);
        }
        i = i + 1;
    }
    None
}

/// `p` occurs in `s` at position `i`.
pub open spec fn match_at(s: Seq<char>, p: Seq<char>, i: int) -> bool {
    0 <= i && i + p.len() <= s.len() && s.subrange(i, i + p.len()) == p
}

/// Position of the leftmost occurrence of `p` in `s` at or after `from`.
pub open spec fn find_sub_from(s: Seq<char>, p: Seq<char>, from: int) -> Option<int>
    decreases s.len() + 1 - from when 0 <= from
{
    if from + p.len() > s.len() {
        None
    } else if match_at(s, p, from) {
        Some(from)
    } else {
        find_sub_from(s, p, from + 1)
    }
}

/// Position of the leftmost occurrence of `p` in `s`, as `str::find` reports
/// it (in characters rather than bytes).
pub open spec fn spec_find_sub(s: Seq<char>, p: Seq<char>) -> Option<int> {
    find_sub_from(s, p, 0)
}

/// `p` occurs somewhere in `s`, as `str::contains` decides it.
pub open spec fn spec_contains(s: Seq<char>, p: Seq<char>) -> bool {
    spec_find_sub(s, p) is Some
}

pub proof fn lemma_find_sub_from(s: Seq<char>, p: Seq<char>, from: int)
    requires
        0 <= from,
    ensures
        match find_sub_from(s, p, from) {
            Some(k) => from <= k && match_at(s, p, k) && forall|j: int|
                from <= j < k ==> !match_at(s, p, j),
            None => forall|j: int| from <= j ==> !match_at(s, p, j),
        },
    decreases s.len() + 1 - from,
{
    if from + p.len() > s.len() {
    } else if !match_at(s, p, from) {
        lemma_find_sub_from(s, p, from + 1);
    }
}

/// Tests whether `p` occurs at position `i` of `s`.
fn is_match_at(s: &str, p: &str, i: usize) -> (b: bool)
    requires
        i + p@.len() <= s@.len(),
    ensures
        b == match_at(s@, p@, i as int),
{
    let n = s.unicode_len();
    let m = p.unicode_len();
    let mut j: usize = 0;
    while j < m
        invariant
            0 <= j <= m,
            m == p@.len(),
            n == s@.len(),
            i + m <= n,
            forall|k: int| 0 <= k < j ==> s@[i + k] == p@[k],
        decreases m - j,
    {
        if s.get_char(i + j) != p.get_char(j) {
            proof {
                assert(s@.subrange(i as int, i + p@.len())[j as int] != p@[j as int]);
            }
            return false;
        }
        j = j + 1;
    }
    proof {
        assert(s@.subrange(i as int, i + p@.len()) =~= p@);
    }
    true
}

/// Leftmost occurrence of `p` in `s` at or after `from`.
pub fn find_sub(s: &str, p: &str, from: usize) -> (r: Option<usize>)
    requires
        from <= s@.len(),
    ensures
        match r {
            Some(k) => Some(k as int) == find_sub_from(s@, p@, from as int),
            None => find_sub_from(s@, p@, from as int) is None,
        },
{
    let n = s.unicode_len();
    let m = p.unicode_len();
    if m == 0 {
        proof {
            assert(s@.subrange(from as int, from as int) =~= p@);
        }
        return Some(from);
    }
    if m > n {
        return None;
    }
    let mut i: usize = from;
    while i <= n - m
        invariant
            from <= i,
            0 < m <= n,
            i <= n + 1,
            n == s@.len(),
            m == p@.len(),
            find_sub_from(s@, p@, from as int) == find_sub_from(s@, p@, i as int),
        decreases n + 1 - i,
    {
        if is_match_at(s, p, i) {
            return Some(i);
        }
        i = i + 1;
    }
    None
}

/// `p` occurs somewhere in `s`.
pub fn str_contains(s: &str, p: &str) -> (b: bool)
    ensures
        b == spec_contains(s@, p@),
{
    find_sub(s, p, 0).is_some()
}


/// An ASCII decimal digit.
pub open spec fn is_digit_char(c: char) -> bool {
    0x30 <= c as u32 && c as u32 <= 0x39
}

/// The numeric value of an ASCII digit.
pub open spec fn digit_val(c: char) -> int {
    c as u32 - 0x30
}

/// Every character of `s` is an ASCII decimal digit.
pub open spec fn digits_only(s: Seq<char>) -> bool {
    forall|i: int| 0 <= i < s.len() ==> is_digit_char(s[i])
}

/// The value of a digit string read in base ten.
pub open spec fn digits_val(s: Seq<char>) -> int
    decreases s.len(),
{
    if s.len() == 0 {
        0
    } else {
        digits_val(s.drop_last()) * 10 + digit_val(s.last())
    }
}

pub proof fn lemma_digits_val_nonneg(s: Seq<char>)
    requires
        digits_only(s),
    ensures
        digits_val(s) >= 0,
    decreases s.len(),
{
    if s.len() > 0 {
        assert(digits_only(s.drop_last()));
        lemma_digits_val_nonneg(s.drop_last());
    }
}

/// Appending digits never decreases the value of a digit string.
pub proof fn lemma_digits_val_prefix(s: Seq<char>, k: int)
    requires
        digits_only(s),
        0 <= k <= s.len(),
    ensures
        digits_val(s) >= digits_val(s.take(k)),
    decreases s.len(),
{
    if k == s.len() {
        assert(s.take(k) =~= s);
    } else {
        assert(digits_only(s.drop_last()));
        assert(s.drop_last().take(k) =~= s.take(k));
        lemma_digits_val_prefix(s.drop_last(), k);
        lemma_digits_val_nonneg(s.drop_last());
    }
}

/// The value of `s` read as `u16::from_str` reads it: an optional leading
/// `+`, then one or more ASCII digits, rejecting anything else and any
/// value above `u16::MAX`.
pub open spec fn u16_digits(s: Seq<char>) -> Seq<char> {
    if s.len() > 0 && s[0] == '+' {
        s.drop_first()
    } else {
        s
    }
}

pub open spec fn spec_parse_u16(s: Seq<char>) -> Option<u16> {
    let d = u16_digits(s);
    if d.len() > 0 && digits_only(d) && digits_val(d) <= u16::MAX {
        Some(digits_val(d) as u16)
    } else {
        None
    }
}

/// Reads an unsigned decimal number of at most `u16::MAX`, with an optional
/// leading `+`, exactly as `str::parse::<u16>` accepts it.
pub fn parse_u16(s: &str) -> (r: Option<u16>)
    ensures
        r == spec_parse_u16(s@),
{
    let n = s.unicode_len();
    let start: usize = if n > 0 && s.get_char(0) == '+' {
        1
    } else {
        0
    };
    let ghost d = u16_digits(s@);
    proof {
        assert(d =~= s@.subrange(start as int, n as int));
    }
    if start == n {
        return None;
    }
    let mut acc: u32 = 0;
    let mut i: usize = start;
    while i < n
        invariant
            start <= i <= n,
            n == s@.len(),
            d == u16_digits(s@),
            d == s@.subrange(start as int, n as int),
            acc <= 0xffff,
            forall|k: int| start <= k < i ==> is_digit_char(s@[k]),
            acc == digits_val(s@.subrange(start as int, i as int)),
        decreases n - i,
    {
        let c = s.get_char(i);
        let cu = c as u32;
        if !(0x30 <= cu && cu <= 0x39) {
            proof {
                assert(d[i - start] == s@[i as int]);
                assert(!is_digit_char(d[i - start]));
                assert(!digits_only(d));
            }
            return None;
        }
        let dv: u32 = cu - 0x30;
        let next: u32 = acc * 10 + dv;
        proof {
            assert(s@.subrange(start as int, i + 1).drop_last() =~= s@.subrange(
                start as int,
                i as int,
            ));
            assert(s@.subrange(start as int, i + 1).last() == s@[i as int]);
            assert(digits_val(s@.subrange(start as int, i + 1)) == acc * 10 + dv);
        }
        if next > 0xffff {
            proof {
                // The value can only grow as further digits are read, so the
                // whole digit string is out of range whenever it is well
                // formed at all.
                if digits_only(d) {
                    lemma_digits_val_prefix(d, i + 1 - start);
                    assert(d.take(i + 1 - start) =~= s@.subrange(start as int, i + 1));
                    assert(digits_val(d) >= next);
                }
            }
            return None;
        }
        acc = next;
        i = i + 1;
    }
    proof {
        assert(d =~= s@.subrange(start as int, n as int));
        assert(digits_only(d));
    }
    Some(acc as u16)
}


/// Index of the first whitespace character at or after `i` (`s.len()` if
/// there is none).
pub open spec fn skip_nonspace_idx(s: Seq<char>, i: int) -> int
    decreases s.len() - i when 0 <= i <= s.len()
{
    if i >= s.len() {
        s.len() as int
    } else if !is_space_char(s[i]) {
        skip_nonspace_idx(s, i + 1)
    } else {
        i
    }
}

pub proof fn lemma_skip_nonspace_idx(s: Seq<char>, i: int)
    requires
        0 <= i <= s.len(),
    ensures
        i <= skip_nonspace_idx(s, i) <= s.len(),
        skip_nonspace_idx(s, i) < s.len() ==> is_space_char(s[skip_nonspace_idx(s, i)]),
        forall|k: int| i <= k < skip_nonspace_idx(s, i) ==> !is_space_char(s[k]),
    decreases s.len() - i,
{
    if i < s.len() && !is_space_char(s[i]) {
        lemma_skip_nonspace_idx(s, i + 1);
    }
}

/// The maximal runs of non-whitespace characters at or after `p`, in order,
/// as `str::split_whitespace` yields them.
pub open spec fn ws_tokens_from(s: Seq<char>, p: int) -> Seq<Seq<char>>
    decreases s.len() - p when 0 <= p via ws_tokens_from_dec
{
    if p >= s.len() {
        Seq::empty()
    } else if is_space_char(s[p]) {
        ws_tokens_from(s, p + 1)
    } else {
        seq![s.subrange(p, skip_nonspace_idx(s, p))] + ws_tokens_from(s, skip_nonspace_idx(s, p))
    }
}

#[via_fn]
proof fn ws_tokens_from_dec(s: Seq<char>, p: int) {
    if 0 <= p && p < s.len() && !is_space_char(s[p]) {
        lemma_skip_nonspace_idx(s, p);
        assert(skip_nonspace_idx(s, p) != p);
    }
}

/// The whitespace-separated tokens of `s`.
pub open spec fn spec_ws_tokens(s: Seq<char>) -> Seq<Seq<char>> {
    ws_tokens_from(s, 0)
}

/// Splits `s` at whitespace runs, like `str::split_whitespace`.
pub fn ws_split(s: &str) -> (v: Vec<String>)
    ensures
        v.deep_view() == spec_ws_tokens(s@),
{
    let n = s.unicode_len();
    let mut v: Vec<String> = Vec::new();
    let mut p: usize = 0;
    proof {
        assert(v.deep_view() + ws_tokens_from(s@, 0) =~= spec_ws_tokens(s@));
    }
    while p < n
        invariant
            0 <= p <= n,
            n == s@.len(),
            v.deep_view() + ws_tokens_from(s@, p as int) == spec_ws_tokens(s@),
        decreases n - p,
    {
        if is_space(s.get_char(p)) {
            p = p + 1;
        } else {
            let ghost old_dv = v.deep_view();
            let mut e: usize = p;
            while e < n && !is_space(s.get_char(e))
                invariant
                    p <= e <= n,
                    n == s@.len(),
                    skip_nonspace_idx(s@, p as int) == skip_nonspace_idx(s@, e as int),
                decreases n - e,
            {
                e = e + 1;
            }
            proof {
                assert(e as int == skip_nonspace_idx(s@, e as int));
            }
            let t = sub_string(s, p, e);
            v.push(t);
            proof {
                assert(v.deep_view() =~= old_dv.push(t@));
                assert(old_dv.push(t@) + ws_tokens_from(s@, e as int) =~= old_dv + (seq![t@]
                    + ws_tokens_from(s@, e as int)));
            }
            p = e;
        }
    }
    proof {
        assert(v.deep_view() + ws_tokens_from(s@, p as int) =~= v.deep_view());
    }
    v
}

/// A line with one trailing carriage return removed, as `str::lines` yields
/// it.
pub open spec fn strip_cr(l: Seq<char>) -> Seq<char> {
    if l.len() > 0 && l.last() == '\r' {
        l.drop_last()
    } else {
        l
    }
}

/// The lines of `s` starting at position `p`: split at `\n`, with a
/// carriage return removed only where it stands right before a newline,
/// and no final empty line after a trailing newline. A bare `\r` at the
/// very end of the text belongs to the last line.
pub open spec fn spec_lines_from(s: Seq<char>, p: int) -> Seq<Seq<char>>
    decreases s.len() - p when 0 <= p via spec_lines_from_dec
{
    if p >= s.len() {
        Seq::empty()
    } else {
        match find_char_from(s, '\n', p) {
            None => seq![s.subrange(p, s.len() as int)],
            Some(k) => seq![strip_cr(s.subrange(p, k))] + spec_lines_from(s, k + 1),
        }
    }
}

#[via_fn]
proof fn spec_lines_from_dec(s: Seq<char>, p: int) {
    if 0 <= p && p < s.len() {
        lemma_find_char_from(s, '\n', p);
    }
}

/// The lines of `s`, as `str::lines` yields them.
pub open spec fn spec_lines(s: Seq<char>) -> Seq<Seq<char>> {
    spec_lines_from(s, 0)
}

/// The characters of `s` in `[p, k)`, with one trailing carriage return
/// removed.
fn line_between(s: &str, p: usize, k: usize) -> (r: String)
    requires
        p <= k <= s@.len(),
    ensures
        r@ == strip_cr(s@.subrange(p as int, k as int)),
{
    if k > p && s.get_char(k - 1) == '\r' {
        let r = sub_string(s, p, k - 1);
        proof {
            assert(s@.subrange(p as int, k as int).last() == s@[k - 1]);
            assert(s@.subrange(p as int, k as int).drop_last() =~= s@.subrange(
                p as int,
                k - 1,
            ));
        }
        r
    } else {
        let r = sub_string(s, p, k);
        proof {
            if k > p {
                assert(s@.subrange(p as int, k as int).last() == s@[k - 1]);
            }
        }
        r
    }
}

/// Splits `s` into its lines, like `str::lines`.
pub fn split_lines(s: &str) -> (v: Vec<String>)
    ensures
        v.deep_view() == spec_lines(s@),
{
    let n = s.unicode_len();
    let mut v: Vec<String> = Vec::new();
    let mut p: usize = 0;
    proof {
        assert(v.deep_view() + spec_lines_from(s@, 0) =~= spec_lines(s@));
    }
    while p < n
        invariant
            0 <= p <= n,
            n == s@.len(),
            v.deep_view() + spec_lines_from(s@, p as int) == spec_lines(s@),
        decreases n - p,
    {
        let ghost old_dv = v.deep_view();
        match find_char(s, '\n', p) {
            Some(k) => {
                proof {
                    lemma_find_char_from(s@, '\n', p as int);
                }
                let t = line_between(s, p, k);
                v.push(t);
                proof {
                    assert(v.deep_view() =~= old_dv.push(t@));
                    assert(old_dv.push(t@) + spec_lines_from(s@, k + 1) =~= old_dv + (seq![t@]
                        + spec_lines_from(s@, k + 1)));
                }
                p = k + 1;
            },
            None => {
                let t = sub_string(s, p, n);
                v.push(t);
                proof {
                    assert(v.deep_view() =~= old_dv.push(t@));
                    assert(old_dv.push(t@) + spec_lines_from(s@, n as int) =~= old_dv + (seq![
                        t@,
                    ] + spec_lines_from(s@, n as int)));
                }
                p = n;
            },
        }
    }
    proof {
        assert(v.deep_view() + spec_lines_from(s@, p as int) =~= v.deep_view());
    }
    v
}

/// The lines joined with single newline separators.
pub open spec fn spec_join_nl(ls: Seq<Seq<char>>) -> Seq<char>
    decreases ls.len(),
{
    if ls.len() == 0 {
        Seq::empty()
    } else if ls.len() == 1 {
        ls[0]
    } else {
        ls[0] + seq!['\n'] + spec_join_nl(ls.drop_first())
    }
}

pub proof fn lemma_join_nl_push(ls: Seq<Seq<char>>, l: Seq<char>)
    ensures
        ls.len() == 0 ==> spec_join_nl(ls.push(l)) == l,
        ls.len() > 0 ==> spec_join_nl(ls.push(l)) == spec_join_nl(ls) + seq!['\n'] + l,
    decreases ls.len(),
{
    let e = ls.push(l);
    if ls.len() == 0 {
        assert(e[0] == l);
    } else if ls.len() == 1 {
        assert(e.drop_first() =~= seq![l]);
        assert(e[0] == ls[0]);
        assert(spec_join_nl(e.drop_first()) == l);
    } else {
        assert(e.drop_first() =~= ls.drop_first().push(l));
        lemma_join_nl_push(ls.drop_first(), l);
        assert(ls[0] + seq!['\n'] + (spec_join_nl(ls.drop_first()) + seq!['\n'] + l) =~= (ls[0]
            + seq!['\n'] + spec_join_nl(ls.drop_first())) + seq!['\n'] + l);
    }
}

/// Joins the lines with newline separators.
pub fn join_lines(v: &Vec<String>) -> (r: String)
    ensures
        r@ == spec_join_nl(v.deep_view()),
{
    let ghost dv = v.deep_view();
    if v.len() == 0 {
        let r = String::new();
        return r;
    }
    let mut acc: String = v[0].clone();
    let mut i: usize = 1;
    proof {
        assert(dv.take(1) =~= seq![dv[0]]);
        assert(spec_join_nl(dv.take(1)) == dv[0]);
    }
    while i < v.len()
        invariant
            1 <= i <= v@.len(),
            dv == v.deep_view(),
            dv.len() == v@.len(),
            acc@ == spec_join_nl(dv.take(i as int)),
        decreases v@.len() - i,
    {
        acc.append("\n");
        acc.append(v[i].as_str());
        proof {
            reveal_strlit("\n");
            assert("\n"@ =~= seq!['\n']);
            assert(dv.take(i + 1).drop_last() =~= dv.take(i as int));
            lemma_join_nl_push(dv.take(i as int), dv[i as int]);
            assert(dv.take(i + 1) =~= dv.take(i as int).push(dv[i as int]));
        }
        i = i + 1;
    }
    proof {
        assert(dv.take(dv.len() as int) =~= dv);
    }
    acc
}


/// `p` is a suffix of `s`.
pub open spec fn spec_ends_with(s: Seq<char>, p: Seq<char>) -> bool {
    p.len() <= s.len() && s.subrange(s.len() - p.len(), s.len() as int) == p
}

/// `s` with every copy of the suffix `p` removed, as
/// `str::trim_end_matches` computes it.
pub open spec fn strip_suffix_all(s: Seq<char>, p: Seq<char>) -> Seq<char>
    decreases s.len() when p.len() > 0
{
    if p.len() > 0 && spec_ends_with(s, p) {
        strip_suffix_all(s.take(s.len() - p.len()), p)
    } else {
        s
    }
}

/// Removes every copy of the suffix `p` from the end of `s`.
pub fn strip_all_suffix(s: &str, p: &str) -> (r: String)
    requires
        p@.len() > 0,
    ensures
        r@ == strip_suffix_all(s@, p@),
{
    let n = s.unicode_len();
    let m = p.unicode_len();
    let mut e: usize = n;
    proof {
        assert(s@.subrange(0, n as int) =~= s@);
    }
    while e >= m && is_match_at(s, p, e - m)
        invariant
            0 <= e <= n,
            n == s@.len(),
            m == p@.len(),
            m > 0,
            strip_suffix_all(s@, p@) == strip_suffix_all(s@.subrange(0, e as int), p@),
        decreases e,
    {
        proof {
            let t = s@.subrange(0, e as int);
            assert(t.subrange(t.len() - m, t.len() as int) =~= s@.subrange(e - m, e as int));
            assert(spec_ends_with(t, p@));
            assert(t.take(t.len() - m) =~= s@.subrange(0, e - m));
        }
        e = e - m;
    }
    proof {
        let t = s@.subrange(0, e as int);
        if e >= m {
            assert(t.subrange(t.len() - m, t.len() as int) =~= s@.subrange(e - m, e as int));
        }
        assert(!spec_ends_with(t, p@));
    }
    sub_string(s, 0, e)
}

/// `s` with every leading copy of the character `c` removed, as
/// `str::trim_start_matches` computes it.
pub open spec fn spec_strip_leading(s: Seq<char>, c: char) -> Seq<char>
    decreases s.len(),
{
    if s.len() > 0 && s[0] == c {
        spec_strip_leading(s.drop_first(), c)
    } else {
        s
    }
}

/// Removes every leading copy of `c` from `s`.
pub fn strip_leading(s: &str, c: char) -> (r: String)
    ensures
        r@ == spec_strip_leading(s@, c),
{
    let n = s.unicode_len();
    let mut i: usize = 0;
    proof {
        assert(s@.subrange(0, n as int) =~= s@);
    }
    while i < n && s.get_char(i) == c
        invariant
            0 <= i <= n,
            n == s@.len(),
            spec_strip_leading(s@, c) == spec_strip_leading(s@.subrange(i as int, n as int), c),
        decreases n - i,
    {
        proof {
            assert(s@.subrange(i as int, n as int).drop_first() =~= s@.subrange(
                i + 1,
                n as int,
            ));
        }
        i = i + 1;
    }
    sub_string(s, i, n)
}

/// The milliseconds contributed by a fractional-seconds digit string: the
/// first three digits, scaled to thousandths.
pub open spec fn frac_ms(f: Seq<char>) -> int {
    if f.len() == 0 {
        0
    } else if f.len() == 1 {
        digit_val(f[0]) * 100
    } else if f.len() == 2 {
        digit_val(f[0]) * 100 + digit_val(f[1]) * 10
    } else {
        digit_val(f[0]) * 100 + digit_val(f[1]) * 10 + digit_val(f[2])
    }
}

/// The integer-part digits of a signed decimal number.
pub open spec fn ms_int_part(s: Seq<char>) -> Seq<char> {
    let start: int = if s.len() > 0 && (s[0] == '-' || s[0] == '+') {
        1
    } else {
        0
    };
    match find_char_from(s, '.', start) {
        Some(k) => s.subrange(start, k),
        None => s.subrange(start, s.len() as int),
    }
}

/// The fraction-part digits of a signed decimal number.
pub open spec fn ms_frac_part(s: Seq<char>) -> Seq<char> {
    let start: int = if s.len() > 0 && (s[0] == '-' || s[0] == '+') {
        1
    } else {
        0
    };
    match find_char_from(s, '.', start) {
        Some(k) => s.subrange(k + 1, s.len() as int),
        None => Seq::empty(),
    }
}

/// A number of seconds written as a plain signed decimal, converted to
/// whole milliseconds. Only plain decimal notation is read: exponent
/// forms, infinities and other spellings a general float parser would
/// take are not numbers here. The conversion is exact decimal
/// truncation, with no binary floating-point step on the way (`8.586`
/// gives exactly 8586). Fractional digits beyond the third are dropped, a
/// negative number gives zero, and a value beyond `u64::MAX` milliseconds
/// saturates.
pub open spec fn spec_parse_secs_ms(s: Seq<char>) -> Option<u64> {
    let ip = ms_int_part(s);
    let fp = ms_frac_part(s);
    if digits_only(ip) && digits_only(fp) && ip.len() + fp.len() > 0 {
        if s.len() > 0 && s[0] == '-' {
            Some(0)
        } else {
            let ms = digits_val(ip) * 1000 + frac_ms(fp);
            if ms > u64::MAX {
                Some(u64::MAX)
            } else {
                Some(ms as u64)
            }
        }
    } else {
        None
    }
}

/// Reads a plain signed decimal count of seconds and converts it to whole
/// milliseconds, by exact decimal truncation; see [`spec_parse_secs_ms`]
/// for what is accepted.
pub fn parse_secs_ms(s: &str) -> (r: Option<u64>)
    ensures
        r == spec_parse_secs_ms(s@),
{
    let n = s.unicode_len();
    let mut neg = false;
    let mut start: usize = 0;
    if n > 0 {
        let c0 = s.get_char(0);
        if c0 == '-' {
            neg = true;
            start = 1;
        } else if c0 == '+' {
            start = 1;
        }
    }
    let dot = find_char(s, '.', start);
    proof {
        lemma_find_char_from(s@, '.', start as int);
    }
    let ke: usize = match dot {
        Some(k) => k,
        None => n,
    };
    let fs: usize = match dot {
        Some(k) => k + 1,
        None => n,
    };
    proof {
        lemma_find_char_from(s@, '.', start as int);
        assert(ms_int_part(s@) =~= s@.subrange(start as int, ke as int));
        assert(ms_frac_part(s@) =~= s@.subrange(fs as int, n as int));
    }
    let ghost ip = ms_int_part(s@);
    let ghost fp = ms_frac_part(s@);
    if ke == start && fs == n {
        // No digits at all.
        return None;
    }
    // Scan the integer part.
    let mut acc: u64 = 0;
    let mut huge = false;
    let mut i: usize = start;
    while i < ke
        invariant
            start <= i <= ke <= n,
            n == s@.len(),
            ip == ms_int_part(s@),
            ip == s@.subrange(start as int, ke as int),
            forall|k: int| start <= k < i ==> is_digit_char(s@[k]),
            !huge ==> acc <= 18446744073709551u64 && acc == digits_val(
                s@.subrange(start as int, i as int),
            ),
            huge ==> digits_val(s@.subrange(start as int, i as int)) > 18446744073709551,
        decreases ke - i,
    {
        let c = s.get_char(i);
        let cu = c as u32;
        if !(0x30 <= cu && cu <= 0x39) {
            proof {
                assert(ip[i - start] == s@[i as int]);
                assert(!digits_only(ip));
            }
            return None;
        }
        proof {
            assert(s@.subrange(start as int, i + 1).drop_last() =~= s@.subrange(
                start as int,
                i as int,
            ));
            assert(s@.subrange(start as int, i + 1).last() == s@[i as int]);
        }
        if !huge {
            let dv: u64 = (cu - 0x30) as u64;
            acc = acc * 10 + dv;
            if acc > 18446744073709551 {
                huge = true;
            }
        }
        i = i + 1;
    }
    // Scan the fraction part, reading at most three digits of it.
    let mut fm: u64 = 0;
    let mut j: usize = fs;
    while j < n
        invariant
            fs <= j <= n,
            n == s@.len(),
            fp == ms_frac_part(s@),
            fp == s@.subrange(fs as int, n as int),
            forall|k: int| fs <= k < j ==> is_digit_char(s@[k]),
            fm == frac_ms(s@.subrange(fs as int, j as int)),
            fm <= 999,
        decreases n - j,
    {
        let c = s.get_char(j);
        let cu = c as u32;
        if !(0x30 <= cu && cu <= 0x39) {
            proof {
                assert(fp[j - fs] == s@[j as int]);
                assert(!digits_only(fp));
            }
            return None;
        }
        let dv: u64 = (cu - 0x30) as u64;
        proof {
            assert(s@.subrange(fs as int, j + 1)[j - fs] == s@[j as int]);
            assert(forall|k: int| 0 <= k < j - fs ==> s@.subrange(fs as int, j + 1)[k]
                == s@.subrange(fs as int, j as int)[k]);
        }
        if j == fs {
            fm = dv * 100;
        } else if j == fs + 1 {
            fm = fm + dv * 10;
        } else if j == fs + 2 {
            fm = fm + dv;
        }
        j = j + 1;
    }
    proof {
        assert(digits_only(ip));
        assert(digits_only(fp));
    }
    if neg {
        return Some(0);
    }
    if huge {
        proof {
            assert(digits_val(ip) * 1000 + frac_ms(fp) > u64::MAX);
        }
        return Some(u64::MAX);
    }
    let ms: u64 = acc * 1000;
    match ms.checked_add(fm) {
        Some(t) => Some(t),
        None => Some(u64::MAX),
    }
}


/// The number of bytes the UTF-8 encoding of `c` occupies.
pub open spec fn utf8_width(c: char) -> int {
    if (c as u32) < 0x80 {
        1
    } else if (c as u32) < 0x800 {
        2
    } else if (c as u32) < 0x10000 {
        3
    } else {
        4
    }
}

/// The number of bytes the UTF-8 encoding of `s` occupies.
pub open spec fn utf8_len(s: Seq<char>) -> int
    decreases s.len(),
{
    if s.len() == 0 {
        0
    } else {
        utf8_len(s.drop_last()) + utf8_width(s.last())
    }
}

pub proof fn lemma_utf8_len_bounds(s: Seq<char>)
    ensures
        s.len() <= utf8_len(s) <= 4 * s.len(),
    decreases s.len(),
{
    if s.len() > 0 {
        lemma_utf8_len_bounds(s.drop_last());
    }
}

/// Reading further characters only grows the encoded length.
pub proof fn lemma_utf8_len_prefix(s: Seq<char>, k: int)
    requires
        0 <= k <= s.len(),
    ensures
        utf8_len(s) >= utf8_len(s.take(k)),
    decreases s.len(),
{
    if k == s.len() {
        assert(s.take(k) =~= s);
    } else {
        assert(s.drop_last().take(k) =~= s.take(k));
        lemma_utf8_len_prefix(s.drop_last(), k);
        lemma_utf8_len_bounds(s.drop_last());
    }
}

/// The number of bytes the UTF-8 encoding of `c` occupies.
pub fn char_width(c: char) -> (w: usize)
    ensures
        w == utf8_width(c),
{
    let cu = c as u32;
    if cu < 0x80 {
        1
    } else if cu < 0x800 {
        2
    } else if cu < 0x10000 {
        3
    } else {
        4
    }
}

/// Decides whether the UTF-8 encoding of `s` fits in `max` bytes.
pub fn utf8_len_at_most(s: &str, max: usize) -> (b: bool)
    ensures
        b == (utf8_len(s@) <= max),
{
    let n = s.unicode_len();
    let mut bw: usize = 0;
    let mut i: usize = 0;
    while i < n
        invariant
            0 <= i <= n,
            n == s@.len(),
            bw <= max,
            bw == utf8_len(s@.take(i as int)),
        decreases n - i,
    {
        let w = char_width(s.get_char(i));
        proof {
            assert(s@.take(i + 1).drop_last() =~= s@.take(i as int));
            assert(s@.take(i + 1).last() == s@[i as int]);
        }
        if w > max - bw {
            proof {
                lemma_utf8_len_prefix(s@, i + 1);
            }
            return false;
        }
        bw = bw + w;
        i = i + 1;
    }
    proof {
        assert(s@.take(n as int) =~= s@);
    }
    true
}

/// The cut point of a byte-bounded truncation: scanning from position
/// `i` with `budget` bytes left, the first index whose character no
/// longer fits.
pub open spec fn byte_cut_idx(s: Seq<char>, i: int, budget: int) -> int
    decreases s.len() - i when 0 <= i
{
    if i >= s.len() {
        i
    } else if utf8_width(s[i]) > budget {
        i
    } else {
        byte_cut_idx(s, i + 1, budget - utf8_width(s[i]))
    }
}

/// The longest prefix of `s` whose UTF-8 encoding fits in `max` bytes; a
/// cut never falls inside a character.
pub fn utf8_prefix_within(s: &str, max: usize) -> (k: usize)
    ensures
        k as int == byte_cut_idx(s@, 0, max as int),
        k <= s@.len(),
{
    let n = s.unicode_len();
    let mut bw: usize = 0;
    let mut i: usize = 0;
    while i < n
        invariant
            0 <= i <= n,
            n == s@.len(),
            bw <= max,
            byte_cut_idx(s@, 0, max as int) == byte_cut_idx(s@, i as int, max - bw),
        decreases n - i,
    {
        let w = char_width(s.get_char(i));
        if w > max - bw {
            return i;
        }
        bw = bw + w;
        i = i + 1;
    }
    n
}


/// The decimal digit character for `d`.
pub open spec fn dec_digit(d: int) -> char {
    if d == 0 {
        '0'
    } else if d == 1 {
        '1'
    } else if d == 2 {
        '2'
    } else if d == 3 {
        '3'
    } else if d == 4 {
        '4'
    } else if d == 5 {
        '5'
    } else if d == 6 {
        '6'
    } else if d == 7 {
        '7'
    } else if d == 8 {
        '8'
    } else {
        '9'
    }
}

/// The decimal rendering of `n`, without sign or leading zeros.
pub open spec fn spec_dec_digits(n: int) -> Seq<char>
    decreases n when n >= 0
{
    if n < 10 {
        seq![dec_digit(n)]
    } else {
        spec_dec_digits(n / 10).push(dec_digit(n % 10))
    }
}

/// The one-character string for the decimal digit `d`.
fn digit_str(d: u64) -> (r: &'static str)
    requires
        d < 10,
    ensures
        r@ == seq![dec_digit(d as int)],
{
    proof {
        reveal_strlit("0");
        reveal_strlit("1");
        reveal_strlit("2");
        reveal_strlit("3");
        reveal_strlit("4");
        reveal_strlit("5");
        reveal_strlit("6");
        reveal_strlit("7");
        reveal_strlit("8");
        reveal_strlit("9");
        assert("0"@ =~= seq!['0']);
        assert("1"@ =~= seq!['1']);
        assert("2"@ =~= seq!['2']);
        assert("3"@ =~= seq!['3']);
        assert("4"@ =~= seq!['4']);
        assert("5"@ =~= seq!['5']);
        assert("6"@ =~= seq!['6']);
        assert("7"@ =~= seq!['7']);
        assert("8"@ =~= seq!['8']);
        assert("9"@ =~= seq!['9']);
    }
    match d {
        0 => "0",
        1 => "1",
        2 => "2",
        3 => "3",
        4 => "4",
        5 => "5",
        6 => "6",
        7 => "7",
        8 => "8",
        _ => "9",
    }
}

/// Renders `n` in decimal.
pub fn u64_to_decimal(n: u64) -> (r: String)
    ensures
        r@ == spec_dec_digits(n as int),
    decreases n,
{
    if n < 10 {
        digit_str(n).to_owned()
    } else {
        let mut r = u64_to_decimal(n / 10);
        r.append(digit_str(n % 10));
        proof {
            assert(r@ =~= spec_dec_digits(n as int / 10).push(dec_digit(n as int % 10)));
        }
        r
    }
}

} // verus!

//! Interpretation of one LSP-style header line, as characters.
//!
//! A header line is `Name: Value` terminated by CRLF (or LF). The only
//! header the transport acts on is `Content-Length` (name compared
//! case-insensitively, value trimmed of Unicode whitespace and parsed as an
//! unsigned decimal integer); every other well-formed header is ignored.

use vstd::prelude::*;

use crate::text::{decimal, digit};

verus! {

// ── Character classes ─────────────────────────────────────────────────────────

/// Unicode `White_Space` (the set `char::is_whitespace` accepts).
pub open spec fn is_ws(c: char) -> bool {
    ||| ('\u{9}' <= c && c <= '\u{d}')
    ||| c == ' '
    ||| c == '\u{85}'
    ||| c == '\u{a0}'
    ||| c == '\u{1680}'
    ||| ('\u{2000}' <= c && c <= '\u{200a}')
    ||| c == '\u{2028}'
    ||| c == '\u{2029}'
    ||| c == '\u{202f}'
    ||| c == '\u{205f}'
    ||| c == '\u{3000}'
}

/// ASCII lowercase of `c`; every other character is unchanged.
pub open spec fn ascii_lower(c: char) -> char {
    if 'A' <= c && c <= 'Z' {
        ((c as u32) + 32) as char
    } else {
        c
    }
}

/// `a` and `b` are equal up to ASCII case.
pub open spec fn eq_ignore_ascii_case(a: Seq<char>, b: Seq<char>) -> bool {
    &&& a.len() == b.len()
    &&& forall|i: int| 0 <= i < a.len() ==> ascii_lower(#[trigger] a[i]) == ascii_lower(b[i])
}

/// `s` without its trailing run of `'\r'` / `'\n'` characters.
pub open spec fn trim_end_crlf(s: Seq<char>) -> Seq<char>
    decreases s.len(),
{
    if s.len() > 0 && (s.last() == '\r' || s.last() == '\n') {
        trim_end_crlf(s.drop_last())
    } else {
        s
    }
}

/// Number of leading whitespace characters of `s`.
pub open spec fn leading_ws(s: Seq<char>) -> nat
    decreases s.len(),
{
    if s.len() > 0 && is_ws(s[0]) {
        1 + leading_ws(s.drop_first())
    } else {
        0
    }
}

/// Number of trailing whitespace characters of `s`.
pub open spec fn trailing_ws(s: Seq<char>) -> nat
    decreases s.len(),
{
    if s.len() > 0 && is_ws(s.last()) {
        1 + trailing_ws(s.drop_last())
    } else {
        0
    }
}

/// `s` without leading and trailing whitespace.
pub open spec fn trim_ws(s: Seq<char>) -> Seq<char> {
    let t = s.skip(leading_ws(s) as int);
    t.take(t.len() - trailing_ws(t))
}

/// Index of the first `c` in `s` at or after `from`.
pub open spec fn index_from(s: Seq<char>, c: char, from: int) -> Option<int>
    decreases s.len() - from,
{
    if from < 0 || from >= s.len() {
        None
    } else if s[from] == c {
        Some(from)
    } else {
        index_from(s, c, from + 1)
    }
}

// ── Unsigned decimal values ──────────────────────────────────────────────────

/// `c` is an ASCII decimal digit.
pub open spec fn is_digit(c: char) -> bool {
    '0' <= c && c <= '9'
}

/// Numeric value of the digit `c`.
pub open spec fn digit_value(c: char) -> nat {
    ((c as u32) - ('0' as u32)) as nat
}

/// Value of a sequence of decimal digits (most significant first).
pub open spec fn digits_value(s: Seq<char>) -> nat
    decreases s.len(),
{
    if s.len() == 0 {
        0
    } else {
        digits_value(s.drop_last()) * 10 + digit_value(s.last())
    }
}

/// `s` consists of ASCII digits only.
pub open spec fn all_digits(s: Seq<char>) -> bool {
    forall|i: int| 0 <= i < s.len() ==> is_digit(#[trigger] s[i])
}

/// The value of `s` read as an unsigned integer the way `usize::from_str`
/// reads it: an optional leading `+`, then at least one ASCII digit, and a
/// value that fits in `usize`.
pub open spec fn parse_usize(s: Seq<char>) -> Option<nat> {
    let digits = if s.len() > 0 && s[0] == '+' {
        s.drop_first()
    } else {
        s
    };
    if digits.len() > 0 && all_digits(digits) && digits_value(digits) <= usize::MAX {
        Some(digits_value(digits))
    } else {
        None
    }
}

// ── Header lines ─────────────────────────────────────────────────────────────

/// What a header line means.
pub enum HeaderModel {
    /// The stream ended before a line could be read.
    Eof,
    /// The blank line that ends the header block.
    End,
    /// A line the transport ignores.
    Skip,
    /// A `Content-Length` header with its value.
    ContentLength(nat),
    /// A line with no `:`; carries the line without its terminator.
    Malformed(Seq<char>),
    /// A `Content-Length` header whose value is not an unsigned integer;
    /// carries the trimmed value.
    InvalidLength(Seq<char>),
}

/// The characters `Content-Length`.
pub open spec fn content_length_name() -> Seq<char> {
    seq!['C', 'o', 'n', 't', 'e', 'n', 't', '-', 'L', 'e', 'n', 'g', 't', 'h']
}

/// Meaning of the header line `line` (terminator included, if any).
pub open spec fn classify_header(line: Seq<char>) -> HeaderModel {
    if line.len() == 0 {
        HeaderModel::Eof
    } else if line == seq!['\r', '\n'] || line == seq!['\n'] {
        HeaderModel::End
    } else {
        let t = trim_end_crlf(line);
        if t.len() == 0 {
            HeaderModel::Skip
        } else {
            match index_from(t, ':', 0) {
                None => HeaderModel::Malformed(t),
                Some(i) => {
                    let name = trim_ws(t.subrange(0, i));
                    let value = trim_ws(t.subrange(i + 1, t.len() as int));
                    if eq_ignore_ascii_case(name, content_length_name()) {
                        match parse_usize(value) {
                            None => HeaderModel::InvalidLength(value),
                            Some(n) => HeaderModel::ContentLength(n),
                        }
                    } else {
                        HeaderModel::Skip
                    }
                },
            }
        }
    }
}

/// The header line `write_frame` emits for a body of `len` bytes, with its
/// CRLF: `Content-Length: <len>\r\n`.
pub open spec fn length_header_line(len: nat) -> Seq<char> {
    content_length_name() + seq![':', ' '] + decimal(len) + seq!['\r', '\n']
}

// ── Lemmas ────────────────────────────────────────────────────────────────────

proof fn lemma_digit_props(d: nat)
    requires
        d < 10,
    ensures
        is_digit(digit(d)),
        digit_value(digit(d)) == d,
        !is_ws(digit(d)),
        digit(d) != ':',
        digit(d) != '\r',
        digit(d) != '\n',
{
}

/// Every character of `decimal(n)` is a digit, and the digits read back as `n`.
pub proof fn lemma_decimal_reads_back(n: nat)
    ensures
        decimal(n).len() > 0,
        all_digits(decimal(n)),
        digits_value(decimal(n)) == n,
        forall|i: int| 0 <= i < decimal(n).len() ==> !is_ws(#[trigger] decimal(n)[i]) && decimal(n)[i] != ':'
            && decimal(n)[i] != '\r' && decimal(n)[i] != '\n',
    decreases n,
{
    if n < 10 {
        lemma_digit_props(n);
        assert(decimal(n).drop_last() =~= Seq::<char>::empty());
        assert(digits_value(Seq::<char>::empty()) == 0);
    } else {
        lemma_decimal_reads_back(n / 10);
        lemma_digit_props(n % 10);
        let s = decimal(n);
        assert(digits_value(s) == digits_value(s.drop_last()) * 10 + digit_value(s.last()));
        assert(s.drop_last() =~= decimal(n / 10));
        assert(s.last() == digit(n % 10));
        assert forall|i: int| 0 <= i < s.len() implies is_digit(#[trigger] s[i]) by {
            if i < s.len() - 1 {
                assert(s[i] == decimal(n / 10)[i]);
            }
        }
        assert forall|i: int| 0 <= i < s.len() implies !is_ws(#[trigger] s[i]) && s[i] != ':' && s[i]
            != '\r' && s[i] != '\n' by {
            if i < s.len() - 1 {
                assert(s[i] == decimal(n / 10)[i]);
            }
        }
    }
}

proof fn lemma_leading_ws_none(s: Seq<char>)
    requires
        s.len() == 0 || !is_ws(s[0]),
    ensures
        leading_ws(s) == 0,
{
}

proof fn lemma_trailing_ws_none(s: Seq<char>)
    requires
        s.len() == 0 || !is_ws(s.last()),
    ensures
        trailing_ws(s) == 0,
{
}

/// A single leading space is trimmed from a non-empty run that starts and
/// ends with non-whitespace.
proof fn lemma_trim_single_space(d: Seq<char>)
    requires
        d.len() > 0,
        !is_ws(d[0]),
        !is_ws(d.last()),
    ensures
        trim_ws(seq![' '] + d) == d,
{
    let s = seq![' '] + d;
    assert(s.drop_first() =~= d);
    lemma_leading_ws_none(d);
    assert(leading_ws(s) == 1);
    assert(s.skip(1) =~= d);
    lemma_trailing_ws_none(d);
    assert(d.take(d.len() as int) =~= d);
}

/// The header line for a body of `len` bytes is read as `Content-Length: len`.
pub proof fn lemma_length_header_classified(len: nat)
    requires
        len <= usize::MAX,
    ensures
        classify_header(length_header_line(len)) == HeaderModel::ContentLength(len),
{
    let d = decimal(len);
    lemma_decimal_reads_back(len);
    let line = length_header_line(len);
    let body = content_length_name() + seq![':', ' '] + d;
    assert(line =~= body + seq!['\r', '\n']);
    assert(line.len() > 2);
    assert(line != seq!['\r', '\n'] && line != seq!['\n']) by {
        assert(line[0] == 'C');
    }
    // Trailing CRLF is stripped; the digit before it stops the stripping.
    assert(line.drop_last() =~= body + seq!['\r']);
    assert((body + seq!['\r']).drop_last() =~= body);
    assert(body.last() == d.last());
    assert(d.last() == d[d.len() - 1]);
    assert(trim_end_crlf(body) == body);
    let body_cr = body + seq!['\r'];
    assert(body_cr.last() == '\r');
    assert(trim_end_crlf(body_cr) == trim_end_crlf(body_cr.drop_last()));
    assert(line.last() == '\n');
    assert(line.drop_last() =~= body_cr);
    assert(trim_end_crlf(line) == trim_end_crlf(line.drop_last()));
    assert(trim_end_crlf(line) == body);
    // The first ':' is at index 14.
    let name = content_length_name();
    assert forall|k: int| 0 <= k < 14 implies body[k] != ':' by {
        assert(body[k] == name[k]);
    }
    assert(body[14] == ':');
    lemma_index_from_skips(body, ':', 0, 14);
    assert(body.subrange(0, 14) =~= name);
    // The name has no surrounding whitespace.
    lemma_leading_ws_none(name);
    assert(name.skip(0) =~= name);
    lemma_trailing_ws_none(name);
    assert(name.take(name.len() as int) =~= name);
    assert(trim_ws(name) == name);
    assert(eq_ignore_ascii_case(name, name));
    // The value is " <digits>", trimmed to the digits.
    assert(body.subrange(15, body.len() as int) =~= seq![' '] + d);
    assert(d[0] == d[0]);
    lemma_trim_single_space(d);
    // No leading '+': the digits are read as they are.
    assert(d[0] != '+');
    assert(parse_usize(d) == Some(len));
}

/// Scanning from `from` finds `c` at `at` when no `c` precedes it.
pub proof fn lemma_index_from_skips(s: Seq<char>, c: char, from: int, at: int)
    requires
        0 <= from <= at < s.len(),
        s[at] == c,
        forall|k: int| from <= k < at ==> s[k] != c,
    ensures
        index_from(s, c, from) == Some(at),
    decreases at - from,
{
    if from < at {
        lemma_index_from_skips(s, c, from + 1, at);
    }
}

/// `c` is Unicode whitespace.
pub fn is_ws_char(c: char) -> (b: bool)
    ensures
        b == is_ws(c),
{
    ('\u{9}' <= c && c <= '\u{d}') || c == ' ' || c == '\u{85}' || c == '\u{a0}' || c == '\u{1680}'
        || ('\u{2000}' <= c && c <= '\u{200a}') || c == '\u{2028}' || c == '\u{2029}' || c
        == '\u{202f}' || c == '\u{205f}' || c == '\u{3000}'
}

proof fn lemma_leading_ws_props(s: Seq<char>)
    ensures
        leading_ws(s) <= s.len(),
        forall|k: int| 0 <= k < leading_ws(s) ==> is_ws(#[trigger] s[k]),
        leading_ws(s) < s.len() ==> !is_ws(s[leading_ws(s) as int]),
    decreases s.len(),
{
    if s.len() > 0 && is_ws(s[0]) {
        lemma_leading_ws_props(s.drop_first());
        assert forall|k: int| 0 <= k < leading_ws(s) implies is_ws(#[trigger] s[k]) by {
            if k > 0 {
                assert(s[k] == s.drop_first()[k - 1]);
            }
        }
        if leading_ws(s) < s.len() {
            assert(s[leading_ws(s) as int] == s.drop_first()[leading_ws(s.drop_first()) as int]);
        }
    }
}

proof fn lemma_trailing_ws_le(s: Seq<char>)
    ensures
        trailing_ws(s) <= s.len(),
        s.len() > 0 && !is_ws(s[0]) ==> trailing_ws(s) < s.len(),
    decreases s.len(),
{
    if s.len() > 0 && is_ws(s.last()) {
        lemma_trailing_ws_le(s.drop_last());
        if s.len() > 1 {
            assert(s.drop_last()[0] == s[0]);
        }
    }
}

/// Trimming whitespace leaves nothing exactly when every character is
/// whitespace.
pub proof fn lemma_trim_ws_empty(s: Seq<char>)
    ensures
        (trim_ws(s).len() == 0) <==> (forall|k: int| 0 <= k < s.len() ==> is_ws(#[trigger] s[k])),
{
    lemma_leading_ws_props(s);
    let t = s.skip(leading_ws(s) as int);
    lemma_trailing_ws_le(t);
    if leading_ws(s) < s.len() {
        assert(t[0] == s[leading_ws(s) as int]);
        assert(!(forall|k: int| 0 <= k < s.len() ==> is_ws(#[trigger] s[k]))) by {
            assert(!is_ws(s[leading_ws(s) as int]));
        }
    }
}

} // verus!

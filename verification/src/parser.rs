//! The lenient parser: whole-file text to the ordered entry sequence.
//!
//! The text is read line by line. A line either matches the full entry
//! grammar (with optional trailing horizontal whitespace) or is silently
//! treated as empty: the format must survive manual editing, so blank lines
//! and malformed edits produce no entry and no diagnostic.
use vstd::prelude::*;

use crate::model::Entry;
use crate::model::EntryView;
use crate::model::Span;
use crate::model::Timestamp;
use crate::model::days_in_month;

verus! {

pub open spec fn is_digit(c: char) -> bool {
    '0' <= c && c <= '9'
}

pub open spec fn digit_val(c: char) -> int {
    c as int - '0' as int
}

/// Horizontal whitespace: a space or a tab.
pub open spec fn is_hspace(c: char) -> bool {
    c == ' ' || c == '\t'
}

/// A character that may stand inside a tag: anything but `,` and `)`.
pub open spec fn is_tag_char(c: char) -> bool {
    c != ',' && c != ')'
}

/// A character that may stand inside a comment: anything but `#`, carriage
/// return and line feed.
pub open spec fn is_comment_char(c: char) -> bool {
    c != '#' && c != '\r' && c != '\n'
}

/// The length of the run of horizontal whitespace at `i`.
pub open spec fn hs_len(s: Seq<char>, i: int) -> nat
    decreases s.len() - i,
{
    if 0 <= i < s.len() && is_hspace(s[i]) {
        (1 + hs_len(s, i + 1)) as nat
    } else {
        0
    }
}

/// The length of the run of decimal digits at `i`.
pub open spec fn digit_run(s: Seq<char>, i: int) -> nat
    decreases s.len() - i,
{
    if 0 <= i < s.len() && is_digit(s[i]) {
        (1 + digit_run(s, i + 1)) as nat
    } else {
        0
    }
}

/// The length of the run of tag characters at `i`.
pub open spec fn tag_run(s: Seq<char>, i: int) -> nat
    decreases s.len() - i,
{
    if 0 <= i < s.len() && is_tag_char(s[i]) {
        (1 + tag_run(s, i + 1)) as nat
    } else {
        0
    }
}

/// The length of the run of comment characters at `i`.
pub open spec fn comment_run(s: Seq<char>, i: int) -> nat
    decreases s.len() - i,
{
    if 0 <= i < s.len() && is_comment_char(s[i]) {
        (1 + comment_run(s, i + 1)) as nat
    } else {
        0
    }
}

/// The value of the digits of `s` between `i` and `j`, read in base ten.
pub open spec fn digits_val(s: Seq<char>, i: int, j: int) -> int
    decreases j - i,
{
    if i < j {
        digits_val(s, i, j - 1) * 10 + digit_val(s[j - 1])
    } else {
        0
    }
}

/// A decimal number: optional horizontal whitespace, then one or more
/// digits whose value is at most `max`. Yields the value and the position
/// after the digits; the digit run is maximal.
pub open spec fn parse_num(s: Seq<char>, i: int, max: int) -> Option<(int, int)> {
    let a = i + hs_len(s, i);
    let b = a + digit_run(s, a);
    if b > a && digits_val(s, a, b) <= max {
        Some((digits_val(s, a, b), b))
    } else {
        None
    }
}

/// Optional horizontal whitespace, then exactly the character `c`.
pub open spec fn expect_char(s: Seq<char>, i: int, c: char) -> Option<int> {
    let j = i + hs_len(s, i);
    if j < s.len() && s[j] == c {
        Some(j + 1)
    } else {
        None
    }
}

/// A UTC offset: optional horizontal whitespace, a sign, then exactly four
/// digits encoding hours and minutes (`sign * (HH*60 + MM)`).
pub open spec fn parse_offset(s: Seq<char>, i: int) -> Option<(int, int)> {
    let j = i + hs_len(s, i);
    if j + 5 <= s.len() && (s[j] == '+' || s[j] == '-') && is_digit(s[j + 1]) && is_digit(s[j + 2])
        && is_digit(s[j + 3]) && is_digit(s[j + 4]) {
        let mag = (digit_val(s[j + 1]) * 10 + digit_val(s[j + 2])) * 60 + digit_val(s[j + 3]) * 10
            + digit_val(s[j + 4]);
        let v = if s[j] == '-' { -mag } else { mag };
        Some((v, j + 5))
    } else {
        None
    }
}

/// One timestamp: `year "-" month "-" day hour ":" minute ":" second offset`,
/// each number preceded by optional horizontal whitespace, and the whole
/// accepted only when it names a valid calendar date-time within the store's
/// supported range.
pub open spec fn parse_timestamp(s: Seq<char>, i: int) -> Option<(Timestamp, int)> {
    match parse_num(s, i, 9999) {
        None => None,
        Some((year, i1)) => match expect_char(s, i1, '-') {
            None => None,
            Some(i2) => match parse_num(s, i2, 12) {
                None => None,
                Some((month, i3)) => match expect_char(s, i3, '-') {
                    None => None,
                    Some(i4) => match parse_num(s, i4, 31) {
                        None => None,
                        Some((day, i5)) => match parse_num(s, i5, 23) {
                            None => None,
                            Some((hour, i6)) => match expect_char(s, i6, ':') {
                                None => None,
                                Some(i7) => match parse_num(s, i7, 59) {
                                    None => None,
                                    Some((minute, i8)) => match expect_char(s, i8, ':') {
                                        None => None,
                                        Some(i9) => match parse_num(s, i9, 59) {
                                            None => None,
                                            Some((second, i10)) => match parse_offset(s, i10) {
                                                None => None,
                                                Some((off, i11)) => {
                                                    if 1 <= month && 1 <= day && day <= days_in_month(year, month) {
                                                        Some((
                                                            Timestamp {
                                                                year: year as i32,
                                                                month: month as u8,
                                                                day: day as u8,
                                                                hour: hour as u8,
                                                                minute: minute as u8,
                                                                second: second as u8,
                                                                offset_minutes: off as i16,
                                                            },
                                                            i11,
                                                        ))
                                                    } else {
                                                        None
                                                    }
                                                },
                                            },
                                        },
                                    },
                                },
                            },
                        },
                    },
                },
            },
        },
    }
}

/// A span: the start timestamp, optional horizontal whitespace, the literal
/// `..`, and an optional end timestamp. Absence of the end means the span is
/// still active.
pub open spec fn parse_span(s: Seq<char>, i: int) -> Option<(Span, int)> {
    match parse_timestamp(s, i) {
        None => None,
        Some((start, i1)) => {
            let j = i1 + hs_len(s, i1);
            if j + 2 <= s.len() && s[j] == '.' && s[j + 1] == '.' {
                match parse_timestamp(s, j + 2) {
                    Some((end, k)) => Some((Span::Closed { start, end }, k)),
                    None => Some((Span::Active { start }, j + 2)),
                }
            } else {
                None
            }
        },
    }
}

/// The inside of a tag list, after the opening parenthesis: one or more
/// non-empty tags separated by commas, then the closing parenthesis.
pub open spec fn parse_tag_list(s: Seq<char>, i: int) -> Option<(Seq<Seq<char>>, int)>
    decreases s.len() - i,
{
    if i < 0 {
        None
    } else {
        let e = i + tag_run(s, i);
        if e == i || e >= s.len() {
            None
        } else if s[e] == ')' {
            Some((seq![s.subrange(i, e)], e + 1))
        } else {
            match parse_tag_list(s, e + 1) {
                None => None,
                Some((rest, k)) => Some((seq![s.subrange(i, e)] + rest, k)),
            }
        }
    }
}

/// The optional tag list. On anything but a complete, well-formed
/// parenthesized list, no tags are taken and only the leading horizontal
/// whitespace is consumed.
pub open spec fn parse_tags(s: Seq<char>, i: int) -> (Seq<Seq<char>>, int) {
    let j = i + hs_len(s, i);
    if j < s.len() && s[j] == '(' {
        match parse_tag_list(s, j + 1) {
            Some((tags, k)) => (tags, k),
            None => (Seq::empty(), j),
        }
    } else {
        (Seq::empty(), j)
    }
}

/// Zero or more comments: each a `#` followed by a possibly empty run of
/// comment characters. No unescaping is applied to what was read.
pub open spec fn parse_comment_seq(s: Seq<char>, i: int) -> (Seq<Seq<char>>, int)
    decreases s.len() - i,
{
    if 0 <= i < s.len() && s[i] == '#' {
        let e = vstd::math::min(i + 1 + comment_run(s, i + 1), s.len() as int);
        let rest = parse_comment_seq(s, e);
        (seq![s.subrange(i + 1, e)] + rest.0, rest.1)
    } else {
        (Seq::empty(), i)
    }
}

/// One line: a span, the optional tag list, zero or more comments, then
/// optional trailing horizontal whitespace up to the end of the line.
/// A line that does not match this in full yields no entry.
pub open spec fn parse_line(line: Seq<char>) -> Option<EntryView> {
    match parse_span(line, 0) {
        None => None,
        Some((span, i)) => {
            let tags = parse_tags(line, i);
            let comments = parse_comment_seq(line, tags.1 + hs_len(line, tags.1));
            let e = comments.1 + hs_len(line, comments.1);
            if e == line.len() {
                Some(EntryView { span, tags: tags.0, comments: comments.0 })
            } else {
                None
            }
        },
    }
}

/// The length of the run of characters at `i` that are not line feeds.
pub open spec fn no_nl_run(s: Seq<char>, i: int) -> nat
    decreases s.len() - i,
{
    if 0 <= i < s.len() && s[i] != '\n' {
        (1 + no_nl_run(s, i + 1)) as nat
    } else {
        0
    }
}

/// Splits text into lines at line feeds; a carriage return just before a
/// line feed belongs to the terminator, not to the line.
pub open spec fn split_lines(s: Seq<char>) -> Seq<Seq<char>>
    decreases s.len(),
{
    let p = no_nl_run(s, 0) as int;
    let raw = s.subrange(0, p);
    let line = if raw.len() > 0 && raw.last() == '\r' {
        raw.drop_last()
    } else {
        raw
    };
    if p >= s.len() {
        seq![line]
    } else {
        seq![line] + split_lines(s.subrange(p + 1, s.len() as int))
    }
}

/// The entries of the given lines, in order, one per line that parses.
pub open spec fn parse_entries(lines: Seq<Seq<char>>) -> Seq<EntryView>
    decreases lines.len(),
{
    if lines.len() == 0 {
        Seq::empty()
    } else {
        match parse_line(lines[0]) {
            Some(e) => seq![e] + parse_entries(lines.skip(1)),
            None => parse_entries(lines.skip(1)),
        }
    }
}

/// What the whole text parses to: the entries of its lines, in file order.
pub open spec fn parse_text(s: Seq<char>) -> Seq<EntryView> {
    parse_entries(split_lines(s))
}

fn scan_hs(line: &Vec<char>, i: usize) -> (r: usize)
    requires
        i <= line.len(),
    ensures
        r == i + hs_len(line@, i as int),
        i <= r <= line.len(),
{
    let n = line.len();
    let mut j = i;
    while j < n && (line[j] == ' ' || line[j] == '\t')
        invariant
            i <= j <= n,
            n == line@.len(),
            hs_len(line@, i as int) == (j - i) + hs_len(line@, j as int),
        decreases n - j,
    {
        j = j + 1;
    }
    j
}

fn scan_digits(line: &Vec<char>, i: usize) -> (r: usize)
    requires
        i <= line.len(),
    ensures
        r == i + digit_run(line@, i as int),
        i <= r <= line.len(),
        forall|k: int| i <= k < r ==> is_digit(line@[k]),
{
    let n = line.len();
    let mut j = i;
    while j < n && '0' <= line[j] && line[j] <= '9'
        invariant
            i <= j <= n,
            n == line@.len(),
            digit_run(line@, i as int) == (j - i) + digit_run(line@, j as int),
            forall|k: int| i <= k < j ==> is_digit(line@[k]),
        decreases n - j,
    {
        j = j + 1;
    }
    j
}

fn scan_tag_run(line: &Vec<char>, i: usize) -> (r: usize)
    requires
        i <= line.len(),
    ensures
        r == i + tag_run(line@, i as int),
        i <= r <= line.len(),
{
    let n = line.len();
    let mut j = i;
    while j < n && line[j] != ',' && line[j] != ')'
        invariant
            i <= j <= n,
            n == line@.len(),
            tag_run(line@, i as int) == (j - i) + tag_run(line@, j as int),
        decreases n - j,
    {
        j = j + 1;
    }
    j
}

fn scan_comment_run(line: &Vec<char>, i: usize) -> (r: usize)
    requires
        i <= line.len(),
    ensures
        r == i + comment_run(line@, i as int),
        i <= r <= line.len(),
{
    let n = line.len();
    let mut j = i;
    while j < n && line[j] != '#' && line[j] != '\r' && line[j] != '\n'
        invariant
            i <= j <= n,
            n == line@.len(),
            comment_run(line@, i as int) == (j - i) + comment_run(line@, j as int),
        decreases n - j,
    {
        j = j + 1;
    }
    j
}

/// The characters of `line` between `i` and `j`, as a `String`.
fn substring(line: &Vec<char>, i: usize, j: usize) -> (r: String)
    requires
        i <= j <= line.len(),
    ensures
        r@ == line@.subrange(i as int, j as int),
{
    let mut out: Vec<char> = Vec::new();
    let mut k = i;
    while k < j
        invariant
            i <= k <= j <= line@.len(),
            out@ == line@.subrange(i as int, k as int),
        decreases j - k,
    {
        out.push(line[k]);
        assert(out@ =~= line@.subrange(i as int, k + 1 as int));
        k = k + 1;
    }
    crate::ser::chars_to_string(&out)
}

fn scan_num(line: &Vec<char>, i: usize, max: u32) -> (r: Option<(u32, usize)>)
    requires
        i <= line.len(),
    ensures
        match r {
            Some(p) => parse_num(line@, i as int, max as int) == Some((p.0 as int, p.1 as int))
                && i <= p.1 <= line.len() && p.0 <= max,
            None => parse_num(line@, i as int, max as int) is None,
        },
{
    let a = scan_hs(line, i);
    let b = scan_digits(line, a);
    if b == a {
        return None;
    }
    let big: u64 = 0x1_0000_0000;
    let mut val: u64 = 0;
    let mut k = a;
    while k < b
        invariant
            a <= k <= b <= line@.len(),
            big == 0x1_0000_0000u64,
            forall|t: int| a <= t < b ==> is_digit(line@[t]),
            digits_val(line@, a as int, k as int) >= 0,
            val <= big,
            digits_val(line@, a as int, k as int) < big ==> val == digits_val(
                line@,
                a as int,
                k as int,
            ),
            digits_val(line@, a as int, k as int) >= big ==> val == big,
        decreases b - k,
    {
        let c = line[k];
        assert(is_digit(line@[k as int]));
        let d: u64 = (c as u32 - '0' as u32) as u64;
        proof {
            let dv = digits_val(line@, a as int, k as int);
            let dv2 = digits_val(line@, a as int, k + 1 as int);
            assert(dv2 == dv * 10 + digit_val(line@[k as int]));
            if dv >= big {
                assert(dv * 10 >= big * 10);
            }
        }
        val = val * 10 + d;
        if val > big {
            val = big;
        }
        k = k + 1;
    }
    if val > max as u64 {
        None
    } else {
        Some((val as u32, b))
    }
}

fn scan_expect(line: &Vec<char>, i: usize, c: char) -> (r: Option<usize>)
    requires
        i <= line.len(),
    ensures
        match r {
            Some(j) => expect_char(line@, i as int, c) == Some(j as int) && i <= j <= line.len(),
            None => expect_char(line@, i as int, c) is None,
        },
{
    let j = scan_hs(line, i);
    if j < line.len() && line[j] == c {
        Some(j + 1)
    } else {
        None
    }
}

fn scan_offset(line: &Vec<char>, i: usize) -> (r: Option<(i32, usize)>)
    requires
        i <= line.len(),
    ensures
        match r {
            Some(p) => parse_offset(line@, i as int) == Some((p.0 as int, p.1 as int))
                && i <= p.1 <= line.len() && -6039 <= p.0 <= 6039,
            None => parse_offset(line@, i as int) is None,
        },
{
    let j = scan_hs(line, i);
    if line.len() - j >= 5 && (line[j] == '+' || line[j] == '-') {
        let c1 = line[j + 1];
        let c2 = line[j + 2];
        let c3 = line[j + 3];
        let c4 = line[j + 4];
        if '0' <= c1 && c1 <= '9' && '0' <= c2 && c2 <= '9' && '0' <= c3 && c3 <= '9' && '0' <= c4
            && c4 <= '9' {
            let d1 = c1 as u32 - '0' as u32;
            let d2 = c2 as u32 - '0' as u32;
            let d3 = c3 as u32 - '0' as u32;
            let d4 = c4 as u32 - '0' as u32;
            let mag: u32 = (d1 * 10 + d2) * 60 + d3 * 10 + d4;
            let v: i32 = if line[j] == '-' {
                -(mag as i32)
            } else {
                mag as i32
            };
            Some((v, j + 5))
        } else {
            None
        }
    } else {
        None
    }
}

fn scan_timestamp(line: &Vec<char>, i: usize) -> (r: Option<(Timestamp, usize)>)
    requires
        i <= line.len(),
    ensures
        match r {
            Some(p) => parse_timestamp(line@, i as int) == Some((p.0, p.1 as int)) && i <= p.1
                <= line.len(),
            None => parse_timestamp(line@, i as int) is None,
        },
{
    let (year, i1) = match scan_num(line, i, 9999) {
        Some(p) => p,
        None => { return None; },
    };
    let i2 = match scan_expect(line, i1, '-') {
        Some(j) => j,
        None => { return None; },
    };
    let (month, i3) = match scan_num(line, i2, 12) {
        Some(p) => p,
        None => { return None; },
    };
    let i4 = match scan_expect(line, i3, '-') {
        Some(j) => j,
        None => { return None; },
    };
    let (day, i5) = match scan_num(line, i4, 31) {
        Some(p) => p,
        None => { return None; },
    };
    let (hour, i6) = match scan_num(line, i5, 23) {
        Some(p) => p,
        None => { return None; },
    };
    let i7 = match scan_expect(line, i6, ':') {
        Some(j) => j,
        None => { return None; },
    };
    let (minute, i8) = match scan_num(line, i7, 59) {
        Some(p) => p,
        None => { return None; },
    };
    let i9 = match scan_expect(line, i8, ':') {
        Some(j) => j,
        None => { return None; },
    };
    let (second, i10) = match scan_num(line, i9, 59) {
        Some(p) => p,
        None => { return None; },
    };
    let (off, i11) = match scan_offset(line, i10) {
        Some(p) => p,
        None => { return None; },
    };
    if 1 <= month && 1 <= day && day <= days_in_month_exec(year as i32, month as u8) as u32 {
        Some((
            Timestamp {
                year: year as i32,
                month: month as u8,
                day: day as u8,
                hour: hour as u8,
                minute: minute as u8,
                second: second as u8,
                offset_minutes: off as i16,
            },
            i11,
        ))
    } else {
        None
    }
}

/// How many days the given month of the given year has.
pub fn days_in_month_exec(y: i32, m: u8) -> (r: u8)
    requires
        0 <= y,
    ensures
        r as int == days_in_month(y as int, m as int),
{
    if m == 2 {
        if y % 4 == 0 && (y % 100 != 0 || y % 400 == 0) {
            29
        } else {
            28
        }
    } else if m == 4 || m == 6 || m == 9 || m == 11 {
        30
    } else {
        31
    }
}

fn scan_span(line: &Vec<char>, i: usize) -> (r: Option<(Span, usize)>)
    requires
        i <= line.len(),
    ensures
        match r {
            Some(p) => parse_span(line@, i as int) == Some((p.0, p.1 as int)) && i <= p.1
                <= line.len(),
            None => parse_span(line@, i as int) is None,
        },
{
    let (start, i1) = match scan_timestamp(line, i) {
        Some(p) => p,
        None => { return None; },
    };
    let j = scan_hs(line, i1);
    if line.len() - j >= 2 && line[j] == '.' && line[j + 1] == '.' {
        match scan_timestamp(line, j + 2) {
            Some((end, k)) => Some((Span::Closed { start, end }, k)),
            None => Some((Span::Active { start }, j + 2)),
        }
    } else {
        None
    }
}

fn scan_tag_list(line: &Vec<char>, i: usize) -> (r: Option<(Vec<String>, usize)>)
    requires
        i <= line.len(),
    ensures
        match r {
            Some(p) => parse_tag_list(line@, i as int) == Some((p.0.deep_view(), p.1 as int)) && i
                <= p.1 <= line.len(),
            None => parse_tag_list(line@, i as int) is None,
        },
    decreases line.len() - i,
{
    let e = scan_tag_run(line, i);
    if e == i || e == line.len() {
        return None;
    }
    let tag = substring(line, i, e);
    if line[e] == ')' {
        let mut v: Vec<String> = Vec::new();
        v.push(tag);
        assert(v.deep_view() =~= seq![line@.subrange(i as int, e as int)]);
        Some((v, e + 1))
    } else {
        match scan_tag_list(line, e + 1) {
            None => None,
            Some((mut rest, k)) => {
                rest.insert(0, tag);
                assert(rest.deep_view() =~= seq![line@.subrange(i as int, e as int)]
                    + parse_tag_list(line@, e + 1 as int).unwrap().0);
                Some((rest, k))
            },
        }
    }
}

fn scan_comments(line: &Vec<char>, i: usize) -> (r: (Vec<String>, usize))
    requires
        i <= line.len(),
    ensures
        parse_comment_seq(line@, i as int) == (r.0.deep_view(), r.1 as int),
        i <= r.1 <= line.len(),
    decreases line.len() - i,
{
    if i < line.len() && line[i] == '#' {
        let e = scan_comment_run(line, i + 1);
        let text = substring(line, i + 1, e);
        let (mut rest, k) = scan_comments(line, e);
        rest.insert(0, text);
        assert(rest.deep_view() =~= seq![line@.subrange(i + 1 as int, e as int)]
            + parse_comment_seq(line@, e as int).0);
        (rest, k)
    } else {
        let v: Vec<String> = Vec::new();
        assert(v.deep_view() =~= Seq::<Seq<char>>::empty());
        (v, i)
    }
}

/// Parses one line; yields an entry only when the whole line matches the
/// entry grammar followed by optional horizontal whitespace.
fn scan_line(line: &Vec<char>) -> (r: Option<Entry>)
    ensures
        match r {
            Some(e) => parse_line(line@) == Some(e.deep_view()),
            None => parse_line(line@) is None,
        },
{
    let (span, i) = match scan_span(line, 0) {
        Some(p) => p,
        None => { return None; },
    };
    let j = scan_hs(line, i);
    let (tags, j2) = if j < line.len() && line[j] == '(' {
        match scan_tag_list(line, j + 1) {
            Some((tags, k)) => (tags, k),
            None => (Vec::new(), j),
        }
    } else {
        (Vec::new(), j)
    };
    let j3 = scan_hs(line, j2);
    let (comments, j4) = scan_comments(line, j3);
    let j5 = scan_hs(line, j4);
    if j5 == line.len() {
        proof {
            let t = parse_tags(line@, i as int);
            assert(t.0 =~= tags.deep_view());
        }
        Some(Entry { span, tags, comments })
    } else {
        None
    }
}

/// Parses whole-file text into the ordered entry sequence. Lines that do
/// not match the entry grammar are silently treated as empty.
pub fn parse(text: &str) -> (r: Vec<Entry>)
    ensures
        r.deep_view() == parse_text(text@),
{
    let n = text.unicode_len();
    let mut chars: Vec<char> = Vec::new();
    let mut i: usize = 0;
    while i < n
        invariant
            i <= n,
            n == text@.len(),
            chars@ == text@.subrange(0, i as int),
        decreases n - i,
    {
        chars.push(text.get_char(i));
        assert(chars@ =~= text@.subrange(0, i + 1 as int));
        i = i + 1;
    }
    assert(chars@ =~= text@);
    parse_chars(&chars)
}

/// Extracts the line that starts at `pos`: its text (without terminator),
/// the position after its terminator, and whether it was the last line.
fn take_line(text: &Vec<char>, pos: usize) -> (r: (Vec<char>, usize, bool))
    requires
        pos <= text.len(),
    ensures
        ({
            let rest = text@.subrange(pos as int, text@.len() as int);
            &&& pos <= r.1 <= text@.len()
            &&& r.2 ==> r.1 == text@.len() && split_lines(rest) == seq![r.0@]
            &&& !r.2 ==> pos < r.1 && split_lines(rest) == seq![r.0@] + split_lines(
                text@.subrange(r.1 as int, text@.len() as int),
            )
        }),
{
    let n = text.len();
    let mut p = pos;
    while p < n && text[p] != '\n'
        invariant
            pos <= p <= n,
            n == text@.len(),
            no_nl_run(text@, pos as int) == (p - pos) + no_nl_run(text@, p as int),
        decreases n - p,
    {
        p = p + 1;
    }
    // strip one carriage return just before the line feed
    let q = if p > pos && text[p - 1] == '\r' {
        p - 1
    } else {
        p
    };
    let mut line: Vec<char> = Vec::new();
    let mut k = pos;
    while k < q
        invariant
            pos <= k <= q <= n,
            n == text@.len(),
            line@ == text@.subrange(pos as int, k as int),
        decreases q - k,
    {
        line.push(text[k]);
        assert(line@ =~= text@.subrange(pos as int, k + 1 as int));
        k = k + 1;
    }
    proof {
        lemma_split_head(text@, pos as int, p as int);
        let raw = text@.subrange(pos as int, p as int);
        if raw.len() > 0 && raw.last() == '\r' {
            assert(line@ =~= raw.drop_last());
        } else {
            assert(line@ =~= raw);
        }
    }
    if p == n {
        (line, n, true)
    } else {
        (line, p + 1, false)
    }
}

fn parse_chars(text: &Vec<char>) -> (r: Vec<Entry>)
    ensures
        r.deep_view() == parse_text(text@),
{
    let mut out: Vec<Entry> = Vec::new();
    let n = text.len();
    let mut pos: usize = 0;
    proof {
        assert(text@.subrange(0, n as int) =~= text@);
        assert(out.deep_view() =~= Seq::<EntryView>::empty());
        assert(out.deep_view() + parse_entries(split_lines(text@)) =~= parse_entries(
            split_lines(text@),
        ));
    }
    loop
        invariant
            pos <= n,
            n == text@.len(),
            parse_text(text@) == out.deep_view() + parse_entries(
                split_lines(text@.subrange(pos as int, n as int)),
            ),
        decreases n - pos + 1,
    {
        let (line, next, last) = take_line(text, pos);
        let ghost out_before = out.deep_view();
        let ghost tail_lines: Seq<Seq<char>> = if last {
            Seq::empty()
        } else {
            split_lines(text@.subrange(next as int, n as int))
        };
        proof {
            if last {
                assert(seq![line@] + Seq::<Seq<char>>::empty() =~= seq![line@]);
            }
        }
        match scan_line(&line) {
            Some(e) => {
                out.push(e);
                proof {
                    assert(out.deep_view() =~= out_before.push(e.deep_view()));
                    lemma_parse_step(out_before, line@, tail_lines, e.deep_view());
                }
            },
            None => {
                proof {
                    lemma_parse_step_none(out_before, line@, tail_lines);
                }
            },
        }
        if last {
            proof {
                assert(parse_entries(Seq::<Seq<char>>::empty()) == Seq::<EntryView>::empty());
                assert(out.deep_view() + Seq::<EntryView>::empty() =~= out.deep_view());
            }
            return out;
        }
        pos = next;
    }
}

/// One step of the accumulation: consuming a line that parses to an entry
/// moves that entry from the pending lines to the finished prefix.
proof fn lemma_parse_step(out_b: Seq<EntryView>, line: Seq<char>, tail: Seq<Seq<char>>, e: EntryView)
    requires
        parse_line(line) == Some(e),
    ensures
        out_b + parse_entries(seq![line] + tail) == out_b.push(e) + parse_entries(tail),
{
    lemma_parse_entries_cons(line, tail);
    assert(out_b + (seq![e] + parse_entries(tail)) =~= out_b.push(e) + parse_entries(tail));
}

/// One step of the accumulation: a line that parses to nothing leaves both
/// the finished prefix and the pending entries unchanged.
proof fn lemma_parse_step_none(out_b: Seq<EntryView>, line: Seq<char>, tail: Seq<Seq<char>>)
    requires
        parse_line(line) is None,
    ensures
        out_b + parse_entries(seq![line] + tail) == out_b + parse_entries(tail),
{
    lemma_parse_entries_cons(line, tail);
}

/// Unfolds one step of `split_lines` on the suffix of `text` at `pos`,
/// where `p` is the position of the next line feed (or the text's end).
proof fn lemma_split_head(text: Seq<char>, pos: int, p: int)
    requires
        0 <= pos <= p <= text.len(),
        no_nl_run(text, pos) == (p - pos) + no_nl_run(text, p),
        p == text.len() || text[p] == '\n',
    ensures
        ({
            let rest = text.subrange(pos, text.len() as int);
            let raw = text.subrange(pos, p);
            let line = if raw.len() > 0 && raw.last() == '\r' {
                raw.drop_last()
            } else {
                raw
            };
            if p == text.len() {
                split_lines(rest) == seq![line]
            } else {
                split_lines(rest) == seq![line] + split_lines(
                    text.subrange(p + 1, text.len() as int),
                )
            }
        }),
{
    let rest = text.subrange(pos, text.len() as int);
    lemma_no_nl_run_shift(text, pos, p);
    let raw = text.subrange(pos, p);
    assert(rest.subrange(0, p - pos) =~= raw);
    let line = if raw.len() > 0 && raw.last() == '\r' {
        raw.drop_last()
    } else {
        raw
    };
    if p == text.len() {
        assert(split_lines(rest) =~= seq![line]);
    } else {
        let tail = text.subrange(p + 1, text.len() as int);
        assert(rest.subrange(p - pos + 1, rest.len() as int) =~= tail);
        assert(split_lines(rest) =~= seq![line] + split_lines(tail));
    }
}

/// Unfolds `parse_entries` over a sequence of lines with an explicit head.
proof fn lemma_parse_entries_cons(l: Seq<char>, ls: Seq<Seq<char>>)
    ensures
        parse_entries(seq![l] + ls) == match parse_line(l) {
            Some(e) => seq![e] + parse_entries(ls),
            None => parse_entries(ls),
        },
{
    assert((seq![l] + ls)[0] == l);
    assert((seq![l] + ls).skip(1) =~= ls);
}

/// Relates the no-line-feed run seen from inside a suffix to the run seen
/// from the whole text.
proof fn lemma_no_nl_run_shift(s: Seq<char>, pos: int, p: int)
    requires
        0 <= pos <= p <= s.len(),
        no_nl_run(s, pos) == (p - pos) + no_nl_run(s, p),
        p == s.len() || s[p] == '\n',
    ensures
        no_nl_run(s.subrange(pos, s.len() as int), 0) == p - pos,
{
    let rest = s.subrange(pos, s.len() as int);
    assert(no_nl_run(s, p) == 0);
    lemma_no_nl_run_subrange(s, pos, pos);
}

/// The no-line-feed run of a suffix matches the run of the whole text.
proof fn lemma_no_nl_run_subrange(s: Seq<char>, pos: int, i: int)
    requires
        0 <= pos <= i <= s.len(),
    ensures
        no_nl_run(s.subrange(pos, s.len() as int), i - pos) == no_nl_run(s, i),
    decreases s.len() - i,
{
    let rest = s.subrange(pos, s.len() as int);
    if i < s.len() && s[i] != '\n' {
        lemma_no_nl_run_subrange(s, pos, i + 1);
    }
}

} // verus!

//! The canonical text rendering of entries, and its mathematical
//! specification. One entry becomes one line:
//!
//! `<start> ".." [<end>] ["(" tag ("," tag)* ")"] ("#" comment)*`
//!
//! where a timestamp is `YEAR-MONTH-DAY HOUR:MINUTE:SECOND <sign>HHMM`.
use vstd::prelude::*;

use crate::model::Entry;
use crate::model::EntryView;
use crate::model::Span;
use crate::model::Timestamp;

verus! {

/// The decimal digit character for `d`, for `d` between 0 and 9.
pub open spec fn digit_char(d: int) -> char {
    if d == 0 { '0' }
    else if d == 1 { '1' }
    else if d == 2 { '2' }
    else if d == 3 { '3' }
    else if d == 4 { '4' }
    else if d == 5 { '5' }
    else if d == 6 { '6' }
    else if d == 7 { '7' }
    else if d == 8 { '8' }
    else { '9' }
}

/// The shortest decimal numeral for a non-negative `n`.
pub open spec fn dec_rep(n: int) -> Seq<char>
    decreases n,
{
    if n < 10 {
        seq![digit_char(n)]
    } else {
        dec_rep(n / 10).push(digit_char(n % 10))
    }
}

/// A decimal numeral padded with `0` to at least two places.
pub open spec fn pad2(n: int) -> Seq<char> {
    if 0 <= n < 10 {
        seq!['0'] + dec_rep(n)
    } else {
        dec_rep(n)
    }
}

/// A signed decimal numeral: a `-` before the magnitude when negative.
pub open spec fn signed_rep(n: int) -> Seq<char> {
    if n < 0 {
        seq!['-'] + dec_rep(-n)
    } else {
        dec_rep(n)
    }
}

/// The calendar-date part of a timestamp's text.
pub open spec fn date_text(t: Timestamp) -> Seq<char> {
    signed_rep(t.year as int) + seq!['-'] + dec_rep(t.month as int) + seq!['-'] + dec_rep(t.day as int)
}

/// The wall-clock part of a timestamp's text.
pub open spec fn time_text(t: Timestamp) -> Seq<char> {
    dec_rep(t.hour as int) + seq![':'] + pad2(t.minute as int) + seq![':'] + pad2(t.second as int)
}

/// The UTC-offset part: a sign and four digits encoding hours and minutes.
pub open spec fn offset_text(t: Timestamp) -> Seq<char> {
    let off = if t.offset_minutes < 0 { -(t.offset_minutes as int) } else { t.offset_minutes as int };
    let sign = if t.offset_minutes < 0 { '-' } else { '+' };
    seq![sign] + pad2(off / 60) + pad2(off % 60)
}

/// The canonical text of one timestamp.
pub open spec fn ts_text(t: Timestamp) -> Seq<char> {
    date_text(t) + seq![' '] + time_text(t) + seq![' '] + offset_text(t)
}

/// The canonical text of a span: the start, `..`, and the end if closed.
pub open spec fn span_text(s: Span) -> Seq<char> {
    match s {
        Span::Active { start } => ts_text(start) + seq!['.', '.'],
        Span::Closed { start, end } => ts_text(start) + seq!['.', '.'] + ts_text(end),
    }
}

/// The `,`-prefixed continuation of a tag list, one piece per tag.
pub open spec fn tags_tail_text(tags: Seq<Seq<char>>) -> Seq<char>
    decreases tags.len(),
{
    if tags.len() == 0 {
        Seq::empty()
    } else {
        tags_tail_text(tags.drop_last()) + seq![','] + tags.last()
    }
}

/// The parenthesized, comma-joined tag list; empty when there are no tags.
/// Tag text is not escaped: tags must not contain `,` or `)`.
pub open spec fn tags_text(tags: Seq<Seq<char>>) -> Seq<char> {
    if tags.len() == 0 {
        Seq::empty()
    } else {
        seq!['('] + tags[0] + tags_tail_text(tags.skip(1)) + seq![')']
    }
}

/// How one comment character is written: `\` doubles, and `#`, carriage
/// return and line feed gain a backslash (the latter two as `\r` and `\n`).
pub open spec fn escape_char(c: char) -> Seq<char> {
    match c {
        '\\' => seq!['\\', '\\'],
        '#' => seq!['\\', '#'],
        '\r' => seq!['\\', 'r'],
        '\n' => seq!['\\', 'n'],
        _ => seq![c],
    }
}

/// A comment's text after escaping, character by character.
pub open spec fn escape_comment(s: Seq<char>) -> Seq<char>
    decreases s.len(),
{
    if s.len() == 0 {
        Seq::empty()
    } else {
        escape_comment(s.drop_last()) + escape_char(s.last())
    }
}

/// The comments' text: each one `#`-prefixed and escaped.
pub open spec fn comments_text(cs: Seq<Seq<char>>) -> Seq<char>
    decreases cs.len(),
{
    if cs.len() == 0 {
        Seq::empty()
    } else {
        comments_text(cs.drop_last()) + seq!['#'] + escape_comment(cs.last())
    }
}

/// The canonical line for one entry, without its line terminator.
pub open spec fn entry_line_text(e: EntryView) -> Seq<char> {
    span_text(e.span) + tags_text(e.tags) + comments_text(e.comments)
}

/// The whole store's text: one line per entry, each ended by a line feed.
pub open spec fn store_text(es: Seq<EntryView>) -> Seq<char>
    decreases es.len(),
{
    if es.len() == 0 {
        Seq::empty()
    } else {
        store_text(es.drop_last()) + entry_line_text(es.last()) + seq!['\n']
    }
}

fn push_digit(out: &mut Vec<char>, d: u64)
    requires
        d < 10,
    ensures
        final(out)@ == old(out)@.push(digit_char(d as int)),
{
    let c = match d {
        0 => '0',
        1 => '1',
        2 => '2',
        3 => '3',
        4 => '4',
        5 => '5',
        6 => '6',
        7 => '7',
        8 => '8',
        _ => '9',
    };
    out.push(c);
}

pub(crate) fn push_dec(out: &mut Vec<char>, n: u64)
    ensures
        final(out)@ == old(out)@ + dec_rep(n as int),
    decreases n,
{
    if n < 10 {
        push_digit(out, n);
        assert(out@ =~= old(out)@ + dec_rep(n as int));
    } else {
        push_dec(out, n / 10);
        push_digit(out, n % 10);
        assert(out@ =~= old(out)@ + dec_rep(n as int));
    }
}

fn push_pad2(out: &mut Vec<char>, n: u64)
    ensures
        final(out)@ == old(out)@ + pad2(n as int),
{
    if n < 10 {
        out.push('0');
        push_digit(out, n);
        assert(out@ =~= old(out)@ + pad2(n as int));
    } else {
        push_dec(out, n);
    }
}

fn push_signed(out: &mut Vec<char>, n: i64)
    requires
        -0xffff_ffff <= n <= 0xffff_ffff,
    ensures
        final(out)@ == old(out)@ + signed_rep(n as int),
{
    if n < 0 {
        out.push('-');
        push_dec(out, (-n) as u64);
        assert(out@ =~= old(out)@ + signed_rep(n as int));
    } else {
        push_dec(out, n as u64);
    }
}

#[verifier::rlimit(60)]
pub(crate) fn push_timestamp(out: &mut Vec<char>, t: &Timestamp)
    ensures
        final(out)@ == old(out)@ + ts_text(*t),
{
    let ghost o0 = out@;
    push_signed(out, t.year as i64);
    out.push('-');
    push_dec(out, t.month as u64);
    out.push('-');
    push_dec(out, t.day as u64);
    assert(out@ =~= o0 + date_text(*t));
    out.push(' ');
    let ghost o1 = out@;
    push_dec(out, t.hour as u64);
    out.push(':');
    push_pad2(out, t.minute as u64);
    out.push(':');
    push_pad2(out, t.second as u64);
    assert(out@ =~= o1 + time_text(*t));
    out.push(' ');
    let ghost o2 = out@;
    let off: i32 = t.offset_minutes as i32;
    let mag: u32 = if off < 0 {
        out.push('-');
        (-off) as u32
    } else {
        out.push('+');
        off as u32
    };
    push_pad2(out, (mag / 60) as u64);
    push_pad2(out, (mag % 60) as u64);
    assert(out@ =~= o2 + offset_text(*t));
    assert(out@ =~= old(out)@ + ts_text(*t));
}

fn push_span(out: &mut Vec<char>, s: &Span)
    ensures
        final(out)@ == old(out)@ + span_text(*s),
{
    match s {
        Span::Active { start } => {
            push_timestamp(out, start);
            out.push('.');
            out.push('.');
            assert(out@ =~= old(out)@ + span_text(*s));
        },
        Span::Closed { start, end } => {
            push_timestamp(out, start);
            out.push('.');
            out.push('.');
            push_timestamp(out, end);
            assert(out@ =~= old(out)@ + span_text(*s));
        },
    }
}

/// Appends every character of `s` to `out`.
pub(crate) fn push_chars(out: &mut Vec<char>, s: &str)
    ensures
        final(out)@ == old(out)@ + s@,
{
    let n = s.unicode_len();
    let mut i: usize = 0;
    while i < n
        invariant
            n == s@.len(),
            i <= n,
            out@ == old(out)@ + s@.subrange(0, i as int),
        decreases n - i,
    {
        let c = s.get_char(i);
        out.push(c);
        assert(out@ =~= old(out)@ + s@.subrange(0, i + 1 as int));
        i = i + 1;
    }
    assert(out@ =~= old(out)@ + s@);
}

/// Appends the escaped form of comment text `s` to `out`.
fn push_escaped(out: &mut Vec<char>, s: &str)
    ensures
        final(out)@ == old(out)@ + escape_comment(s@),
{
    let n = s.unicode_len();
    let mut i: usize = 0;
    while i < n
        invariant
            n == s@.len(),
            i <= n,
            out@ == old(out)@ + escape_comment(s@.subrange(0, i as int)),
        decreases n - i,
    {
        let c = s.get_char(i);
        if c == '\\' {
            out.push('\\');
            out.push('\\');
        } else if c == '#' {
            out.push('\\');
            out.push('#');
        } else if c == '\r' {
            out.push('\\');
            out.push('r');
        } else if c == '\n' {
            out.push('\\');
            out.push('n');
        } else {
            out.push(c);
        }
        proof {
            let pre = s@.subrange(0, i as int);
            let post = s@.subrange(0, i + 1 as int);
            assert(post.drop_last() =~= pre);
            assert(post.last() == s@[i as int]);
            assert(out@ =~= old(out)@ + escape_comment(post));
        }
        i = i + 1;
    }
    assert(s@.subrange(0, n as int) =~= s@);
}

/// Appends the canonical line for `e`, without a line terminator.
fn push_entry_line(out: &mut Vec<char>, e: &Entry)
    ensures
        final(out)@ == old(out)@ + entry_line_text(e.deep_view()),
{
    push_span(out, &e.span);
    let ghost mid0 = out@;
    let ntags = e.tags.len();
    if ntags > 0 {
        out.push('(');
        push_chars(out, e.tags[0].as_str());
        let mut i: usize = 1;
        while i < ntags
            invariant
                1 <= i <= ntags,
                ntags == e.tags@.len(),
                out@ == mid0 + seq!['('] + e.tags.deep_view()[0] + tags_tail_text(
                    e.tags.deep_view().subrange(1, i as int),
                ),
            decreases ntags - i,
        {
            out.push(',');
            push_chars(out, e.tags[i].as_str());
            proof {
                let tv = e.tags.deep_view();
                assert(tv.subrange(1, i + 1 as int).drop_last() =~= tv.subrange(1, i as int));
                assert(tv.subrange(1, i + 1 as int).last() == tv[i as int]);
                assert(out@ =~= mid0 + seq!['('] + tv[0] + tags_tail_text(tv.subrange(1, i + 1 as int)));
            }
            i = i + 1;
        }
        out.push(')');
        proof {
            let tv = e.tags.deep_view();
            assert(tv.subrange(1, ntags as int) =~= tv.skip(1));
            assert(out@ =~= mid0 + tags_text(tv));
        }
    } else {
        assert(out@ =~= mid0 + tags_text(e.tags.deep_view()));
    }
    let ghost mid1 = out@;
    let ncom = e.comments.len();
    let mut j: usize = 0;
    while j < ncom
        invariant
            j <= ncom,
            ncom == e.comments@.len(),
            out@ == mid1 + comments_text(e.comments.deep_view().subrange(0, j as int)),
        decreases ncom - j,
    {
        out.push('#');
        push_escaped(out, e.comments[j].as_str());
        proof {
            let cv = e.comments.deep_view();
            assert(cv.subrange(0, j + 1 as int).drop_last() =~= cv.subrange(0, j as int));
            assert(cv.subrange(0, j + 1 as int).last() == cv[j as int]);
            assert(out@ =~= mid1 + comments_text(cv.subrange(0, j + 1 as int)));
        }
        j = j + 1;
    }
    proof {
        let cv = e.comments.deep_view();
        assert(cv.subrange(0, ncom as int) =~= cv);
        assert(out@ =~= old(out)@ + entry_line_text(e.deep_view()));
    }
}

/// Relies on `String`'s `FromIterator` over `char`: collecting characters
/// concatenates exactly those characters, in order, into one string.
#[verifier::external_body]
pub(crate) fn chars_to_string(v: &Vec<char>) -> (r: String)
    ensures
        r@ == v@,
{
    v.iter().collect()
}

/// The canonical line for one entry, without a line terminator.
pub fn serialize_entry(e: &Entry) -> (r: String)
    ensures
        r@ == entry_line_text(e.deep_view()),
{
    let mut out: Vec<char> = Vec::new();
    push_entry_line(&mut out, e);
    chars_to_string(&out)
}

/// The whole store's canonical text: one line per entry, each ended by a
/// line feed.
pub fn serialize(entries: &Vec<Entry>) -> (r: String)
    ensures
        r@ == store_text(entries.deep_view()),
{
    let mut out: Vec<char> = Vec::new();
    let n = entries.len();
    let mut i: usize = 0;
    while i < n
        invariant
            i <= n,
            n == entries@.len(),
            out@ == store_text(entries.deep_view().subrange(0, i as int)),
        decreases n - i,
    {
        push_entry_line(&mut out, &entries[i]);
        out.push('\n');
        proof {
            let ev = entries.deep_view();
            assert(ev.subrange(0, i + 1 as int).drop_last() =~= ev.subrange(0, i as int));
            assert(ev.subrange(0, i + 1 as int).last() == ev[i as int]);
            assert(out@ =~= store_text(ev.subrange(0, i + 1 as int)));
        }
        i = i + 1;
    }
    proof {
        assert(entries.deep_view().subrange(0, n as int) =~= entries.deep_view());
    }
    chars_to_string(&out)
}

} // verus!

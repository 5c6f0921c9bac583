//! The pure read-outs: per-entry report lines for `stats` and `status`,
//! including calendar arithmetic for the duration of a closed span.
use vstd::prelude::*;

use crate::model::Entry;
use crate::model::EntryView;
use crate::model::Span;
use crate::model::Timestamp;
use crate::model::days_in_month;
use crate::model::is_leap_year;
use crate::model::span_wf;
use crate::ser::dec_rep;
use crate::ser::tags_tail_text;
use crate::ser::ts_text;

verus! {

/// Days in all years before year `y`, counted from year 0.
pub open spec fn days_before_year(y: int) -> int
    decreases y,
{
    if y <= 0 {
        0
    } else {
        days_before_year(y - 1) + if is_leap_year(y - 1) {
            366int
        } else {
            365int
        }
    }
}

/// Days in all months of year `y` before month `m`.
pub open spec fn days_before_month(y: int, m: int) -> int
    decreases m,
{
    if m <= 1 {
        0
    } else {
        days_before_month(y, m - 1) + days_in_month(y, m - 1)
    }
}

/// The day number of a timestamp's date, counted from the first day of
/// year 0.
pub open spec fn day_number(t: Timestamp) -> int {
    days_before_year(t.year as int) + days_before_month(t.year as int, t.month as int) + t.day - 1
}

/// The second number of a timestamp on the UTC time line, counted from the
/// start of year 0: the local wall-clock seconds less the offset.
pub open spec fn second_number(t: Timestamp) -> int {
    day_number(t) * 86400 + t.hour * 3600 + t.minute * 60 + t.second - t.offset_minutes * 60
}

/// The signed length of a closed span in seconds.
pub open spec fn span_seconds(start: Timestamp, end: Timestamp) -> int {
    second_number(end) - second_number(start)
}

/// A duration as whole hours and leftover minutes, `1h30min` for 90
/// minutes. A negative duration signs each non-zero part.
pub open spec fn duration_text(secs: int) -> Seq<char> {
    let d = if secs < 0 {
        -secs
    } else {
        secs
    };
    let h = d / 3600;
    let m = (d / 60) % 60;
    (if secs < 0 && h > 0 {
        seq!['-']
    } else {
        Seq::empty()
    }) + dec_rep(h) + seq!['h'] + (if secs < 0 && m > 0 {
        seq!['-']
    } else {
        Seq::empty()
    }) + dec_rep(m) + seq!['m', 'i', 'n']
}

/// The duration column of a span: blank while the span is still active.
pub open spec fn span_duration_text(s: Span) -> Seq<char> {
    match s {
        Span::Active { .. } => Seq::empty(),
        Span::Closed { start, end } => duration_text(span_seconds(start, end)),
    }
}

/// The comma-joined tag list, without parentheses; empty when no tags.
pub open spec fn join_commas(tags: Seq<Seq<char>>) -> Seq<char> {
    if tags.len() == 0 {
        Seq::empty()
    } else {
        tags[0] + tags_tail_text(tags.skip(1))
    }
}

/// The comments re-prefixed with `#`, unescaped, run together.
pub open spec fn hash_comments(cs: Seq<Seq<char>>) -> Seq<char>
    decreases cs.len(),
{
    if cs.len() == 0 {
        Seq::empty()
    } else {
        hash_comments(cs.drop_last()) + seq!['#'] + cs.last()
    }
}

/// One `stats` line: start time, duration, parenthesized tag list and the
/// `#`-prefixed comments, tab-separated.
pub open spec fn stats_line_text(e: EntryView) -> Seq<char> {
    ts_text(e.span.spec_start()) + seq!['\t'] + span_duration_text(e.span) + seq!['\t', '(']
        + join_commas(e.tags) + seq![')', '\t'] + hash_comments(e.comments)
}

/// One `status` line for an active entry: its tags, start time and how
/// many comments it carries.
pub open spec fn status_line_text(e: EntryView) -> Seq<char> {
    "Tracking"@ + (if e.tags.len() > 0 {
        " ("@ + join_commas(e.tags) + ")"@
    } else {
        Seq::empty()
    }) + " since "@ + ts_text(e.span.spec_start()) + " ("@ + dec_rep(e.comments.len() as int)
        + " comments)"@
}

/// The `status` lines of the active entries, in file order.
pub open spec fn active_lines(es: Seq<EntryView>) -> Seq<Seq<char>>
    decreases es.len(),
{
    if es.len() == 0 {
        Seq::empty()
    } else {
        active_lines(es.drop_last()) + if es.last().span is Active {
            seq![status_line_text(es.last())]
        } else {
            Seq::empty()
        }
    }
}

/// What `status` reports: one line per active entry, or a single line
/// saying that no span is open.
pub open spec fn status_lines_text(es: Seq<EntryView>) -> Seq<Seq<char>> {
    if active_lines(es).len() == 0 {
        seq!["No open time spans."@]
    } else {
        active_lines(es)
    }
}

/// Days in all years before year `y`, counted from year 0.
fn day_count_before_year(y: i32) -> (r: u32)
    requires
        0 <= y <= 10000,
    ensures
        r == days_before_year(y as int),
        r <= 3660000,
{
    let mut total: u32 = 0;
    let mut i: i32 = 0;
    while i < y
        invariant
            0 <= i <= y <= 10000,
            total == days_before_year(i as int),
            total <= 366 * i,
        decreases y - i,
    {
        let leap = i % 4 == 0 && (i % 100 != 0 || i % 400 == 0);
        total = total + if leap {
            366
        } else {
            365
        };
        i = i + 1;
    }
    total
}

fn day_count_before_month(y: i32, m: u8) -> (r: u32)
    requires
        0 <= y,
        m <= 12,
    ensures
        r == days_before_month(y as int, m as int),
        r <= 372,
{
    let mut total: u32 = 0;
    let mut i: u8 = 1;
    if m < 1 {
        return 0;
    }
    while i < m
        invariant
            1 <= i <= m <= 12,
            0 <= y,
            total == days_before_month(y as int, i as int),
            total <= 31 * i,
        decreases m - i,
    {
        total = total + crate::parser::days_in_month_exec(y, i) as u32;
        i = i + 1;
    }
    total
}

/// The second number of a timestamp, counted from the start of year 0.
pub fn second_number_exec(t: &Timestamp) -> (r: i64)
    requires
        0 <= t.year <= 9999,
        t.month <= 12,
        1 <= t.day,
        -6039 <= t.offset_minutes <= 6039,
    ensures
        r == second_number(*t),
        0 <= r + 400000 <= 0x60_0000_0000,
{
    let days: u32 = day_count_before_year(t.year) + day_count_before_month(t.year, t.month)
        + t.day as u32 - 1;
    assert(days <= 3660000 + 372 + 255);
    let secs: i64 = days as i64 * 86400 + t.hour as i64 * 3600 + t.minute as i64 * 60
        + t.second as i64 - t.offset_minutes as i64 * 60;
    secs
}

/// The signed length of a closed span in seconds.
pub fn span_seconds_exec(start: &Timestamp, end: &Timestamp) -> (r: i64)
    requires
        0 <= start.year <= 9999,
        start.month <= 12,
        1 <= start.day,
        -6039 <= start.offset_minutes <= 6039,
        0 <= end.year <= 9999,
        end.month <= 12,
        1 <= end.day,
        -6039 <= end.offset_minutes <= 6039,
    ensures
        r == span_seconds(*start, *end),
        -0x61_0000_0000 <= r <= 0x61_0000_0000,
{
    second_number_exec(end) - second_number_exec(start)
}

fn push_duration(out: &mut Vec<char>, secs: i64)
    requires
        -0x61_0000_0000 <= secs <= 0x61_0000_0000,
    ensures
        final(out)@ == old(out)@ + duration_text(secs as int),
{
    let neg = secs < 0;
    let d: u64 = if neg {
        (-secs) as u64
    } else {
        secs as u64
    };
    let h: u64 = d / 3600;
    let m: u64 = (d / 60) % 60;
    if neg && h > 0 {
        out.push('-');
    }
    crate::ser::push_dec(out, h);
    out.push('h');
    if neg && m > 0 {
        out.push('-');
    }
    crate::ser::push_dec(out, m);
    out.push('m');
    out.push('i');
    out.push('n');
    assert(out@ =~= old(out)@ + duration_text(secs as int));
}

fn push_join_commas(out: &mut Vec<char>, tags: &Vec<String>)
    ensures
        final(out)@ == old(out)@ + join_commas(tags.deep_view()),
{
    let n = tags.len();
    if n == 0 {
        assert(out@ =~= old(out)@ + join_commas(tags.deep_view()));
        return ;
    }
    crate::ser::push_chars(out, tags[0].as_str());
    let mut i: usize = 1;
    while i < n
        invariant
            1 <= i <= n,
            n == tags@.len(),
            out@ == old(out)@ + tags.deep_view()[0] + tags_tail_text(
                tags.deep_view().subrange(1, i as int),
            ),
        decreases n - i,
    {
        out.push(',');
        crate::ser::push_chars(out, tags[i].as_str());
        proof {
            let tv = tags.deep_view();
            assert(tv.subrange(1, i + 1 as int).drop_last() =~= tv.subrange(1, i as int));
            assert(tv.subrange(1, i + 1 as int).last() == tv[i as int]);
            assert(out@ =~= old(out)@ + tv[0] + tags_tail_text(tv.subrange(1, i + 1 as int)));
        }
        i = i + 1;
    }
    proof {
        let tv = tags.deep_view();
        assert(tv.subrange(1, n as int) =~= tv.skip(1));
        assert(out@ =~= old(out)@ + join_commas(tv));
    }
}

/// One `stats` line for one entry.
pub fn stats_line(e: &Entry) -> (r: String)
    requires
        span_wf(e.span),
    ensures
        r@ == stats_line_text(e.deep_view()),
{
    let mut out: Vec<char> = Vec::new();
    let start = e.span.start();
    crate::ser::push_timestamp(&mut out, &start);
    out.push('\t');
    match &e.span {
        Span::Active { .. } => {},
        Span::Closed { start, end } => {
            let secs = span_seconds_exec(start, end);
            push_duration(&mut out, secs);
        },
    }
    out.push('\t');
    out.push('(');
    push_join_commas(&mut out, &e.tags);
    out.push(')');
    out.push('\t');
    let ghost mid = out@;
    let n = e.comments.len();
    let mut i: usize = 0;
    while i < n
        invariant
            i <= n,
            n == e.comments@.len(),
            out@ == mid + hash_comments(e.comments.deep_view().subrange(0, i as int)),
        decreases n - i,
    {
        out.push('#');
        crate::ser::push_chars(&mut out, e.comments[i].as_str());
        proof {
            let cv = e.comments.deep_view();
            assert(cv.subrange(0, i + 1 as int).drop_last() =~= cv.subrange(0, i as int));
            assert(cv.subrange(0, i + 1 as int).last() == cv[i as int]);
            assert(out@ =~= mid + hash_comments(cv.subrange(0, i + 1 as int)));
        }
        i = i + 1;
    }
    proof {
        assert(e.comments.deep_view().subrange(0, n as int) =~= e.comments.deep_view());
        assert(out@ =~= stats_line_text(e.deep_view()));
    }
    crate::ser::chars_to_string(&out)
}

/// The `stats` report: one line per entry, in file order. A pure read.
/// The calendar arithmetic behind the duration column asks for timestamps
/// in the store's supported range, which everything the parser produces
/// satisfies.
pub fn stats(entries: &Vec<Entry>) -> (r: Vec<String>)
    requires
        forall|i: int| 0 <= i < entries@.len() ==> span_wf(#[trigger] entries@[i].span),
    ensures
        r.deep_view() == entries.deep_view().map(|i: int, e: EntryView| stats_line_text(e)),
{
    let mut out: Vec<String> = Vec::new();
    let n = entries.len();
    let mut i: usize = 0;
    while i < n
        invariant
            i <= n,
            n == entries@.len(),
            forall|k: int| 0 <= k < n ==> span_wf(#[trigger] entries@[k].span),
            out.deep_view() == entries.deep_view().subrange(0, i as int).map(
                |j: int, e: EntryView| stats_line_text(e),
            ),
        decreases n - i,
    {
        let line = stats_line(&entries[i]);
        let ghost pre = out.deep_view();
        out.push(line);
        proof {
            assert(out.deep_view() =~= pre.push(stats_line_text(entries.deep_view()[i as int])));
            assert(out.deep_view() =~= entries.deep_view().subrange(0, i + 1 as int).map(
                |j: int, e: EntryView| stats_line_text(e),
            ));
        }
        i = i + 1;
    }
    proof {
        assert(entries.deep_view().subrange(0, n as int) =~= entries.deep_view());
    }
    out
}

/// One `status` line for an active entry.
fn status_line(e: &Entry) -> (r: String)
    ensures
        r@ == status_line_text(e.deep_view()),
{
    let mut out: Vec<char> = Vec::new();
    crate::ser::push_chars(&mut out, "Tracking");
    if e.tags.len() > 0 {
        crate::ser::push_chars(&mut out, " (");
        push_join_commas(&mut out, &e.tags);
        crate::ser::push_chars(&mut out, ")");
    }
    crate::ser::push_chars(&mut out, " since ");
    let start = e.span.start();
    crate::ser::push_timestamp(&mut out, &start);
    crate::ser::push_chars(&mut out, " (");
    crate::ser::push_dec(&mut out, e.comments.len() as u64);
    crate::ser::push_chars(&mut out, " comments)");
    assert(out@ =~= status_line_text(e.deep_view()));
    crate::ser::chars_to_string(&out)
}

/// The `status` report: one line per active entry, or a single line that
/// says no span is open. A pure read.
pub fn status(entries: &Vec<Entry>) -> (r: Vec<String>)
    ensures
        r.deep_view() == status_lines_text(entries.deep_view()),
{
    let mut out: Vec<String> = Vec::new();
    let n = entries.len();
    let mut i: usize = 0;
    while i < n
        invariant
            i <= n,
            n == entries@.len(),
            out.deep_view() == active_lines(entries.deep_view().subrange(0, i as int)),
        decreases n - i,
    {
        let ghost pre = out.deep_view();
        let ghost post_sub = entries.deep_view().subrange(0, i + 1 as int);
        proof {
            assert(post_sub.drop_last() =~= entries.deep_view().subrange(0, i as int));
            assert(post_sub.last() == entries.deep_view()[i as int]);
        }
        let e = &entries[i];
        let is_active = match e.span {
            Span::Active { .. } => true,
            Span::Closed { .. } => false,
        };
        if is_active {
            let line = status_line(e);
            out.push(line);
            proof {
                assert(out.deep_view() =~= pre.push(status_line_text(entries.deep_view()[i as int])));
                assert(out.deep_view() =~= active_lines(post_sub));
            }
        } else {
            proof {
                assert(pre + Seq::<Seq<char>>::empty() =~= pre);
                assert(out.deep_view() =~= active_lines(post_sub));
            }
        }
        i = i + 1;
    }
    proof {
        assert(entries.deep_view().subrange(0, n as int) =~= entries.deep_view());
    }
    if out.len() == 0 {
        let mut one: Vec<String> = Vec::new();
        one.push(crate::ser::chars_to_string(&str_chars("No open time spans.")));
        proof {
            assert(one.deep_view() =~= seq!["No open time spans."@]);
        }
        one
    } else {
        out
    }
}

/// The characters of a string slice, collected for building report text.
fn str_chars(s: &str) -> (r: Vec<char>)
    ensures
        r@ == s@,
{
    let mut out: Vec<char> = Vec::new();
    crate::ser::push_chars(&mut out, s);
    assert(out@ =~= s@);
    out
}

} // verus!

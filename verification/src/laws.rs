//! The library's general laws, stated and proved over the same spec
//! functions that the executable functions' contracts use: the serializer
//! and parser invert one another on clean entries, re-serialization is
//! idempotent, `stop` touches nothing it should not, and a negative filter
//! token matches exactly the entries lacking its tag.
use vstd::prelude::*;

use crate::cmd::filter_matches;
use crate::cmd::stop_entry;
use crate::cmd::token_matches;
use crate::model::EntryView;
use crate::model::Span;
use crate::model::Timestamp;
use crate::model::timestamp_wf;
use crate::parser::comment_run;
use crate::parser::digit_run;
use crate::parser::digit_val;
use crate::parser::digits_val;
use crate::parser::expect_char;
use crate::parser::hs_len;
use crate::parser::is_comment_char;
use crate::parser::is_digit;
use crate::parser::is_hspace;
use crate::parser::is_tag_char;
use crate::parser::no_nl_run;
use crate::parser::parse_comment_seq;
use crate::parser::parse_entries;
use crate::parser::parse_line;
use crate::parser::parse_num;
use crate::parser::parse_offset;
use crate::parser::parse_span;
use crate::parser::parse_tag_list;
use crate::parser::parse_tags;
use crate::parser::parse_text;
use crate::parser::parse_timestamp;
use crate::parser::split_lines;
use crate::ser::comments_text;
use crate::ser::date_text;
use crate::ser::dec_rep;
use crate::ser::digit_char;
use crate::ser::entry_line_text;
use crate::ser::escape_char;
use crate::ser::escape_comment;
use crate::ser::offset_text;
use crate::ser::pad2;
use crate::ser::signed_rep;
use crate::ser::span_text;
use crate::ser::store_text;
use crate::ser::tags_tail_text;
use crate::ser::tags_text;
use crate::ser::time_text;
use crate::ser::ts_text;

verus! {

/// A timestamp the canonical rendering reads back exactly: well-formed,
/// with an offset below 100 hours so its four digits carry minutes below
/// sixty.
pub open spec fn ts_clean(t: Timestamp) -> bool {
    timestamp_wf(t) && -5999 <= t.offset_minutes <= 5999
}

pub open spec fn span_clean(s: Span) -> bool {
    match s {
        Span::Active { start } => ts_clean(start),
        Span::Closed { start, end } => ts_clean(start) && ts_clean(end),
    }
}

/// A tag the rendering reads back exactly: non-empty, and free of the
/// list's own delimiters and of line terminators.
pub open spec fn tag_clean(s: Seq<char>) -> bool {
    s.len() > 0 && forall|i: int|
        0 <= i < s.len() ==> #[trigger] s[i] != ',' && s[i] != ')' && s[i] != '\n' && s[i] != '\r'
}

/// A comment the rendering reads back exactly: free of every character the
/// serializer would escape, since the parser does not unescape.
pub open spec fn comment_clean(s: Seq<char>) -> bool {
    forall|i: int|
        0 <= i < s.len() ==> #[trigger] s[i] != '#' && s[i] != '\\' && s[i] != '\n' && s[i] != '\r'
}

pub open spec fn entry_clean(e: EntryView) -> bool {
    &&& span_clean(e.span)
    &&& forall|i: int| 0 <= i < e.tags.len() ==> tag_clean(#[trigger] e.tags[i])
    &&& forall|i: int| 0 <= i < e.comments.len() ==> comment_clean(#[trigger] e.comments[i])
}

proof fn lemma_digit_char_val(d: int)
    requires
        0 <= d <= 9,
    ensures
        is_digit(digit_char(d)),
        digit_val(digit_char(d)) == d,
{
}

proof fn lemma_dec_rep_digits(n: int)
    requires
        n >= 0,
    ensures
        dec_rep(n).len() >= 1,
        forall|k: int| 0 <= k < dec_rep(n).len() ==> is_digit(#[trigger] dec_rep(n)[k]),
    decreases n,
{
    if n < 10 {
        lemma_digit_char_val(n);
    } else {
        lemma_dec_rep_digits(n / 10);
        lemma_digit_char_val(n % 10);
    }
}

proof fn lemma_pad2_digits(n: int)
    requires
        n >= 0,
    ensures
        pad2(n).len() >= 1,
        forall|k: int| 0 <= k < pad2(n).len() ==> is_digit(#[trigger] pad2(n)[k]),
{
    lemma_dec_rep_digits(n);
    if n < 10 {
        lemma_digit_char_val(0);
        assert(pad2(n)[0] == '0');
        assert(forall|k: int| 1 <= k < pad2(n).len() ==> pad2(n)[k] == dec_rep(n)[k - 1]);
    }
}

/// Two-digit form of a number below one hundred.
proof fn lemma_pad2_two(x: int)
    requires
        0 <= x <= 99,
    ensures
        pad2(x) == seq![digit_char(x / 10), digit_char(x % 10)],
{
    if x < 10 {
        assert(pad2(x) =~= seq![digit_char(x / 10), digit_char(x % 10)]);
    } else {
        assert(dec_rep(x / 10) =~= seq![digit_char(x / 10)]);
        assert(pad2(x) =~= seq![digit_char(x / 10), digit_char(x % 10)]);
    }
}

/// A maximal run of horizontal whitespace has exactly the length of the
/// whitespace actually present.
proof fn lemma_hs_exact(s: Seq<char>, i: int, l: int)
    requires
        0 <= i,
        0 <= l,
        i + l <= s.len(),
        forall|k: int| i <= k < i + l ==> is_hspace(#[trigger] s[k]),
        i + l == s.len() || !is_hspace(s[i + l]),
    ensures
        hs_len(s, i) == l,
    decreases l,
{
    if l > 0 {
        lemma_hs_exact(s, i + 1, l - 1);
    }
}

proof fn lemma_digit_run_exact(s: Seq<char>, i: int, l: int)
    requires
        0 <= i,
        0 <= l,
        i + l <= s.len(),
        forall|k: int| i <= k < i + l ==> is_digit(#[trigger] s[k]),
        i + l == s.len() || !is_digit(s[i + l]),
    ensures
        digit_run(s, i) == l,
    decreases l,
{
    if l > 0 {
        lemma_digit_run_exact(s, i + 1, l - 1);
    }
}

proof fn lemma_tag_run_exact(s: Seq<char>, i: int, l: int)
    requires
        0 <= i,
        0 <= l,
        i + l <= s.len(),
        forall|k: int| i <= k < i + l ==> is_tag_char(#[trigger] s[k]),
        i + l == s.len() || !is_tag_char(s[i + l]),
    ensures
        crate::parser::tag_run(s, i) == l,
    decreases l,
{
    if l > 0 {
        lemma_tag_run_exact(s, i + 1, l - 1);
    }
}

proof fn lemma_comment_run_exact(s: Seq<char>, i: int, l: int)
    requires
        0 <= i,
        0 <= l,
        i + l <= s.len(),
        forall|k: int| i <= k < i + l ==> is_comment_char(#[trigger] s[k]),
        i + l == s.len() || !is_comment_char(s[i + l]),
    ensures
        comment_run(s, i) == l,
    decreases l,
{
    if l > 0 {
        lemma_comment_run_exact(s, i + 1, l - 1);
    }
}

proof fn lemma_no_nl_run_exact(s: Seq<char>, i: int, l: int)
    requires
        0 <= i,
        0 <= l,
        i + l <= s.len(),
        forall|k: int| i <= k < i + l ==> #[trigger] s[k] != '\n',
        i + l == s.len() || s[i + l] == '\n',
    ensures
        no_nl_run(s, i) == l,
    decreases l,
{
    if l > 0 {
        lemma_no_nl_run_exact(s, i + 1, l - 1);
    }
}

/// The decimal digits written for `n` read back as the value `n`.
proof fn lemma_digits_val_dec_at(s: Seq<char>, i: int, n: int)
    requires
        n >= 0,
        0 <= i,
        i + dec_rep(n).len() <= s.len(),
        s.subrange(i, i + dec_rep(n).len() as int) == dec_rep(n),
    ensures
        digits_val(s, i, i + dec_rep(n).len() as int) == n,
    decreases n,
{
    let u = dec_rep(n);
    if n < 10 {
        assert(s[i] == u[0]);
        lemma_digit_char_val(n);
        assert(digits_val(s, i, i + 1) == digits_val(s, i, i) * 10 + digit_val(s[i]));
    } else {
        let u1 = dec_rep(n / 10);
        assert(u == u1.push(digit_char(n % 10)));
        assert(s.subrange(i, i + u1.len() as int) =~= u1);
        lemma_digits_val_dec_at(s, i, n / 10);
        assert(s[i + u.len() - 1] == u[u.len() - 1]);
        assert(u[u.len() - 1] == digit_char(n % 10));
        lemma_digit_char_val(n % 10);
        assert(digits_val(s, i, i + u.len() as int) == digits_val(s, i, i + u.len() - 1) * 10
            + digit_val(s[i + u.len() - 1]));
    }
}

/// The zero-padded two digits written for `x` read back as the value `x`.
proof fn lemma_digits_val_pad2_at(s: Seq<char>, i: int, x: int)
    requires
        0 <= x <= 99,
        0 <= i,
        i + 2 <= s.len(),
        s.subrange(i, i + 2) == pad2(x),
    ensures
        digits_val(s, i, i + 2) == x,
{
    lemma_pad2_two(x);
    assert(s[i] == digit_char(x / 10));
    assert(s[i + 1] == digit_char(x % 10));
    lemma_digit_char_val(x / 10);
    lemma_digit_char_val(x % 10);
    assert(digits_val(s, i, i + 2) == digits_val(s, i, i + 1) * 10 + digit_val(s[i + 1]));
    assert(digits_val(s, i, i + 1) == digits_val(s, i, i) * 10 + digit_val(s[i]));
}

/// Splits knowledge of a rendered concatenation into its two parts.
proof fn lemma_split_two(s: Seq<char>, i: int, a: Seq<char>, b: Seq<char>)
    requires
        0 <= i,
        i + a.len() + b.len() <= s.len(),
        s.subrange(i, i + a.len() + b.len()) == a + b,
    ensures
        s.subrange(i, i + a.len() as int) == a,
        s.subrange(i + a.len() as int, i + a.len() + b.len()) == b,
{
    let ab = a + b;
    assert(forall|j: int| 0 <= j < ab.len() ==> s[i + j] == #[trigger] ab[j]) by {
        assert(forall|j: int|
            0 <= j < ab.len() ==> s.subrange(i, i + a.len() + b.len())[j] == #[trigger] ab[j]);
    }
    assert(forall|k: int| 0 <= k < b.len() ==> s[i + a.len() + k] == #[trigger] b[k]) by {
        assert(forall|k: int| 0 <= k < b.len() ==> ab[a.len() + k] == #[trigger] b[k]);
    }
    assert(s.subrange(i, i + a.len() as int) =~= a);
    assert(s.subrange(i + a.len() as int, i + a.len() + b.len()) =~= b);
}

/// A number, preceded by `h` characters of horizontal whitespace and
/// written as the digits `u` of value `n`, parses to exactly `n`.
proof fn lemma_parse_num_at(s: Seq<char>, i: int, h: int, u: Seq<char>, n: int, max: int)
    requires
        0 <= i,
        0 <= h,
        0 <= n <= max,
        u.len() >= 1,
        i + h + u.len() <= s.len(),
        forall|k: int| i <= k < i + h ==> is_hspace(#[trigger] s[k]),
        s.subrange(i + h, i + h + u.len() as int) == u,
        forall|k: int| 0 <= k < u.len() ==> is_digit(#[trigger] u[k]),
        digits_val(s, i + h, i + h + u.len() as int) == n,
        i + h + u.len() == s.len() || !is_digit(s[i + h + u.len()]),
    ensures
        parse_num(s, i, max) == Some((n, i + h + u.len() as int)),
{
    assert(forall|k: int| 0 <= k < u.len() ==> s[i + h + k] == #[trigger] u[k]) by {
        assert(forall|k: int|
            0 <= k < u.len() ==> s.subrange(i + h, i + h + u.len() as int)[k] == #[trigger] u[k]);
    }
    assert(s[i + h] == u[0]);
    assert(is_digit(u[0]));
    assert(!is_hspace(s[i + h]));
    lemma_hs_exact(s, i, h);
    assert(forall|k: int| i + h <= k < i + h + u.len() ==> is_digit(#[trigger] s[k])) by {
        assert(forall|k: int| i + h <= k < i + h + u.len() ==> #[trigger] s[k] == u[k - i - h]);
    }
    lemma_digit_run_exact(s, i + h, u.len() as int);
}

/// A literal character, preceded by `h` characters of horizontal
/// whitespace, is found where it was written.
proof fn lemma_expect_at(s: Seq<char>, i: int, h: int, c: char)
    requires
        0 <= i,
        0 <= h,
        i + h < s.len(),
        forall|k: int| i <= k < i + h ==> is_hspace(#[trigger] s[k]),
        s[i + h] == c,
        !is_hspace(c),
    ensures
        expect_char(s, i, c) == Some(i + h + 1),
{
    lemma_hs_exact(s, i, h);
}

/// The single character of a rendered one-character piece.
proof fn lemma_single(s: Seq<char>, p: int, c: char)
    requires
        0 <= p < s.len(),
        s.subrange(p, p + 1) == seq![c],
    ensures
        s[p] == c,
{
    assert(s.subrange(p, p + 1)[0] == c);
}

/// The two characters of a rendered two-character piece.
proof fn lemma_pair(s: Seq<char>, p: int, c0: char, c1: char)
    requires
        0 <= p,
        p + 2 <= s.len(),
        s.subrange(p, p + 2) == seq![c0, c1],
    ensures
        s[p] == c0,
        s[p + 1] == c1,
{
    assert(s.subrange(p, p + 2)[0] == c0);
    assert(s.subrange(p, p + 2)[1] == c1);
}

/// A timestamp's canonical text, found anywhere in a line, parses back to
/// exactly that timestamp, consuming exactly its own characters.
#[verifier::rlimit(100)]
proof fn lemma_parse_timestamp_at(s: Seq<char>, i: int, t: Timestamp)
    requires
        ts_clean(t),
        0 <= i,
        i + ts_text(t).len() <= s.len(),
        s.subrange(i, i + ts_text(t).len() as int) == ts_text(t),
    ensures
        parse_timestamp(s, i) == Some((t, i + ts_text(t).len() as int)),
{
    let dy = dec_rep(t.year as int);
    let dmo = dec_rep(t.month as int);
    let dd = dec_rep(t.day as int);
    let dh = dec_rep(t.hour as int);
    let dmi = pad2(t.minute as int);
    let dse = pad2(t.second as int);
    let om = if t.offset_minutes < 0 {
        -(t.offset_minutes as int)
    } else {
        t.offset_minutes as int
    };
    let sign = if t.offset_minutes < 0 {
        '-'
    } else {
        '+'
    };
    assert(signed_rep(t.year as int) == dy);
    lemma_dec_rep_digits(t.year as int);
    lemma_dec_rep_digits(t.month as int);
    lemma_dec_rep_digits(t.day as int);
    lemma_dec_rep_digits(t.hour as int);
    lemma_pad2_two(t.minute as int);
    lemma_pad2_two(t.second as int);
    lemma_pad2_two(om / 60);
    lemma_pad2_two(om % 60);
    lemma_pad2_digits(t.minute as int);
    lemma_pad2_digits(t.second as int);
    let endp = i + ts_text(t).len() as int;
    // peel the three space-separated parts
    lemma_split_two(s, i, date_text(t) + seq![' '] + time_text(t) + seq![' '], offset_text(t));
    let p12 = i + (date_text(t) + seq![' '] + time_text(t) + seq![' ']).len() as int;
    lemma_split_two(s, i, date_text(t) + seq![' '] + time_text(t), seq![' ']);
    let p11 = i + (date_text(t) + seq![' '] + time_text(t)).len() as int;
    lemma_split_two(s, i, date_text(t) + seq![' '], time_text(t));
    let p6 = i + (date_text(t) + seq![' ']).len() as int;
    lemma_split_two(s, i, date_text(t), seq![' ']);
    let p5 = i + date_text(t).len() as int;
    // peel the date: year "-" month "-" day
    lemma_split_two(s, i, dy + seq!['-'] + dmo + seq!['-'], dd);
    let p4 = i + (dy + seq!['-'] + dmo + seq!['-']).len() as int;
    lemma_split_two(s, i, dy + seq!['-'] + dmo, seq!['-']);
    let p3 = i + (dy + seq!['-'] + dmo).len() as int;
    lemma_split_two(s, i, dy + seq!['-'], dmo);
    let p2 = i + (dy + seq!['-']).len() as int;
    lemma_split_two(s, i, dy, seq!['-']);
    let p1 = i + dy.len() as int;
    // peel the time: hour ":" minute ":" second
    lemma_split_two(s, p6, dh + seq![':'] + dmi + seq![':'], dse);
    let q4 = p6 + (dh + seq![':'] + dmi + seq![':']).len() as int;
    lemma_split_two(s, p6, dh + seq![':'] + dmi, seq![':']);
    let q3 = p6 + (dh + seq![':'] + dmi).len() as int;
    lemma_split_two(s, p6, dh + seq![':'], dmi);
    let q2 = p6 + (dh + seq![':']).len() as int;
    lemma_split_two(s, p6, dh, seq![':']);
    let q1 = p6 + dh.len() as int;
    // peel the offset: sign and four digits
    lemma_split_two(s, p12, seq![sign] + pad2(om / 60), pad2(om % 60));
    let r2 = p12 + 1 + 2;
    lemma_split_two(s, p12, seq![sign], pad2(om / 60));
    let r1 = p12 + 1;
    // the separators
    lemma_single(s, p1, '-');
    lemma_single(s, p3, '-');
    lemma_single(s, p5, ' ');
    lemma_single(s, q1, ':');
    lemma_single(s, q3, ':');
    lemma_single(s, p11, ' ');
    lemma_single(s, p12, sign);
    // the numbers
    lemma_digits_val_dec_at(s, i, t.year as int);
    lemma_parse_num_at(s, i, 0, dy, t.year as int, 9999);
    lemma_expect_at(s, p1, 0, '-');
    lemma_digits_val_dec_at(s, p2, t.month as int);
    lemma_parse_num_at(s, p2, 0, dmo, t.month as int, 12);
    lemma_expect_at(s, p3, 0, '-');
    lemma_digits_val_dec_at(s, p4, t.day as int);
    lemma_parse_num_at(s, p4, 0, dd, t.day as int, 31);
    lemma_digits_val_dec_at(s, p6, t.hour as int);
    assert(forall|k: int| p5 <= k < p5 + 1 ==> is_hspace(#[trigger] s[k]));
    lemma_parse_num_at(s, p5, 1, dh, t.hour as int, 23);
    lemma_expect_at(s, q1, 0, ':');
    lemma_digits_val_pad2_at(s, q2, t.minute as int);
    lemma_parse_num_at(s, q2, 0, dmi, t.minute as int, 59);
    lemma_expect_at(s, q3, 0, ':');
    lemma_digits_val_pad2_at(s, q4, t.second as int);
    lemma_parse_num_at(s, q4, 0, dse, t.second as int, 59);
    // the offset
    assert(forall|k: int| p11 <= k < p11 + 1 ==> is_hspace(#[trigger] s[k]));
    lemma_hs_exact(s, p11, 1);
    lemma_pair(s, r1, digit_char(om / 60 / 10), digit_char(om / 60 % 10));
    lemma_pair(s, r2, digit_char(om % 60 / 10), digit_char(om % 60 % 10));
    lemma_digit_char_val(om / 60 / 10);
    lemma_digit_char_val(om / 60 % 10);
    lemma_digit_char_val(om % 60 / 10);
    lemma_digit_char_val(om % 60 % 10);
    assert((digit_val(s[r1]) * 10 + digit_val(s[r1 + 1])) * 60 + digit_val(s[r2]) * 10
        + digit_val(s[r2 + 1]) == om);
    assert(parse_offset(s, p11) == Some((t.offset_minutes as int, endp)));
    assert(parse_timestamp(s, i) == Some((t, endp)));
}

/// A span's canonical text parses back to exactly that span. For an active
/// span the text must not be followed by anything that could begin an end
/// timestamp: the line's end, a tag list or a comment.
#[verifier::rlimit(100)]
proof fn lemma_parse_span_at(s: Seq<char>, i: int, sp: Span)
    requires
        span_clean(sp),
        0 <= i,
        i + span_text(sp).len() <= s.len(),
        s.subrange(i, i + span_text(sp).len() as int) == span_text(sp),
        sp is Active ==> (i + span_text(sp).len() == s.len() || s[i + span_text(sp).len()] == '('
            || s[i + span_text(sp).len()] == '#'),
    ensures
        parse_span(s, i) == Some((sp, i + span_text(sp).len() as int)),
{
    match sp {
        Span::Active { start } => {
            lemma_split_two(s, i, ts_text(start), seq!['.', '.']);
            let p = i + ts_text(start).len() as int;
            lemma_parse_timestamp_at(s, i, start);
            lemma_pair(s, p, '.', '.');
            assert(hs_len(s, p) == 0);
            let after = p + 2;
            // nothing that could begin a timestamp follows
            if after < s.len() {
                assert(s[after] == '(' || s[after] == '#');
                assert(hs_len(s, after) == 0);
                assert(digit_run(s, after) == 0);
            } else {
                assert(hs_len(s, after) == 0);
                assert(digit_run(s, after) == 0);
            }
            assert(parse_num(s, after, 9999) is None);
            assert(parse_timestamp(s, after) is None);
        },
        Span::Closed { start, end } => {
            lemma_split_two(s, i, ts_text(start) + seq!['.', '.'], ts_text(end));
            lemma_split_two(s, i, ts_text(start), seq!['.', '.']);
            let p = i + ts_text(start).len() as int;
            lemma_parse_timestamp_at(s, i, start);
            lemma_pair(s, p, '.', '.');
            assert(hs_len(s, p) == 0);
            lemma_parse_timestamp_at(s, p + 2, end);
        },
    }
}

/// The text of the inside of a tag list: the tags comma-joined, then the
/// closing parenthesis.
pub open spec fn tag_list_body(tags: Seq<Seq<char>>) -> Seq<char> {
    tags[0] + tags_tail_text(tags.skip(1)) + seq![')']
}

/// Unfolds the comma-joined continuation of a tag list at its front.
proof fn lemma_tags_tail_front(ts: Seq<Seq<char>>)
    requires
        ts.len() >= 1,
    ensures
        tags_tail_text(ts) == seq![','] + ts[0] + tags_tail_text(ts.skip(1)),
    decreases ts.len(),
{
    if ts.len() == 1 {
        assert(ts.drop_last().len() == 0);
        assert(ts.skip(1).len() == 0);
        assert(tags_tail_text(ts.drop_last()) == Seq::<char>::empty());
        assert(tags_tail_text(ts.skip(1)) == Seq::<char>::empty());
        assert(ts.last() == ts[0]);
        assert(tags_tail_text(ts) == tags_tail_text(ts.drop_last()) + seq![','] + ts.last());
        assert(tags_tail_text(ts) =~= seq![','] + ts[0] + tags_tail_text(ts.skip(1)));
    } else {
        lemma_tags_tail_front(ts.drop_last());
        assert(ts.drop_last()[0] == ts[0]);
        assert(ts.drop_last().skip(1) =~= ts.skip(1).drop_last());
        assert(ts.skip(1).last() == ts.last());
        assert(tags_tail_text(ts.skip(1)) == tags_tail_text(ts.skip(1).drop_last()) + seq![',']
            + ts.skip(1).last());
        assert(tags_tail_text(ts) =~= seq![','] + ts[0] + tags_tail_text(ts.skip(1)));
    }
}

/// The inside of a rendered tag list parses back to exactly those tags.
proof fn lemma_parse_tag_list_at(s: Seq<char>, i: int, tags: Seq<Seq<char>>)
    requires
        tags.len() >= 1,
        forall|k: int| 0 <= k < tags.len() ==> tag_clean(#[trigger] tags[k]),
        0 <= i,
        i + tag_list_body(tags).len() <= s.len(),
        s.subrange(i, i + tag_list_body(tags).len() as int) == tag_list_body(tags),
    ensures
        parse_tag_list(s, i) == Some((tags, i + tag_list_body(tags).len() as int)),
    decreases tags.len(),
{
    let t0 = tags[0];
    assert(tag_clean(t0));
    if tags.len() == 1 {
        assert(tags.skip(1).len() == 0);
        assert(tag_list_body(tags) =~= t0 + seq![')']);
        lemma_split_two(s, i, t0, seq![')']);
        let e = i + t0.len() as int;
        lemma_single(s, e, ')');
        assert(forall|k: int| i <= k < e ==> is_tag_char(#[trigger] s[k])) by {
            assert(forall|k: int| i <= k < e ==> #[trigger] s[k] == t0[k - i]);
        }
        lemma_tag_run_exact(s, i, t0.len() as int);
        assert(s.subrange(i, e) == t0);
        assert(seq![s.subrange(i, e)] =~= tags);
    } else {
        lemma_tags_tail_front(tags.skip(1));
        assert(tags.skip(1)[0] == tags[1]);
        assert(tags.skip(1).skip(1) =~= tags.skip(2));
        // body(tags) == t0 + "," + body(tags.skip(1))
        assert(tag_list_body(tags) =~= t0 + seq![','] + tag_list_body(tags.skip(1))) by {
            assert(tags.skip(1)[0] == tags[1]);
        }
        lemma_split_two(s, i, t0 + seq![','], tag_list_body(tags.skip(1)));
        lemma_split_two(s, i, t0, seq![',']);
        let e = i + t0.len() as int;
        lemma_single(s, e, ',');
        assert(forall|k: int| i <= k < e ==> is_tag_char(#[trigger] s[k])) by {
            assert(forall|k: int| i <= k < e ==> #[trigger] s[k] == t0[k - i]);
        }
        lemma_tag_run_exact(s, i, t0.len() as int);
        assert(s.subrange(i, e) == t0);
        lemma_parse_tag_list_at(s, e + 1, tags.skip(1));
        assert(seq![s.subrange(i, e)] + tags.skip(1) =~= tags);
    }
}

/// A rendered tag list at `i`, followed by a comment or the line's end,
/// parses back to exactly those tags; an absent tag list yields none.
proof fn lemma_parse_tags_at(s: Seq<char>, i: int, tags: Seq<Seq<char>>)
    requires
        forall|k: int| 0 <= k < tags.len() ==> tag_clean(#[trigger] tags[k]),
        0 <= i,
        i + tags_text(tags).len() <= s.len(),
        s.subrange(i, i + tags_text(tags).len() as int) == tags_text(tags),
        i + tags_text(tags).len() == s.len() || s[i + tags_text(tags).len()] == '#',
    ensures
        parse_tags(s, i) == (tags, i + tags_text(tags).len() as int),
{
    if tags.len() == 0 {
        assert(tags_text(tags).len() == 0);
        if i < s.len() {
            assert(s[i] == '#');
            assert(hs_len(s, i) == 0);
        } else {
            assert(hs_len(s, i) == 0);
        }
        assert(parse_tags(s, i) == (Seq::<Seq<char>>::empty(), i));
        assert(tags =~= Seq::<Seq<char>>::empty());
    } else {
        assert(tags_text(tags) =~= seq!['('] + tag_list_body(tags));
        lemma_split_two(s, i, seq!['('], tag_list_body(tags));
        lemma_single(s, i, '(');
        assert(hs_len(s, i) == 0);
        lemma_parse_tag_list_at(s, i + 1, tags);
    }
}

/// Escaping changes nothing in a clean comment.
proof fn lemma_escape_clean(c: Seq<char>)
    requires
        comment_clean(c),
    ensures
        escape_comment(c) == c,
    decreases c.len(),
{
    if c.len() == 0 {
        assert(escape_comment(c) =~= c);
    } else {
        assert(comment_clean(c.drop_last()));
        lemma_escape_clean(c.drop_last());
        assert(c.last() != '#' && c.last() != '\\' && c.last() != '\n' && c.last() != '\r');
        assert(escape_char(c.last()) == seq![c.last()]);
        assert(escape_comment(c) =~= c);
    }
}

/// Unfolds the comments' text at its front.
proof fn lemma_comments_front(cs: Seq<Seq<char>>)
    requires
        cs.len() >= 1,
    ensures
        comments_text(cs) == seq!['#'] + escape_comment(cs[0]) + comments_text(cs.skip(1)),
    decreases cs.len(),
{
    if cs.len() == 1 {
        assert(cs.skip(1).len() == 0);
        assert(comments_text(cs.drop_last()) == Seq::<char>::empty());
        assert(comments_text(cs.skip(1)) == Seq::<char>::empty());
        assert(cs.last() == cs[0]);
        assert(comments_text(cs) == comments_text(cs.drop_last()) + seq!['#'] + escape_comment(
            cs.last(),
        ));
        assert(comments_text(cs) =~= seq!['#'] + escape_comment(cs[0]) + comments_text(cs.skip(1)));
    } else {
        lemma_comments_front(cs.drop_last());
        assert(cs.drop_last()[0] == cs[0]);
        assert(cs.drop_last().skip(1) =~= cs.skip(1).drop_last());
        assert(cs.skip(1).last() == cs.last());
        assert(comments_text(cs.skip(1)) == comments_text(cs.skip(1).drop_last()) + seq!['#']
            + escape_comment(cs.skip(1).last()));
        assert(comments_text(cs) =~= seq!['#'] + escape_comment(cs[0]) + comments_text(cs.skip(1)));
    }
}

/// Rendered clean comments, standing at the end of the line, parse back to
/// exactly those comments.
proof fn lemma_parse_comments_at(s: Seq<char>, i: int, cs: Seq<Seq<char>>)
    requires
        forall|k: int| 0 <= k < cs.len() ==> comment_clean(#[trigger] cs[k]),
        0 <= i,
        i + comments_text(cs).len() == s.len(),
        s.subrange(i, i + comments_text(cs).len() as int) == comments_text(cs),
    ensures
        parse_comment_seq(s, i) == (cs, s.len() as int),
    decreases cs.len(),
{
    if cs.len() == 0 {
        assert(i == s.len());
        assert(parse_comment_seq(s, i) == (Seq::<Seq<char>>::empty(), i));
        assert(cs =~= Seq::<Seq<char>>::empty());
    } else {
        let c0 = cs[0];
        assert(comment_clean(c0));
        lemma_comments_front(cs);
        lemma_escape_clean(c0);
        assert(comments_text(cs) == seq!['#'] + c0 + comments_text(cs.skip(1)));
        lemma_split_two(s, i, seq!['#'] + c0, comments_text(cs.skip(1)));
        lemma_split_two(s, i, seq!['#'], c0);
        lemma_single(s, i, '#');
        let e = i + 1 + c0.len() as int;
        assert(forall|k: int| i + 1 <= k < e ==> is_comment_char(#[trigger] s[k])) by {
            assert(forall|k: int| i + 1 <= k < e ==> #[trigger] s[k] == c0[k - i - 1]);
        }
        if e < s.len() {
            // the next comment begins with its marker
            assert(comments_text(cs.skip(1)).len() > 0);
            assert(cs.skip(1).len() >= 1);
            lemma_comments_front(cs.skip(1));
            assert(s.subrange(e, s.len() as int)[0] == comments_text(cs.skip(1))[0]);
            assert(s[e] == '#');
            lemma_comment_run_exact(s, i + 1, c0.len() as int);
        } else {
            lemma_comment_run_exact(s, i + 1, c0.len() as int);
        }
        assert(s.subrange(i + 1, e) == c0);
        lemma_parse_comments_at(s, e, cs.skip(1));
        assert(seq![c0] + cs.skip(1) =~= cs);
    }
}


/// Text free of line terminators: it survives the line splitter intact.
pub open spec fn line_safe(u: Seq<char>) -> bool {
    forall|k: int| 0 <= k < u.len() ==> #[trigger] u[k] != '\n' && u[k] != '\r'
}

proof fn lemma_safe_concat(a: Seq<char>, b: Seq<char>)
    requires
        line_safe(a),
        line_safe(b),
    ensures
        line_safe(a + b),
{
    assert(forall|k: int| 0 <= k < a.len() + b.len() ==> #[trigger] (a + b)[k] != '\n' && (a + b)[k]
        != '\r') by {
        assert(forall|k: int| 0 <= k < a.len() ==> (a + b)[k] == a[k]);
        assert(forall|k: int| a.len() <= k < a.len() + b.len() ==> #[trigger] (a + b)[k] == b[k
            - a.len()]);
    }
}

proof fn lemma_dec_safe(n: int)
    requires
        n >= 0,
    ensures
        line_safe(dec_rep(n)),
        line_safe(pad2(n)),
{
    lemma_dec_rep_digits(n);
    lemma_pad2_digits(n);
}

proof fn lemma_ts_safe(t: Timestamp)
    requires
        t.year >= 0,
    ensures
        line_safe(ts_text(t)),
{
    let om = if t.offset_minutes < 0 {
        -(t.offset_minutes as int)
    } else {
        t.offset_minutes as int
    };
    lemma_dec_safe(t.year as int);
    lemma_dec_safe(t.month as int);
    lemma_dec_safe(t.day as int);
    lemma_dec_safe(t.hour as int);
    lemma_dec_safe(t.minute as int);
    lemma_dec_safe(t.second as int);
    lemma_dec_safe(om / 60);
    lemma_dec_safe(om % 60);
    assert(signed_rep(t.year as int) == dec_rep(t.year as int));
    lemma_safe_concat(dec_rep(t.year as int), seq!['-']);
    lemma_safe_concat(dec_rep(t.year as int) + seq!['-'], dec_rep(t.month as int));
    lemma_safe_concat(dec_rep(t.year as int) + seq!['-'] + dec_rep(t.month as int), seq!['-']);
    lemma_safe_concat(
        dec_rep(t.year as int) + seq!['-'] + dec_rep(t.month as int) + seq!['-'],
        dec_rep(t.day as int),
    );
    assert(line_safe(date_text(t)));
    lemma_safe_concat(dec_rep(t.hour as int), seq![':']);
    lemma_safe_concat(dec_rep(t.hour as int) + seq![':'], pad2(t.minute as int));
    lemma_safe_concat(dec_rep(t.hour as int) + seq![':'] + pad2(t.minute as int), seq![':']);
    lemma_safe_concat(
        dec_rep(t.hour as int) + seq![':'] + pad2(t.minute as int) + seq![':'],
        pad2(t.second as int),
    );
    assert(line_safe(time_text(t)));
    let sign = if t.offset_minutes < 0 {
        '-'
    } else {
        '+'
    };
    lemma_safe_concat(seq![sign], pad2(om / 60));
    lemma_safe_concat(seq![sign] + pad2(om / 60), pad2(om % 60));
    assert(line_safe(offset_text(t)));
    lemma_safe_concat(date_text(t), seq![' ']);
    lemma_safe_concat(date_text(t) + seq![' '], time_text(t));
    lemma_safe_concat(date_text(t) + seq![' '] + time_text(t), seq![' ']);
    lemma_safe_concat(date_text(t) + seq![' '] + time_text(t) + seq![' '], offset_text(t));
}

proof fn lemma_span_safe(sp: Span)
    requires
        span_clean(sp),
    ensures
        line_safe(span_text(sp)),
{
    match sp {
        Span::Active { start } => {
            lemma_ts_safe(start);
            lemma_safe_concat(ts_text(start), seq!['.', '.']);
        },
        Span::Closed { start, end } => {
            lemma_ts_safe(start);
            lemma_ts_safe(end);
            lemma_safe_concat(ts_text(start), seq!['.', '.']);
            lemma_safe_concat(ts_text(start) + seq!['.', '.'], ts_text(end));
        },
    }
}

proof fn lemma_tags_tail_safe(ts: Seq<Seq<char>>)
    requires
        forall|k: int| 0 <= k < ts.len() ==> tag_clean(#[trigger] ts[k]),
    ensures
        line_safe(tags_tail_text(ts)),
    decreases ts.len(),
{
    if ts.len() == 0 {
    } else {
        lemma_tags_tail_safe(ts.drop_last());
        assert(tag_clean(ts.last()));
        assert(line_safe(ts.last()));
        lemma_safe_concat(tags_tail_text(ts.drop_last()), seq![',']);
        lemma_safe_concat(tags_tail_text(ts.drop_last()) + seq![','], ts.last());
    }
}

proof fn lemma_tags_safe(ts: Seq<Seq<char>>)
    requires
        forall|k: int| 0 <= k < ts.len() ==> tag_clean(#[trigger] ts[k]),
    ensures
        line_safe(tags_text(ts)),
{
    if ts.len() > 0 {
        assert(forall|k: int| 0 <= k < ts.skip(1).len() ==> tag_clean(#[trigger] ts.skip(1)[k]));
        lemma_tags_tail_safe(ts.skip(1));
        assert(tag_clean(ts[0]));
        assert(line_safe(ts[0]));
        lemma_safe_concat(seq!['('], ts[0]);
        lemma_safe_concat(seq!['('] + ts[0], tags_tail_text(ts.skip(1)));
        lemma_safe_concat(seq!['('] + ts[0] + tags_tail_text(ts.skip(1)), seq![')']);
    }
}

proof fn lemma_escape_safe(c: Seq<char>)
    ensures
        line_safe(escape_comment(c)),
    decreases c.len(),
{
    if c.len() > 0 {
        lemma_escape_safe(c.drop_last());
        assert(line_safe(escape_char(c.last())));
        lemma_safe_concat(escape_comment(c.drop_last()), escape_char(c.last()));
    }
}

proof fn lemma_comments_safe(cs: Seq<Seq<char>>)
    ensures
        line_safe(comments_text(cs)),
    decreases cs.len(),
{
    if cs.len() > 0 {
        lemma_comments_safe(cs.drop_last());
        lemma_escape_safe(cs.last());
        lemma_safe_concat(comments_text(cs.drop_last()), seq!['#']);
        lemma_safe_concat(comments_text(cs.drop_last()) + seq!['#'], escape_comment(cs.last()));
    }
}

proof fn lemma_entry_line_safe(e: EntryView)
    requires
        entry_clean(e),
    ensures
        line_safe(entry_line_text(e)),
{
    lemma_span_safe(e.span);
    lemma_tags_safe(e.tags);
    lemma_comments_safe(e.comments);
    lemma_safe_concat(span_text(e.span), tags_text(e.tags));
    lemma_safe_concat(span_text(e.span) + tags_text(e.tags), comments_text(e.comments));
}

/// One clean entry's canonical line parses back to exactly that entry.
proof fn lemma_parse_line_round(e: EntryView)
    requires
        entry_clean(e),
    ensures
        parse_line(entry_line_text(e)) == Some(e),
{
    let s = entry_line_text(e);
    assert(s.subrange(0, s.len() as int) =~= s);
    lemma_split_two(s, 0, span_text(e.span) + tags_text(e.tags), comments_text(e.comments));
    lemma_split_two(s, 0, span_text(e.span), tags_text(e.tags));
    let p = span_text(e.span).len() as int;
    let q = p + tags_text(e.tags).len() as int;
    // what stands just after the span: a tag list, a comment, or nothing
    if e.tags.len() > 0 {
        assert(s.subrange(p, q)[0] == tags_text(e.tags)[0]);
        assert(s[p] == '(');
    } else if e.comments.len() > 0 {
        lemma_comments_front(e.comments);
        assert(s.subrange(q, s.len() as int)[0] == comments_text(e.comments)[0]);
        assert(s[q] == '#');
    } else {
        assert(p == s.len());
    }
    lemma_parse_span_at(s, 0, e.span);
    if e.comments.len() > 0 {
        lemma_comments_front(e.comments);
        assert(s.subrange(q, s.len() as int)[0] == comments_text(e.comments)[0]);
        assert(s[q] == '#');
    } else {
        assert(q == s.len());
    }
    lemma_parse_tags_at(s, p, e.tags);
    assert(hs_len(s, q) == 0);
    lemma_parse_comments_at(s, q, e.comments);
    assert(hs_len(s, s.len() as int) == 0);
    assert(parse_line(s) == Some(EntryView { span: e.span, tags: e.tags, comments: e.comments }));
    assert(e == EntryView { span: e.span, tags: e.tags, comments: e.comments });
}

/// Unfolds the store's text at its front.
proof fn lemma_store_front(es: Seq<EntryView>)
    requires
        es.len() >= 1,
    ensures
        store_text(es) == entry_line_text(es[0]) + seq!['\n'] + store_text(es.skip(1)),
    decreases es.len(),
{
    if es.len() == 1 {
        assert(es.drop_last().len() == 0);
        assert(es.skip(1).len() == 0);
        assert(store_text(es.drop_last()) == Seq::<char>::empty());
        assert(store_text(es.skip(1)) == Seq::<char>::empty());
        assert(es.last() == es[0]);
        assert(store_text(es) == store_text(es.drop_last()) + entry_line_text(es.last()) + seq![
            '\n',
        ]);
        assert(store_text(es) =~= entry_line_text(es[0]) + seq!['\n'] + store_text(es.skip(1)));
    } else {
        lemma_store_front(es.drop_last());
        assert(es.drop_last()[0] == es[0]);
        assert(es.drop_last().skip(1) =~= es.skip(1).drop_last());
        assert(es.skip(1).last() == es.last());
        assert(store_text(es.skip(1)) == store_text(es.skip(1).drop_last()) + entry_line_text(
            es.skip(1).last(),
        ) + seq!['\n']);
        assert(store_text(es) =~= entry_line_text(es[0]) + seq!['\n'] + store_text(es.skip(1)));
    }
}

/// The empty line yields no entry.
proof fn lemma_parse_line_empty()
    ensures
        parse_line(Seq::<char>::empty()) is None,
{
    let s = Seq::<char>::empty();
    assert(hs_len(s, 0) == 0);
    assert(digit_run(s, 0) == 0);
    assert(parse_num(s, 0, 9999) is None);
    assert(parse_timestamp(s, 0) is None);
    assert(parse_span(s, 0) is None);
}

/// Round trip: serializing any sequence of clean entries and parsing the
/// result yields back exactly the same entries. Clean means: well-formed
/// timestamps with offsets below 100 hours, non-empty tags free of `,`,
/// `)` and line terminators, and comments free of every character the
/// serializer would escape.
/// One step of the line splitter over the store's text: the first entry's
/// line comes off, and the rest of the text remains.
#[verifier::rlimit(100)]
proof fn lemma_store_split_head(es: Seq<EntryView>)
    requires
        es.len() >= 1,
        entry_clean(es[0]),
    ensures
        split_lines(store_text(es)) == seq![entry_line_text(es[0])] + split_lines(
            store_text(es.skip(1)),
        ),
{
    let line0 = entry_line_text(es[0]);
    let rest = store_text(es.skip(1));
    lemma_store_front(es);
    let s = store_text(es);
    assert(s.subrange(0, s.len() as int) =~= s);
    lemma_split_two(s, 0, line0 + seq!['\n'], rest);
    lemma_split_two(s, 0, line0, seq!['\n']);
    let p = line0.len() as int;
    lemma_single(s, p, '\n');
    lemma_entry_line_safe(es[0]);
    assert(forall|k: int| 0 <= k < p ==> #[trigger] s[k] != '\n' && s[k] != '\r') by {
        assert(forall|k: int| 0 <= k < p ==> #[trigger] s[k] == line0[k]) by {
            assert(forall|k: int| 0 <= k < p ==> s.subrange(0, p)[k] == #[trigger] line0[k]);
        }
    }
    lemma_no_nl_run_exact(s, 0, p);
    let raw = s.subrange(0, p);
    assert(raw == line0);
    if p > 0 {
        assert(raw.last() != '\r');
    }
    assert(p < s.len());
    assert(split_lines(s) == seq![line0] + split_lines(s.subrange(p + 1, s.len() as int)));
    assert(s.subrange(p + 1, s.len() as int) == rest);
}

/// Round trip: serializing any sequence of clean entries and parsing the
/// result yields back exactly the same entries. Clean means: well-formed
/// timestamps with offsets below 100 hours, non-empty tags free of `,`,
/// `)` and line terminators, and comments free of every character the
/// serializer would escape.
/// Parsing the empty text yields no entries.
proof fn lemma_parse_empty_text()
    ensures
        parse_text(Seq::<char>::empty()) == Seq::<EntryView>::empty(),
{
    let s = Seq::<char>::empty();
    assert(no_nl_run(s, 0) == 0);
    assert(s.subrange(0, 0) =~= s);
    assert(split_lines(s) == seq![s]);
    lemma_parse_line_empty();
    assert(seq![s].skip(1) =~= Seq::<Seq<char>>::empty());
    assert(parse_entries(Seq::<Seq<char>>::empty()) == Seq::<EntryView>::empty());
    assert(parse_entries(seq![s]) == Seq::<EntryView>::empty());
}

/// One step of the round trip: the first clean entry comes back off the
/// store's text, and the rest of the text parses independently.
proof fn lemma_round_step(es: Seq<EntryView>)
    requires
        es.len() >= 1,
        entry_clean(es[0]),
    ensures
        parse_text(store_text(es)) == seq![es[0]] + parse_text(store_text(es.skip(1))),
{
    let line0 = entry_line_text(es[0]);
    let rest = store_text(es.skip(1));
    lemma_store_split_head(es);
    let tail_lines = split_lines(rest);
    assert((seq![line0] + tail_lines)[0] == line0);
    assert((seq![line0] + tail_lines).skip(1) =~= tail_lines);
    lemma_parse_line_round(es[0]);
    assert(parse_entries(seq![line0] + tail_lines) == seq![es[0]] + parse_entries(tail_lines));
}

/// Round trip: serializing any sequence of clean entries and parsing the
/// result yields back exactly the same entries. Clean means: well-formed
/// timestamps with offsets below 100 hours, non-empty tags free of `,`,
/// `)` and line terminators, and comments free of every character the
/// serializer would escape.
pub proof fn lemma_round_trip(es: Seq<EntryView>)
    requires
        forall|i: int| 0 <= i < es.len() ==> entry_clean(#[trigger] es[i]),
    ensures
        parse_text(store_text(es)) == es,
    decreases es.len(),
{
    if es.len() == 0 {
        assert(store_text(es) == Seq::<char>::empty());
        lemma_parse_empty_text();
        assert(parse_text(store_text(es)) =~= es);
    } else {
        lemma_round_step(es);
        assert(forall|i: int| 0 <= i < es.skip(1).len() ==> entry_clean(#[trigger] es.skip(1)[i]));
        lemma_round_trip(es.skip(1));
        assert(seq![es[0]] + es.skip(1) =~= es);
    }
}

/// Idempotence: one serialize-and-parse round settles the store; doing it
/// again changes nothing, so `touch` normalizes formatting only once.
pub proof fn lemma_touch_idempotent(es: Seq<EntryView>)
    requires
        forall|i: int| 0 <= i < es.len() ==> entry_clean(#[trigger] es[i]),
    ensures
        parse_text(store_text(parse_text(store_text(es)))) == parse_text(store_text(es)),
{
    lemma_round_trip(es);
}

/// `stop` only transitions active entries whose tags satisfy the filter:
/// every other entry comes out exactly as it went in, and a transitioned
/// entry keeps its start, tags and old comments, gaining only the end and
/// the stop's comments.
pub proof fn lemma_stop_frame(
    e: EntryView,
    filter: Seq<Seq<char>>,
    comments: Seq<Seq<char>>,
    now: Timestamp,
)
    ensures
        !(filter_matches(filter, e.tags) && e.span is Active) ==> stop_entry(
            e,
            filter,
            comments,
            now,
        ) == e,
        (filter_matches(filter, e.tags) && e.span is Active) ==> stop_entry(
            e,
            filter,
            comments,
            now,
        ) == (EntryView {
            span: Span::Closed { start: e.span.spec_start(), end: now },
            tags: e.tags,
            comments: e.comments + comments,
        }),
{
}

/// A negative filter token matches exactly the entries lacking the tag it
/// names: its remainder after the `!`.
pub proof fn lemma_negative_filter(tok: Seq<char>, tags: Seq<Seq<char>>)
    requires
        tok.len() > 0,
        tok[0] == '!',
    ensures
        token_matches(tok, tags) <==> !tags.contains(tok.skip(1)),
        filter_matches(seq![tok], tags) <==> !tags.contains(tok.skip(1)),
{
    if token_matches(tok, tags) {
        assert(!tags.contains(tok.skip(1)));
    }
    if !tags.contains(tok.skip(1)) {
        assert(forall|i: int| 0 <= i < tags.len() ==> #[trigger] tags[i] != tok.skip(1));
    }
    assert(seq![tok][0] == tok);
    if token_matches(tok, tags) {
        assert(forall|i: int| 0 <= i < 1 ==> token_matches(#[trigger] seq![tok][i], tags));
    }
    if filter_matches(seq![tok], tags) {
        assert(token_matches(seq![tok][0], tags));
    }
}


} // verus!

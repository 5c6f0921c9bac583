//! Tag-filter evaluation and the start/stop transformations over the
//! in-memory entry sequence.
//!
//! A filter is an ordered list of tokens. A token beginning with `!` is a
//! negative match: the remainder must be absent from the entry's tags. Any
//! other token must be present. An entry satisfies a filter exactly when
//! every token evaluates true; the empty filter matches every entry.
use vstd::prelude::*;

use crate::model::Entry;
use crate::model::EntryView;
use crate::model::Span;
use crate::model::Timestamp;
use crate::model::TokError;

verus! {

/// A token uses `!` only as a single leading character, or not at all.
pub open spec fn token_valid(tok: Seq<char>) -> bool {
    if tok.len() > 0 && tok[0] == '!' {
        forall|i: int| 1 <= i < tok.len() ==> tok[i] != '!'
    } else {
        forall|i: int| 0 <= i < tok.len() ==> tok[i] != '!'
    }
}

pub open spec fn filter_valid(filter: Seq<Seq<char>>) -> bool {
    forall|i: int| 0 <= i < filter.len() ==> token_valid(#[trigger] filter[i])
}

/// Whether one token holds of an entry's tags: a `!`-token demands its
/// remainder be absent, any other token demands its own presence.
pub open spec fn token_matches(tok: Seq<char>, tags: Seq<Seq<char>>) -> bool {
    if tok.len() > 0 && tok[0] == '!' {
        forall|i: int| 0 <= i < tags.len() ==> #[trigger] tags[i] != tok.skip(1)
    } else {
        exists|i: int| 0 <= i < tags.len() && #[trigger] tags[i] == tok
    }
}

/// Whether an entry's tags satisfy the whole filter: every token holds.
pub open spec fn filter_matches(filter: Seq<Seq<char>>, tags: Seq<Seq<char>>) -> bool {
    forall|i: int| 0 <= i < filter.len() ==> token_matches(#[trigger] filter[i], tags)
}

/// For `start`, every supplied tag must be non-negated: no leading `!`.
pub open spec fn start_tags_valid(tags: Seq<Seq<char>>) -> bool {
    forall|i: int| 0 <= i < tags.len() ==> !((#[trigger] tags[i]).len() > 0 && tags[i][0] == '!')
}

fn token_valid_exec(tok: &String) -> (r: bool)
    ensures
        r == token_valid(tok@),
{
    let s = tok.as_str();
    let n = s.unicode_len();
    let start: usize = if n > 0 && s.get_char(0) == '!' {
        1
    } else {
        0
    };
    let mut i = start;
    while i < n
        invariant
            start <= i <= n,
            n == s@.len(),
            s@ == tok@,
            (n > 0 && tok@[0] == '!') ==> start == 1,
            !(n > 0 && tok@[0] == '!') ==> start == 0,
            forall|k: int| start <= k < i ==> s@[k] != '!',
        decreases n - i,
    {
        if s.get_char(i) == '!' {
            return false;
        }
        i = i + 1;
    }
    true
}

/// Whether `tag` equals the token's text after its leading character.
fn tag_equals_rest(tag: &String, tok: &String) -> (r: bool)
    requires
        tok@.len() >= 1,
    ensures
        r == (tag@ == tok@.skip(1)),
{
    let ts = tag.as_str();
    let ks = tok.as_str();
    let nt = ts.unicode_len();
    let nk = ks.unicode_len();
    if nt != nk - 1 {
        assert(tag@.len() != tok@.skip(1).len());
        return false;
    }
    let mut j: usize = 0;
    while j < nt
        invariant
            0 <= j <= nt,
            nt == tag@.len(),
            nk == tok@.len(),
            nt == nk - 1,
            ts@ == tag@,
            ks@ == tok@,
            forall|k: int| 0 <= k < j ==> tag@[k] == tok@[k + 1],
        decreases nt - j,
    {
        if ts.get_char(j) != ks.get_char(j + 1) {
            assert(tok@.skip(1)[j as int] == tok@[j + 1]);
            return false;
        }
        j = j + 1;
    }
    assert(tag@ =~= tok@.skip(1));
    true
}

fn token_matches_exec(tok: &String, tags: &Vec<String>) -> (r: bool)
    ensures
        r == token_matches(tok@, tags.deep_view()),
{
    let s = tok.as_str();
    let n = s.unicode_len();
    let m = tags.len();
    if n > 0 && s.get_char(0) == '!' {
        let mut i: usize = 0;
        while i < m
            invariant
                0 <= i <= m,
                m == tags@.len(),
                tok@.len() > 0 && tok@[0] == '!',
                forall|k: int| 0 <= k < i ==> #[trigger] tags.deep_view()[k] != tok@.skip(1),
            decreases m - i,
        {
            if tag_equals_rest(&tags[i], tok) {
                assert(tags.deep_view()[i as int] == tok@.skip(1));
                return false;
            }
            i = i + 1;
        }
        true
    } else {
        let mut i: usize = 0;
        while i < m
            invariant
                0 <= i <= m,
                m == tags@.len(),
                !(tok@.len() > 0 && tok@[0] == '!'),
                forall|k: int| 0 <= k < i ==> #[trigger] tags.deep_view()[k] != tok@,
            decreases m - i,
        {
            if (&tags[i]).eq(tok) {
                assert(tags.deep_view()[i as int] == tok@);
                return true;
            }
            i = i + 1;
        }
        false
    }
}

/// Whether every token of a valid filter holds of the given tags.
pub fn filter_matches_exec(filter: &Vec<String>, tags: &Vec<String>) -> (r: bool)
    ensures
        r == filter_matches(filter.deep_view(), tags.deep_view()),
{
    let n = filter.len();
    let mut i: usize = 0;
    while i < n
        invariant
            0 <= i <= n,
            n == filter@.len(),
            forall|k: int| 0 <= k < i ==> token_matches(#[trigger] filter.deep_view()[k], tags.deep_view()),
        decreases n - i,
    {
        if !token_matches_exec(&filter[i], tags) {
            assert(!token_matches(filter.deep_view()[i as int], tags.deep_view()));
            return false;
        }
        i = i + 1;
    }
    true
}

/// Whether every token of the filter uses `!` legally.
pub fn validate_filter(filter: &Vec<String>) -> (r: bool)
    ensures
        r == filter_valid(filter.deep_view()),
{
    let n = filter.len();
    let mut i: usize = 0;
    while i < n
        invariant
            0 <= i <= n,
            n == filter@.len(),
            forall|k: int| 0 <= k < i ==> token_valid(#[trigger] filter.deep_view()[k]),
        decreases n - i,
    {
        if !token_valid_exec(&filter[i]) {
            assert(!token_valid(filter.deep_view()[i as int]));
            return false;
        }
        i = i + 1;
    }
    true
}

fn clone_strings(v: &Vec<String>) -> (r: Vec<String>)
    ensures
        r.deep_view() == v.deep_view(),
{
    let mut out: Vec<String> = Vec::new();
    let n = v.len();
    let mut i: usize = 0;
    while i < n
        invariant
            0 <= i <= n,
            n == v@.len(),
            out.deep_view() == v.deep_view().subrange(0, i as int),
        decreases n - i,
    {
        let s = v[i].clone();
        assert(out.deep_view().len() == i as int);
        out.push(s);
        assert(out.deep_view() =~= v.deep_view().subrange(0, i + 1 as int));
        i = i + 1;
    }
    assert(v.deep_view().subrange(0, n as int) =~= v.deep_view());
    out
}

/// An owned copy of an entry, equal to the original under the view.
pub fn clone_entry(e: &Entry) -> (r: Entry)
    ensures
        r.deep_view() == e.deep_view(),
{
    Entry { span: e.span, tags: clone_strings(&e.tags), comments: clone_strings(&e.comments) }
}

/// Whether every tag handed to `start` is non-negated.
pub fn validate_start_tags(tags: &Vec<String>) -> (r: bool)
    ensures
        r == start_tags_valid(tags.deep_view()),
{
    let n = tags.len();
    let mut i: usize = 0;
    while i < n
        invariant
            0 <= i <= n,
            n == tags@.len(),
            forall|k: int| 0 <= k < i ==> !((#[trigger] tags.deep_view()[k]).len() > 0
                && tags.deep_view()[k][0] == '!'),
        decreases n - i,
    {
        let s = tags[i].as_str();
        if s.unicode_len() > 0 && s.get_char(0) == '!' {
            assert(tags.deep_view()[i as int].len() > 0 && tags.deep_view()[i as int][0] == '!');
            return false;
        }
        i = i + 1;
    }
    true
}

/// Appends one new active entry carrying the given tags and comments and
/// starting now. The supplied tags must all be non-negated; nothing else is
/// touched.
pub fn start(entries: Vec<Entry>, tags: Vec<String>, comments: Vec<String>, now: Timestamp) -> (r:
    Result<Vec<Entry>, TokError>)
    ensures
        match r {
            Ok(v) => start_tags_valid(tags.deep_view()) && v.deep_view() == entries.deep_view()
                .push(
                EntryView {
                    span: Span::Active { start: now },
                    tags: tags.deep_view(),
                    comments: comments.deep_view(),
                },
            ),
            Err(e) => e == TokError::InvalidFilterToken && !start_tags_valid(tags.deep_view()),
        },
{
    if !validate_start_tags(&tags) {
        return Err(TokError::InvalidFilterToken);
    }
    let mut v = entries;
    let ghost before = v.deep_view();
    let e = Entry { span: Span::Active { start: now }, tags, comments };
    let ghost ev = e.deep_view();
    v.push(e);
    assert(v.deep_view() =~= before.push(ev));
    Ok(v)
}

/// What `stop` makes of one entry: an active entry whose tags satisfy the
/// filter is closed at `now` and gains the stop's comments; every other
/// entry is left exactly as it was.
pub open spec fn stop_entry(
    e: EntryView,
    filter: Seq<Seq<char>>,
    comments: Seq<Seq<char>>,
    now: Timestamp,
) -> EntryView {
    if filter_matches(filter, e.tags) && e.span is Active {
        EntryView {
            span: Span::Closed { start: e.span.spec_start(), end: now },
            tags: e.tags,
            comments: e.comments + comments,
        }
    } else {
        e
    }
}

/// What `stop` makes of the whole sequence, entry by entry, order kept.
pub open spec fn stop_all(
    es: Seq<EntryView>,
    filter: Seq<Seq<char>>,
    comments: Seq<Seq<char>>,
    now: Timestamp,
) -> Seq<EntryView> {
    es.map(|i: int, e: EntryView| stop_entry(e, filter, comments, now))
}

/// How many entries `stop` transitions: the active ones whose tags satisfy
/// the filter.
pub open spec fn stop_count(es: Seq<EntryView>, filter: Seq<Seq<char>>) -> int
    decreases es.len(),
{
    if es.len() == 0 {
        0
    } else {
        stop_count(es.drop_last(), filter) + if filter_matches(filter, es.last().tags)
            && es.last().span is Active {
            1int
        } else {
            0int
        }
    }
}

/// Closes every active entry whose tags satisfy the filter, appending the
/// given comments to each, and reports how many were transitioned. All
/// other entries pass through unchanged. A malformed filter token is an
/// error and nothing is changed.
pub fn stop(
    entries: &Vec<Entry>,
    filter: &Vec<String>,
    comments: &Vec<String>,
    now: Timestamp,
) -> (r: Result<(Vec<Entry>, usize), TokError>)
    ensures
        match r {
            Ok(p) => filter_valid(filter.deep_view()) && p.0.deep_view() == stop_all(
                entries.deep_view(),
                filter.deep_view(),
                comments.deep_view(),
                now,
            ) && p.1 == stop_count(entries.deep_view(), filter.deep_view()),
            Err(e) => e == TokError::InvalidFilterToken && !filter_valid(filter.deep_view()),
        },
{
    if !validate_filter(filter) {
        return Err(TokError::InvalidFilterToken);
    }
    let n = entries.len();
    let mut out: Vec<Entry> = Vec::new();
    let mut count: usize = 0;
    let mut i: usize = 0;
    while i < n
        invariant
            0 <= i <= n,
            n == entries@.len(),
            count <= i,
            out.deep_view() == stop_all(
                entries.deep_view().subrange(0, i as int),
                filter.deep_view(),
                comments.deep_view(),
                now,
            ),
            count == stop_count(entries.deep_view().subrange(0, i as int), filter.deep_view()),
        decreases n - i,
    {
        let ghost pre = entries.deep_view().subrange(0, i as int);
        let ghost post = entries.deep_view().subrange(0, i + 1 as int);
        proof {
            assert(post.drop_last() =~= pre);
            assert(post.last() == entries.deep_view()[i as int]);
        }
        let e = &entries[i];
        let matched = filter_matches_exec(filter, &e.tags);
        let is_active = match e.span {
            Span::Active { .. } => true,
            Span::Closed { .. } => false,
        };
        if matched && is_active {
            let mut cs = clone_strings(&e.comments);
            let extra = clone_strings(comments);
            let mut k: usize = 0;
            let ghost base = cs.deep_view();
            let m = extra.len();
            let mut rest = extra;
            // append the stop's comments, keeping their order
            while k < m
                invariant
                    0 <= k <= m,
                    rest.deep_view() == comments.deep_view(),
                    m == rest@.len(),
                    cs.deep_view() == base + comments.deep_view().subrange(0, k as int),
                decreases m - k,
            {
                let s = rest[k].clone();
                assert(s@ == comments.deep_view()[k as int]);
                let ghost pre_dv = cs.deep_view();
                assert(pre_dv.len() == cs@.len());
                cs.push(s);
                proof {
                    assert(cs.deep_view() =~= pre_dv.push(s@));
                    assert(pre_dv.push(s@) =~= base + comments.deep_view().subrange(
                        0,
                        k + 1 as int,
                    ));
                }
                k = k + 1;
            }
            assert(comments.deep_view().subrange(0, m as int) =~= comments.deep_view());
            let closed = Entry {
                span: Span::Closed { start: e.span.start(), end: now },
                tags: clone_strings(&e.tags),
                comments: cs,
            };
            assert(closed.deep_view() == stop_entry(
                entries.deep_view()[i as int],
                filter.deep_view(),
                comments.deep_view(),
                now,
            ));
            let ghost ob = out.deep_view();
            out.push(closed);
            assert(out.deep_view() =~= ob.push(
                stop_entry(
                    entries.deep_view()[i as int],
                    filter.deep_view(),
                    comments.deep_view(),
                    now,
                ),
            ));
            count = count + 1;
        } else {
            let copy = clone_entry(e);
            proof {
                assert(copy.deep_view() == entries.deep_view()[i as int]);
                assert(stop_entry(
                    entries.deep_view()[i as int],
                    filter.deep_view(),
                    comments.deep_view(),
                    now,
                ) == entries.deep_view()[i as int]);
            }
            let ghost ob = out.deep_view();
            out.push(copy);
            assert(out.deep_view() =~= ob.push(
                stop_entry(
                    entries.deep_view()[i as int],
                    filter.deep_view(),
                    comments.deep_view(),
                    now,
                ),
            ));
        }
        proof {
            let fdv = filter.deep_view();
            let cdv = comments.deep_view();
            assert(stop_all(post, fdv, cdv, now) =~= stop_all(pre, fdv, cdv, now).push(
                stop_entry(entries.deep_view()[i as int], fdv, cdv, now),
            ));
            assert(out.deep_view() =~= stop_all(post, fdv, cdv, now));
        }
        i = i + 1;
    }
    proof {
        assert(entries.deep_view().subrange(0, n as int) =~= entries.deep_view());
    }
    Ok((out, count))
}

} // verus!

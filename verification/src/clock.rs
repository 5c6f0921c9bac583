//! Reading the local clock. The one thing the library cannot compute for
//! itself — the current local date-time and UTC offset — comes from the
//! `time` crate through a single trusted wrapper; everything that uses the
//! result takes it as a plain `Timestamp` value.
use vstd::prelude::*;

use crate::cmd;
use crate::model::Entry;
use crate::model::EntryView;
use crate::model::Span;
use crate::model::Timestamp;
use crate::model::TokError;
use crate::model::timestamp_wf;
use crate::model::days_in_month;

verus! {

/// Relies on `time::OffsetDateTime::now_local` and the component accessors
/// of `time::OffsetDateTime`: the result, when the local offset can be
/// determined, is a valid calendar date (year within ±9999, day fitting
/// its month) with a valid wall-clock time and an offset whose magnitude
/// stays within ±25:59 hours, which is at most 1559 minutes.
#[verifier::external_body]
fn now_local_raw() -> (r: Option<Timestamp>)
    ensures
        r matches Some(t) ==> {
            &&& -9999 <= t.year <= 9999
            &&& 1 <= t.month <= 12
            &&& 1 <= t.day <= days_in_month(t.year as int, t.month as int)
            &&& 0 <= t.hour < 24
            &&& 0 <= t.minute < 60
            &&& 0 <= t.second < 60
            &&& -1559 <= t.offset_minutes <= 1559
        },
{
    match time::OffsetDateTime::now_local() {
        Ok(t) => Some(Timestamp {
            year: t.year(),
            month: t.month() as u8,
            day: t.day(),
            hour: t.hour(),
            minute: t.minute(),
            second: t.second(),
            offset_minutes: t.offset().whole_minutes(),
        }),
        Err(_) => None,
    }
}

/// The current local moment as a plain timestamp. Errors when the local
/// offset cannot be determined or the moment lies outside the store's
/// supported range.
pub fn now_local() -> (r: Result<Timestamp, TokError>)
    ensures
        r matches Ok(t) ==> timestamp_wf(t),
        r matches Err(e) ==> e == TokError::TimeResolutionFailure,
{
    match now_local_raw() {
        Some(t) => {
            if t.year >= 0 {
                Ok(t)
            } else {
                Err(TokError::TimeResolutionFailure)
            }
        },
        None => Err(TokError::TimeResolutionFailure),
    }
}

/// `start` against the clock: appends one new active entry beginning at
/// the current local time. Tags must be non-negated; reading the clock may
/// fail, and then nothing is changed.
pub fn start_now(entries: Vec<Entry>, tags: Vec<String>, comments: Vec<String>) -> (r: Result<
    Vec<Entry>,
    TokError,
>)
    ensures
        !cmd::start_tags_valid(tags.deep_view()) ==> (r matches Err(e) && e
            == TokError::InvalidFilterToken),
        r matches Ok(v) ==> (cmd::start_tags_valid(tags.deep_view()) && exists|now: Timestamp|
            timestamp_wf(now) && v.deep_view() == entries.deep_view().push(
            EntryView {
                span: Span::Active { start: now },
                tags: tags.deep_view(),
                comments: comments.deep_view(),
            },
        )),
        r matches Err(e) ==> ((e == TokError::InvalidFilterToken && !cmd::start_tags_valid(
            tags.deep_view(),
        )) || e == TokError::TimeResolutionFailure),
{
    if !cmd::validate_start_tags(&tags) {
        return Err(TokError::InvalidFilterToken);
    }
    let now = match now_local() {
        Ok(t) => t,
        Err(_) => { return Err(TokError::TimeResolutionFailure); },
    };
    let ghost nowg = now;
    match cmd::start(entries, tags, comments, now) {
        Ok(v) => {
            proof {
                assert(timestamp_wf(nowg));
            }
            Ok(v)
        },
        Err(e) => Err(e),
    }
}

/// `stop` against the clock: closes every active entry whose tags satisfy
/// the filter at the current local time, and reports how many. A malformed
/// filter token is reported before the clock is read.
pub fn stop_now(entries: &Vec<Entry>, filter: &Vec<String>, comments: &Vec<String>) -> (r: Result<
    (Vec<Entry>, usize),
    TokError,
>)
    ensures
        !cmd::filter_valid(filter.deep_view()) ==> (r matches Err(e) && e
            == TokError::InvalidFilterToken),
        r matches Ok(p) ==> (cmd::filter_valid(filter.deep_view()) && exists|now: Timestamp|
            timestamp_wf(now) && p.0.deep_view() == cmd::stop_all(
            entries.deep_view(),
            filter.deep_view(),
            comments.deep_view(),
            now,
        ) && p.1 == cmd::stop_count(entries.deep_view(), filter.deep_view())),
        r matches Err(e) ==> ((e == TokError::InvalidFilterToken && !cmd::filter_valid(
            filter.deep_view(),
        )) || e == TokError::TimeResolutionFailure),
{
    if !cmd::validate_filter(filter) {
        return Err(TokError::InvalidFilterToken);
    }
    let now = match now_local() {
        Ok(t) => t,
        Err(_) => { return Err(TokError::TimeResolutionFailure); },
    };
    let ghost nowg = now;
    match cmd::stop(entries, filter, comments, now) {
        Ok(p) => {
            proof {
                assert(timestamp_wf(nowg));
            }
            Ok(p)
        },
        Err(e) => Err(e),
    }
}

} // verus!

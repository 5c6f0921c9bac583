//! The value types of the tracking store: timestamps, spans and entries,
//! together with their mathematical views and well-formedness predicates.
use vstd::prelude::*;

verus! {

/// A local calendar date-time plus a signed UTC offset in minutes.
/// No timezone database is involved: the offset is a plain number,
/// captured when the timestamp was made.
#[derive(Clone, Copy, PartialEq, Eq, Structural, Debug)]
pub struct Timestamp {
    pub year: i32,
    pub month: u8,
    pub day: u8,
    pub hour: u8,
    pub minute: u8,
    pub second: u8,
    /// Signed UTC offset in minutes.
    pub offset_minutes: i16,
}

/// The time interval of an entry: still open, or finished.
#[derive(Clone, Copy, PartialEq, Eq, Structural, Debug)]
pub enum Span {
    Active { start: Timestamp },
    Closed { start: Timestamp, end: Timestamp },
}

/// One tracked time span with its tags and comments.
/// Tags and comments keep their insertion order; duplicates are permitted.
#[derive(Clone, PartialEq, Debug)]
pub struct Entry {
    pub span: Span,
    pub tags: Vec<String>,
    pub comments: Vec<String>,
}

/// The mathematical view of an `Entry`: the span as a plain value and the
/// tags and comments as sequences of character sequences.
pub ghost struct EntryView {
    pub span: Span,
    pub tags: Seq<Seq<char>>,
    pub comments: Seq<Seq<char>>,
}

impl DeepView for Entry {
    type V = EntryView;

    open spec fn deep_view(&self) -> EntryView {
        EntryView { span: self.span, tags: self.tags.deep_view(), comments: self.comments.deep_view() }
    }
}

pub open spec fn is_leap_year(y: int) -> bool {
    y % 4 == 0 && (y % 100 != 0 || y % 400 == 0)
}

pub open spec fn days_in_month(y: int, m: int) -> int {
    if m == 2 {
        if is_leap_year(y) { 29 } else { 28 }
    } else if m == 4 || m == 6 || m == 9 || m == 11 {
        30
    } else {
        31
    }
}

/// The store's supported timestamp range: a valid calendar date within years
/// 0 through 9999, a valid wall-clock time, and an offset that a sign and
/// four digits can encode (at most 99 hours and 99 minutes either way).
pub open spec fn timestamp_wf(t: Timestamp) -> bool {
    &&& 0 <= t.year <= 9999
    &&& 1 <= t.month <= 12
    &&& 1 <= t.day <= days_in_month(t.year as int, t.month as int)
    &&& 0 <= t.hour < 24
    &&& 0 <= t.minute < 60
    &&& 0 <= t.second < 60
    &&& -6039 <= t.offset_minutes <= 6039
}

pub open spec fn span_wf(s: Span) -> bool {
    match s {
        Span::Active { start } => timestamp_wf(start),
        Span::Closed { start, end } => timestamp_wf(start) && timestamp_wf(end),
    }
}

impl Span {
    pub open spec fn spec_start(self) -> Timestamp {
        match self {
            Span::Active { start } => start,
            Span::Closed { start, .. } => start,
        }
    }

    pub open spec fn is_active(self) -> bool {
        self matches Span::Active { .. }
    }

    /// The start of the interval, whether or not it has ended.
    pub fn start(&self) -> (r: Timestamp)
        ensures
            r == self.spec_start(),
    {
        match self {
            Span::Active { start } => *start,
            Span::Closed { start, .. } => *start,
        }
    }
}

/// The error taxonomy of the library and of the thin I/O layer around it.
#[derive(Clone, Copy, PartialEq, Eq, Structural, Debug)]
pub enum TokError {
    /// No tracking store was found at or above the chosen directory.
    StoreNotFound,
    /// A read, write, copy or rename failed at some persistence step.
    IoFailure,
    /// A filter token uses `!` anywhere but as a single leading character.
    InvalidFilterToken,
    /// The local UTC offset could not be determined, or the clock handed
    /// back a moment outside the store's supported timestamp range.
    TimeResolutionFailure,
}

impl TokError {
    /// A human-readable description, in place of `Display`.
    pub fn message(&self) -> (r: &'static str)
        ensures
            r@.len() > 0,
    {
        proof {
            reveal_strlit("Could not find a tracking file");
            reveal_strlit("A file operation on the tracking store failed");
            reveal_strlit("Tags must not contain ! except as a single leading character");
            reveal_strlit("Could not determine the local time");
        }
        match self {
            TokError::StoreNotFound => "Could not find a tracking file",
            TokError::IoFailure => "A file operation on the tracking store failed",
            TokError::InvalidFilterToken => "Tags must not contain ! except as a single leading character",
            TokError::TimeResolutionFailure => "Could not determine the local time",
        }
    }
}

} // verus!

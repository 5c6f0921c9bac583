use tok::cmd;
use tok::parser;
use tok::ser;
use tok::stats;
use tok::Entry;
use tok::Span;
use tok::Timestamp;
use tok::TokError;

fn ts(year: i32, month: u8, day: u8, hour: u8, minute: u8, second: u8, off: i16) -> Timestamp {
    Timestamp { year, month, day, hour, minute, second, offset_minutes: off }
}

fn strings(v: &[&str]) -> Vec<String> {
    v.iter().map(|s| s.to_string()).collect()
}

#[test]
fn serialize_one_active_entry() {
    let e = Entry {
        span: Span::Active { start: ts(2020, 1, 2, 3, 4, 5, 60) },
        tags: strings(&["work"]),
        comments: strings(&["hello"]),
    };
    assert_eq!(ser::serialize_entry(&e), "2020-1-2 3:04:05 +0100..(work)#hello");
}

#[test]
fn serialize_one_closed_entry() {
    let e = Entry {
        span: Span::Closed {
            start: ts(2019, 12, 31, 23, 59, 0, -90),
            end: ts(2020, 1, 1, 0, 59, 0, -90),
        },
        tags: strings(&["a", "b"]),
        comments: vec![],
    };
    assert_eq!(
        ser::serialize_entry(&e),
        "2019-12-31 23:59:00 -0130..2020-1-1 0:59:00 -0130(a,b)"
    );
}

#[test]
fn serialize_escapes_comment_text() {
    let e = Entry {
        span: Span::Active { start: ts(2020, 1, 1, 0, 0, 0, 0) },
        tags: vec![],
        comments: strings(&["a\\b#c\rd\ne"]),
    };
    let line = ser::serialize_entry(&e);
    assert_eq!(line, "2020-1-1 0:00:00 +0000..#a\\\\b\\#c\\rd\\ne");
}

#[test]
fn serialize_store_ends_each_line_with_newline() {
    let e = Entry {
        span: Span::Active { start: ts(2020, 1, 1, 0, 0, 0, 0) },
        tags: vec![],
        comments: vec![],
    };
    let text = ser::serialize(&vec![e]);
    assert_eq!(text, "2020-1-1 0:00:00 +0000..\n");
}

#[test]
fn parse_round_trip_concrete() {
    let entries = vec![
        Entry {
            span: Span::Active { start: ts(2020, 2, 29, 12, 30, 0, 0) },
            tags: strings(&["work", "deep focus"]),
            comments: strings(&["first", "second thoughts"]),
        },
        Entry {
            span: Span::Closed {
                start: ts(2020, 3, 1, 8, 0, 0, -300),
                end: ts(2020, 3, 1, 9, 30, 0, -300),
            },
            tags: vec![],
            comments: vec![],
        },
    ];
    let text = ser::serialize(&entries);
    let back = parser::parse(&text);
    assert_eq!(back, entries);
}

#[test]
fn parse_is_idempotent_under_reserialization() {
    let entries = vec![Entry {
        span: Span::Active { start: ts(2021, 7, 15, 9, 0, 0, 120) },
        tags: strings(&["tag one"]),
        comments: strings(&["note"]),
    }];
    let once = parser::parse(&ser::serialize(&entries));
    let twice = parser::parse(&ser::serialize(&once));
    assert_eq!(once, twice);
    assert_eq!(once, entries);
}

#[test]
fn malformed_line_between_two_entries_is_dropped() {
    // scenario: a file with one malformed line sandwiched between two
    // well-formed entry lines parses to exactly two entries, in order
    let text = "2020-1-1 0:00:00 +0000..(first)\nthis line is not an entry\n2020-1-2 0:00:00 +0000..(second)\n";
    let entries = parser::parse(text);
    assert_eq!(entries.len(), 2);
    assert_eq!(entries[0].tags, strings(&["first"]));
    assert_eq!(entries[1].tags, strings(&["second"]));
}

#[test]
fn blank_lines_and_crlf_are_tolerated() {
    let text = "\r\n\n  \n2020-1-1 0:00:00 +0000..#x\r\n\n";
    let entries = parser::parse(text);
    assert_eq!(entries.len(), 1);
    assert_eq!(entries[0].comments, strings(&["x"]));
}

#[test]
fn parse_tolerates_padding_and_leading_zeros() {
    let text = " 2020 - 01 - 02   3 : 04 : 05  +0130..";
    let entries = parser::parse(text);
    assert_eq!(entries.len(), 1);
    match entries[0].span {
        Span::Active { start } => {
            assert_eq!(start, ts(2020, 1, 2, 3, 4, 5, 90));
        }
        _ => panic!("expected an active span"),
    }
}

#[test]
fn parse_negative_offset_and_closed_span() {
    let text = "2020-6-1 10:00:00 -0445..2020-6-1 11:15:00 -0445";
    let entries = parser::parse(text);
    assert_eq!(entries.len(), 1);
    match entries[0].span {
        Span::Closed { start, end } => {
            assert_eq!(start.offset_minutes, -285);
            assert_eq!(end.hour, 11);
        }
        _ => panic!("expected a closed span"),
    }
}

#[test]
fn parse_rejects_invalid_dates_silently() {
    // a nonsense calendar date produces no entry and no error
    let entries = parser::parse("2019-2-29 0:00:00 +0000..\n2020-13-1 0:00:00 +0000..\n");
    assert_eq!(entries.len(), 0);
    // while the leap day of a leap year is accepted
    let ok = parser::parse("2020-2-29 0:00:00 +0000..\n");
    assert_eq!(ok.len(), 1);
}

#[test]
fn parse_entry_with_trailing_garbage_is_dropped() {
    let entries = parser::parse("2020-1-1 0:00:00 +0000.. stray text\n");
    assert_eq!(entries.len(), 0);
}

#[test]
fn parse_empty_input_and_no_trailing_newline() {
    assert_eq!(parser::parse("").len(), 0);
    let entries = parser::parse("2020-1-1 0:00:00 +0000..(a)#c");
    assert_eq!(entries.len(), 1);
    assert_eq!(entries[0].tags, strings(&["a"]));
    assert_eq!(entries[0].comments, strings(&["c"]));
}

#[test]
fn parse_comments_keep_inner_spaces_and_empty_comment() {
    let entries = parser::parse("2020-1-1 0:00:00 +0000..#a b #\n");
    assert_eq!(entries.len(), 1);
    assert_eq!(entries[0].comments, strings(&["a b ", ""]));
}

#[test]
fn start_appends_one_active_entry() {
    // scenario: empty store, start with tag `work` and no comments
    let now = ts(2024, 5, 6, 7, 8, 9, 0);
    let out = cmd::start(vec![], strings(&["work"]), vec![], now).unwrap();
    assert_eq!(out.len(), 1);
    assert_eq!(out[0].tags, strings(&["work"]));
    assert!(out[0].comments.is_empty());
    match out[0].span {
        Span::Active { start } => assert_eq!(start, now),
        _ => panic!("expected an active span"),
    }
}

#[test]
fn start_rejects_negated_tags() {
    let now = ts(2024, 5, 6, 7, 8, 9, 0);
    let r = cmd::start(vec![], strings(&["!work"]), vec![], now);
    assert_eq!(r.unwrap_err(), TokError::InvalidFilterToken);
}

#[test]
fn stop_closes_matching_active_entry_only() {
    // scenario: entry1 active with tag a, entry2 closed with tag b;
    // stop with filter [a] closes entry1 at now and reports one stop
    let t0 = ts(2024, 1, 1, 8, 0, 0, 0);
    let t1 = ts(2024, 1, 1, 9, 0, 0, 0);
    let now = ts(2024, 1, 1, 10, 0, 0, 0);
    let entry2_span = Span::Closed { start: t0, end: t1 };
    let entries = vec![
        Entry { span: Span::Active { start: t0 }, tags: strings(&["a"]), comments: vec![] },
        Entry { span: entry2_span, tags: strings(&["b"]), comments: strings(&["old"]) },
    ];
    let (out, count) = cmd::stop(&entries, &strings(&["a"]), &strings(&["done"]), now).unwrap();
    assert_eq!(count, 1);
    assert_eq!(out.len(), 2);
    match out[0].span {
        Span::Closed { start, end } => {
            assert_eq!(start, t0);
            assert_eq!(end, now);
        }
        _ => panic!("expected entry1 to be closed"),
    }
    assert_eq!(out[0].comments, strings(&["done"]));
    // the non-matching entry is identical before and after
    assert_eq!(out[1], entries[1]);
}

#[test]
fn stop_appends_comments_to_existing_ones() {
    let now = ts(2024, 1, 1, 10, 0, 0, 0);
    let entries = vec![Entry {
        span: Span::Active { start: ts(2024, 1, 1, 8, 0, 0, 0) },
        tags: vec![],
        comments: strings(&["first"]),
    }];
    let (out, count) = cmd::stop(&entries, &vec![], &strings(&["second"]), now).unwrap();
    assert_eq!(count, 1);
    assert_eq!(out[0].comments, strings(&["first", "second"]));
}

#[test]
fn stop_rejects_malformed_filter_token() {
    let now = ts(2024, 1, 1, 10, 0, 0, 0);
    let entries: Vec<Entry> = vec![];
    let r = cmd::stop(&entries, &strings(&["a!b"]), &vec![], now);
    assert_eq!(r.unwrap_err(), TokError::InvalidFilterToken);
    let r2 = cmd::stop(&entries, &strings(&["!a!b"]), &vec![], now);
    assert_eq!(r2.unwrap_err(), TokError::InvalidFilterToken);
}

#[test]
fn negative_filter_matches_entries_lacking_the_tag() {
    let with_urgent = strings(&["urgent", "work"]);
    let without_urgent = strings(&["calm", "work"]);
    let filter = strings(&["!urgent"]);
    assert!(!cmd::filter_matches_exec(&filter, &with_urgent));
    assert!(cmd::filter_matches_exec(&filter, &without_urgent));
    assert!(cmd::filter_matches_exec(&filter, &vec![]));
}

#[test]
fn filter_is_conjunctive_and_empty_filter_matches_all() {
    let tags = strings(&["a", "b"]);
    assert!(cmd::filter_matches_exec(&vec![], &tags));
    assert!(cmd::filter_matches_exec(&strings(&["a", "b"]), &tags));
    assert!(!cmd::filter_matches_exec(&strings(&["a", "c"]), &tags));
    assert!(cmd::filter_matches_exec(&strings(&["a", "!c"]), &tags));
    assert!(!cmd::filter_matches_exec(&strings(&["a", "!b"]), &tags));
}

#[test]
fn validate_filter_accepts_only_leading_bang() {
    assert!(cmd::validate_filter(&strings(&["plain", "!negated"])));
    assert!(!cmd::validate_filter(&strings(&["mid!dle"])));
    assert!(!cmd::validate_filter(&strings(&["!dou!ble"])));
    assert!(cmd::validate_filter(&strings(&["!"])));
}

#[test]
fn stats_emits_whole_hours_and_leftover_minutes() {
    // scenario: stats on a closed entry with a 90-minute duration
    let e = Entry {
        span: Span::Closed {
            start: ts(2024, 1, 1, 8, 0, 0, 0),
            end: ts(2024, 1, 1, 9, 30, 0, 0),
        },
        tags: strings(&["work"]),
        comments: strings(&["x"]),
    };
    let line = stats::stats_line(&e);
    let fields: Vec<&str> = line.split('\t').collect();
    assert_eq!(fields[1], "1h30min");
    assert_eq!(fields[2], "(work)");
    assert_eq!(fields[3], "#x");
}

#[test]
fn stats_duration_crosses_days_and_offsets() {
    // 2020-02-28 23:00 UTC to 2020-02-29 01:30 at +0100 is 90 minutes
    let e = Entry {
        span: Span::Closed {
            start: ts(2020, 2, 28, 23, 0, 0, 0),
            end: ts(2020, 2, 29, 1, 30, 0, 60),
        },
        tags: vec![],
        comments: vec![],
    };
    let line = stats::stats_line(&e);
    let fields: Vec<&str> = line.split('\t').collect();
    assert_eq!(fields[1], "1h30min");
}

#[test]
fn stats_active_entry_has_blank_duration() {
    let e = Entry {
        span: Span::Active { start: ts(2024, 1, 1, 8, 0, 0, 0) },
        tags: vec![],
        comments: vec![],
    };
    let line = stats::stats_line(&e);
    let fields: Vec<&str> = line.split('\t').collect();
    assert_eq!(fields[1], "");
    assert_eq!(fields[2], "()");
}

#[test]
fn stats_negative_duration_signs_nonzero_parts() {
    let e = Entry {
        span: Span::Closed {
            start: ts(2024, 1, 1, 9, 30, 0, 0),
            end: ts(2024, 1, 1, 8, 0, 0, 0),
        },
        tags: vec![],
        comments: vec![],
    };
    let line = stats::stats_line(&e);
    let fields: Vec<&str> = line.split('\t').collect();
    assert_eq!(fields[1], "-1h-30min");
}

#[test]
fn status_reports_active_entries_or_none() {
    let none = stats::status(&vec![]);
    assert_eq!(none, vec!["No open time spans.".to_string()]);
    let entries = vec![
        Entry {
            span: Span::Active { start: ts(2024, 1, 1, 8, 0, 0, 0) },
            tags: strings(&["a", "b"]),
            comments: strings(&["one", "two"]),
        },
        Entry {
            span: Span::Closed {
                start: ts(2024, 1, 1, 8, 0, 0, 0),
                end: ts(2024, 1, 1, 9, 0, 0, 0),
            },
            tags: vec![],
            comments: vec![],
        },
    ];
    let lines = stats::status(&entries);
    assert_eq!(lines.len(), 1);
    assert_eq!(lines[0], "Tracking (a,b) since 2024-1-1 8:00:00 +0000 (2 comments)");
}

#[test]
fn clock_start_now_contract() {
    // the local clock may be unavailable here; either way the contract holds
    match tok::clock::start_now(vec![], strings(&["work"]), vec![]) {
        Ok(out) => {
            assert_eq!(out.len(), 1);
            match out[0].span {
                Span::Active { start } => {
                    assert!((0..=9999).contains(&start.year));
                    assert!((1..=12).contains(&start.month));
                }
                _ => panic!("expected an active span"),
            }
        }
        Err(e) => assert_eq!(e, TokError::TimeResolutionFailure),
    }
    // negated tags are rejected before the clock is read
    let r = tok::clock::start_now(vec![], strings(&["!work"]), vec![]);
    assert_eq!(r.unwrap_err(), TokError::InvalidFilterToken);
}

#[test]
fn error_messages_are_nonempty() {
    assert!(!TokError::StoreNotFound.message().is_empty());
    assert!(!TokError::IoFailure.message().is_empty());
    assert!(!TokError::InvalidFilterToken.message().is_empty());
    assert!(!TokError::TimeResolutionFailure.message().is_empty());
}

#[test]
fn tags_may_hold_spaces_and_hashes() {
    let text = "2020-1-1 0:00:00 +0000..( a , b#c )#note\n";
    let entries = parser::parse(text);
    assert_eq!(entries.len(), 1);
    assert_eq!(entries[0].tags, strings(&[" a ", " b#c "]));
    assert_eq!(entries[0].comments, strings(&["note"]));
}

#[test]
fn empty_tag_list_is_no_entry() {
    // `()` cannot be a tag list: the line fails to parse and is dropped
    let entries = parser::parse("2020-1-1 0:00:00 +0000..()\n");
    assert_eq!(entries.len(), 0);
}

#[test]
fn closed_span_tolerates_space_before_tags() {
    let text = "2020-1-1 0:00:00 +0000..2020-1-1 1:00:00 +0000 (a)\n";
    let entries = parser::parse(text);
    assert_eq!(entries.len(), 1);
    assert!(matches!(entries[0].span, Span::Closed { .. }));
    assert_eq!(entries[0].tags, strings(&["a"]));
}

#[test]
fn stray_digits_after_dots_drop_the_line() {
    // digits that do not form a full end timestamp leave residue, and the
    // whole line is treated as empty
    let entries = parser::parse("2020-1-1 0:00:00 +0000..2abc\n");
    assert_eq!(entries.len(), 0);
}

#[test]
fn offset_needs_exactly_four_digits() {
    assert_eq!(parser::parse("2020-1-1 0:00:00 +010..\n").len(), 0);
    assert_eq!(parser::parse("2020-1-1 0:00:00 +01000..\n").len(), 0);
}

#[test]
fn clock_stop_now_rejects_malformed_filter_before_reading_clock() {
    let entries: Vec<Entry> = vec![];
    let r = tok::clock::stop_now(&entries, &strings(&["a!b"]), &vec![]);
    assert_eq!(r.unwrap_err(), TokError::InvalidFilterToken);
}

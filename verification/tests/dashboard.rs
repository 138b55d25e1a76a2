use chrono::{Datelike, NaiveDate};
use metrix::aggregate::parse_all;
use metrix::data::{ContentBlock, MessagePayload, SessionLine, SessionStats, Usage};
use metrix::names::NameMap;
use metrix::ui::{
    bucket_peak, format_duration, format_session_date, ranked_counts, truncate_left, App, ChartView, Key,
    SessionRecords,
};

fn day(y: i32, m: u32, d: u32) -> i32 {
    NaiveDate::from_ymd_opt(y, m, d).unwrap().num_days_from_ce()
}

fn s(v: &str) -> Option<String> {
    Some(v.to_string())
}

fn line(kind: &str, ts: &str, sid: &str, input: u64) -> SessionLine {
    SessionLine {
        line_type: s(kind),
        timestamp: s(ts),
        session_id: s(sid),
        message: Some(MessagePayload {
            model: s("model-opus-4-5"),
            usage: Some(Usage {
                input_tokens: Some(input),
                output_tokens: Some(0),
                cache_read_input_tokens: None,
                cache_creation_input_tokens: None,
            }),
            content: Some(Vec::<ContentBlock>::new()),
        }),
    }
}

/// An app with one assistant line on each of `days` consecutive days.
fn app_with_days(days: u32) -> App {
    let lines: Vec<SessionLine> = (1..=days)
        .map(|d| line("assistant", &format!("2026-01-{:02}T10:00:00Z", d), "s", d as u64))
        .collect();
    App::new(parse_all(&lines))
}

#[test]
fn new_app_lists_days_in_order() {
    let app = app_with_days(5);
    assert_eq!(app.daily_vec.len(), 5);
    assert_eq!(app.daily_vec[0].0, day(2026, 1, 1));
    assert_eq!(app.daily_vec[4].0, day(2026, 1, 5));
    assert_eq!(app.daily_vec[2].1.input, 3);
    assert_eq!(app.scroll_offset, 0);
    assert_eq!(app.chart_view, ChartView::Tokens);
    assert_eq!(app.total_tokens(), 15);
}

#[test]
fn visible_bars_fit_the_width() {
    let app = app_with_days(1);
    assert_eq!(app.visible_bars(0), 1);
    assert_eq!(app.visible_bars(9), 1);
    assert_eq!(app.visible_bars(18), 2);
    assert_eq!(app.visible_bars(82), 10);
    assert_eq!(app.visible_bars_for_terminal(120), 10);
    assert_eq!(app.visible_bars_for_terminal(0), 1);
    assert_eq!(app.visible_bars_for_terminal(u16::MAX), 5734);
}

#[test]
fn scrolling_stays_in_range() {
    let mut app = app_with_days(10);
    app.scroll_right(4);
    assert_eq!(app.scroll_offset, 3);
    app.scroll_right(4);
    assert_eq!(app.scroll_offset, 6);
    app.scroll_right(4);
    assert_eq!(app.scroll_offset, 6);
    app.scroll_left(4);
    assert_eq!(app.scroll_offset, 3);
    app.scroll_left(4);
    app.scroll_left(4);
    assert_eq!(app.scroll_offset, 0);
    app.scroll_to_end(4);
    assert_eq!(app.scroll_offset, 6);
    assert_eq!(app.chart_window(4), (6, 10));
    app.scroll_to_end(20);
    assert_eq!(app.scroll_offset, 0);
    assert_eq!(app.chart_window(20), (0, 10));
}

#[test]
fn keys_drive_the_dashboard() {
    let mut app = app_with_days(10);
    assert!(!app.handle_key(Key::End, 4));
    assert_eq!(app.scroll_offset, 6);
    assert!(!app.handle_key(Key::Home, 4));
    assert_eq!(app.scroll_offset, 0);
    assert!(!app.handle_key(Key::Char('l'), 4));
    assert_eq!(app.scroll_offset, 3);
    assert!(!app.handle_key(Key::Right, 4));
    assert_eq!(app.scroll_offset, 6);
    assert!(!app.handle_key(Key::Char('h'), 4));
    assert!(!app.handle_key(Key::Left, 4));
    assert_eq!(app.scroll_offset, 0);
    assert!(!app.handle_key(Key::Char('c'), 4));
    assert_eq!(app.chart_view, ChartView::Cost);
    assert!(!app.handle_key(Key::Char('c'), 4));
    assert_eq!(app.chart_view, ChartView::Tokens);
    assert!(!app.handle_key(Key::Other, 4));
    assert!(!app.handle_key(Key::Char('x'), 4));
    assert!(app.handle_key(Key::Char('q'), 4));
    assert!(app.handle_key(Key::Esc, 4));
}

#[test]
fn toggle_twice_restores_the_view() {
    let mut app = app_with_days(1);
    app.toggle_chart_view();
    assert_eq!(app.chart_view, ChartView::Cost);
    app.toggle_chart_view();
    assert_eq!(app.chart_view, ChartView::Tokens);
}

#[test]
fn last_week_window() {
    let app = app_with_days(10);
    // days 4..=10 are within six days of day 10
    assert_eq!(app.week_start(), 3);
    let short = app_with_days(3);
    assert_eq!(short.week_start(), 0);
    let empty = App::new(parse_all(&vec![]));
    assert_eq!(empty.week_start(), 0);
}

#[test]
fn ranking_breaks_ties_by_name() {
    let mut counts: NameMap<u64> = NameMap::new();
    counts.insert("Read".to_string(), 4);
    counts.insert("Bash".to_string(), 7);
    counts.insert("Edit".to_string(), 4);
    counts.insert("Write".to_string(), 1);
    counts.insert("Agent".to_string(), 4);
    let ranked = ranked_counts(&counts);
    let names: Vec<&str> = ranked.iter().map(|(n, _)| n.as_str()).collect();
    assert_eq!(names, vec!["Bash", "Agent", "Edit", "Read", "Write"]);
    assert_eq!(ranked[0].1, 7);
    assert_eq!(ranked[4].1, 1);
}

fn stats(id: &str, dur: u64, user: u32, assistant: u32, files: usize) -> SessionStats {
    SessionStats {
        session_id: id.to_string(),
        first_date: Some(day(2026, 3, 10)),
        duration_secs: dur,
        user_turns: user,
        assistant_turns: assistant,
        files_touched_count: files,
    }
}

#[test]
fn session_records_pick_the_last_maximum() {
    let mut app = App::new(parse_all(&vec![]));
    assert_eq!(app.session_records(), None);
    app.metrics.sessions = vec![
        stats("a", 100, 1, 1, 5),
        stats("b", 50, 10, 10, 2),
        stats("c", 10, 5, 15, 5),
        stats("d", 0, 0, 0, 1),
    ];
    assert_eq!(app.session_records(), Some(SessionRecords { longest: 0, most_files: 2, most_turns: 2 }));
}

#[test]
fn turn_buckets() {
    let mut app = App::new(parse_all(&vec![]));
    app.metrics.sessions = vec![
        stats("a", 0, 0, 0, 0),
        stats("b", 0, 3, 2, 0),
        stats("c", 0, 3, 3, 0),
        stats("d", 0, 20, 0, 0),
        stats("e", 0, 30, 20, 0),
        stats("f", 0, 50, 50, 0),
        stats("g", 0, 50, 51, 0),
    ];
    let counts = app.turn_distribution();
    assert_eq!(counts, [2, 2, 1, 1, 1]);
    assert_eq!(bucket_peak(&counts), 2);
    assert_eq!(bucket_peak(&[0, 0, 0, 0, 0]), 1);
    app.metrics.total_user_turns = 7;
    app.metrics.total_assistant_turns = 8;
    assert_eq!(app.total_turns(), 15);
}

#[test]
fn peak_hour() {
    let mut app = App::new(parse_all(&vec![]));
    assert_eq!(app.peak_hour_count(), 1);
    app.metrics.hour_counts[13] = 42;
    app.metrics.hour_counts[2] = 7;
    assert_eq!(app.peak_hour_count(), 42);
}

#[test]
fn durations_in_hours_and_minutes() {
    assert_eq!(format_duration(0), "0m");
    assert_eq!(format_duration(59), "0m");
    assert_eq!(format_duration(125), "2m");
    assert_eq!(format_duration(3600), "1h 0m");
    assert_eq!(format_duration(3725), "1h 2m");
    assert_eq!(format_duration(90061), "25h 1m");
}

#[test]
fn session_dates() {
    let st = stats("a", 0, 0, 0, 0);
    assert_eq!(format_session_date(&st), "Mar 10, 2026");
    let mut none = st.clone();
    none.first_date = None;
    assert_eq!(format_session_date(&none), "unknown");
}

#[test]
fn truncation_keeps_the_end() {
    assert_eq!(truncate_left("short", 10), "short");
    assert_eq!(truncate_left("exact", 5), "exact");
    assert_eq!(truncate_left("/src/main.rs", 6), "…in.rs");
    assert_eq!(truncate_left("abc", 0), "…");
}

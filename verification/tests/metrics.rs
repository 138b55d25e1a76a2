use chrono::{Datelike, NaiveDate};
use metrix::aggregate::parse_all;
use metrix::data::{ContentBlock, DayTokens, FileOps, MessagePayload, Metrics, ModelTokens, SessionLine, Usage};

fn day(y: i32, m: u32, d: u32) -> i32 {
    NaiveDate::from_ymd_opt(y, m, d).unwrap().num_days_from_ce()
}

fn s(v: &str) -> Option<String> {
    Some(v.to_string())
}

fn usage(i: u64, o: u64, r: u64, c: u64) -> Usage {
    Usage {
        input_tokens: Some(i),
        output_tokens: Some(o),
        cache_read_input_tokens: Some(r),
        cache_creation_input_tokens: Some(c),
    }
}

fn tool(name: &str, path: Option<&str>) -> ContentBlock {
    ContentBlock { block_type: s("tool_use"), name: s(name), file_path: path.map(|p| p.to_string()) }
}

fn user(ts: &str, sid: &str) -> SessionLine {
    SessionLine { line_type: s("user"), timestamp: s(ts), session_id: s(sid), message: None }
}

fn assistant(ts: &str, sid: &str, model: &str, u: Option<Usage>, blocks: Vec<ContentBlock>) -> SessionLine {
    SessionLine {
        line_type: s("assistant"),
        timestamp: s(ts),
        session_id: s(sid),
        message: Some(MessagePayload { model: s(model), usage: u, content: Some(blocks) }),
    }
}

fn sample() -> Metrics {
    let lines = vec![
        user("2026-03-10T09:00:00.000Z", "s1"),
        assistant(
            "2026-03-10T09:00:30.500Z",
            "s1",
            "model-opus-4-6-20260101",
            Some(usage(10, 20, 30, 40)),
            vec![
                tool("Write", Some("/p/src/a.rs")),
                tool("Edit", Some("/p/src/a.rs")),
                tool("Read", Some("/p/README.md")),
                ContentBlock { block_type: s("text"), name: None, file_path: None },
            ],
        ),
        user("2026-03-10T10:15:00Z", "s1"),
        assistant(
            "2026-03-11T23:59:59Z",
            "s2",
            "sonnet",
            Some(usage(1, 2, 3, 4)),
            vec![tool("Write", Some("/p/src/a.rs")), tool("Grep", None), ContentBlock {
                block_type: s("tool_use"),
                name: None,
                file_path: None,
            }],
        ),
        SessionLine { line_type: s("summary"), timestamp: None, session_id: None, message: None },
        assistant("bad timestamp", "", "<synthetic>", Some(usage(5, 5, 5, 5)), vec![]),
    ];
    parse_all(&lines)
}

#[test]
fn turns_are_counted() {
    let m = sample();
    assert_eq!(m.total_user_turns, 2);
    assert_eq!(m.total_assistant_turns, 3);
}

#[test]
fn tokens_per_day() {
    let m = sample();
    assert_eq!(m.daily_tokens.len(), 2);
    assert_eq!(
        *m.daily_tokens.get(day(2026, 3, 10)).unwrap(),
        DayTokens { input: 10, output: 20, cache_read: 30, cache_creation: 40 }
    );
    assert_eq!(
        *m.daily_tokens.get(day(2026, 3, 11)).unwrap(),
        DayTokens { input: 1, output: 2, cache_read: 3, cache_creation: 4 }
    );
    assert_eq!(m.daily_tokens.key_at(0), day(2026, 3, 10));
}

#[test]
fn tokens_per_model() {
    let m = sample();
    assert_eq!(m.model_tokens.len(), 2);
    assert_eq!(
        *m.model_tokens.get("Opus 4.6").unwrap(),
        ModelTokens { input: 10, output: 20, cache_read: 30, cache_creation: 40 }
    );
    assert_eq!(
        *m.model_tokens.get("Sonnet 4.5").unwrap(),
        ModelTokens { input: 1, output: 2, cache_read: 3, cache_creation: 4 }
    );
    let d = m.daily_model_tokens.get(day(2026, 3, 11)).unwrap();
    assert_eq!(d.len(), 1);
    assert_eq!(d.key_at(0), "Sonnet 4.5");
}

#[test]
fn hours_count_messages() {
    let m = sample();
    let mut expected = [0u64; 24];
    expected[9] = 2;
    expected[10] = 1;
    expected[23] = 1;
    assert_eq!(m.hour_counts, expected);
}

#[test]
fn tools_and_file_ops() {
    let m = sample();
    assert_eq!(*m.tool_calls.get("Write").unwrap(), 2);
    assert_eq!(*m.tool_calls.get("Edit").unwrap(), 1);
    assert_eq!(*m.tool_calls.get("Read").unwrap(), 1);
    assert_eq!(*m.tool_calls.get("Grep").unwrap(), 1);
    assert_eq!(*m.tool_calls.get("unknown").unwrap(), 1);
    assert_eq!(m.tool_calls.len(), 5);
    // the first write creates, the edit and the second write edit
    assert_eq!(m.file_ops, FileOps { created: 1, edited: 2, read: 1 });
    assert_eq!(*m.file_edit_counts.get("/src/a.rs").unwrap(), 3);
    assert_eq!(m.file_edit_counts.len(), 1);
}

#[test]
fn sessions_longest_first() {
    let m = sample();
    assert_eq!(m.sessions.len(), 2);
    let s1 = &m.sessions[0];
    assert_eq!(s1.session_id, "s1");
    assert_eq!(s1.duration_secs, 75 * 60);
    assert_eq!(s1.first_date, Some(day(2026, 3, 10)));
    assert_eq!(s1.user_turns, 2);
    assert_eq!(s1.assistant_turns, 1);
    assert_eq!(s1.files_touched_count, 2);
    let s2 = &m.sessions[1];
    assert_eq!(s2.session_id, "s2");
    assert_eq!(s2.duration_secs, 0);
    assert_eq!(s2.files_touched_count, 1);
}

#[test]
fn no_lines_no_metrics() {
    let m = parse_all(&vec![]);
    assert_eq!(m.total_user_turns, 0);
    assert_eq!(m.total_assistant_turns, 0);
    assert_eq!(m.hour_counts, [0u64; 24]);
    assert_eq!(m.daily_tokens.len(), 0);
    assert_eq!(m.tool_calls.len(), 0);
    assert_eq!(m.sessions.len(), 0);
    assert_eq!(m.file_ops, FileOps { created: 0, edited: 0, read: 0 });
}

#[test]
fn counters_wrap_around() {
    let big = Usage {
        input_tokens: Some(u64::MAX),
        output_tokens: None,
        cache_read_input_tokens: None,
        cache_creation_input_tokens: None,
    };
    let lines = vec![
        assistant("2026-03-10T09:00:00Z", "s", "haiku", Some(big), vec![]),
        assistant("2026-03-10T09:00:01Z", "s", "haiku", Some(usage(2, 0, 0, 0)), vec![]),
    ];
    let m = parse_all(&lines);
    assert_eq!(m.daily_tokens.get(day(2026, 3, 10)).unwrap().input, 1);
    let t = DayTokens { input: u64::MAX, output: 1, cache_read: 0, cache_creation: 5 };
    assert_eq!(t.total(), 5);
    assert_eq!(DayTokens { input: 1, output: 2, cache_read: 3, cache_creation: 4 }.total(), 10);
}

#[test]
fn sessions_take_earliest_and_latest_stamps() {
    let lines = vec![
        user("2026-03-10T12:00:00Z", "s"),
        user("2026-03-10T10:00:00Z", "s"),
        user("2026-03-10T11:00:00Z", "s"),
        user("2026-03-09T23:00:00Z", "t"),
    ];
    let m = parse_all(&lines);
    assert_eq!(m.sessions[0].session_id, "s");
    assert_eq!(m.sessions[0].duration_secs, 7200);
    assert_eq!(m.sessions[1].duration_secs, 0);
    assert_eq!(m.sessions[1].first_date, Some(day(2026, 3, 9)));
}

#[test]
fn session_files_are_distinct_file_tool_paths() {
    let lines = vec![
        assistant(
            "2026-03-10T09:00:00Z",
            "s",
            "haiku",
            None,
            vec![
                tool("Read", Some("/a/b/c.rs")),
                tool("Read", Some("/a/b/c.rs")),
                tool("Glob", Some("/a/b/d.rs")),
                tool("Edit", Some("/a/b/e.rs")),
            ],
        ),
        assistant("2026-03-10T09:00:05Z", "", "haiku", None, vec![tool("Write", Some("/x.rs"))]),
        user("2026-03-10T09:00:09Z", "s"),
    ];
    let m = parse_all(&lines);
    assert_eq!(m.sessions.len(), 1);
    assert_eq!(m.sessions[0].session_id, "s");
    assert_eq!(m.sessions[0].files_touched_count, 2);
    assert_eq!(m.sessions[0].user_turns, 1);
    assert_eq!(m.sessions[0].assistant_turns, 1);
    assert_eq!(m.sessions[0].duration_secs, 9);
    assert_eq!(m.total_assistant_turns, 2);
}

#[test]
fn a_write_after_an_edit_is_an_edit() {
    let lines = vec![assistant(
        "2026-03-10T09:00:00Z",
        "s",
        "haiku",
        None,
        vec![
            tool("Edit", Some("/w/x/y.rs")),
            tool("Write", Some("/w/x/y.rs")),
            tool("Write", None),
            tool("Edit", None),
            tool("Write", Some("/w/z.rs")),
        ],
    )];
    let m = parse_all(&lines);
    assert_eq!(m.file_ops, FileOps { created: 1, edited: 3, read: 0 });
    assert_eq!(*m.tool_calls.get("Write").unwrap(), 3);
    assert_eq!(*m.tool_calls.get("Edit").unwrap(), 2);
    assert_eq!(*m.file_edit_counts.get("/x/y.rs").unwrap(), 2);
    assert_eq!(*m.file_edit_counts.get("/w/z.rs").unwrap(), 1);
    assert_eq!(m.file_edit_counts.len(), 2);
}

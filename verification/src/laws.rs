//! Properties of the metrics that hold for every sequence of log lines, and
//! of the dashboard's scrolling and path shortening.
use vstd::prelude::*;
use crate::clock::{spec_parse_datetime, spec_parse_date};
use crate::data::{
    ContentBlock, DayTokens, MessagePayload, ModelTokens, SessionLine, Tally, Usage, empty_tally, get_or, or_zero, zero_day, note_message, note_tool, note_tools,
    step, tally,
};
use crate::naming::{is_cut, slashes_from, spec_shorten_path, spec_normalize_model};
use crate::text::text_or_empty;
use crate::ui::{ChartView, monus, toggled};
use crate::wrap::{wrap32, wrap64, lemma_wrap32_assoc, lemma_wrap64_assoc};

verus! {

/// The number of `lines` of the given type.
pub open spec fn count_kind(lines: Seq<SessionLine>, kind: Seq<char>) -> int
    decreases lines.len(),
{
    if lines.len() == 0 {
        0
    } else {
        count_kind(lines.drop_last(), kind) + (if text_or_empty(lines.last().line_type) == kind {
            1int
        } else {
            0int
        })
    }
}

/// The line is a user or assistant message whose timestamp falls in hour `h`.
pub open spec fn active_in_hour(l: SessionLine, h: int) -> bool {
    let kind = text_or_empty(l.line_type);
    &&& kind == "user"@ || kind == "assistant"@
    &&& spec_parse_datetime(text_or_empty(l.timestamp)) matches Some(t)
    &&& t.hour == h
}

/// The number of `lines` that are messages in hour `h`.
pub open spec fn count_in_hour(lines: Seq<SessionLine>, h: int) -> int
    decreases lines.len(),
{
    if lines.len() == 0 {
        0
    } else {
        count_in_hour(lines.drop_last(), h) + (if active_in_hour(lines.last(), h) {
            1int
        } else {
            0int
        })
    }
}

/// Tool calls change neither the token maps, nor the hour counts, nor the
/// turn totals.
proof fn lemma_tool_frame(t: Tally, b: ContentBlock, sid: Seq<char>)
    ensures
        ({
            let u = note_tool(t, b, sid);
            &&& u.daily_tokens == t.daily_tokens
            &&& u.hour_counts == t.hour_counts
            &&& u.total_user_turns == t.total_user_turns
            &&& u.total_assistant_turns == t.total_assistant_turns
            &&& u.model_tokens == t.model_tokens
            &&& u.daily_model_tokens == t.daily_model_tokens
            &&& u.sessions.dom().subset_of(t.sessions.dom().insert(sid))
        }),
{
    assert(note_tool(t, b, sid).sessions.dom() <= t.sessions.dom().insert(sid));
}

proof fn lemma_tools_frame(t: Tally, blocks: Seq<ContentBlock>, sid: Seq<char>)
    ensures
        ({
            let u = note_tools(t, blocks, sid);
            &&& u.daily_tokens == t.daily_tokens
            &&& u.hour_counts == t.hour_counts
            &&& u.total_user_turns == t.total_user_turns
            &&& u.total_assistant_turns == t.total_assistant_turns
            &&& u.model_tokens == t.model_tokens
            &&& u.daily_model_tokens == t.daily_model_tokens
            &&& sid.len() == 0 ==> u.sessions.dom() == t.sessions.dom()
            &&& u.sessions.dom().subset_of(t.sessions.dom().insert(sid))
        }),
    decreases blocks.len(),
{
    if blocks.len() > 0 {
        lemma_tools_frame(t, blocks.drop_last(), sid);
        let mid = note_tools(t, blocks.drop_last(), sid);
        lemma_tool_frame(mid, blocks.last(), sid);
        if sid.len() == 0 {
            assert(note_tool(mid, blocks.last(), sid).sessions.dom() =~= mid.sessions.dom());
        }
    }
}

/// Reading one line adds one user turn exactly when it is a user line,
/// and one assistant turn exactly when it is an assistant line.
proof fn lemma_step_turns(t: Tally, l: SessionLine)
    ensures
        step(t, l).total_user_turns == (if text_or_empty(l.line_type) == "user"@ {
            wrap32(t.total_user_turns + 1)
        } else {
            t.total_user_turns
        }),
        step(t, l).total_assistant_turns == (if text_or_empty(l.line_type) == "assistant"@ {
            wrap32(t.total_assistant_turns + 1)
        } else {
            t.total_assistant_turns
        }),
{
    reveal_strlit("user");
    reveal_strlit("assistant");
    assert("user"@ != "assistant"@) by {
        assert("user"@.len() != "assistant"@.len());
    }
    match l.message {
        Some(m) => {
            let t2 = crate::data::note_hour(
                crate::data::note_time(t, text_or_empty(l.session_id), spec_parse_datetime(text_or_empty(l.timestamp))),
                text_or_empty(l.line_type) == "user"@ || text_or_empty(l.line_type) == "assistant"@,
                spec_parse_datetime(text_or_empty(l.timestamp)),
            );
            let t3 = crate::data::note_assistant_turn(t2, text_or_empty(l.session_id));
            lemma_message_frame(t3, m, crate::clock::spec_parse_date(text_or_empty(l.timestamp)), text_or_empty(l.session_id));
        },
        None => {},
    }
}

proof fn lemma_message_frame(t: Tally, m: MessagePayload, date: Option<i32>, sid: Seq<char>)
    ensures
        note_message(t, m, date, sid).total_user_turns == t.total_user_turns,
        note_message(t, m, date, sid).total_assistant_turns == t.total_assistant_turns,
        note_message(t, m, date, sid).hour_counts == t.hour_counts,
        sid.len() == 0 ==> note_message(t, m, date, sid).sessions.dom() == t.sessions.dom(),
        note_message(t, m, date, sid).sessions.dom().subset_of(t.sessions.dom().insert(sid)),
{
    let t1 = match m.usage {
        Some(u) => crate::data::note_usage(t, u, m.model, date),
        None => t,
    };
    match m.content {
        Some(blocks) => lemma_tools_frame(t1, blocks@, sid),
        None => {},
    }
}

/// The user turn total counts the user lines, and the assistant turn total
/// the assistant lines (each wrapping at 2^32).
pub proof fn law_turn_totals(lines: Seq<SessionLine>)
    ensures
        tally(lines).total_user_turns == wrap32(count_kind(lines, "user"@)),
        tally(lines).total_assistant_turns == wrap32(count_kind(lines, "assistant"@)),
    decreases lines.len(),
{
    if lines.len() > 0 {
        law_turn_totals(lines.drop_last());
        lemma_step_turns(tally(lines.drop_last()), lines.last());
        lemma_wrap32_assoc(count_kind(lines.drop_last(), "user"@), 1);
        lemma_wrap32_assoc(count_kind(lines.drop_last(), "assistant"@), 1);
    }
}

/// There are 24 hour counts, and the count of hour `h` is the number of
/// user and assistant lines stamped in that hour (wrapping at 2^64).
pub proof fn law_hour_counts(lines: Seq<SessionLine>)
    ensures
        tally(lines).hour_counts.len() == 24,
        forall|h: int| 0 <= h < 24 ==> #[trigger] tally(lines).hour_counts[h] == wrap64(count_in_hour(lines, h)),
    decreases lines.len(),
{
    if lines.len() > 0 {
        let prev = lines.drop_last();
        let l = lines.last();
        law_hour_counts(prev);
        let t = tally(prev);
        let kind = text_or_empty(l.line_type);
        let dt = spec_parse_datetime(text_or_empty(l.timestamp));
        let sid = text_or_empty(l.session_id);
        let t1 = crate::data::note_time(t, sid, dt);
        let t2 = crate::data::note_hour(t1, kind == "user"@ || kind == "assistant"@, dt);
        assert(t1.hour_counts == t.hour_counts);
        match l.message {
            Some(m) => {
                let t3 = crate::data::note_assistant_turn(t2, sid);
                lemma_message_frame(t3, m, crate::clock::spec_parse_date(text_or_empty(l.timestamp)), sid);
            },
            None => {},
        }
        assert(step(t, l).hour_counts == t2.hour_counts);
        assert forall|h: int| 0 <= h < 24 implies #[trigger] tally(lines).hour_counts[h] == wrap64(count_in_hour(lines, h)) by {
            lemma_wrap64_assoc(count_in_hour(prev, h), 1);
        }
    } else {
        assert forall|h: int| 0 <= h < 24 implies #[trigger] tally(lines).hour_counts[h] == wrap64(count_in_hour(lines, h)) by {
            assert(empty_tally().hour_counts[h] == 0);
        }
    }
}

/// Every session has a non-empty id: lines without a session id count
/// toward no session.
pub proof fn law_session_ids_nonempty(lines: Seq<SessionLine>)
    ensures
        forall|sid: Seq<char>| #[trigger] tally(lines).sessions.contains_key(sid) ==> sid.len() > 0,
    decreases lines.len(),
{
    if lines.len() > 0 {
        let prev = lines.drop_last();
        let l = lines.last();
        law_session_ids_nonempty(prev);
        let t = tally(prev);
        let kind = text_or_empty(l.line_type);
        let dt = spec_parse_datetime(text_or_empty(l.timestamp));
        let sid = text_or_empty(l.session_id);
        let t1 = crate::data::note_time(t, sid, dt);
        let t2 = crate::data::note_hour(t1, kind == "user"@ || kind == "assistant"@, dt);
        let t3 = crate::data::note_assistant_turn(t2, sid);
        if sid.len() == 0 {
            assert(t1.sessions.dom() =~= t.sessions.dom());
            assert(t3.sessions.dom() =~= t2.sessions.dom());
        }
        match l.message {
            Some(m) => {
                lemma_message_frame(t3, m, crate::clock::spec_parse_date(text_or_empty(l.timestamp)), sid);
            },
            None => {},
        }
        assert forall|s: Seq<char>| #[trigger] tally(lines).sessions.contains_key(s) implies s.len() > 0 by {
            if sid.len() == 0 {
                assert(crate::data::note_user_turn(t2, sid).sessions.dom() =~= t2.sessions.dom());
            }
        }
    }
}

/// Every day with per-model tokens has daily tokens, and every model with
/// tokens on some day has model totals.
pub proof fn law_days_and_models_covered(lines: Seq<SessionLine>)
    ensures
        forall|d: i32| #[trigger] tally(lines).daily_model_tokens.contains_key(d) ==> tally(lines).daily_tokens.contains_key(d),
        forall|d: i32, k: Seq<char>| #[trigger] tally(lines).daily_model_tokens.contains_key(d)
            && #[trigger] tally(lines).daily_model_tokens[d].contains_key(k) ==> tally(lines).model_tokens.contains_key(k),
    decreases lines.len(),
{
    if lines.len() > 0 {
        let prev = lines.drop_last();
        let l = lines.last();
        law_days_and_models_covered(prev);
        let t = tally(prev);
        let kind = text_or_empty(l.line_type);
        let dt = spec_parse_datetime(text_or_empty(l.timestamp));
        let date = crate::clock::spec_parse_date(text_or_empty(l.timestamp));
        let sid = text_or_empty(l.session_id);
        let t1 = crate::data::note_time(t, sid, dt);
        let t2 = crate::data::note_hour(t1, kind == "user"@ || kind == "assistant"@, dt);
        let t3 = crate::data::note_assistant_turn(t2, sid);
        match l.message {
            Some(m) => {
                let t4 = match m.usage {
                    Some(u) => crate::data::note_usage(t3, u, m.model, date),
                    None => t3,
                };
                match m.content {
                    Some(blocks) => lemma_tools_frame(t4, blocks@, sid),
                    None => {},
                }
            },
            None => {},
        }
    }
}

/// The read count equals the number of `Read` tool calls.
pub open spec fn reads_match(t: Tally) -> bool {
    t.file_ops.read == crate::data::get_or(t.tool_calls, "Read"@, 0u64)
}

proof fn lemma_tool_keeps_reads(t: Tally, b: ContentBlock, sid: Seq<char>)
    requires
        reads_match(t),
    ensures
        reads_match(note_tool(t, b, sid)),
{
    reveal_strlit("Read");
    reveal_strlit("Write");
    reveal_strlit("Edit");
    let name = crate::data::tool_name(b);
    if name == "Read"@ {
        assert(name.len() != "Write"@.len());
        assert(name[0] != "Edit"@[0]);
    }
}

proof fn lemma_tools_keep_reads(t: Tally, blocks: Seq<ContentBlock>, sid: Seq<char>)
    requires
        reads_match(t),
    ensures
        reads_match(note_tools(t, blocks, sid)),
    decreases blocks.len(),
{
    if blocks.len() > 0 {
        lemma_tools_keep_reads(t, blocks.drop_last(), sid);
        lemma_tool_keeps_reads(note_tools(t, blocks.drop_last(), sid), blocks.last(), sid);
    }
}

/// The count of file reads equals the count of `Read` tool calls: both go
/// up by one for each `Read` call, with or without a file path.
pub proof fn law_reads_are_read_calls(lines: Seq<SessionLine>)
    ensures
        tally(lines).file_ops.read == crate::data::get_or(tally(lines).tool_calls, "Read"@, 0u64),
    decreases lines.len(),
{
    if lines.len() > 0 {
        let prev = lines.drop_last();
        let l = lines.last();
        law_reads_are_read_calls(prev);
        let t = tally(prev);
        let kind = text_or_empty(l.line_type);
        let dt = spec_parse_datetime(text_or_empty(l.timestamp));
        let date = crate::clock::spec_parse_date(text_or_empty(l.timestamp));
        let sid = text_or_empty(l.session_id);
        let t1 = crate::data::note_time(t, sid, dt);
        let t2 = crate::data::note_hour(t1, kind == "user"@ || kind == "assistant"@, dt);
        let t3 = crate::data::note_assistant_turn(t2, sid);
        assert(reads_match(t3));
        match l.message {
            Some(m) => {
                let t4 = match m.usage {
                    Some(u) => crate::data::note_usage(t3, u, m.model, date),
                    None => t3,
                };
                assert(reads_match(t4));
                match m.content {
                    Some(blocks) => lemma_tools_keep_reads(t4, blocks@, sid),
                    None => {},
                }
            },
            None => {},
        }
    }
}

/// The usage that line `l` reports for day `d`: that of an assistant
/// message stamped on that day.
pub open spec fn usage_on(l: SessionLine, d: i32) -> Option<Usage> {
    if text_or_empty(l.line_type) == "assistant"@ && spec_parse_date(text_or_empty(l.timestamp)) == Some(d) {
        match l.message {
            Some(m) => m.usage,
            None => None,
        }
    } else {
        None
    }
}

/// The sum of `f` over the usage that `lines` report for day `d`.
pub open spec fn day_sum(lines: Seq<SessionLine>, d: i32, f: spec_fn(Usage) -> int) -> int
    decreases lines.len(),
{
    if lines.len() == 0 {
        0
    } else {
        day_sum(lines.drop_last(), d, f) + match usage_on(lines.last(), d) {
            Some(u) => f(u),
            None => 0,
        }
    }
}

/// Some line reports usage for day `d`.
pub open spec fn has_usage_on(lines: Seq<SessionLine>, d: i32) -> bool {
    exists|i: int| 0 <= i < lines.len() && (#[trigger] usage_on(lines[i], d)) is Some
}

/// The tokens of day `d` as the sums of the usage reported for that day.
pub open spec fn day_sums(lines: Seq<SessionLine>, d: i32) -> DayTokens {
    DayTokens {
        input: wrap64(day_sum(lines, d, |u: Usage| or_zero(u.input_tokens))),
        output: wrap64(day_sum(lines, d, |u: Usage| or_zero(u.output_tokens))),
        cache_read: wrap64(day_sum(lines, d, |u: Usage| or_zero(u.cache_read_input_tokens))),
        cache_creation: wrap64(day_sum(lines, d, |u: Usage| or_zero(u.cache_creation_input_tokens))),
    }
}

/// Tokens per day: a day has an entry exactly when some assistant message
/// of that day reports usage, and each of its counts is the sum of what
/// those messages report (wrapping at 2^64).
pub proof fn law_daily_tokens(lines: Seq<SessionLine>, d: i32)
    ensures
        tally(lines).daily_tokens.contains_key(d) == has_usage_on(lines, d),
        get_or(tally(lines).daily_tokens, d, zero_day()) == day_sums(lines, d),
    decreases lines.len(),
{
    if lines.len() > 0 {
        let prev = lines.drop_last();
        let l = lines.last();
        law_daily_tokens(prev, d);
        let t = tally(prev);
        let kind = text_or_empty(l.line_type);
        let dt = spec_parse_datetime(text_or_empty(l.timestamp));
        let date = spec_parse_date(text_or_empty(l.timestamp));
        let sid = text_or_empty(l.session_id);
        let t1 = crate::data::note_time(t, sid, dt);
        let t2 = crate::data::note_hour(t1, kind == "user"@ || kind == "assistant"@, dt);
        let t3 = crate::data::note_assistant_turn(t2, sid);
        assert(t3.daily_tokens == t.daily_tokens);
        if kind == "assistant"@ {
            match l.message {
                Some(m) => {
                    let t4 = match m.usage {
                        Some(u) => crate::data::note_usage(t3, u, m.model, date),
                        None => t3,
                    };
                    match m.content {
                        Some(blocks) => lemma_tools_frame(t4, blocks@, sid),
                        None => {},
                    }
                },
                None => {},
            }
        } else {
            assert(crate::data::note_user_turn(t2, sid).daily_tokens == t.daily_tokens);
        }
        let fi = |u: Usage| or_zero(u.input_tokens);
        let fo = |u: Usage| or_zero(u.output_tokens);
        let fr = |u: Usage| or_zero(u.cache_read_input_tokens);
        let fc = |u: Usage| or_zero(u.cache_creation_input_tokens);
        match usage_on(l, d) {
            Some(u) => {
                lemma_wrap64_assoc(day_sum(prev, d, fi), fi(u));
                lemma_wrap64_assoc(day_sum(prev, d, fo), fo(u));
                lemma_wrap64_assoc(day_sum(prev, d, fr), fr(u));
                lemma_wrap64_assoc(day_sum(prev, d, fc), fc(u));
                assert(usage_on(lines[lines.len() - 1], d) is Some);
            },
            None => {
                if has_usage_on(lines, d) {
                    let i = choose|i: int| 0 <= i < lines.len() && (#[trigger] usage_on(lines[i], d)) is Some;
                    assert(i < lines.len() - 1);
                    assert(prev[i] == lines[i]);
                }
            },
        }
        if has_usage_on(prev, d) {
            let i = choose|i: int| 0 <= i < prev.len() && (#[trigger] usage_on(prev[i], d)) is Some;
            assert(lines[i] == prev[i]);
        }
        assert(get_or(tally(lines).daily_tokens, d, zero_day()) =~= day_sums(lines, d));
    } else {
        assert(day_sums(lines, d) == zero_day());
    }
}

/// The usage that line `l` reports under pricing key `k`, on day `d` when
/// a day is given: that of an assistant message of a model with that key.
pub open spec fn usage_for(l: SessionLine, k: Seq<char>, d: Option<i32>) -> Option<Usage> {
    if text_or_empty(l.line_type) == "assistant"@ && k.len() > 0 && (match d {
        Some(day) => spec_parse_date(text_or_empty(l.timestamp)) == Some(day),
        None => true,
    }) {
        match l.message {
            Some(m) => match m.model {
                Some(name) => if spec_normalize_model(name@) == k { m.usage } else { None },
                None => None,
            },
            None => None,
        }
    } else {
        None
    }
}

/// The sum of `f` over the usage that `lines` report under key `k` (on day
/// `d`, when given).
pub open spec fn model_sum(lines: Seq<SessionLine>, k: Seq<char>, d: Option<i32>, f: spec_fn(Usage) -> int) -> int
    decreases lines.len(),
{
    if lines.len() == 0 {
        0
    } else {
        model_sum(lines.drop_last(), k, d, f) + match usage_for(lines.last(), k, d) {
            Some(u) => f(u),
            None => 0,
        }
    }
}

/// Some line reports usage under key `k` (on day `d`, when given).
pub open spec fn has_usage_for(lines: Seq<SessionLine>, k: Seq<char>, d: Option<i32>) -> bool {
    exists|i: int| 0 <= i < lines.len() && (#[trigger] usage_for(lines[i], k, d)) is Some
}

/// The tokens of key `k` (on day `d`, when given) as sums of reported usage.
pub open spec fn model_sums(lines: Seq<SessionLine>, k: Seq<char>, d: Option<i32>) -> ModelTokens {
    ModelTokens {
        input: wrap64(model_sum(lines, k, d, |u: Usage| or_zero(u.input_tokens))),
        output: wrap64(model_sum(lines, k, d, |u: Usage| or_zero(u.output_tokens))),
        cache_read: wrap64(model_sum(lines, k, d, |u: Usage| or_zero(u.cache_read_input_tokens))),
        cache_creation: wrap64(model_sum(lines, k, d, |u: Usage| or_zero(u.cache_creation_input_tokens))),
    }
}

/// The per-model tokens and the per-day per-model tokens that the totals
/// hold for key `k` (on day `d`, when given).
pub open spec fn model_entry(t: Tally, k: Seq<char>, d: Option<i32>) -> Option<ModelTokens> {
    match d {
        None => if t.model_tokens.contains_key(k) { Some(t.model_tokens[k]) } else { None },
        Some(day) => if t.daily_model_tokens.contains_key(day) && t.daily_model_tokens[day].contains_key(k) {
            Some(t.daily_model_tokens[day][k])
        } else {
            None
        },
    }
}

/// Tokens per model, and per day and model: an entry exists exactly when
/// some assistant message of a model with that pricing key (on that day)
/// reports usage, and its counts are the sums of what those messages
/// report (wrapping at 2^64).
pub proof fn law_model_tokens(lines: Seq<SessionLine>, k: Seq<char>, d: Option<i32>)
    ensures
        model_entry(tally(lines), k, d) is Some == has_usage_for(lines, k, d),
        model_entry(tally(lines), k, d) matches Some(mt) ==> mt == model_sums(lines, k, d),
    decreases lines.len(),
{
    if lines.len() > 0 {
        let prev = lines.drop_last();
        let l = lines.last();
        law_model_tokens(prev, k, d);
        let t = tally(prev);
        let kind = text_or_empty(l.line_type);
        let dt = spec_parse_datetime(text_or_empty(l.timestamp));
        let date = spec_parse_date(text_or_empty(l.timestamp));
        let sid = text_or_empty(l.session_id);
        let t1 = crate::data::note_time(t, sid, dt);
        let t2 = crate::data::note_hour(t1, kind == "user"@ || kind == "assistant"@, dt);
        let t3 = crate::data::note_assistant_turn(t2, sid);
        assert(model_entry(t3, k, d) == model_entry(t, k, d));
        if kind == "assistant"@ {
            match l.message {
                Some(m) => {
                    let t4 = match m.usage {
                        Some(u) => crate::data::note_usage(t3, u, m.model, date),
                        None => t3,
                    };
                    match m.content {
                        Some(blocks) => {
                            lemma_tools_frame(t4, blocks@, sid);
                            assert(model_entry(note_tools(t4, blocks@, sid), k, d) == model_entry(t4, k, d));
                        },
                        None => {},
                    }
                },
                None => {},
            }
        } else {
            assert(model_entry(crate::data::note_user_turn(t2, sid), k, d) == model_entry(t, k, d));
        }
        let fi = |u: Usage| or_zero(u.input_tokens);
        let fo = |u: Usage| or_zero(u.output_tokens);
        let fr = |u: Usage| or_zero(u.cache_read_input_tokens);
        let fc = |u: Usage| or_zero(u.cache_creation_input_tokens);
        match usage_for(l, k, d) {
            Some(u) => {
                lemma_wrap64_assoc(model_sum(prev, k, d, fi), fi(u));
                lemma_wrap64_assoc(model_sum(prev, k, d, fo), fo(u));
                lemma_wrap64_assoc(model_sum(prev, k, d, fr), fr(u));
                lemma_wrap64_assoc(model_sum(prev, k, d, fc), fc(u));
                assert(usage_for(lines[lines.len() - 1], k, d) is Some);
                if model_entry(t, k, d) is None {
                    assert(model_sum(prev, k, d, fi) == 0) by {
                        lemma_no_usage_zero(prev, k, d, fi);
                    }
                    assert(model_sum(prev, k, d, fo) == 0) by {
                        lemma_no_usage_zero(prev, k, d, fo);
                    }
                    assert(model_sum(prev, k, d, fr) == 0) by {
                        lemma_no_usage_zero(prev, k, d, fr);
                    }
                    assert(model_sum(prev, k, d, fc) == 0) by {
                        lemma_no_usage_zero(prev, k, d, fc);
                    }
                }
            },
            None => {
                if has_usage_for(lines, k, d) {
                    let i = choose|i: int| 0 <= i < lines.len() && (#[trigger] usage_for(lines[i], k, d)) is Some;
                    assert(i < lines.len() - 1);
                    assert(prev[i] == lines[i]);
                }
            },
        }
        if has_usage_for(prev, k, d) {
            let i = choose|i: int| 0 <= i < prev.len() && (#[trigger] usage_for(prev[i], k, d)) is Some;
            assert(lines[i] == prev[i]);
        }
        if model_entry(tally(lines), k, d) is Some {
            assert(model_entry(tally(lines), k, d)->0 =~= model_sums(lines, k, d));
        }
    }
}

proof fn lemma_no_usage_zero(lines: Seq<SessionLine>, k: Seq<char>, d: Option<i32>, f: spec_fn(Usage) -> int)
    requires
        !has_usage_for(lines, k, d),
    ensures
        model_sum(lines, k, d, f) == 0,
    decreases lines.len(),
{
    if lines.len() > 0 {
        let prev = lines.drop_last();
        assert(usage_for(lines[lines.len() - 1], k, d) is None);
        if has_usage_for(prev, k, d) {
            let i = choose|i: int| 0 <= i < prev.len() && (#[trigger] usage_for(prev[i], k, d)) is Some;
            assert(lines[i] == prev[i]);
        }
        lemma_no_usage_zero(prev, k, d, f);
    }
}

/// Toggling the chart twice shows what it showed before.
pub proof fn law_toggle_twice(v: ChartView)
    ensures
        toggled(toggled(v)) == v,
{
}

/// After jumping to the end the chart's window reaches the most recent day,
/// and scrolling right never passes the offset that the end jump gives.
pub proof fn law_end_shows_last_day(len: nat, visible: nat, offset: nat)
    requires
        visible >= 1,
    ensures
        vstd::math::min(monus(len as int, visible as int) + visible, len as int) == len,
        offset <= monus(len as int, visible as int) ==> vstd::math::min(offset + 3int, monus(len as int, visible as int))
            <= monus(len as int, visible as int),
        vstd::math::min(offset + 3int, monus(len as int, visible as int)) <= monus(len as int, visible as int),
{
}

proof fn lemma_slashes_skip(s: Seq<char>, i: int, j: int)
    requires
        0 <= i <= s.len(),
        0 <= j,
    ensures
        slashes_from(s.skip(i), j) == slashes_from(s, i + j),
    decreases s.len() - (i + j),
{
    if i + j < s.len() {
        lemma_slashes_skip(s, i, j + 1);
        assert(s.skip(i)[j] == s[i + j]);
    }
}

/// A shortened path is the end of the path holding its last two
/// components: it starts at the second `/` from the end, with exactly two
/// `/`, or it is the whole path, which then has fewer than two.
pub proof fn law_shorten_keeps_tail(s: Seq<char>)
    ensures
        exists|i: int| 0 <= i <= s.len() && #[trigger] s.skip(i) == spec_shorten_path(s),
        slashes_from(spec_shorten_path(s), 0) <= 2,
        spec_shorten_path(s) == s ==> slashes_from(s, 0) <= 2,
        spec_shorten_path(s) != s ==> spec_shorten_path(s)[0] == '/' && slashes_from(spec_shorten_path(s), 0) == 2,
{
    if exists|i: int| is_cut(s, i) {
        let i = choose|i: int| is_cut(s, i);
        lemma_slashes_skip(s, i, 0);
        assert(s.skip(i) == spec_shorten_path(s));
        if spec_shorten_path(s) == s {
            assert(slashes_from(s, 0) == 2) by {
                lemma_slashes_skip(s, i, 0);
            }
        }
    } else {
        assert(s.skip(0) =~= s);
        lemma_no_cut_few_slashes(s, 0);
    }
}

proof fn lemma_no_cut_few_slashes(s: Seq<char>, i: int)
    requires
        0 <= i <= s.len(),
        forall|k: int| !is_cut(s, k),
    ensures
        slashes_from(s, i) <= 1,
    decreases s.len() - i,
{
    if i < s.len() {
        lemma_no_cut_few_slashes(s, i + 1);
        if s[i] == '/' && slashes_from(s, i) == 2 {
            assert(is_cut(s, i));
        }
    }
}

} // verus!

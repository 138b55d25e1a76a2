//! Properties of each session's statistics that hold for every sequence of
//! log lines.
use vstd::prelude::*;
use crate::clock::{Timestamp, spec_parse_datetime, spec_parse_date, spec_seconds_between};
use crate::data::{
    ContentBlock, MessagePayload, Metrics, SessionLine, SessionModel, Tally, note_message, note_tool, note_tools, step, tally,
    tool_name, touch_time,
};
use crate::laws::law_session_ids_nonempty;
use crate::text::text_or_empty;
use crate::wrap::{wrap32, lemma_wrap32_assoc};

verus! {

/// Two views of a session agree on its time span and its turn counts.
pub open spec fn same_clock_and_turns(s: SessionModel, u: SessionModel) -> bool {
    &&& s.first_ts == u.first_ts
    &&& s.last_ts == u.last_ts
    &&& s.user_turns == u.user_turns
    &&& s.assistant_turns == u.assistant_turns
}

/// Tool calls change no session's time span or turn counts.
proof fn lemma_tool_session_frame(t: Tally, b: ContentBlock, sid: Seq<char>, x: Seq<char>)
    ensures
        same_clock_and_turns(note_tool(t, b, sid).session(x), t.session(x)),
{
}

proof fn lemma_tools_session_frame(t: Tally, blocks: Seq<ContentBlock>, sid: Seq<char>, x: Seq<char>)
    ensures
        same_clock_and_turns(note_tools(t, blocks, sid).session(x), t.session(x)),
    decreases blocks.len(),
{
    if blocks.len() > 0 {
        lemma_tools_session_frame(t, blocks.drop_last(), sid, x);
        lemma_tool_session_frame(note_tools(t, blocks.drop_last(), sid), blocks.last(), sid, x);
    }
}

proof fn lemma_message_session_frame(t: Tally, m: MessagePayload, date: Option<i32>, sid: Seq<char>, x: Seq<char>)
    ensures
        same_clock_and_turns(note_message(t, m, date, sid).session(x), t.session(x)),
{
    let t1 = match m.usage {
        Some(u) => crate::data::note_usage(t, u, m.model, date),
        None => t,
    };
    assert(t1.sessions == t.sessions);
    match m.content {
        Some(blocks) => lemma_tools_session_frame(t1, blocks@, sid, x),
        None => {},
    }
}

/// What one more line does to the session `x`: a line of that session
/// widens its time span to the line's timestamp, and counts as one user or
/// assistant turn of it; other lines leave it as it was.
proof fn lemma_step_session(t: Tally, l: SessionLine, x: Seq<char>)
    requires
        x.len() > 0,
    ensures
        ({
            let kind = text_or_empty(l.line_type);
            let mine = text_or_empty(l.session_id) == x;
            let s0 = t.session(x);
            let s1 = step(t, l).session(x);
            let timed = match spec_parse_datetime(text_or_empty(l.timestamp)) {
                Some(d) => if mine { touch_time(s0, d) } else { s0 },
                None => s0,
            };
            &&& s1.first_ts == timed.first_ts
            &&& s1.last_ts == timed.last_ts
            &&& s1.user_turns == (if mine && kind == "user"@ { wrap32(s0.user_turns + 1) } else { s0.user_turns })
            &&& s1.assistant_turns == (if mine && kind == "assistant"@ {
                wrap32(s0.assistant_turns + 1)
            } else {
                s0.assistant_turns
            })
        }),
{
    reveal_strlit("user");
    reveal_strlit("assistant");
    assert("user"@ != "assistant"@) by {
        assert("user"@.len() != "assistant"@.len());
    }
    let kind = text_or_empty(l.line_type);
    let sid = text_or_empty(l.session_id);
    let dt = spec_parse_datetime(text_or_empty(l.timestamp));
    let t1 = crate::data::note_time(t, sid, dt);
    let t2 = crate::data::note_hour(t1, kind == "user"@ || kind == "assistant"@, dt);
    assert(t2.sessions == t1.sessions);
    if kind == "assistant"@ {
        let t3 = crate::data::note_assistant_turn(t2, sid);
        match l.message {
            Some(m) => {
                lemma_message_session_frame(t3, m, spec_parse_date(text_or_empty(l.timestamp)), sid, x);
            },
            None => {},
        }
    }
}

/// The number of `lines` of session `sid` that have the given type.
pub open spec fn count_session_kind(lines: Seq<SessionLine>, sid: Seq<char>, kind: Seq<char>) -> int
    decreases lines.len(),
{
    if lines.len() == 0 {
        0
    } else {
        count_session_kind(lines.drop_last(), sid, kind) + (if text_or_empty(lines.last().session_id) == sid
            && text_or_empty(lines.last().line_type) == kind {
            1int
        } else {
            0int
        })
    }
}

/// A session's user turns count the user lines of that session, and its
/// assistant turns the assistant lines (each wrapping at 2^32).
pub proof fn law_session_turns(lines: Seq<SessionLine>, sid: Seq<char>)
    requires
        sid.len() > 0,
    ensures
        tally(lines).session(sid).user_turns == wrap32(count_session_kind(lines, sid, "user"@)),
        tally(lines).session(sid).assistant_turns == wrap32(count_session_kind(lines, sid, "assistant"@)),
    decreases lines.len(),
{
    if lines.len() > 0 {
        let prev = lines.drop_last();
        law_session_turns(prev, sid);
        lemma_step_session(tally(prev), lines.last(), sid);
        lemma_wrap32_assoc(count_session_kind(prev, sid, "user"@), 1);
        lemma_wrap32_assoc(count_session_kind(prev, sid, "assistant"@), 1);
    } else {
        assert(wrap32(0) == 0);
    }
}

/// The timestamp of line `l` when the line belongs to session `sid` and its
/// timestamp parses.
pub open spec fn session_stamp(l: SessionLine, sid: Seq<char>) -> Option<Timestamp> {
    if text_or_empty(l.session_id) == sid {
        spec_parse_datetime(text_or_empty(l.timestamp))
    } else {
        None
    }
}

/// Some line of session `sid` has a timestamp.
pub open spec fn stamped(lines: Seq<SessionLine>, sid: Seq<char>) -> bool {
    exists|i: int| 0 <= i < lines.len() && (#[trigger] session_stamp(lines[i], sid)) is Some
}

/// `f` is a timestamp of session `sid` and none of its timestamps is
/// earlier.
pub open spec fn is_earliest(lines: Seq<SessionLine>, sid: Seq<char>, f: Timestamp) -> bool {
    &&& exists|i: int| 0 <= i < lines.len() && #[trigger] session_stamp(lines[i], sid) == Some(f)
    &&& forall|i: int| 0 <= i < lines.len() ==> (#[trigger] session_stamp(lines[i], sid) matches Some(s) ==> !s.before(f))
}

/// `l` is a timestamp of session `sid` and none of its timestamps is later.
pub open spec fn is_latest(lines: Seq<SessionLine>, sid: Seq<char>, l: Timestamp) -> bool {
    &&& exists|i: int| 0 <= i < lines.len() && #[trigger] session_stamp(lines[i], sid) == Some(l)
    &&& forall|i: int| 0 <= i < lines.len() ==> (#[trigger] session_stamp(lines[i], sid) matches Some(s) ==> !l.before(s))
}

/// A session's first and last timestamps are the earliest and the latest
/// timestamps of its lines, and it has them exactly when some line of it has
/// a timestamp that parses.
pub proof fn law_session_span(lines: Seq<SessionLine>, sid: Seq<char>)
    requires
        sid.len() > 0,
    ensures
        tally(lines).session(sid).first_ts is Some <==> stamped(lines, sid),
        tally(lines).session(sid).last_ts is Some <==> stamped(lines, sid),
        tally(lines).session(sid).first_ts matches Some(f) ==> is_earliest(lines, sid, f),
        tally(lines).session(sid).last_ts matches Some(l) ==> is_latest(lines, sid, l),
    decreases lines.len(),
{
    if lines.len() > 0 {
        let prev = lines.drop_last();
        let n = lines.len() - 1;
        let line = lines.last();
        law_session_span(prev, sid);
        lemma_step_session(tally(prev), line, sid);
        let s0 = tally(prev).session(sid);
        let s1 = tally(lines).session(sid);
        assert(lines[n] == line);
        assert forall|i: int| 0 <= i < n implies #[trigger] lines[i] == prev[i] by {}
        if stamped(prev, sid) {
            let i = choose|i: int| 0 <= i < prev.len() && (#[trigger] session_stamp(prev[i], sid)) is Some;
            assert(session_stamp(lines[i], sid) is Some);
        }
        match session_stamp(line, sid) {
            None => {
                assert(s1.first_ts == s0.first_ts && s1.last_ts == s0.last_ts);
                if stamped(lines, sid) {
                    let i = choose|i: int| 0 <= i < lines.len() && (#[trigger] session_stamp(lines[i], sid)) is Some;
                    assert(session_stamp(prev[i], sid) is Some);
                }
                if let Some(f) = s0.first_ts {
                    let j = choose|j: int| 0 <= j < prev.len() && #[trigger] session_stamp(prev[j], sid) == Some(f);
                    assert(session_stamp(lines[j], sid) == Some(f));
                    assert forall|i: int| 0 <= i < lines.len() implies (#[trigger] session_stamp(lines[i], sid) matches Some(s)
                        ==> !s.before(f)) by {
                        if i < n {
                            assert(session_stamp(prev[i], sid) == session_stamp(lines[i], sid));
                        }
                    }
                }
                if let Some(l) = s0.last_ts {
                    let j = choose|j: int| 0 <= j < prev.len() && #[trigger] session_stamp(prev[j], sid) == Some(l);
                    assert(session_stamp(lines[j], sid) == Some(l));
                    assert forall|i: int| 0 <= i < lines.len() implies (#[trigger] session_stamp(lines[i], sid) matches Some(s)
                        ==> !l.before(s)) by {
                        if i < n {
                            assert(session_stamp(prev[i], sid) == session_stamp(lines[i], sid));
                        }
                    }
                }
            },
            Some(d) => {
                assert(s1.first_ts == touch_time(s0, d).first_ts && s1.last_ts == touch_time(s0, d).last_ts);
                assert(session_stamp(lines[n], sid) == Some(d));
                let f = s1.first_ts->0;
                let l = s1.last_ts->0;
                assert forall|i: int| 0 <= i < lines.len() implies (#[trigger] session_stamp(lines[i], sid) matches Some(s)
                    ==> !s.before(f)) by {
                    if i < n {
                        assert(session_stamp(prev[i], sid) == session_stamp(lines[i], sid));
                        if s0.first_ts is None {
                            assert(!stamped(prev, sid));
                            assert(session_stamp(prev[i], sid) is None);
                        }
                    }
                }
                assert forall|i: int| 0 <= i < lines.len() implies (#[trigger] session_stamp(lines[i], sid) matches Some(s)
                    ==> !l.before(s)) by {
                    if i < n {
                        assert(session_stamp(prev[i], sid) == session_stamp(lines[i], sid));
                        if s0.last_ts is None {
                            assert(!stamped(prev, sid));
                            assert(session_stamp(prev[i], sid) is None);
                        }
                    }
                }
                if let Some(f0) = s0.first_ts {
                    if f == f0 {
                        let j = choose|j: int| 0 <= j < prev.len() && #[trigger] session_stamp(prev[j], sid) == Some(f0);
                        assert(session_stamp(lines[j], sid) == Some(f0));
                    }
                }
                if let Some(l0) = s0.last_ts {
                    if l == l0 {
                        let j = choose|j: int| 0 <= j < prev.len() && #[trigger] session_stamp(prev[j], sid) == Some(l0);
                        assert(session_stamp(lines[j], sid) == Some(l0));
                    }
                }
            },
        }
    }
}

/// The file path that a content block names, when it is a call of one of
/// the file tools (`Write`, `Edit`, `Read`) with a path.
pub open spec fn block_file(b: ContentBlock) -> Option<Seq<char>> {
    let name = tool_name(b);
    if text_or_empty(b.block_type) == "tool_use"@ && (name == "Write"@ || name == "Edit"@ || name == "Read"@) {
        match b.file_path {
            Some(fp) => Some(fp@),
            None => None,
        }
    } else {
        None
    }
}

/// The file paths that `blocks` name.
pub open spec fn blocks_files(blocks: Seq<ContentBlock>) -> Set<Seq<char>> {
    Set::new(|p: Seq<char>| exists|i: int| 0 <= i < blocks.len() && #[trigger] block_file(blocks[i]) == Some(p))
}

/// The file paths that line `l` names, when it is an assistant line of
/// session `sid`.
pub open spec fn line_files(l: SessionLine, sid: Seq<char>) -> Set<Seq<char>> {
    if text_or_empty(l.line_type) == "assistant"@ && text_or_empty(l.session_id) == sid {
        match l.message {
            Some(m) => match m.content {
                Some(blocks) => blocks_files(blocks@),
                None => Set::empty(),
            },
            None => Set::empty(),
        }
    } else {
        Set::empty()
    }
}

/// The file paths that the lines of session `sid` name.
pub open spec fn session_files(lines: Seq<SessionLine>, sid: Seq<char>) -> Set<Seq<char>> {
    Set::new(|p: Seq<char>| exists|i: int| 0 <= i < lines.len() && #[trigger] line_files(lines[i], sid).contains(p))
}

proof fn lemma_tool_files(t: Tally, b: ContentBlock, sid: Seq<char>, x: Seq<char>)
    requires
        x.len() > 0,
    ensures
        note_tool(t, b, sid).session(x).files == (match block_file(b) {
            Some(p) => if x == sid { t.session(x).files.insert(p) } else { t.session(x).files },
            None => t.session(x).files,
        }),
{
}

proof fn lemma_tools_files(t: Tally, blocks: Seq<ContentBlock>, sid: Seq<char>, x: Seq<char>)
    requires
        x.len() > 0,
    ensures
        note_tools(t, blocks, sid).session(x).files == (if x == sid {
            t.session(x).files + blocks_files(blocks)
        } else {
            t.session(x).files
        }),
    decreases blocks.len(),
{
    if blocks.len() > 0 {
        let init = blocks.drop_last();
        let n = blocks.len() - 1;
        lemma_tools_files(t, init, sid, x);
        lemma_tool_files(note_tools(t, init, sid), blocks.last(), sid, x);
        if x == sid {
            assert(blocks[n] == blocks.last());
            assert forall|i: int| 0 <= i < n implies #[trigger] blocks[i] == init[i] by {}
            let whole = blocks_files(blocks);
            let part = blocks_files(init);
            assert forall|p: Seq<char>| #[trigger] whole.contains(p) == (part.contains(p) || block_file(blocks[n]) == Some(p)) by {
                if whole.contains(p) {
                    let i = choose|i: int| 0 <= i < blocks.len() && #[trigger] block_file(blocks[i]) == Some(p);
                    if i < n {
                        assert(block_file(init[i]) == Some(p));
                    }
                }
                if part.contains(p) {
                    let i = choose|i: int| 0 <= i < init.len() && #[trigger] block_file(init[i]) == Some(p);
                    assert(block_file(blocks[i]) == Some(p));
                }
            }
            assert(note_tools(t, blocks, sid).session(x).files =~= t.session(x).files + whole);
        }
    } else {
        assert(blocks_files(blocks) =~= Set::empty());
        assert(t.session(x).files + blocks_files(blocks) =~= t.session(x).files);
    }
}

/// What one more line does to the files of session `x`: they gain the paths
/// that the line names when it is an assistant line of that session.
proof fn lemma_step_files(t: Tally, l: SessionLine, x: Seq<char>)
    requires
        x.len() > 0,
    ensures
        step(t, l).session(x).files == t.session(x).files + line_files(l, x),
{
    let kind = text_or_empty(l.line_type);
    let sid = text_or_empty(l.session_id);
    let dt = spec_parse_datetime(text_or_empty(l.timestamp));
    let date = spec_parse_date(text_or_empty(l.timestamp));
    let t1 = crate::data::note_time(t, sid, dt);
    let t2 = crate::data::note_hour(t1, kind == "user"@ || kind == "assistant"@, dt);
    assert(t1.session(x).files == t.session(x).files);
    assert(t2.sessions == t1.sessions);
    let none: Set<Seq<char>> = Set::empty();
    assert(t.session(x).files + none =~= t.session(x).files);
    if kind == "assistant"@ {
        let t3 = crate::data::note_assistant_turn(t2, sid);
        assert(t3.session(x).files == t.session(x).files);
        match l.message {
            Some(m) => {
                let t4 = match m.usage {
                    Some(u) => crate::data::note_usage(t3, u, m.model, date),
                    None => t3,
                };
                assert(t4.sessions == t3.sessions);
                match m.content {
                    Some(blocks) => lemma_tools_files(t4, blocks@, sid, x),
                    None => {},
                }
            },
            None => {},
        }
    } else if kind == "user"@ {
        assert(crate::data::note_user_turn(t2, sid).session(x).files == t.session(x).files);
    }
}

/// The files that a session touched are the paths named by the `Write`,
/// `Edit` and `Read` calls of its assistant lines.
pub proof fn law_session_files(lines: Seq<SessionLine>, sid: Seq<char>)
    requires
        sid.len() > 0,
    ensures
        tally(lines).session(sid).files == session_files(lines, sid),
    decreases lines.len(),
{
    if lines.len() > 0 {
        let prev = lines.drop_last();
        let n = lines.len() - 1;
        law_session_files(prev, sid);
        lemma_step_files(tally(prev), lines.last(), sid);
        assert(lines[n] == lines.last());
        assert forall|i: int| 0 <= i < n implies #[trigger] lines[i] == prev[i] by {}
        let whole = session_files(lines, sid);
        let part = session_files(prev, sid);
        assert forall|p: Seq<char>| #[trigger] whole.contains(p) == (part.contains(p) || line_files(lines[n], sid).contains(p)) by {
            if whole.contains(p) {
                let i = choose|i: int| 0 <= i < lines.len() && #[trigger] line_files(lines[i], sid).contains(p);
                if i < n {
                    assert(line_files(prev[i], sid).contains(p));
                }
            }
            if part.contains(p) {
                let i = choose|i: int| 0 <= i < prev.len() && #[trigger] line_files(prev[i], sid).contains(p);
                assert(line_files(lines[i], sid).contains(p));
            }
        }
        assert(tally(lines).session(sid).files =~= whole);
    } else {
        assert(session_files(lines, sid) =~= Set::empty());
    }
}

/// Each session record of the metrics gathered from `lines` belongs to a
/// named session, counts that session's user and assistant lines and the
/// distinct files that its tool calls named, and dates the session by its
/// earliest timestamp.
pub proof fn law_session_records(m: Metrics, lines: Seq<SessionLine>, i: int)
    requires
        m.summarizes(tally(lines)),
        0 <= i < m.sessions@.len(),
    ensures
        ({
            let st = m.sessions@[i];
            let sid = st.session_id@;
            &&& sid.len() > 0
            &&& st.user_turns == wrap32(count_session_kind(lines, sid, "user"@))
            &&& st.assistant_turns == wrap32(count_session_kind(lines, sid, "assistant"@))
            &&& st.files_touched_count == session_files(lines, sid).len()
            &&& st.first_date is Some <==> stamped(lines, sid)
            &&& forall|f: Timestamp| is_earliest(lines, sid, f) ==> st.first_date == Some(f.day)
        }),
{
    let st = m.sessions@[i];
    let sid = st.session_id@;
    let t = tally(lines);
    assert(t.sessions.contains_key(sid));
    law_session_ids_nonempty(lines);
    assert(t.session(sid) == t.sessions[sid]);
    law_session_turns(lines, sid);
    law_session_files(lines, sid);
    law_session_span(lines, sid);
    assert forall|f: Timestamp| is_earliest(lines, sid, f) implies st.first_date == Some(f.day) by {
        let f0 = t.session(sid).first_ts->0;
        assert(stamped(lines, sid)) by {
            let j = choose|j: int| 0 <= j < lines.len() && #[trigger] session_stamp(lines[j], sid) == Some(f);
        }
        let j = choose|j: int| 0 <= j < lines.len() && #[trigger] session_stamp(lines[j], sid) == Some(f);
        let k = choose|k: int| 0 <= k < lines.len() && #[trigger] session_stamp(lines[k], sid) == Some(f0);
        assert(!f.before(f0));
        assert(!f0.before(f));
    }
}

/// Each session record's duration is the whole seconds from the earliest to
/// the latest timestamp of that session's lines, or zero when that is
/// negative or the session has no timestamp, whatever days the two fall on.
pub proof fn law_session_duration(m: Metrics, lines: Seq<SessionLine>, i: int)
    requires
        m.summarizes(tally(lines)),
        0 <= i < m.sessions@.len(),
    ensures
        ({
            let st = m.sessions@[i];
            let sid = st.session_id@;
            &&& !stamped(lines, sid) ==> st.duration_secs == 0
            &&& forall|f: Timestamp, l: Timestamp| is_earliest(lines, sid, f) && is_latest(lines, sid, l) ==> {
                let d = spec_seconds_between(f.key(), l.key());
                st.duration_secs == (if d < 0 { 0 } else { d as int })
            }
        }),
{
    let st = m.sessions@[i];
    let sid = st.session_id@;
    let t = tally(lines);
    assert(t.sessions.contains_key(sid));
    law_session_ids_nonempty(lines);
    assert(t.session(sid) == t.sessions[sid]);
    law_session_span(lines, sid);
    assert forall|f: Timestamp, l: Timestamp| is_earliest(lines, sid, f) && is_latest(lines, sid, l) implies {
        let d = spec_seconds_between(f.key(), l.key());
        st.duration_secs == (if d < 0 { 0 } else { d as int })
    } by {
        let j = choose|j: int| 0 <= j < lines.len() && #[trigger] session_stamp(lines[j], sid) == Some(f);
        assert(stamped(lines, sid));
        let f0 = t.session(sid).first_ts->0;
        let l0 = t.session(sid).last_ts->0;
        let a = choose|a: int| 0 <= a < lines.len() && #[trigger] session_stamp(lines[a], sid) == Some(f0);
        let b = choose|b: int| 0 <= b < lines.len() && #[trigger] session_stamp(lines[b], sid) == Some(l0);
        let c = choose|c: int| 0 <= c < lines.len() && #[trigger] session_stamp(lines[c], sid) == Some(l);
        assert(!f.before(f0) && !f0.before(f));
        assert(!l.before(l0) && !l0.before(l));
        assert(f.key() == f0.key());
        assert(l.key() == l0.key());
    }
}

} // verus!

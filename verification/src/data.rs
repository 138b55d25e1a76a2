//! Session log lines, the metrics gathered from them, and the aggregation
//! that turns the first into the second.
use vstd::prelude::*;
use crate::assoc::WellFormed;
use crate::clock::{
    Timestamp, spec_parse_datetime, spec_parse_date,
    spec_seconds_between, valid_day,
};
use crate::days::DayMap;
use crate::names::NameMap;
use crate::naming::{spec_normalize_model, spec_shorten_path};
use crate::text::text_or_empty;
use crate::wrap::{wrap64, wrap32, add64, lemma_wrap64_assoc};

verus! {

broadcast use vstd::string::group_string_axioms;

// ---------------------------------------------------------------------------
// Log lines
// ---------------------------------------------------------------------------

/// Token counts reported for one assistant message.
#[derive(Clone, Copy, PartialEq, Eq, Debug)]
pub struct Usage {
    pub input_tokens: Option<u64>,
    pub output_tokens: Option<u64>,
    pub cache_read_input_tokens: Option<u64>,
    pub cache_creation_input_tokens: Option<u64>,
}

/// What the dashboard reads of one content block of a message: its `type`,
/// its `name` and the `file_path` of its `input`, each when it is a string.
#[derive(Clone, Debug)]
pub struct ContentBlock {
    pub block_type: Option<String>,
    pub name: Option<String>,
    pub file_path: Option<String>,
}

/// The message of a log line. `content` holds the blocks when the message
/// content is an array, and is absent otherwise.
#[derive(Clone, Debug)]
pub struct MessagePayload {
    pub model: Option<String>,
    pub usage: Option<Usage>,
    pub content: Option<Vec<ContentBlock>>,
}

/// One line of a session log.
#[derive(Clone, Debug)]
pub struct SessionLine {
    pub line_type: Option<String>,
    pub timestamp: Option<String>,
    pub session_id: Option<String>,
    pub message: Option<MessagePayload>,
}

// ---------------------------------------------------------------------------
// Aggregated metrics
// ---------------------------------------------------------------------------

/// Tokens of one day.
#[derive(Clone, Copy, PartialEq, Eq, Debug)]
pub struct DayTokens {
    pub input: u64,
    pub output: u64,
    pub cache_read: u64,
    pub cache_creation: u64,
}

impl View for DayTokens {
    type V = DayTokens;

    open spec fn view(&self) -> DayTokens {
        *self
    }
}

impl WellFormed for DayTokens {
    open spec fn well_formed(&self) -> bool {
        true
    }
}

impl Default for DayTokens {
    fn default() -> (r: Self)
        ensures
            r == zero_day(),
    {
        DayTokens { input: 0, output: 0, cache_read: 0, cache_creation: 0 }
    }
}

pub open spec fn zero_day() -> DayTokens {
    DayTokens { input: 0, output: 0, cache_read: 0, cache_creation: 0 }
}

impl DayTokens {
    /// All tokens of the day (wrapping around at 2^64).
    pub open spec fn spec_total(self) -> u64 {
        wrap64(self.input + self.output + self.cache_read + self.cache_creation)
    }

    /// All tokens of the day: input, output, cache reads and cache writes.
    pub fn total(&self) -> (r: u64)
        ensures
            r == self.spec_total(),
    {
        let a = add64(self.input, self.output);
        let b = add64(a, self.cache_read);
        let c = add64(b, self.cache_creation);
        proof {
            lemma_wrap64_assoc(self.input + self.output, self.cache_read as int);
            lemma_wrap64_assoc(self.input + self.output + self.cache_read, self.cache_creation as int);
        }
        c
    }
}

/// Tokens of one model, for cost estimation.
#[derive(Clone, Copy, PartialEq, Eq, Debug)]
pub struct ModelTokens {
    pub input: u64,
    pub output: u64,
    pub cache_read: u64,
    pub cache_creation: u64,
}

impl View for ModelTokens {
    type V = ModelTokens;

    open spec fn view(&self) -> ModelTokens {
        *self
    }
}

impl WellFormed for ModelTokens {
    open spec fn well_formed(&self) -> bool {
        true
    }
}

impl Default for ModelTokens {
    fn default() -> (r: Self)
        ensures
            r == zero_model(),
    {
        ModelTokens { input: 0, output: 0, cache_read: 0, cache_creation: 0 }
    }
}

pub open spec fn zero_model() -> ModelTokens {
    ModelTokens { input: 0, output: 0, cache_read: 0, cache_creation: 0 }
}

/// Counts of file operations.
#[derive(Clone, Copy, PartialEq, Eq, Debug)]
pub struct FileOps {
    pub created: u64,
    pub edited: u64,
    pub read: u64,
}

impl Default for FileOps {
    fn default() -> (r: Self)
        ensures
            r == (FileOps { created: 0, edited: 0, read: 0 }),
    {
        FileOps { created: 0, edited: 0, read: 0 }
    }
}

/// Statistics of one session.
#[derive(Clone, Debug)]
pub struct SessionStats {
    pub session_id: String,
    /// Day number of the session's earliest timestamp.
    pub first_date: Option<i32>,
    pub duration_secs: u64,
    pub user_turns: u32,
    pub assistant_turns: u32,
    pub files_touched_count: usize,
}

/// All metrics collected from the session logs.
pub struct Metrics {
    /// Tokens per day.
    pub daily_tokens: DayMap<DayTokens>,
    /// Activity counts per hour of day (0..24).
    pub hour_counts: [u64; 24],
    /// Tool call counts by tool name.
    pub tool_calls: NameMap<u64>,
    /// File operations: created, edited, read.
    pub file_ops: FileOps,
    /// Edit count per shortened file path.
    pub file_edit_counts: NameMap<u64>,
    /// Per-session stats, longest first.
    pub sessions: Vec<SessionStats>,
    /// Conversation turns (user messages).
    pub total_user_turns: u32,
    pub total_assistant_turns: u32,
    /// Tokens per model, for cost estimation.
    pub model_tokens: NameMap<ModelTokens>,
    /// Tokens per day and model, for daily cost estimates.
    pub daily_model_tokens: DayMap<NameMap<ModelTokens>>,
}

// ---------------------------------------------------------------------------
// The model of aggregation
// ---------------------------------------------------------------------------

/// What is known of a session while lines are read.
#[verifier::ext_equal]
pub struct SessionModel {
    pub first_ts: Option<Timestamp>,
    pub last_ts: Option<Timestamp>,
    pub user_turns: u32,
    pub assistant_turns: u32,
    /// Paths of the files written, edited or read in the session.
    pub files: Set<Seq<char>>,
}

/// The running totals after some lines have been read.
#[verifier::ext_equal]
pub struct Tally {
    pub daily_tokens: Map<i32, DayTokens>,
    pub hour_counts: Seq<u64>,
    pub tool_calls: Map<Seq<char>, u64>,
    pub file_ops: FileOps,
    pub file_edit_counts: Map<Seq<char>, u64>,
    pub sessions: Map<Seq<char>, SessionModel>,
    pub total_user_turns: u32,
    pub total_assistant_turns: u32,
    pub model_tokens: Map<Seq<char>, ModelTokens>,
    pub daily_model_tokens: Map<i32, Map<Seq<char>, ModelTokens>>,
    /// How often each full path has been written or edited so far.
    pub written_files: Map<Seq<char>, u64>,
}

pub open spec fn or_zero(v: Option<u64>) -> int {
    match v {
        Some(x) => x as int,
        None => 0,
    }
}

pub open spec fn get_or<K, V>(m: Map<K, V>, k: K, d: V) -> V {
    if m.contains_key(k) {
        m[k]
    } else {
        d
    }
}

/// A day's tokens with one message's usage added.
pub open spec fn day_plus(t: DayTokens, u: Usage) -> DayTokens {
    DayTokens {
        input: wrap64(t.input + or_zero(u.input_tokens)),
        output: wrap64(t.output + or_zero(u.output_tokens)),
        cache_read: wrap64(t.cache_read + or_zero(u.cache_read_input_tokens)),
        cache_creation: wrap64(t.cache_creation + or_zero(u.cache_creation_input_tokens)),
    }
}

/// A model's tokens with one message's usage added.
pub open spec fn model_plus(t: ModelTokens, u: Usage) -> ModelTokens {
    ModelTokens {
        input: wrap64(t.input + or_zero(u.input_tokens)),
        output: wrap64(t.output + or_zero(u.output_tokens)),
        cache_read: wrap64(t.cache_read + or_zero(u.cache_read_input_tokens)),
        cache_creation: wrap64(t.cache_creation + or_zero(u.cache_creation_input_tokens)),
    }
}

pub open spec fn empty_session() -> SessionModel {
    SessionModel { first_ts: None, last_ts: None, user_turns: 0, assistant_turns: 0, files: Set::empty() }
}

/// Totals before any line is read.
pub open spec fn empty_tally() -> Tally {
    Tally {
        daily_tokens: Map::empty(),
        hour_counts: Seq::new(24, |i: int| 0u64),
        tool_calls: Map::empty(),
        file_ops: FileOps { created: 0, edited: 0, read: 0 },
        file_edit_counts: Map::empty(),
        sessions: Map::empty(),
        total_user_turns: 0,
        total_assistant_turns: 0,
        model_tokens: Map::empty(),
        daily_model_tokens: Map::empty(),
        written_files: Map::empty(),
    }
}

impl Tally {
    pub open spec fn session(self, sid: Seq<char>) -> SessionModel {
        get_or(self.sessions, sid, empty_session())
    }

    pub open spec fn set_session(self, sid: Seq<char>, s: SessionModel) -> Tally {
        Tally { sessions: self.sessions.insert(sid, s), ..self }
    }
}

/// A session's time span widened to include `t`.
pub open spec fn touch_time(s: SessionModel, t: Timestamp) -> SessionModel {
    SessionModel {
        first_ts: match s.first_ts {
            Some(f) => if t.before(f) { Some(t) } else { Some(f) },
            None => Some(t),
        },
        last_ts: match s.last_ts {
            Some(l) => if l.before(t) { Some(t) } else { Some(l) },
            None => Some(t),
        },
        ..s
    }
}

/// A line's timestamp widens its session's time span.
pub open spec fn note_time(t: Tally, sid: Seq<char>, dt: Option<Timestamp>) -> Tally {
    match dt {
        Some(d) => if sid.len() > 0 { t.set_session(sid, touch_time(t.session(sid), d)) } else { t },
        None => t,
    }
}

/// A user or assistant line counts toward the hour of its timestamp.
pub open spec fn note_hour(t: Tally, conversational: bool, dt: Option<Timestamp>) -> Tally {
    match dt {
        Some(d) => if conversational && d.hour < 24 {
            Tally { hour_counts: t.hour_counts.update(d.hour as int, wrap64(t.hour_counts[d.hour as int] + 1)), ..t }
        } else {
            t
        },
        None => t,
    }
}

pub open spec fn note_assistant_turn(t: Tally, sid: Seq<char>) -> Tally {
    let t1 = Tally { total_assistant_turns: wrap32(t.total_assistant_turns + 1), ..t };
    if sid.len() > 0 {
        t1.set_session(sid, SessionModel { assistant_turns: wrap32(t1.session(sid).assistant_turns + 1), ..t1.session(sid) })
    } else {
        t1
    }
}

pub open spec fn note_user_turn(t: Tally, sid: Seq<char>) -> Tally {
    let t1 = Tally { total_user_turns: wrap32(t.total_user_turns + 1), ..t };
    if sid.len() > 0 {
        t1.set_session(sid, SessionModel { user_turns: wrap32(t1.session(sid).user_turns + 1), ..t1.session(sid) })
    } else {
        t1
    }
}

/// A message's usage counts toward its day and, under its pricing key,
/// toward its model and its day and model.
pub open spec fn note_usage(t: Tally, u: Usage, model: Option<String>, date: Option<i32>) -> Tally {
    let t1 = match date {
        Some(d) => Tally { daily_tokens: t.daily_tokens.insert(d, day_plus(get_or(t.daily_tokens, d, zero_day()), u)), ..t },
        None => t,
    };
    match model {
        Some(name) => {
            let key = spec_normalize_model(name@);
            if key.len() > 0 {
                let t2 = Tally {
                    model_tokens: t1.model_tokens.insert(key, model_plus(get_or(t1.model_tokens, key, zero_model()), u)),
                    ..t1
                };
                match date {
                    Some(d) => {
                        let inner = get_or(t2.daily_model_tokens, d, Map::empty());
                        Tally {
                            daily_model_tokens: t2.daily_model_tokens.insert(
                                d,
                                inner.insert(key, model_plus(get_or(inner, key, zero_model()), u)),
                            ),
                            ..t2
                        }
                    },
                    None => t2,
                }
            } else {
                t1
            }
        },
        None => t1,
    }
}

/// A file path joins the files of a (named) session.
pub open spec fn touch_file(t: Tally, sid: Seq<char>, fp: Seq<char>) -> Tally {
    if sid.len() > 0 {
        t.set_session(sid, SessionModel { files: t.session(sid).files.insert(fp), ..t.session(sid) })
    } else {
        t
    }
}

/// A write or edit counts toward the shortened path of its file.
pub open spec fn count_edit(t: Tally, fp: Seq<char>) -> Tally {
    let short = spec_shorten_path(fp);
    Tally { file_edit_counts: t.file_edit_counts.insert(short, wrap64(get_or(t.file_edit_counts, short, 0) + 1)), ..t }
}

/// A write or edit counts toward its full path.
pub open spec fn count_written(t: Tally, fp: Seq<char>) -> Tally {
    Tally { written_files: t.written_files.insert(fp, wrap64(get_or(t.written_files, fp, 0) + 1)), ..t }
}

/// The name under which a tool call is counted.
pub open spec fn tool_name(b: ContentBlock) -> Seq<char> {
    match b.name {
        Some(n) => n@,
        None => "unknown"@,
    }
}

/// A content block that is a tool call counts toward its tool and, for the
/// file tools, toward the file operations.
pub open spec fn note_tool(t: Tally, b: ContentBlock, sid: Seq<char>) -> Tally {
    if text_or_empty(b.block_type) == "tool_use"@ {
        let name = tool_name(b);
        let t1 = Tally { tool_calls: t.tool_calls.insert(name, wrap64(get_or(t.tool_calls, name, 0) + 1)), ..t };
        if name == "Write"@ {
            match b.file_path {
                Some(fp) => {
                    let ops = if get_or(t1.written_files, fp@, 0) == 0 {
                        FileOps { created: wrap64(t1.file_ops.created + 1), ..t1.file_ops }
                    } else {
                        FileOps { edited: wrap64(t1.file_ops.edited + 1), ..t1.file_ops }
                    };
                    touch_file(count_edit(count_written(Tally { file_ops: ops, ..t1 }, fp@), fp@), sid, fp@)
                },
                None => t1,
            }
        } else if name == "Edit"@ {
            let t2 = Tally { file_ops: FileOps { edited: wrap64(t1.file_ops.edited + 1), ..t1.file_ops }, ..t1 };
            match b.file_path {
                Some(fp) => touch_file(count_edit(count_written(t2, fp@), fp@), sid, fp@),
                None => t2,
            }
        } else if name == "Read"@ {
            let t2 = Tally { file_ops: FileOps { read: wrap64(t1.file_ops.read + 1), ..t1.file_ops }, ..t1 };
            match b.file_path {
                Some(fp) => touch_file(t2, sid, fp@),
                None => t2,
            }
        } else {
            t1
        }
    } else {
        t
    }
}

/// The content blocks of a message, one after the other.
pub open spec fn note_tools(t: Tally, blocks: Seq<ContentBlock>, sid: Seq<char>) -> Tally
    decreases blocks.len(),
{
    if blocks.len() == 0 {
        t
    } else {
        note_tool(note_tools(t, blocks.drop_last(), sid), blocks.last(), sid)
    }
}

pub open spec fn note_message(t: Tally, m: MessagePayload, date: Option<i32>, sid: Seq<char>) -> Tally {
    let t1 = match m.usage {
        Some(u) => note_usage(t, u, m.model, date),
        None => t,
    };
    match m.content {
        Some(blocks) => note_tools(t1, blocks@, sid),
        None => t1,
    }
}

/// The totals after one more line.
pub open spec fn step(t: Tally, l: SessionLine) -> Tally {
    let kind = text_or_empty(l.line_type);
    let ts = text_or_empty(l.timestamp);
    let dt = spec_parse_datetime(ts);
    let date = spec_parse_date(ts);
    let sid = text_or_empty(l.session_id);
    let t2 = note_hour(note_time(t, sid, dt), kind == "user"@ || kind == "assistant"@, dt);
    if kind == "assistant"@ {
        let t3 = note_assistant_turn(t2, sid);
        match l.message {
            Some(m) => note_message(t3, m, date, sid),
            None => t3,
        }
    } else if kind == "user"@ {
        note_user_turn(t2, sid)
    } else {
        t2
    }
}

/// The totals after reading `lines` in order.
pub open spec fn tally(lines: Seq<SessionLine>) -> Tally
    decreases lines.len(),
{
    if lines.len() == 0 {
        empty_tally()
    } else {
        step(tally(lines.drop_last()), lines.last())
    }
}

/// Whole seconds between a session's first and last timestamps, zero when
/// it has none.
pub open spec fn session_duration(s: SessionModel) -> u64 {
    match (s.first_ts, s.last_ts) {
        (Some(f), Some(l)) => {
            let d = spec_seconds_between(f.key(), l.key());
            if d < 0 { 0 } else { d as u64 }
        },
        _ => 0,
    }
}

/// `st` states the statistics of the session `sid` known as `s`.
pub open spec fn summarizes_session(st: SessionStats, sid: Seq<char>, s: SessionModel) -> bool {
    &&& st.session_id@ == sid
    &&& st.first_date == (match s.first_ts {
        Some(f) => Some(f.day),
        None => None,
    })
    &&& st.duration_secs == session_duration(s)
    &&& st.user_turns == s.user_turns
    &&& st.assistant_turns == s.assistant_turns
    &&& st.files_touched_count == s.files.len()
}

impl Metrics {
    /// The maps keep their order and every session date is one chrono can
    /// rebuild.
    pub open spec fn wf(&self) -> bool {
        &&& self.daily_tokens.wf()
        &&& self.tool_calls.wf()
        &&& self.file_edit_counts.wf()
        &&& self.model_tokens.wf()
        &&& self.daily_model_tokens.wf()
        &&& forall|i: int| 0 <= i < self.sessions@.len() ==>
            ((#[trigger] self.sessions@[i]).first_date matches Some(d) ==> valid_day(d as int))
        &&& forall|d: i32| #[trigger] self.daily_tokens@.contains_key(d) ==> valid_day(d as int)
    }

    /// The metrics are those of the totals `t`: the same counts, and one
    /// session statistic per session, longest first.
    pub open spec fn summarizes(&self, t: Tally) -> bool {
        &&& self.daily_tokens@ == t.daily_tokens
        &&& self.hour_counts@ == t.hour_counts
        &&& self.tool_calls@ == t.tool_calls
        &&& self.file_ops == t.file_ops
        &&& self.file_edit_counts@ == t.file_edit_counts
        &&& self.total_user_turns == t.total_user_turns
        &&& self.total_assistant_turns == t.total_assistant_turns
        &&& self.model_tokens@ == t.model_tokens
        &&& self.daily_model_tokens@ == t.daily_model_tokens
        &&& self.sessions@.len() == t.sessions.dom().len()
        &&& forall|i: int| 0 <= i < self.sessions@.len() ==> {
            let st = #[trigger] self.sessions@[i];
            &&& t.sessions.contains_key(st.session_id@)
            &&& summarizes_session(st, st.session_id@, t.sessions[st.session_id@])
        }
        &&& forall|i: int, j: int| 0 <= i < self.sessions@.len() && 0 <= j < self.sessions@.len() && i != j
            ==> (#[trigger] self.sessions@[i]).session_id@ != (#[trigger] self.sessions@[j]).session_id@
        &&& forall|i: int, j: int| 0 <= i < j < self.sessions@.len()
            ==> (#[trigger] self.sessions@[i]).duration_secs >= (#[trigger] self.sessions@[j]).duration_secs
    }
}

} // verus!

//! Reading session log lines into metrics.
use vstd::prelude::*;
use crate::assoc::WellFormed;
use crate::clock::{Timestamp, parse_datetime, parse_date, date_prefix_cuttable, seconds_between, valid_day};
use crate::data::{
    ContentBlock, DayTokens, FileOps, MessagePayload, Metrics, ModelTokens, SessionLine, SessionModel,
    SessionStats, Tally, Usage, count_edit, count_written, day_plus, empty_session, empty_tally,
    get_or, model_plus, note_assistant_turn, note_hour, note_message, note_time, note_tool, note_tools,
    note_usage, note_user_turn, step, summarizes_session, tally, tool_name,
    touch_file, touch_time, zero_day,
};
use crate::days::DayMap;
use crate::names::NameMap;
use crate::naming::{normalize_model, shorten_path};
use crate::text::{text_or_empty, chars_of, chars_of_opt, chars_equal};
use crate::wrap::{add64, add32};

verus! {

broadcast use vstd::string::group_string_axioms;

proof fn lemma_remove_insert<K, V>(m: Map<K, V>, k: K, v: V)
    ensures
        m.remove(k).insert(k, v) == m.insert(k, v),
{
    assert(m.remove(k).insert(k, v) =~= m.insert(k, v));
}

/// What is known of a session while lines are read.
struct SessionAccum {
    first_ts: Option<Timestamp>,
    last_ts: Option<Timestamp>,
    user_turns: u32,
    assistant_turns: u32,
    files_touched: NameMap<()>,
}

impl View for SessionAccum {
    type V = SessionModel;

    closed spec fn view(&self) -> SessionModel {
        SessionModel {
            first_ts: self.first_ts,
            last_ts: self.last_ts,
            user_turns: self.user_turns,
            assistant_turns: self.assistant_turns,
            files: self.files_touched@.dom(),
        }
    }
}

impl WellFormed for SessionAccum {
    closed spec fn well_formed(&self) -> bool {
        &&& self.files_touched.wf()
        &&& self.first_ts matches Some(t) ==> t.valid()
        &&& self.last_ts matches Some(t) ==> t.valid()
    }
}

impl SessionAccum {
    fn new() -> (s: Self)
        ensures
            s@ == empty_session(),
            s.well_formed(),
    {
        let s = SessionAccum {
            first_ts: None,
            last_ts: None,
            user_turns: 0,
            assistant_turns: 0,
            files_touched: NameMap::new(),
        };
        assert(s@.files =~= Set::empty());
        s
    }
}

/// Removes the session `sid` from `sessions` and hands it back, a fresh one
/// when there was none.
fn take_session(sessions: &mut NameMap<SessionAccum>, sid: &str) -> (s: SessionAccum)
    requires
        old(sessions).wf(),
    ensures
        final(sessions).wf(),
        final(sessions)@ == old(sessions)@.remove(sid@),
        s.well_formed(),
        s@ == get_or(old(sessions)@, sid@, empty_session()),
{
    match sessions.take(sid) {
        Some(s) => s,
        None => SessionAccum::new(),
    }
}

fn plus_day(t: DayTokens, u: &Usage) -> (r: DayTokens)
    ensures
        r == day_plus(t, *u),
{
    DayTokens {
        input: add64(t.input, u.input_tokens.unwrap_or(0)),
        output: add64(t.output, u.output_tokens.unwrap_or(0)),
        cache_read: add64(t.cache_read, u.cache_read_input_tokens.unwrap_or(0)),
        cache_creation: add64(t.cache_creation, u.cache_creation_input_tokens.unwrap_or(0)),
    }
}

fn plus_model(t: ModelTokens, u: &Usage) -> (r: ModelTokens)
    ensures
        r == model_plus(t, *u),
{
    ModelTokens {
        input: add64(t.input, u.input_tokens.unwrap_or(0)),
        output: add64(t.output, u.output_tokens.unwrap_or(0)),
        cache_read: add64(t.cache_read, u.cache_read_input_tokens.unwrap_or(0)),
        cache_creation: add64(t.cache_creation, u.cache_creation_input_tokens.unwrap_or(0)),
    }
}

/// Adds one to the count stored under `key` (zero when absent).
fn bump(counts: &mut NameMap<u64>, key: String) -> (prev: u64)
    requires
        old(counts).wf(),
    ensures
        final(counts).wf(),
        prev == get_or(old(counts)@, key@, 0u64),
        final(counts)@ == old(counts)@.insert(key@, plus_one(prev)),
{
    let prev = match counts.take(key.as_str()) {
        Some(c) => c,
        None => 0,
    };
    let next = add64(prev, 1);
    counts.insert(key, next);
    proof {
        lemma_remove_insert(old(counts)@, key@, next);
    }
    prev
}

/// `x + 1`, wrapping around at 2^64.
spec fn plus_one(x: u64) -> u64 {
    crate::wrap::wrap64(x + 1)
}

/// The running totals while lines are read.
struct Aggregator {
    daily_tokens: DayMap<DayTokens>,
    hour_counts: [u64; 24],
    tool_calls: NameMap<u64>,
    file_ops: FileOps,
    file_edit_counts: NameMap<u64>,
    sessions: NameMap<SessionAccum>,
    total_user_turns: u32,
    total_assistant_turns: u32,
    model_tokens: NameMap<ModelTokens>,
    daily_model_tokens: DayMap<NameMap<ModelTokens>>,
    written_files: NameMap<u64>,
}

impl View for Aggregator {
    type V = Tally;

    closed spec fn view(&self) -> Tally {
        Tally {
            daily_tokens: self.daily_tokens@,
            hour_counts: self.hour_counts@,
            tool_calls: self.tool_calls@,
            file_ops: self.file_ops,
            file_edit_counts: self.file_edit_counts@,
            sessions: self.sessions@,
            total_user_turns: self.total_user_turns,
            total_assistant_turns: self.total_assistant_turns,
            model_tokens: self.model_tokens@,
            daily_model_tokens: self.daily_model_tokens@,
            written_files: self.written_files@,
        }
    }
}

impl Aggregator {
    spec fn wf(&self) -> bool {
        &&& self.daily_tokens.wf()
        &&& self.tool_calls.wf()
        &&& self.file_edit_counts.wf()
        &&& self.sessions.wf()
        &&& self.model_tokens.wf()
        &&& self.daily_model_tokens.wf()
        &&& self.written_files.wf()
        &&& forall|d: i32| #[trigger] self.daily_tokens@.contains_key(d) ==> valid_day(d as int)
    }

    fn new() -> (a: Self)
        ensures
            a.wf(),
            a@ == empty_tally(),
    {
        let a = Aggregator {
            daily_tokens: DayMap::new(),
            hour_counts: [0u64; 24],
            tool_calls: NameMap::new(),
            file_ops: FileOps { created: 0, edited: 0, read: 0 },
            file_edit_counts: NameMap::new(),
            sessions: NameMap::new(),
            total_user_turns: 0,
            total_assistant_turns: 0,
            model_tokens: NameMap::new(),
            daily_model_tokens: DayMap::new(),
            written_files: NameMap::new(),
        };
        assert(a@.hour_counts =~= Seq::new(24, |i: int| 0u64));
        assert(a@ =~= empty_tally());
        a
    }

    fn note_time(&mut self, sid: &str, dt: Option<Timestamp>)
        requires
            old(self).wf(),
            dt matches Some(t) ==> t.valid(),
        ensures
            final(self).wf(),
            final(self)@ == note_time(old(self)@, sid@, dt),
    {
        match dt {
            Some(t) => {
                if !sid.is_empty() {
                    let mut s = take_session(&mut self.sessions, sid);
                    let ghost s0 = s@;
                    s.first_ts = match s.first_ts {
                        Some(f) => if t.is_before(&f) { Some(t) } else { Some(f) },
                        None => Some(t),
                    };
                    s.last_ts = match s.last_ts {
                        Some(l) => if l.is_before(&t) { Some(t) } else { Some(l) },
                        None => Some(t),
                    };
                    assert(s@ =~= touch_time(s0, t));
                    self.sessions.insert(sid.to_owned(), s);
                    proof {
                        lemma_remove_insert(old(self)@.sessions, sid@, s@);
                    }
                    assert(self@ =~= note_time(old(self)@, sid@, dt));
                }
            },
            None => {},
        }
    }

    fn note_hour(&mut self, conversational: bool, dt: Option<Timestamp>)
        requires
            old(self).wf(),
        ensures
            final(self).wf(),
            final(self)@ == note_hour(old(self)@, conversational, dt),
    {
        match dt {
            Some(t) => {
                if conversational && t.hour < 24 {
                    let h = t.hour as usize;
                    let c = add64(self.hour_counts[h], 1);
                    self.hour_counts[h] = c;
                    assert(self@ =~= note_hour(old(self)@, conversational, dt));
                }
            },
            None => {},
        }
    }

    fn note_assistant_turn(&mut self, sid: &str)
        requires
            old(self).wf(),
        ensures
            final(self).wf(),
            final(self)@ == note_assistant_turn(old(self)@, sid@),
    {
        self.total_assistant_turns = add32(self.total_assistant_turns, 1);
        if !sid.is_empty() {
            let mut s = take_session(&mut self.sessions, sid);
            s.assistant_turns = add32(s.assistant_turns, 1);
            self.sessions.insert(sid.to_owned(), s);
            proof {
                lemma_remove_insert(old(self)@.sessions, sid@, s@);
            }
        }
        assert(self@ =~= note_assistant_turn(old(self)@, sid@));
    }

    fn note_user_turn(&mut self, sid: &str)
        requires
            old(self).wf(),
        ensures
            final(self).wf(),
            final(self)@ == note_user_turn(old(self)@, sid@),
    {
        self.total_user_turns = add32(self.total_user_turns, 1);
        if !sid.is_empty() {
            let mut s = take_session(&mut self.sessions, sid);
            s.user_turns = add32(s.user_turns, 1);
            self.sessions.insert(sid.to_owned(), s);
            proof {
                lemma_remove_insert(old(self)@.sessions, sid@, s@);
            }
        }
        assert(self@ =~= note_user_turn(old(self)@, sid@));
    }

    fn note_usage(&mut self, u: &Usage, model: &Option<String>, date: Option<i32>)
        requires
            old(self).wf(),
            date matches Some(d) ==> valid_day(d as int),
        ensures
            final(self).wf(),
            final(self)@ == note_usage(old(self)@, *u, *model, date),
    {
        let ghost t0 = self@;
        if let Some(d) = date {
            let cur = match self.daily_tokens.take(d) {
                Some(x) => x,
                None => DayTokens::default(),
            };
            self.daily_tokens.insert(d, plus_day(cur, u));
            proof {
                lemma_remove_insert(t0.daily_tokens, d, day_plus(cur, *u));
            }
        }
        let ghost t1 = self@;
        assert(t1 =~= (match date {
            Some(d) => Tally { daily_tokens: t0.daily_tokens.insert(d, day_plus(get_or(t0.daily_tokens, d, zero_day()), *u)), ..t0 },
            None => t0,
        }));
        match model {
            Some(name) => {
                let key = normalize_model(name.as_str());
                if !key.as_str().is_empty() {
                    let cur = match self.model_tokens.take(key.as_str()) {
                        Some(x) => x,
                        None => ModelTokens::default(),
                    };
                    self.model_tokens.insert(key.clone(), plus_model(cur, u));
                    proof {
                        lemma_remove_insert(t1.model_tokens, key@, model_plus(cur, *u));
                    }
                    let ghost t2 = self@;
                    if let Some(d) = date {
                        let mut inner = match self.daily_model_tokens.take(d) {
                            Some(m) => m,
                            None => NameMap::new(),
                        };
                        let ghost inner0 = inner@;
                        assert(inner0 == get_or(t2.daily_model_tokens, d, Map::empty()));
                        let c = match inner.take(key.as_str()) {
                            Some(x) => x,
                            None => ModelTokens::default(),
                        };
                        inner.insert(key, plus_model(c, u));
                        proof {
                            lemma_remove_insert(inner0, key@, model_plus(c, *u));
                        }
                        let ghost inner1 = inner@;
                        self.daily_model_tokens.insert(d, inner);
                        proof {
                            lemma_remove_insert(t2.daily_model_tokens, d, inner1);
                        }
                    }
                }
            },
            None => {},
        }
        assert(self@ =~= note_usage(t0, *u, *model, date));
    }

    /// Counts a write or edit toward the shortened path of its file.
    fn count_edit(&mut self, fp: &str)
        requires
            old(self).wf(),
        ensures
            final(self).wf(),
            final(self)@ == count_edit(old(self)@, fp@),
    {
        let short = shorten_path(fp);
        let _prev = bump(&mut self.file_edit_counts, short.to_owned());
        assert(self@ =~= count_edit(old(self)@, fp@));
    }

    /// Adds a file path to the files of a (named) session.
    fn touch_file(&mut self, sid: &str, fp: &str)
        requires
            old(self).wf(),
        ensures
            final(self).wf(),
            final(self)@ == touch_file(old(self)@, sid@, fp@),
    {
        if !sid.is_empty() {
            let mut s = take_session(&mut self.sessions, sid);
            let ghost s0 = s@;
            s.files_touched.insert(fp.to_owned(), ());
            assert(s@ =~= (SessionModel { files: s0.files.insert(fp@), ..s0 }));
            self.sessions.insert(sid.to_owned(), s);
            proof {
                lemma_remove_insert(old(self)@.sessions, sid@, s@);
            }
            assert(self@ =~= touch_file(old(self)@, sid@, fp@));
        }
    }

    fn note_tool(&mut self, b: &ContentBlock, sid: &str)
        requires
            old(self).wf(),
        ensures
            final(self).wf(),
            final(self)@ == note_tool(old(self)@, *b, sid@),
    {
        let ghost t0 = self@;
        let bt = chars_of_opt(&b.block_type);
        if !chars_equal(&bt, &chars_of("tool_use")) {
            return;
        }
        let name: String = match &b.name {
            Some(n) => n.clone(),
            None => "unknown".to_owned(),
        };
        assert(name@ == tool_name(*b));
        let nm = chars_of(name.as_str());
        let _calls = bump(&mut self.tool_calls, name);
        let ghost t1 = self@;
        assert(t1 =~= Tally { tool_calls: t0.tool_calls.insert(tool_name(*b), crate::wrap::wrap64(get_or(t0.tool_calls, tool_name(*b), 0) + 1)), ..t0 });
        if chars_equal(&nm, &chars_of("Write")) {
            match &b.file_path {
                Some(fp) => {
                    let count = bump(&mut self.written_files, fp.clone());
                    if count == 0 {
                        self.file_ops.created = add64(self.file_ops.created, 1);
                    } else {
                        self.file_ops.edited = add64(self.file_ops.edited, 1);
                    }
                    let ghost ops = self.file_ops;
                    assert(self@ =~= count_written(Tally { file_ops: ops, ..t1 }, fp@));
                    self.count_edit(fp.as_str());
                    self.touch_file(sid, fp.as_str());
                },
                None => {},
            }
        } else if chars_equal(&nm, &chars_of("Edit")) {
            self.file_ops.edited = add64(self.file_ops.edited, 1);
            let ghost t2 = self@;
            match &b.file_path {
                Some(fp) => {
                    let _count = bump(&mut self.written_files, fp.clone());
                    assert(self@ =~= count_written(t2, fp@));
                    self.count_edit(fp.as_str());
                    self.touch_file(sid, fp.as_str());
                },
                None => {},
            }
        } else if chars_equal(&nm, &chars_of("Read")) {
            self.file_ops.read = add64(self.file_ops.read, 1);
            match &b.file_path {
                Some(fp) => {
                    self.touch_file(sid, fp.as_str());
                },
                None => {},
            }
        }
    }

    fn note_message(&mut self, m: &MessagePayload, date: Option<i32>, sid: &str)
        requires
            old(self).wf(),
            date matches Some(d) ==> valid_day(d as int),
        ensures
            final(self).wf(),
            final(self)@ == note_message(old(self)@, *m, date, sid@),
    {
        match &m.usage {
            Some(u) => self.note_usage(u, &m.model, date),
            None => {},
        }
        let ghost t1 = self@;
        match &m.content {
            Some(blocks) => {
                let n = blocks.len();
                let mut i: usize = 0;
                assert(blocks@.take(0) =~= Seq::<ContentBlock>::empty());
                while i < n
                    invariant
                        n == blocks@.len(),
                        i <= n,
                        self.wf(),
                        self@ == note_tools(t1, blocks@.take(i as int), sid@),
                    decreases n - i,
                {
                    self.note_tool(&blocks[i], sid);
                    assert(blocks@.take(i + 1).drop_last() =~= blocks@.take(i as int));
                    i = i + 1;
                }
                assert(blocks@.take(n as int) =~= blocks@);
            },
            None => {},
        }
    }

    fn ingest(&mut self, line: &SessionLine)
        requires
            old(self).wf(),
            date_prefix_cuttable(text_or_empty(line.timestamp)),
        ensures
            final(self).wf(),
            final(self)@ == step(old(self)@, *line),
    {
        let kind = chars_of_opt(&line.line_type);
        proof {
            reveal_strlit("");
        }
        let ts: &str = match &line.timestamp {
            Some(t) => t.as_str(),
            None => "",
        };
        assert(ts@ == text_or_empty(line.timestamp));
        let dt = parse_datetime(ts);
        let date = parse_date(ts);
        let sid: &str = match &line.session_id {
            Some(s) => s.as_str(),
            None => "",
        };
        assert(sid@ == text_or_empty(line.session_id));
        self.note_time(sid, dt);
        let is_user = chars_equal(&kind, &chars_of("user"));
        let is_assistant = chars_equal(&kind, &chars_of("assistant"));
        self.note_hour(is_user || is_assistant, dt);
        if is_assistant {
            self.note_assistant_turn(sid);
            match &line.message {
                Some(m) => self.note_message(m, date, sid),
                None => {},
            }
        } else if is_user {
            self.note_user_turn(sid);
        }
    }
}

/// The statistics of one session.
fn stats_of(sid: &String, acc: &SessionAccum) -> (st: SessionStats)
    requires
        acc.well_formed(),
    ensures
        summarizes_session(st, sid@, acc@),
        st.first_date matches Some(d) ==> valid_day(d as int),
{
    let duration_secs: u64 = match (acc.first_ts, acc.last_ts) {
        (Some(first), Some(last)) => {
            let d = seconds_between(&first, &last);
            if d < 0 {
                0
            } else {
                d as u64
            }
        },
        _ => 0,
    };
    let first_date = match acc.first_ts {
        Some(f) => Some(f.day),
        None => None,
    };
    proof {
        acc.files_touched.lemma_wf();
    }
    SessionStats {
        session_id: sid.clone(),
        first_date,
        duration_secs,
        user_turns: acc.user_turns,
        assistant_turns: acc.assistant_turns,
        files_touched_count: acc.files_touched.len(),
    }
}

/// The statistics of every session, in session id order.
fn session_list(sessions: &NameMap<SessionAccum>) -> (v: Vec<SessionStats>)
    requires
        sessions.wf(),
    ensures
        v@.len() == sessions@.dom().len(),
        forall|i: int| 0 <= i < v@.len() ==> {
            let st = #[trigger] v@[i];
            &&& sessions@.contains_key(st.session_id@)
            &&& summarizes_session(st, st.session_id@, sessions@[st.session_id@])
            &&& st.first_date matches Some(d) ==> valid_day(d as int)
        },
        forall|i: int, j: int| 0 <= i < v@.len() && 0 <= j < v@.len() && i != j
            ==> (#[trigger] v@[i]).session_id@ != (#[trigger] v@[j]).session_id@,
{
    proof {
        sessions.lemma_wf();
    }
    let n = sessions.len();
    let mut v: Vec<SessionStats> = Vec::new();
    let mut i: usize = 0;
    while i < n
        invariant
            sessions.wf(),
            n == sessions.pairs().len(),
            i <= n,
            v@.len() == i,
            crate::assoc::distinct_keys(sessions.pairs()),
            forall|k: int| 0 <= k < sessions.pairs().len() ==> #[trigger] sessions@.contains_key(sessions.pairs()[k].0)
                && sessions@[sessions.pairs()[k].0] == sessions.pairs()[k].1,
            forall|k: int| 0 <= k < i ==> {
                let st = #[trigger] v@[k];
                &&& st.session_id@ == sessions.pairs()[k].0
                &&& summarizes_session(st, st.session_id@, sessions.pairs()[k].1)
                &&& st.first_date matches Some(d) ==> valid_day(d as int)
            },
        decreases n - i,
    {
        let sid = sessions.key_at(i);
        let acc = sessions.value_at(i);
        let st = stats_of(sid, acc);
        v.push(st);
        i = i + 1;
    }
    proof {
        assert forall|a: int, b: int| 0 <= a < v@.len() && 0 <= b < v@.len() && a != b
            implies (#[trigger] v@[a]).session_id@ != (#[trigger] v@[b]).session_id@ by {
            assert(v@[a].session_id@ == sessions.pairs()[a].0);
            assert(v@[b].session_id@ == sessions.pairs()[b].0);
        }
        assert forall|k: int| 0 <= k < v@.len() implies {
            let st = #[trigger] v@[k];
            &&& sessions@.contains_key(st.session_id@)
            &&& summarizes_session(st, st.session_id@, sessions@[st.session_id@])
            &&& st.first_date matches Some(d) ==> valid_day(d as int)
        } by {
            assert(sessions@.contains_key(sessions.pairs()[k].0));
        }
    }
    v
}

/// The `k`-th element of `out` is one of `orig`.
spec fn drawn_from(out: Seq<SessionStats>, orig: Seq<SessionStats>, k: int) -> bool {
    exists|j: int| 0 <= j < orig.len() && out[k] == #[trigger] orig[j]
}

/// Sorts session statistics by duration, longest first, keeping the order
/// of sessions of equal duration.
fn sort_by_duration(v: Vec<SessionStats>) -> (r: Vec<SessionStats>)
    requires
        forall|i: int, j: int| 0 <= i < v@.len() && 0 <= j < v@.len() && i != j
            ==> (#[trigger] v@[i]).session_id@ != (#[trigger] v@[j]).session_id@,
    ensures
        r@.len() == v@.len(),
        forall|k: int| 0 <= k < r@.len() ==> #[trigger] drawn_from(r@, v@, k),
        forall|i: int, j: int| 0 <= i < r@.len() && 0 <= j < r@.len() && i != j
            ==> (#[trigger] r@[i]).session_id@ != (#[trigger] r@[j]).session_id@,
        forall|i: int, j: int| 0 <= i < j < r@.len()
            ==> (#[trigger] r@[i]).duration_secs >= (#[trigger] r@[j]).duration_secs,
{
    let ghost orig = v@;
    let mut rest = v;
    let mut out: Vec<SessionStats> = Vec::new();
    assert(rest@ =~= orig.skip(0));
    while rest.len() > 0
        invariant
            out@.len() + rest@.len() == orig.len(),
            rest@ == orig.skip(out@.len() as int),
            forall|i: int, j: int| 0 <= i < orig.len() && 0 <= j < orig.len() && i != j
                ==> (#[trigger] orig[i]).session_id@ != (#[trigger] orig[j]).session_id@,
            forall|k: int| 0 <= k < out@.len() ==> #[trigger] drawn_from(out@, orig, k),
            forall|a: int, b: int| 0 <= a < out@.len() && 0 <= b < out@.len() && a != b
                ==> (#[trigger] out@[a]).session_id@ != (#[trigger] out@[b]).session_id@,
            forall|a: int, j: int| 0 <= a < out@.len() && out@.len() <= j < orig.len()
                ==> (#[trigger] out@[a]).session_id@ != (#[trigger] orig[j]).session_id@,
            forall|a: int, b: int| 0 <= a < b < out@.len()
                ==> (#[trigger] out@[a]).duration_secs >= (#[trigger] out@[b]).duration_secs,
        decreases rest@.len(),
    {
        let ghost m = out@.len() as int;
        let x = rest.remove(0);
        assert(x == orig[m]);
        assert(rest@ =~= orig.skip(m + 1));
        let mut p: usize = 0;
        while p < out.len() && out[p].duration_secs >= x.duration_secs
            invariant
                p <= out@.len(),
                forall|q: int| 0 <= q < p ==> (#[trigger] out@[q]).duration_secs >= x.duration_secs,
            decreases out@.len() - p,
        {
            p = p + 1;
        }
        let ghost old_out = out@;
        out.insert(p, x);
        proof {
            assert forall|k: int| 0 <= k < out@.len() implies #[trigger] drawn_from(out@, orig, k) by {
                if k < p {
                    assert(drawn_from(old_out, orig, k));
                    assert(out@[k] == old_out[k]);
                } else if k == p {
                    assert(out@[k] == orig[m]);
                } else {
                    assert(drawn_from(old_out, orig, k - 1));
                    assert(out@[k] == old_out[k - 1]);
                }
            }
            assert forall|a: int, b: int| 0 <= a < out@.len() && 0 <= b < out@.len() && a != b
                implies (#[trigger] out@[a]).session_id@ != (#[trigger] out@[b]).session_id@ by {
                let a2 = if a < p { a } else { a - 1 };
                let b2 = if b < p { b } else { b - 1 };
                if a != p && b != p {
                    assert(out@[a] == old_out[a2]);
                    assert(out@[b] == old_out[b2]);
                } else if a == p {
                    assert(out@[b] == old_out[b2]);
                    assert(old_out[b2].session_id@ != orig[m].session_id@);
                } else {
                    assert(out@[a] == old_out[a2]);
                    assert(old_out[a2].session_id@ != orig[m].session_id@);
                }
            }
            assert forall|a: int, j: int| 0 <= a < out@.len() && out@.len() <= j < orig.len()
                implies (#[trigger] out@[a]).session_id@ != (#[trigger] orig[j]).session_id@ by {
                if a == p {
                    assert(out@[a] == orig[m]);
                } else {
                    let a2 = if a < p { a } else { a - 1 };
                    assert(out@[a] == old_out[a2]);
                }
            }
            assert forall|a: int, b: int| 0 <= a < b < out@.len()
                implies (#[trigger] out@[a]).duration_secs >= (#[trigger] out@[b]).duration_secs by {
                if b < p {
                    assert(out@[a] == old_out[a]);
                    assert(out@[b] == old_out[b]);
                } else if b == p {
                    assert(out@[a] == old_out[a]);
                } else if a < p {
                    assert(out@[a] == old_out[a]);
                    assert(out@[b] == old_out[b - 1]);
                    assert(old_out[p as int].duration_secs < x.duration_secs);
                } else if a == p {
                    assert(out@[b] == old_out[b - 1]);
                    assert(old_out[p as int].duration_secs < x.duration_secs);
                    if b - 1 > p {
                        assert(old_out[p as int].duration_secs >= old_out[b - 1].duration_secs);
                    }
                } else {
                    assert(out@[a] == old_out[a - 1]);
                    assert(out@[b] == old_out[b - 1]);
                }
            }
        }
    }
    out
}

impl Aggregator {
    /// The metrics of the totals read so far.
    fn finish(self) -> (m: Metrics)
        requires
            self.wf(),
        ensures
            m.wf(),
            m.summarizes(self@),
    {
        let list = session_list(&self.sessions);
        let sorted = sort_by_duration(list);
        let ghost t = self@;
        let m = Metrics {
            daily_tokens: self.daily_tokens,
            hour_counts: self.hour_counts,
            tool_calls: self.tool_calls,
            file_ops: self.file_ops,
            file_edit_counts: self.file_edit_counts,
            sessions: sorted,
            total_user_turns: self.total_user_turns,
            total_assistant_turns: self.total_assistant_turns,
            model_tokens: self.model_tokens,
            daily_model_tokens: self.daily_model_tokens,
        };
        proof {
            assert forall|i: int| 0 <= i < m.sessions@.len() implies {
                let st = #[trigger] m.sessions@[i];
                &&& t.sessions.contains_key(st.session_id@)
                &&& summarizes_session(st, st.session_id@, t.sessions[st.session_id@])
                &&& (st.first_date matches Some(d) ==> valid_day(d as int))
            } by {
                    assert(drawn_from(m.sessions@, list@, i));
                let j = choose|j: int| 0 <= j < list@.len() && m.sessions@[i] == #[trigger] list@[j];
                assert(list@[j] == m.sessions@[i]);
            }
        }
        m
    }
}

/// Reads session log lines, in order, into metrics.
///
/// Cutting a timestamp's date off at a byte inside a character would panic,
/// so lines with such timestamps are excluded.
pub fn parse_all(lines: &Vec<SessionLine>) -> (m: Metrics)
    requires
        forall|i: int| 0 <= i < lines@.len() ==> date_prefix_cuttable(text_or_empty(#[trigger] lines@[i].timestamp)),
    ensures
        m.wf(),
        m.summarizes(tally(lines@)),
{
    let mut agg = Aggregator::new();
    let n = lines.len();
    let mut i: usize = 0;
    assert(lines@.take(0) =~= Seq::<SessionLine>::empty());
    while i < n
        invariant
            n == lines@.len(),
            i <= n,
            agg.wf(),
            agg@ == tally(lines@.take(i as int)),
            forall|k: int| 0 <= k < lines@.len() ==> date_prefix_cuttable(text_or_empty(#[trigger] lines@[k].timestamp)),
        decreases n - i,
    {
        agg.ingest(&lines[i]);
        assert(lines@.take(i + 1).drop_last() =~= lines@.take(i as int));
        i = i + 1;
    }
    assert(lines@.take(n as int) =~= lines@);
    agg.finish()
}

} // verus!

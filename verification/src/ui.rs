//! Dashboard state and the decisions behind each panel: which days the
//! chart shows, how keys move it, and the figures the panels display.
use vstd::prelude::*;
use vstd::utf8::{encode_utf8, decode_utf8, is_char_boundary, encode_utf8_decode_utf8};
use crate::clock::{valid_day, day_long, spec_format_day, MIN_DAY};
use crate::data::{DayTokens, Metrics, SessionStats};
use crate::names::NameMap;
use crate::text::{chars_lt, decimal, push_decimal, lemma_lt_irreflexive};
use crate::wrap::{wrap64, wrap32, add64, add32, lemma_wrap64_assoc};

verus! {

broadcast use vstd::string::group_string_axioms;

/// What the day chart shows.
#[derive(Clone, Copy, PartialEq, Eq, Structural, Debug)]
pub enum ChartView {
    Tokens,
    Cost,
}

/// A key press, as far as the dashboard tells keys apart.
#[derive(Clone, Copy, PartialEq, Eq, Structural, Debug)]
pub enum Key {
    Char(char),
    Left,
    Right,
    Home,
    End,
    Esc,
    Other,
}

/// Dashboard state.
pub struct App {
    pub metrics: Metrics,
    /// The days of the chart with their tokens, earliest first.
    pub daily_vec: Vec<(i32, DayTokens)>,
    /// Index in `daily_vec` of the leftmost day shown.
    pub scroll_offset: usize,
    pub chart_view: ChartView,
}

/// The other chart view.
pub open spec fn toggled(v: ChartView) -> ChartView {
    match v {
        ChartView::Tokens => ChartView::Cost,
        ChartView::Cost => ChartView::Tokens,
    }
}

/// Saturating subtraction on naturals.
pub open spec fn monus(a: int, b: int) -> int {
    if a >= b { a - b } else { 0 }
}

impl App {
    /// The metrics are well formed and the chart's days are those of the
    /// daily token map, in order.
    pub open spec fn wf(&self) -> bool {
        &&& self.metrics.wf()
        &&& self.daily_vec@ == self.metrics.daily_tokens.pairs()
    }

    /// Dashboard state for `metrics`: every day in date order, scrolled to
    /// the start, showing tokens.
    pub fn new(metrics: Metrics) -> (app: App)
        requires
            metrics.wf(),
        ensures
            app.wf(),
            app.metrics == metrics,
            app.scroll_offset == 0,
            app.chart_view == ChartView::Tokens,
    {
        let n = metrics.daily_tokens.len();
        let mut daily_vec: Vec<(i32, DayTokens)> = Vec::new();
        let mut i: usize = 0;
        while i < n
            invariant
                metrics.wf(),
                n == metrics.daily_tokens.pairs().len(),
                i <= n,
                daily_vec@ == metrics.daily_tokens.pairs().take(i as int),
            decreases n - i,
        {
            let d = metrics.daily_tokens.key_at(i);
            let t = *metrics.daily_tokens.value_at(i);
            daily_vec.push((d, t));
            assert(metrics.daily_tokens.pairs().take(i + 1) =~= metrics.daily_tokens.pairs().take(i as int).push(
                metrics.daily_tokens.pairs()[i as int],
            ));
            i = i + 1;
        }
        assert(metrics.daily_tokens.pairs().take(n as int) =~= metrics.daily_tokens.pairs());
        App { metrics, daily_vec, scroll_offset: 0, chart_view: ChartView::Tokens }
    }

    /// Switches the chart between tokens and cost per day.
    pub fn toggle_chart_view(&mut self)
        ensures
            final(self).chart_view == toggled(old(self).chart_view),
            final(self).metrics == old(self).metrics,
            final(self).daily_vec == old(self).daily_vec,
            final(self).scroll_offset == old(self).scroll_offset,
    {
        self.chart_view = match self.chart_view {
            ChartView::Tokens => ChartView::Cost,
            ChartView::Cost => ChartView::Tokens,
        };
    }

    pub open spec fn spec_visible_bars(chart_width: int) -> int {
        let bars = monus(chart_width, 2) / 8;
        if bars >= 1 { bars } else { 1 }
    }

    /// How many bars fit in a chart `chart_width` columns wide: two columns
    /// go to the border, each bar takes eight, and at least one is shown.
    pub fn visible_bars(&self, chart_width: u16) -> (n: usize)
        ensures
            n == Self::spec_visible_bars(chart_width as int),
            n >= 1,
    {
        let w = chart_width.saturating_sub(2) as usize;
        let bars = w / 8;
        if bars >= 1 {
            bars
        } else {
            1
        }
    }

    /// How many bars fit in the chart of a terminal `terminal_width`
    /// columns wide: the chart takes 70% of the width.
    pub fn visible_bars_for_terminal(&self, terminal_width: u16) -> (n: usize)
        ensures
            n == Self::spec_visible_bars(terminal_width as int * 70 / 100),
            n >= 1,
    {
        let chart_area_width = (terminal_width as u32 * 70 / 100) as u16;
        self.visible_bars(chart_area_width)
    }

    /// Moves the chart three days later, stopping where the last day is in
    /// view.
    pub fn scroll_right(&mut self, visible: usize)
        requires
            old(self).scroll_offset + 3 <= usize::MAX,
        ensures
            final(self).scroll_offset == vstd::math::min(
                old(self).scroll_offset + 3,
                monus(old(self).daily_vec@.len() as int, visible as int),
            ),
            final(self).metrics == old(self).metrics,
            final(self).daily_vec == old(self).daily_vec,
            final(self).chart_view == old(self).chart_view,
    {
        let max = self.daily_vec.len().saturating_sub(visible);
        let next = self.scroll_offset + 3;
        self.scroll_offset = if next < max {
            next
        } else {
            max
        };
    }

    /// Moves the chart three days earlier, stopping at the first day.
    pub fn scroll_left(&mut self, _visible: usize)
        ensures
            final(self).scroll_offset == monus(old(self).scroll_offset as int, 3),
            final(self).metrics == old(self).metrics,
            final(self).daily_vec == old(self).daily_vec,
            final(self).chart_view == old(self).chart_view,
    {
        self.scroll_offset = self.scroll_offset.saturating_sub(3);
    }

    /// Scrolls so that the last `visible` days are in view.
    pub fn scroll_to_end(&mut self, visible: usize)
        ensures
            final(self).scroll_offset == monus(old(self).daily_vec@.len() as int, visible as int),
            final(self).metrics == old(self).metrics,
            final(self).daily_vec == old(self).daily_vec,
            final(self).chart_view == old(self).chart_view,
    {
        self.scroll_offset = self.daily_vec.len().saturating_sub(visible);
    }

    /// Acts on a key press with `visible` bars in view; true when the
    /// dashboard should quit (`q` or Esc). `→`/`l` and `←`/`h` scroll,
    /// Home and End jump to the first and last days, `c` toggles the chart.
    pub fn handle_key(&mut self, key: Key, visible: usize) -> (quit: bool)
        requires
            old(self).scroll_offset + 3 <= usize::MAX,
        ensures
            quit == (key == Key::Char('q') || key == Key::Esc),
            final(self).metrics == old(self).metrics,
            final(self).daily_vec == old(self).daily_vec,
            key == Key::Right || key == Key::Char('l') ==> final(self).scroll_offset == vstd::math::min(
                old(self).scroll_offset + 3,
                monus(old(self).daily_vec@.len() as int, visible as int),
            ),
            key == Key::Left || key == Key::Char('h') ==> final(self).scroll_offset == monus(
                old(self).scroll_offset as int,
                3,
            ),
            key == Key::Home ==> final(self).scroll_offset == 0,
            key == Key::End ==> final(self).scroll_offset == monus(
                old(self).daily_vec@.len() as int,
                visible as int,
            ),
            key == Key::Char('c') ==> final(self).chart_view != old(self).chart_view,
            key != Key::Char('c') ==> final(self).chart_view == old(self).chart_view,
            !(key == Key::Right || key == Key::Char('l') || key == Key::Left || key == Key::Char('h')
                || key == Key::Home || key == Key::End) ==> final(self).scroll_offset == old(
                self,
            ).scroll_offset,
    {
        match key {
            Key::Char('q') | Key::Esc => true,
            Key::Right | Key::Char('l') => {
                self.scroll_right(visible);
                false
            },
            Key::Left | Key::Char('h') => {
                self.scroll_left(visible);
                false
            },
            Key::Home => {
                self.scroll_offset = 0;
                false
            },
            Key::End => {
                self.scroll_to_end(visible);
                false
            },
            Key::Char('c') => {
                self.toggle_chart_view();
                false
            },
            _ => false,
        }
    }

    /// The indices `start..end` of the days the chart shows with `visible`
    /// bars.
    pub fn chart_window(&self, visible: usize) -> (r: (usize, usize))
        requires
            self.scroll_offset + visible <= usize::MAX,
        ensures
            r.0 == self.scroll_offset,
            r.1 == vstd::math::min(self.scroll_offset + visible, self.daily_vec@.len() as int),
    {
        let start = self.scroll_offset;
        let want = start + visible;
        let end = if want < self.daily_vec.len() {
            want
        } else {
            self.daily_vec.len()
        };
        (start, end)
    }
}

/// The sum of the daily totals of `days`.
pub open spec fn sum_day_totals(days: Seq<(i32, DayTokens)>) -> int
    decreases days.len(),
{
    if days.len() == 0 {
        0
    } else {
        sum_day_totals(days.drop_last()) + days.last().1.spec_total()
    }
}

/// The larger of `a` and `b`.
pub open spec fn larger(a: int, b: int) -> int {
    if a >= b { a } else { b }
}

/// The largest of `counts`, and at least one.
pub open spec fn peak_of(counts: Seq<u64>) -> int
    decreases counts.len(),
{
    if counts.len() == 0 {
        1
    } else {
        larger(peak_of(counts.drop_last()), counts.last() as int)
    }
}

/// The bucket of a session's turn count: 1-5, 6-20, 21-50, 51-100, over
/// 100 (a session with no turns counts with 1-5).
pub open spec fn turn_bucket(turns: int) -> int {
    if turns <= 5 {
        0
    } else if turns <= 20 {
        1
    } else if turns <= 50 {
        2
    } else if turns <= 100 {
        3
    } else {
        4
    }
}

/// A session's turns, user and assistant together (wrapping at 2^32).
pub open spec fn session_turns(s: SessionStats) -> u32 {
    wrap32(s.user_turns + s.assistant_turns)
}

/// How many of `sessions` fall in bucket `b`.
pub open spec fn bucket_count(sessions: Seq<SessionStats>, b: int) -> int
    decreases sessions.len(),
{
    if sessions.len() == 0 {
        0
    } else {
        bucket_count(sessions.drop_last(), b) + (if turn_bucket(session_turns(sessions.last()) as int) == b {
            1int
        } else {
            0int
        })
    }
}

/// `i` holds the last of the largest values of `key` over `0..n`.
pub open spec fn is_last_max(key: spec_fn(int) -> int, n: int, i: int) -> bool {
    &&& 0 <= i < n
    &&& forall|j: int| 0 <= j < n ==> #[trigger] key(j) <= key(i)
    &&& forall|j: int| i < j < n ==> #[trigger] key(j) < key(i)
}

/// The sessions that the records panel names, by index in the session list.
#[derive(Clone, Copy, PartialEq, Eq, Structural, Debug)]
pub struct SessionRecords {
    /// The longest session (the list is longest first).
    pub longest: usize,
    /// The last session among those that touched the most files.
    pub most_files: usize,
    /// The last session among those with the most turns.
    pub most_turns: usize,
}

/// `ranked` lists the entries of `counts`, largest count first, entries of
/// equal count in key order.
pub open spec fn ranks(ranked: Seq<(String, u64)>, counts: Map<Seq<char>, u64>) -> bool {
    &&& ranked.len() == counts.dom().len()
    &&& forall|i: int| 0 <= i < ranked.len() ==> #[trigger] counts.contains_key(ranked[i].0@)
        && counts[ranked[i].0@] == ranked[i].1
    &&& forall|i: int, j: int| 0 <= i < j < ranked.len() ==> {
        ||| (#[trigger] ranked[i]).1 > (#[trigger] ranked[j]).1
        ||| ranked[i].1 == ranked[j].1 && chars_lt(ranked[i].0@, ranked[j].0@)
    }
}

/// `e` is one of the first `lim` pairs of `ps`.
pub open spec fn entry_among(ps: Seq<(Seq<char>, u64)>, e: (String, u64), lim: int) -> bool {
    exists|j: int| 0 <= j < lim && #[trigger] ps[j].0 == e.0@ && ps[j].1 == e.1
}

/// The entries of a count map, largest count first, ties in key order.
pub fn ranked_counts(counts: &NameMap<u64>) -> (r: Vec<(String, u64)>)
    requires
        counts.wf(),
    ensures
        ranks(r@, counts@),
{
    proof {
        counts.lemma_wf();
    }
    let n = counts.len();
    let ghost ps = counts.pairs();
    let mut out: Vec<(String, u64)> = Vec::new();
    let mut i: usize = 0;
    while i < n
        invariant
            counts.wf(),
            ps == counts.pairs(),
            n == ps.len(),
            i <= n,
            out@.len() == i,
            crate::names::names_sorted(ps),
            forall|k: int| 0 <= k < out@.len() ==> #[trigger] entry_among(ps, out@[k], i as int),
            forall|a: int, b: int| 0 <= a < out@.len() && 0 <= b < out@.len() && a != b ==> (#[trigger] out@[a]).0@
                != (#[trigger] out@[b]).0@,
            forall|a: int, b: int| 0 <= a < b < out@.len() ==> {
                ||| (#[trigger] out@[a]).1 > (#[trigger] out@[b]).1
                ||| out@[a].1 == out@[b].1 && chars_lt(out@[a].0@, out@[b].0@)
            },
        decreases n - i,
    {
        let key = counts.key_at(i).clone();
        let c = *counts.value_at(i);
        let mut p: usize = 0;
        while p < out.len() && out[p].1 >= c
            invariant
                p <= out@.len(),
                forall|q: int| 0 <= q < p ==> (#[trigger] out@[q]).1 >= c,
            decreases out@.len() - p,
        {
            p = p + 1;
        }
        let ghost old_out = out@;
        let ghost kv = key@;
        proof {
            assert forall|a: int| 0 <= a < old_out.len() implies chars_lt(#[trigger] old_out[a].0@, kv) by {
                assert(entry_among(ps, old_out[a], i as int));
                let j = choose|j: int| 0 <= j < i && #[trigger] ps[j].0 == old_out[a].0@ && ps[j].1 == old_out[a].1;
                assert(ps[j].0 == old_out[a].0@);
            }
        }
        out.insert(p, (key, c));
        proof {
            assert forall|k: int| 0 <= k < out@.len() implies #[trigger] entry_among(ps, out@[k], i + 1) by {
                if k < p {
                    assert(out@[k] == old_out[k]);
                    assert(entry_among(ps, old_out[k], i as int));
                    let j = choose|j: int| 0 <= j < i && #[trigger] ps[j].0 == old_out[k].0@ && ps[j].1 == old_out[k].1;
                    assert(ps[j].0 == out@[k].0@);
                } else if k == p {
                    assert(ps[i as int].0 == out@[k].0@);
                } else {
                    assert(out@[k] == old_out[k - 1]);
                    assert(entry_among(ps, old_out[k - 1], i as int));
                    let j = choose|j: int| 0 <= j < i && #[trigger] ps[j].0 == old_out[k - 1].0@ && ps[j].1 == old_out[k - 1].1;
                    assert(ps[j].0 == out@[k].0@);
                }
            }
            assert forall|a: int, b: int| 0 <= a < out@.len() && 0 <= b < out@.len() && a != b
                implies (#[trigger] out@[a]).0@ != (#[trigger] out@[b]).0@ by {
                let a2 = if a < p { a } else { a - 1 };
                let b2 = if b < p { b } else { b - 1 };
                if a != p && b != p {
                    assert(out@[a] == old_out[a2]);
                    assert(out@[b] == old_out[b2]);
                } else if a == p {
                    assert(out@[b] == old_out[b2]);
                    lemma_lt_irreflexive(kv);
                } else {
                    assert(out@[a] == old_out[a2]);
                    lemma_lt_irreflexive(kv);
                }
            }
            assert forall|a: int, b: int| 0 <= a < b < out@.len() implies {
                ||| (#[trigger] out@[a]).1 > (#[trigger] out@[b]).1
                ||| out@[a].1 == out@[b].1 && chars_lt(out@[a].0@, out@[b].0@)
            } by {
                if b < p {
                    assert(out@[a] == old_out[a]);
                    assert(out@[b] == old_out[b]);
                } else if b == p {
                    assert(out@[a] == old_out[a]);
                } else if a < p {
                    assert(out@[a] == old_out[a]);
                    assert(out@[b] == old_out[b - 1]);
                    assert(old_out[p as int].1 < c);
                } else if a == p {
                    assert(out@[b] == old_out[b - 1]);
                    assert(old_out[p as int].1 < c);
                    if b - 1 > p {
                        assert(old_out[p as int].1 >= old_out[b - 1].1);
                    }
                } else {
                    assert(out@[a] == old_out[a - 1]);
                    assert(out@[b] == old_out[b - 1]);
                }
            }
        }
        i = i + 1;
    }
    proof {
        assert forall|k: int| 0 <= k < out@.len() implies #[trigger] counts@.contains_key(out@[k].0@)
            && counts@[out@[k].0@] == out@[k].1 by {
            assert(entry_among(ps, out@[k], n as int));
            let j = choose|j: int| 0 <= j < n && #[trigger] ps[j].0 == out@[k].0@ && ps[j].1 == out@[k].1;
            assert(ps[j].0 == out@[k].0@);
        }
    }
    out
}

impl App {
    /// All tokens of all days (wrapping at 2^64).
    pub fn total_tokens(&self) -> (r: u64)
        ensures
            r == wrap64(sum_day_totals(self.daily_vec@)),
    {
        let n = self.daily_vec.len();
        let mut total: u64 = 0;
        let mut i: usize = 0;
        assert(self.daily_vec@.take(0) =~= Seq::<(i32, DayTokens)>::empty());
        while i < n
            invariant
                n == self.daily_vec@.len(),
                i <= n,
                total == wrap64(sum_day_totals(self.daily_vec@.take(i as int))),
            decreases n - i,
        {
            let t = self.daily_vec[i].1.total();
            let ghost prev = sum_day_totals(self.daily_vec@.take(i as int));
            proof {
                assert(self.daily_vec@.take(i + 1).drop_last() =~= self.daily_vec@.take(i as int));
                lemma_wrap64_assoc(prev, t as int);
            }
            total = add64(total, t);
            i = i + 1;
        }
        assert(self.daily_vec@.take(n as int) =~= self.daily_vec@);
        total
    }

    /// The largest hourly activity count, and at least one.
    pub fn peak_hour_count(&self) -> (r: u64)
        ensures
            r == peak_of(self.metrics.hour_counts@),
            r >= 1,
            forall|h: int| 0 <= h < 24 ==> self.metrics.hour_counts@[h] <= r,
    {
        let mut best: u64 = 1;
        let mut h: usize = 0;
        assert(self.metrics.hour_counts@.take(0) =~= Seq::<u64>::empty());
        while h < 24
            invariant
                h <= 24,
                self.metrics.hour_counts@.len() == 24,
                best == peak_of(self.metrics.hour_counts@.take(h as int)),
                best >= 1,
                forall|k: int| 0 <= k < h ==> self.metrics.hour_counts@[k] <= best,
            decreases 24 - h,
        {
            let c = self.metrics.hour_counts[h];
            assert(self.metrics.hour_counts@.take(h + 1).drop_last() =~= self.metrics.hour_counts@.take(h as int));
            if c > best {
                best = c;
            }
            h = h + 1;
        }
        assert(self.metrics.hour_counts@.take(24) =~= self.metrics.hour_counts@);
        best
    }

    /// Conversation turns, user and assistant together (wrapping at 2^32).
    pub fn total_turns(&self) -> (r: u32)
        ensures
            r == wrap32(self.metrics.total_user_turns + self.metrics.total_assistant_turns),
    {
        add32(self.metrics.total_user_turns, self.metrics.total_assistant_turns)
    }

    /// How many sessions fall in each bucket of turn counts: 1-5, 6-20,
    /// 21-50, 51-100, over 100.
    pub fn turn_distribution(&self) -> (r: [usize; 5])
        ensures
            forall|b: int| 0 <= b < 5 ==> r@[b] == bucket_count(self.metrics.sessions@, b),
    {
        let mut counts = [0usize; 5];
        let n = self.metrics.sessions.len();
        let mut i: usize = 0;
        assert(self.metrics.sessions@.take(0) =~= Seq::<SessionStats>::empty());
        while i < n
            invariant
                n == self.metrics.sessions@.len(),
                i <= n,
                counts@.len() == 5,
                forall|b: int| 0 <= b < 5 ==> counts@[b] == bucket_count(self.metrics.sessions@.take(i as int), b),
                forall|b: int| 0 <= b < 5 ==> counts@[b] <= i,
            decreases n - i,
        {
            let s = &self.metrics.sessions[i];
            let t = add32(s.user_turns, s.assistant_turns) as usize;
            let b: usize = if t <= 5 {
                0
            } else if t <= 20 {
                1
            } else if t <= 50 {
                2
            } else if t <= 100 {
                3
            } else {
                4
            };
            assert(b as int == turn_bucket(session_turns(self.metrics.sessions@[i as int]) as int));
            counts[b] = counts[b] + 1;
            assert(self.metrics.sessions@.take(i + 1).drop_last() =~= self.metrics.sessions@.take(i as int));
            i = i + 1;
        }
        assert(self.metrics.sessions@.take(n as int) =~= self.metrics.sessions@);
        counts
    }

    /// The sessions named by the records panel, none when there are no
    /// sessions.
    pub fn session_records(&self) -> (r: Option<SessionRecords>)
        ensures
            r is None <==> self.metrics.sessions@.len() == 0,
            r matches Some(rec) ==> {
                &&& rec.longest == 0
                &&& is_last_max(
                    |j: int| self.metrics.sessions@[j].files_touched_count as int,
                    self.metrics.sessions@.len() as int,
                    rec.most_files as int,
                )
                &&& is_last_max(
                    |j: int| session_turns(self.metrics.sessions@[j]) as int,
                    self.metrics.sessions@.len() as int,
                    rec.most_turns as int,
                )
            },
    {
        let n = self.metrics.sessions.len();
        if n == 0 {
            return None;
        }
        let ghost files = |j: int| self.metrics.sessions@[j].files_touched_count as int;
        let ghost turns = |j: int| session_turns(self.metrics.sessions@[j]) as int;
        let mut most_files: usize = 0;
        let mut most_turns: usize = 0;
        let mut best_turns: u32 = add32(self.metrics.sessions[0].user_turns, self.metrics.sessions[0].assistant_turns);
        let mut i: usize = 1;
        assert(is_last_max(files, 1, 0));
        assert(is_last_max(turns, 1, 0));
        while i < n
            invariant
                n == self.metrics.sessions@.len(),
                1 <= i <= n,
                forall|j: int| #[trigger] files(j) == self.metrics.sessions@[j].files_touched_count as int,
                forall|j: int| #[trigger] turns(j) == session_turns(self.metrics.sessions@[j]) as int,
                is_last_max(files, i as int, most_files as int),
                is_last_max(turns, i as int, most_turns as int),
                best_turns as int == turns(most_turns as int),
            decreases n - i,
        {
            let s = &self.metrics.sessions[i];
            if s.files_touched_count >= self.metrics.sessions[most_files].files_touched_count {
                most_files = i;
            }
            let t = add32(s.user_turns, s.assistant_turns);
            if t >= best_turns {
                most_turns = i;
                best_turns = t;
            }
            i = i + 1;
        }
        Some(SessionRecords { longest: 0, most_files, most_turns })
    }

    /// The index of the first day counted in the last seven days: days are
    /// taken from the most recent backwards while they are at most six days
    /// before it. Zero when there are no days.
    pub fn week_start(&self) -> (r: usize)
        requires
            self.daily_vec@.len() > 0 ==> self.daily_vec@.last().0 - 6 >= MIN_DAY,
        ensures
            r <= self.daily_vec@.len(),
            self.daily_vec@.len() > 0 ==> {
                let cutoff = self.daily_vec@.last().0 - 6;
                &&& forall|j: int| r <= j < self.daily_vec@.len() ==> #[trigger] self.daily_vec@[j].0 >= cutoff
                &&& r > 0 ==> self.daily_vec@[r - 1].0 < cutoff
            },
            self.daily_vec@.len() == 0 ==> r == 0,
    {
        let n = self.daily_vec.len();
        if n == 0 {
            return 0;
        }
        let cutoff = self.daily_vec[n - 1].0 - 6;
        let mut i: usize = n;
        while i > 0 && self.daily_vec[i - 1].0 >= cutoff
            invariant
                n == self.daily_vec@.len(),
                i <= n,
                cutoff == self.daily_vec@.last().0 - 6,
                forall|j: int| i <= j < n ==> #[trigger] self.daily_vec@[j].0 >= cutoff,
            decreases i,
        {
            i = i - 1;
        }
        i
    }
}

/// The largest of the bucket counts, and at least one.
pub fn bucket_peak(counts: &[usize; 5]) -> (r: usize)
    ensures
        r >= 1,
        forall|b: int| 0 <= b < 5 ==> counts@[b] <= r,
        r == 1 || exists|b: int| 0 <= b < 5 && counts@[b] == r,
{
    let mut best: usize = 1;
    let mut b: usize = 0;
    while b < 5
        invariant
            b <= 5,
            counts@.len() == 5,
            best >= 1,
            forall|k: int| 0 <= k < b ==> counts@[k] <= best,
            best == 1 || exists|k: int| 0 <= k < b && counts@[k] == best,
        decreases 5 - b,
    {
        if counts[b] > best {
            best = counts[b];
        }
        b = b + 1;
    }
    best
}

/// A duration as hours and minutes, e.g. `2h 5m`, or minutes alone under
/// an hour, e.g. `42m`.
pub open spec fn spec_format_duration(secs: nat) -> Seq<char> {
    let hours = secs / 3600;
    let mins = (secs % 3600) / 60;
    if hours > 0 {
        decimal(hours) + "h "@ + decimal(mins) + "m"@
    } else {
        decimal(mins) + "m"@
    }
}

/// Writes a duration in seconds as hours and minutes.
pub fn format_duration(secs: u64) -> (r: String)
    ensures
        r@ == spec_format_duration(secs as nat),
{
    let hours = secs / 3600;
    let mins = (secs % 3600) / 60;
    let mut out = String::new();
    if hours > 0 {
        push_decimal(&mut out, hours);
        out.append("h ");
        push_decimal(&mut out, mins);
        out.append("m");
    } else {
        push_decimal(&mut out, mins);
        out.append("m");
    }
    assert(out@ =~= spec_format_duration(secs as nat));
    out
}

/// The date a session started, written out, or `unknown`.
pub fn format_session_date(session: &SessionStats) -> (r: String)
    requires
        session.first_date matches Some(d) ==> valid_day(d as int),
    ensures
        r@ == (match session.first_date {
            Some(d) => spec_format_day(d, "%b %d, %Y"@),
            None => "unknown"@,
        }),
{
    match session.first_date {
        Some(d) => day_long(d),
        None => "unknown".to_owned(),
    }
}

/// The text's last bytes, at most `max_len` of them shown: the text itself
/// when it is short enough, else `…` and the last `max_len - 1` bytes.
pub open spec fn spec_truncate_left(s: Seq<char>, max_len: int) -> Seq<char> {
    let bytes = encode_utf8(s);
    if bytes.len() <= max_len {
        s
    } else {
        "…"@ + decode_utf8(bytes.subrange(bytes.len() - monus(max_len, 1), bytes.len() as int))
    }
}

/// The cut that `truncate_left` makes falls between characters (else it
/// would panic), and the text's byte length fits in memory.
pub open spec fn truncatable(s: Seq<char>, max_len: int) -> bool {
    let bytes = encode_utf8(s);
    &&& bytes.len() <= usize::MAX
    &&& bytes.len() > max_len ==> is_char_boundary(bytes, bytes.len() - monus(max_len, 1))
}

/// Shortens text from the left to show its end, e.g. `…end/of/path`.
pub fn truncate_left(s: &str, max_len: usize) -> (r: String)
    requires
        truncatable(s@, max_len as int),
    ensures
        r@ == spec_truncate_left(s@, max_len as int),
{
    if s.len() <= max_len {
        s.to_owned()
    } else {
        let start = s.len() - max_len.saturating_sub(1);
        let (_head, tail) = s.split_at(start);
        proof {
            encode_utf8_decode_utf8(tail@);
        }
        let mut out = "…".to_owned();
        out.append(tail);
        out
    }
}

} // verus!

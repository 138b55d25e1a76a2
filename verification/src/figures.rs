//! Properties of the figures the dashboard shows: pricing keys, how many
//! day bars fit, the token total and the session-size buckets.
use vstd::prelude::*;
use crate::data::{DayTokens, SessionStats};
use crate::naming::{spec_normalize_model, spec_to_lowercase};
use crate::text::contains_seq;
use crate::ui::{App, bucket_count, session_turns, sum_day_totals};
use crate::wrap::{wrap64, lemma_wrap64_assoc};

verus! {

/// A missing or synthetic model name has the empty pricing key, and every
/// other name has a non-empty one.
pub proof fn law_pricing_key_empty(model: Seq<char>)
    ensures
        (spec_normalize_model(model).len() == 0) == (model.len() == 0 || model == "<synthetic>"@),
{
    reveal_strlit("<synthetic>");
    reveal_strlit("Opus 4.6");
    reveal_strlit("Opus 4.5");
    reveal_strlit("Sonnet 4.5");
    reveal_strlit("Haiku 4.5");
}

/// A name whose lower-cased text carries no known version marker (no
/// `4-5`, and no `4-6` beside `opus`) and is not the bare alias `sonnet` or
/// `haiku` keeps its own name as its pricing key: for instance a Sonnet 4
/// name stays apart from the Sonnet 4.5 totals.
pub proof fn law_pricing_key_kept(model: Seq<char>)
    requires
        model.len() > 0,
        model != "<synthetic>"@,
        !contains_seq(spec_to_lowercase(model), "4-5"@),
        !(contains_seq(spec_to_lowercase(model), "opus"@) && contains_seq(spec_to_lowercase(model), "4-6"@)),
        spec_to_lowercase(model) != "sonnet"@,
        spec_to_lowercase(model) != "haiku"@,
    ensures
        spec_normalize_model(model) == model,
{
}

/// The versioned names: `opus` with `4-6` prices as Opus 4.6; otherwise a
/// name with `4-5` prices as Opus 4.5, Sonnet 4.5 or Haiku 4.5 by the family
/// it names, Opus first, then Sonnet, then Haiku.
pub proof fn law_pricing_key_versions(model: Seq<char>)
    requires
        model.len() > 0,
        model != "<synthetic>"@,
    ensures
        ({
            let m = spec_to_lowercase(model);
            let key = spec_normalize_model(model);
            &&& contains_seq(m, "opus"@) && contains_seq(m, "4-6"@) ==> key == "Opus 4.6"@
            &&& contains_seq(m, "opus"@) && !contains_seq(m, "4-6"@) && contains_seq(m, "4-5"@) ==> key == "Opus 4.5"@
            &&& !contains_seq(m, "opus"@) && contains_seq(m, "sonnet"@) && contains_seq(m, "4-5"@) ==> key
                == "Sonnet 4.5"@
            &&& !contains_seq(m, "opus"@) && !contains_seq(m, "sonnet"@) && contains_seq(m, "haiku"@)
                && contains_seq(m, "4-5"@) ==> key == "Haiku 4.5"@
        }),
{
}

/// The number of bars that fit in a chart `w` columns wide: at least one,
/// and for a chart of ten columns or more, as many eight-column bars as fit
/// inside the two border columns and no more.
pub proof fn law_visible_bars_fit(w: int)
    requires
        w >= 0,
    ensures
        App::spec_visible_bars(w) >= 1,
        w >= 10 ==> App::spec_visible_bars(w) * 8 <= w - 2 < (App::spec_visible_bars(w) + 1) * 8,
        w < 18 ==> App::spec_visible_bars(w) == 1,
{
}

/// The plain sum of every day's input, output, cache-read and cache-write
/// tokens.
pub open spec fn raw_token_sum(days: Seq<(i32, DayTokens)>) -> int
    decreases days.len(),
{
    if days.len() == 0 {
        0
    } else {
        let d = days.last().1;
        raw_token_sum(days.drop_last()) + d.input + d.output + d.cache_read + d.cache_creation
    }
}

/// The token total of the chart's days is the sum of all four token counts
/// of every day, reduced to 64 bits.
pub proof fn law_total_tokens(days: Seq<(i32, DayTokens)>)
    ensures
        wrap64(sum_day_totals(days)) == wrap64(raw_token_sum(days)),
    decreases days.len(),
{
    if days.len() > 0 {
        let prev = days.drop_last();
        let d = days.last().1;
        let x = d.input + d.output + d.cache_read + d.cache_creation;
        law_total_tokens(prev);
        lemma_wrap64_assoc(x, sum_day_totals(prev));
        lemma_wrap64_assoc(sum_day_totals(prev), x);
        lemma_wrap64_assoc(raw_token_sum(prev), x);
    }
}

/// How many of `sessions` have between `lo` and `hi` turns, both included.
pub open spec fn sessions_with_turns(sessions: Seq<SessionStats>, lo: int, hi: int) -> int
    decreases sessions.len(),
{
    if sessions.len() == 0 {
        0
    } else {
        sessions_with_turns(sessions.drop_last(), lo, hi) + (if lo <= session_turns(sessions.last()) <= hi {
            1int
        } else {
            0int
        })
    }
}

/// The session-size buckets count the sessions with at most 5 turns, 6 to
/// 20, 21 to 50, 51 to 100, and more than 100.
pub proof fn law_turn_buckets(sessions: Seq<SessionStats>)
    ensures
        bucket_count(sessions, 0) == sessions_with_turns(sessions, 0, 5),
        bucket_count(sessions, 1) == sessions_with_turns(sessions, 6, 20),
        bucket_count(sessions, 2) == sessions_with_turns(sessions, 21, 50),
        bucket_count(sessions, 3) == sessions_with_turns(sessions, 51, 100),
        bucket_count(sessions, 4) == sessions_with_turns(sessions, 101, u32::MAX as int),
    decreases sessions.len(),
{
    if sessions.len() > 0 {
        law_turn_buckets(sessions.drop_last());
    }
}

} // verus!

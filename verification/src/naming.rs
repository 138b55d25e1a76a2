//! Names shown on the dashboard: canonical model names, the price list that
//! goes with them, and shortened file paths.
use vstd::prelude::*;
use crate::text::{chars_of, chars_equal, chars_contain, contains_seq};

verus! {

broadcast use vstd::string::group_string_axioms;

/// What `str::to_lowercase` returns for this text (full Unicode lower-casing).
pub uninterp spec fn spec_to_lowercase(s: Seq<char>) -> Seq<char>;

/// Calls `str::to_lowercase`. Claims only that the result is the named
/// lower-cased text.
#[verifier::external_body]
fn lowercase(s: &str) -> (r: String)
    ensures
        r@ == spec_to_lowercase(s@),
{
    s.to_lowercase()
}

/// The pricing key of a model name: empty for synthetic or missing names,
/// one of the canonical names for the known aliases and versions, else the
/// name itself.
pub open spec fn spec_normalize_model(model: Seq<char>) -> Seq<char> {
    if model == "<synthetic>"@ || model.len() == 0 {
        Seq::empty()
    } else {
        let m = spec_to_lowercase(model);
        if contains_seq(m, "opus"@) && contains_seq(m, "4-6"@) {
            "Opus 4.6"@
        } else if contains_seq(m, "opus"@) && contains_seq(m, "4-5"@) {
            "Opus 4.5"@
        } else if contains_seq(m, "sonnet"@) && contains_seq(m, "4-5"@) {
            "Sonnet 4.5"@
        } else if contains_seq(m, "haiku"@) && contains_seq(m, "4-5"@) {
            "Haiku 4.5"@
        } else if m == "sonnet"@ {
            "Sonnet 4.5"@
        } else if m == "haiku"@ {
            "Haiku 4.5"@
        } else {
            model
        }
    }
}

/// Maps a model name to the key under which its tokens are priced.
pub fn normalize_model(model: &str) -> (r: String)
    ensures
        r@ == spec_normalize_model(model@),
{
    let name = chars_of(model);
    if chars_equal(&name, &chars_of("<synthetic>")) || name.len() == 0 {
        return String::new();
    }
    let lower = lowercase(model);
    let m = chars_of(lower.as_str());
    let opus = chars_contain(&m, &chars_of("opus"));
    let sonnet = chars_contain(&m, &chars_of("sonnet"));
    let haiku = chars_contain(&m, &chars_of("haiku"));
    let v46 = chars_contain(&m, &chars_of("4-6"));
    let v45 = chars_contain(&m, &chars_of("4-5"));
    if opus && v46 {
        "Opus 4.6".to_owned()
    } else if opus && v45 {
        "Opus 4.5".to_owned()
    } else if sonnet && v45 {
        "Sonnet 4.5".to_owned()
    } else if haiku && v45 {
        "Haiku 4.5".to_owned()
    } else if chars_equal(&m, &chars_of("sonnet")) {
        "Sonnet 4.5".to_owned()
    } else if chars_equal(&m, &chars_of("haiku")) {
        "Haiku 4.5".to_owned()
    } else {
        model.to_owned()
    }
}

/// Prices of a model in cents per million tokens.
#[derive(Clone, Copy, PartialEq, Eq, Debug)]
pub struct Prices {
    pub input: u64,
    pub output: u64,
    pub cache_write: u64,
    pub cache_read: u64,
}

/// The price list: Opus 4.6 and 4.5 at $5 / $25 / $6.25 / $0.50 per
/// million input / output / cache-write / cache-read tokens, Sonnet 4.5 at
/// $3 / $15 / $3.75 / $0.30, Haiku 4.5 at $1 / $5 / $1.25 / $0.10, and any
/// other model at Opus prices.
pub open spec fn spec_model_prices(model: Seq<char>) -> Prices {
    if model == "Sonnet 4.5"@ {
        Prices { input: 300, output: 1500, cache_write: 375, cache_read: 30 }
    } else if model == "Haiku 4.5"@ {
        Prices { input: 100, output: 500, cache_write: 125, cache_read: 10 }
    } else {
        Prices { input: 500, output: 2500, cache_write: 625, cache_read: 50 }
    }
}

/// The prices of a model, looked up by its pricing key.
pub fn model_prices(model: &str) -> (p: Prices)
    ensures
        p == spec_model_prices(model@),
{
    proof {
        reveal_strlit("Opus 4.6");
        reveal_strlit("Opus 4.5");
        reveal_strlit("Sonnet 4.5");
        reveal_strlit("Haiku 4.5");
    }
    let name = chars_of(model);
    if chars_equal(&name, &chars_of("Opus 4.6")) || chars_equal(&name, &chars_of("Opus 4.5")) {
        assert(model@.len() == 8);
        assert("Sonnet 4.5"@.len() == 10 && "Haiku 4.5"@.len() == 9);
        Prices { input: 500, output: 2500, cache_write: 625, cache_read: 50 }
    } else if chars_equal(&name, &chars_of("Sonnet 4.5")) {
        Prices { input: 300, output: 1500, cache_write: 375, cache_read: 30 }
    } else if chars_equal(&name, &chars_of("Haiku 4.5")) {
        Prices { input: 100, output: 500, cache_write: 125, cache_read: 10 }
    } else {
        Prices { input: 500, output: 2500, cache_write: 625, cache_read: 50 }
    }
}

/// Number of `/` in `s` from position `i` on.
pub open spec fn slashes_from(s: Seq<char>, i: int) -> nat
    decreases s.len() - i,
{
    if i < 0 || i >= s.len() {
        0
    } else {
        (if s[i] == '/' { 1nat } else { 0nat }) + slashes_from(s, i + 1)
    }
}

/// Position `i` holds the second `/` counted from the end of `s`.
pub open spec fn is_cut(s: Seq<char>, i: int) -> bool {
    0 <= i < s.len() && s[i] == '/' && slashes_from(s, i) == 2
}

/// A path cut down to its last two components: from the second `/` counted
/// from the end, or the whole path when it has fewer than two.
pub open spec fn spec_shorten_path(s: Seq<char>) -> Seq<char> {
    if exists|i: int| is_cut(s, i) {
        s.skip(choose|i: int| is_cut(s, i))
    } else {
        s
    }
}

proof fn lemma_slashes_monotone(s: Seq<char>, i: int, j: int)
    requires
        0 <= i <= j,
    ensures
        slashes_from(s, j) <= slashes_from(s, i),
    decreases j - i,
{
    if i < j {
        lemma_slashes_monotone(s, i + 1, j);
    }
}

/// At most one position of a path is a cut point.
pub proof fn lemma_cut_unique(s: Seq<char>, i: int, j: int)
    requires
        is_cut(s, i),
        is_cut(s, j),
    ensures
        i == j,
{
    if i < j {
        lemma_slashes_monotone(s, i + 1, j);
    } else if j < i {
        lemma_slashes_monotone(s, j + 1, i);
    }
}

/// Shortens a file path for display: keeps its last two components.
pub fn shorten_path(path: &str) -> (r: &str)
    ensures
        r@ == spec_shorten_path(path@),
{
    let cs = chars_of(path);
    let n = cs.len();
    let mut i: usize = n;
    let mut count: usize = 0;
    while i > 0
        invariant
            cs@ == path@,
            n == cs.len(),
            i <= n,
            count == slashes_from(cs@, i as int),
            count < 2,
            forall|j: int| i <= j < n ==> !is_cut(cs@, j),
        decreases i,
    {
        i = i - 1;
        if cs[i] == '/' {
            count = count + 1;
            if count == 2 {
                proof {
                    assert(is_cut(path@, i as int));
                    let c = choose|k: int| is_cut(path@, k);
                    lemma_cut_unique(path@, i as int, c);
                }
                return path.substring_char(i, n);
            }
        }
    }
    proof {
        assert(!exists|k: int| is_cut(path@, k));
    }
    assert(path@.subrange(0, n as int) =~= path@);
    path.substring_char(0, n)
}

} // verus!

//! Decisions around the model price cache: whether the cached catalog is
//! still fresh, and which raw catalog text it holds.
//!
//! The cache is a JSON object `{ "fetched_at": <fetch time>, "raw": <the
//! models.dev document as text> }`, shared with the model catalog refresh.
//! The fetch time is either Unix seconds, as the usage command writes it, or
//! an RFC 3339 date and time, as the catalog refresh writes it; both count.

use crate::json::{
    as_object, as_str, as_u64, get, json_as_object, json_as_str, json_as_u64, json_get, json_of_text,
    member, member_of, parse_json, Json,
};
use vstd::prelude::*;

verus! {

/// What chrono's `DateTime::parse_from_rfc3339(s)` gives, as whole Unix
/// seconds (`timestamp()`), `None` when `s` is not an RFC 3339 date and time.
pub uninterp spec fn rfc3339_timestamp(s: Seq<char>) -> Option<i64>;

/// chrono's `DateTime::parse_from_rfc3339` followed by `timestamp()`: the
/// Unix time, in whole seconds, of an RFC 3339 date and time. The parse
/// reads the offset from the text itself, so the result depends on `s`
/// alone; the claim is only that it is the value named above.
#[verifier::external_body]
fn parse_rfc3339_seconds(s: &str) -> (r: Option<i64>)
    ensures
        r == rfc3339_timestamp(s@),
{
    chrono::DateTime::parse_from_rfc3339(s).ok().map(|d| d.timestamp())
}

/// The fetch time a `fetched_at` value records, in Unix seconds: a
/// non-negative integer as it stands, or an RFC 3339 text.
pub open spec fn fetch_time(v: Json) -> Option<int> {
    match as_u64(v) {
        Some(at) => Some(at as int),
        None => match as_str(v) {
            Some(text) => match rfc3339_timestamp(text) {
                Some(t) => Some(t as int),
                None => None,
            },
            None => None,
        },
    }
}

/// Something fetched at `at` is still fresh at `now`: less than a day has
/// passed (a fetch time after `now` counts as fetched now).
pub open spec fn fetched_recently(at: int, now: u64) -> bool {
    now - at < PRICE_CACHE_TTL_SECS
}

/// How long a cached price catalog stays fresh: one day, in seconds.
pub const PRICE_CACHE_TTL_SECS: u64 = 86_400;

/// The cached catalog records a fetch time less than a day before `now`.
pub open spec fn price_cache_is_fresh(cached: Json, now: u64) -> bool {
    match get(cached, "fetched_at"@) {
        Some(v) => match fetch_time(v) {
            Some(at) => fetched_recently(at, now),
            None => false,
        },
        None => false,
    }
}

/// The raw catalog text of the cache, empty when missing or not a string.
pub open spec fn cached_raw_catalog(cached: Json) -> Seq<char> {
    match get(cached, "raw"@) {
        Some(v) => match as_str(v) {
            Some(s) => s,
            None => ""@,
        },
        None => ""@,
    }
}

/// Whether the cached price catalog is fresh at `now`.
pub fn price_cache_fresh(cached: &Json, now: u64) -> (r: bool)
    ensures
        r == price_cache_is_fresh(*cached, now),
{
    match json_get(cached, "fetched_at") {
        Some(v) => match json_as_u64(v) {
            Some(at) => fetched_at_fresh(at as i128, now),
            None => match json_as_str(v) {
                Some(text) => match parse_rfc3339_seconds(text) {
                    Some(t) => fetched_at_fresh(t as i128, now),
                    None => false,
                },
                None => false,
            },
        },
        None => false,
    }
}

/// Whether something fetched at Unix second `at` is still fresh at `now`.
pub fn fetched_at_fresh(at: i128, now: u64) -> (r: bool)
    requires
        -0x8000_0000_0000_0000 <= at < 0x1_0000_0000_0000_0000,
    ensures
        r == fetched_recently(at as int, now),
{
    (now as i128) - at < (PRICE_CACHE_TTL_SECS as i128)
}

/// The raw catalog text held by the cache.
pub fn cached_price_raw(cached: &Json) -> (r: String)
    ensures
        r@ == cached_raw_catalog(*cached),
{
    match json_get(cached, "raw") {
        Some(v) => match json_as_str(v) {
            Some(s) => String::from_str(s),
            None => String::from_str(""),
        },
        None => String::from_str(""),
    }
}


/// Which members of a models.dev catalog give one model's prices: the
/// provider and model keys that lead to its `cost` object, and for each price
/// the member of that object that holds it, if any.
pub struct PriceKeys {
    pub provider: String,
    pub model: String,
    pub input: Option<String>,
    pub output: Option<String>,
    pub cache_read: Option<String>,
    pub cache_write: Option<String>,
}

/// `PriceKeys` as texts.
pub struct PriceKeysView {
    pub provider: Seq<char>,
    pub model: Seq<char>,
    pub input: Option<Seq<char>>,
    pub output: Option<Seq<char>>,
    pub cache_read: Option<Seq<char>>,
    pub cache_write: Option<Seq<char>>,
}

/// An optional text as characters.
pub open spec fn opt_text(o: Option<String>) -> Option<Seq<char>> {
    match o {
        Some(t) => Some(t@),
        None => None,
    }
}

impl View for PriceKeys {
    type V = PriceKeysView;

    open spec fn view(&self) -> PriceKeysView {
        PriceKeysView {
            provider: self.provider@,
            model: self.model@,
            input: opt_text(self.input),
            output: opt_text(self.output),
            cache_read: opt_text(self.cache_read),
            cache_write: opt_text(self.cache_write),
        }
    }
}

/// `key` when the cost object has such a member.
pub open spec fn present_key(cost: Seq<(String, Json)>, key: Seq<char>) -> Option<Seq<char>> {
    if member(cost, key) is Some {
        Some(key)
    } else {
        None
    }
}

/// `primary` when the cost object has such a member, else `fallback` when it
/// has that one: a present `primary` wins even when its value is no number.
pub open spec fn first_present_key(cost: Seq<(String, Json)>, primary: Seq<char>, fallback: Seq<char>) -> Option<
    Seq<char>,
> {
    if member(cost, primary) is Some {
        Some(primary)
    } else {
        present_key(cost, fallback)
    }
}

/// The price keys of model `model` of provider `provider`, whose cost
/// object is `cost`: `input`, `output`, `cached_input` else `cache_read`, and
/// `input_cache_write` else `cache_write`.
pub open spec fn cost_keys(provider: Seq<char>, model: Seq<char>, cost: Seq<(String, Json)>) -> PriceKeysView {
    PriceKeysView {
        provider,
        model,
        input: present_key(cost, "input"@),
        output: present_key(cost, "output"@),
        cache_read: first_present_key(cost, "cached_input"@, "cache_read"@),
        cache_write: first_present_key(cost, "input_cache_write"@, "cache_write"@),
    }
}

/// The `cost` object of a catalog model, if it has one.
pub open spec fn model_cost(model: Json) -> Option<Seq<(String, Json)>> {
    match get(model, "cost"@) {
        Some(c) => as_object(c),
        None => None,
    }
}

/// The `models` object of a catalog provider, if it has one.
pub open spec fn provider_models(provider: Json) -> Option<Seq<(String, Json)>> {
    match get(provider, "models"@) {
        Some(m) => as_object(m),
        None => None,
    }
}

/// The price keys of the models of one provider that have a cost object,
/// in catalog order.
pub open spec fn models_price_keys(provider: Seq<char>, models: Seq<(String, Json)>) -> Seq<PriceKeysView>
    decreases models.len(),
{
    if models.len() == 0 {
        seq![]
    } else {
        let rest = models_price_keys(provider, models.drop_last());
        match model_cost(models.last().1) {
            Some(cost) => rest.push(cost_keys(provider, models.last().0@, cost)),
            None => rest,
        }
    }
}

/// The price keys of every priced model of the providers that have a
/// `models` object, in catalog order.
pub open spec fn providers_price_keys(providers: Seq<(String, Json)>) -> Seq<PriceKeysView>
    decreases providers.len(),
{
    if providers.len() == 0 {
        seq![]
    } else {
        let rest = providers_price_keys(providers.drop_last());
        match provider_models(providers.last().1) {
            Some(models) => rest + models_price_keys(providers.last().0@, models),
            None => rest,
        }
    }
}

/// The price keys of a models.dev catalog: none unless it is an object.
pub open spec fn catalog_price_keys(catalog: Json) -> Seq<PriceKeysView> {
    match as_object(catalog) {
        Some(providers) => providers_price_keys(providers),
        None => seq![],
    }
}

/// `key`, when the cost object has such a member.
fn present_key_exec(cost: &Vec<(String, Json)>, key: &str) -> (r: Option<String>)
    ensures
        opt_text(r) == present_key(cost@, key@),
{
    match member_of(cost, key) {
        Some(_) => Some(String::from_str(key)),
        None => None,
    }
}

/// `primary`, else `fallback`, whichever the cost object has first.
fn first_present_key_exec(cost: &Vec<(String, Json)>, primary: &str, fallback: &str) -> (r: Option<String>)
    ensures
        opt_text(r) == first_present_key(cost@, primary@, fallback@),
{
    match member_of(cost, primary) {
        Some(_) => Some(String::from_str(primary)),
        None => present_key_exec(cost, fallback),
    }
}

/// The price keys of a model with cost object `cost`.
pub fn price_keys_of_cost(provider: &str, model: &str, cost: &Vec<(String, Json)>) -> (r: PriceKeys)
    ensures
        r@ == cost_keys(provider@, model@, cost@),
{
    PriceKeys {
        provider: String::from_str(provider),
        model: String::from_str(model),
        input: present_key_exec(cost, "input"),
        output: present_key_exec(cost, "output"),
        cache_read: first_present_key_exec(cost, "cached_input", "cache_read"),
        cache_write: first_present_key_exec(cost, "input_cache_write", "cache_write"),
    }
}

/// Which members give each priced model's prices, for every model of every
/// provider of the catalog, in catalog order.
pub fn catalog_price_keys_of(catalog: &Json) -> (r: Vec<PriceKeys>)
    ensures
        r@.map_values(|k: PriceKeys| k@) == catalog_price_keys(*catalog),
{
    let mut out: Vec<PriceKeys> = Vec::new();
    let providers = match json_as_object(catalog) {
        Some(ps) => ps,
        None => {
            proof {
                assert(out@.map_values(|k: PriceKeys| k@) =~= Seq::<PriceKeysView>::empty());
            }
            return out;
        },
    };
    let mut i: usize = 0;
    proof {
        assert(providers@.take(0) =~= Seq::<(String, Json)>::empty());
        assert(out@.map_values(|k: PriceKeys| k@) =~= Seq::<PriceKeysView>::empty());
    }
    while i < providers.len()
        invariant
            i <= providers@.len(),
            as_object(*catalog) == Some(providers@),
            out@.map_values(|k: PriceKeys| k@) == providers_price_keys(providers@.take(i as int)),
        decreases providers@.len() - i,
    {
        let ghost before = out@.map_values(|k: PriceKeys| k@);
        let pkey = providers[i].0.as_str();
        let pval = &providers[i].1;
        proof {
            assert(providers@.take(i + 1).drop_last() =~= providers@.take(i as int));
            assert(providers@.take(i + 1).last() == providers@[i as int]);
        }
        let models_value = json_get(pval, "models");
        let models = match models_value {
            Some(mv) => json_as_object(mv),
            None => None,
        };
        match models {
            Some(ms) => {
                let mut j: usize = 0;
                proof {
                    assert(ms@.take(0) =~= Seq::<(String, Json)>::empty());
                    assert(before + models_price_keys(pkey@, ms@.take(0)) =~= before);
                }
                while j < ms.len()
                    invariant
                        j <= ms@.len(),
                        out@.map_values(|k: PriceKeys| k@) == before + models_price_keys(pkey@, ms@.take(j as int)),
                    decreases ms@.len() - j,
                {
                    let ghost mid = out@.map_values(|k: PriceKeys| k@);
                    proof {
                        assert(ms@.take(j + 1).drop_last() =~= ms@.take(j as int));
                        assert(ms@.take(j + 1).last() == ms@[j as int]);
                    }
                    let cost_value = json_get(&ms[j].1, "cost");
                    let cost = match cost_value {
                        Some(cv) => json_as_object(cv),
                        None => None,
                    };
                    match cost {
                        Some(c) => {
                            let k = price_keys_of_cost(pkey, ms[j].0.as_str(), c);
                            out.push(k);
                            proof {
                                assert(out@.map_values(|k: PriceKeys| k@) =~= mid.push(k@));
                            }
                        },
                        None => {},
                    }
                    j = j + 1;
                }
                proof {
                    assert(ms@.take(ms@.len() as int) =~= ms@);
                }
            },
            None => {
                proof {
                    assert(out@.map_values(|k: PriceKeys| k@) =~= before);
                }
            },
        }
        i = i + 1;
    }
    proof {
        assert(providers@.take(providers@.len() as int) =~= providers@);
    }
    out
}


/// The price keys of a models.dev catalog given as text: none when the text
/// is not one JSON document.
pub fn price_keys_of_text(raw: &str) -> (r: Vec<PriceKeys>)
    ensures
        r@.map_values(|k: PriceKeys| k@) == match json_of_text(raw@) {
            Some(catalog) => catalog_price_keys(catalog),
            None => Seq::<PriceKeysView>::empty(),
        },
{
    match parse_json(raw) {
        Some(catalog) => catalog_price_keys_of(&catalog),
        None => {
            let r: Vec<PriceKeys> = Vec::new();
            proof {
                assert(r@.map_values(|k: PriceKeys| k@) =~= Seq::<PriceKeysView>::empty());
            }
            r
        },
    }
}

/// What the price cache file's text holds: `None` when it is not one JSON
/// document, else whether the cache is fresh at `now` and the raw catalog
/// text it keeps.
pub fn price_cache_of_text(text: &str, now: u64) -> (r: Option<(bool, String)>)
    ensures
        json_of_text(text@) is None <==> r is None,
        json_of_text(text@) matches Some(cache) ==> r matches Some(p) && p.0 == price_cache_is_fresh(cache, now)
            && p.1@ == cached_raw_catalog(cache),
{
    match parse_json(text) {
        Some(cache) => Some((price_cache_fresh(&cache, now), cached_price_raw(&cache))),
        None => None,
    }
}

} // verus!

//! Reading usage records into the tallies: which lines count, which group a
//! line goes to, and what each line adds to which model.
//!
//! A record is one JSON line of a session's `updates.jsonl`. Its usage block
//! sits at `params.update.usage`; when the block splits the turn per model
//! (`modelUsage`, non-empty), each model gets its own counts, else the block's
//! own counts go to its `model` (or `unknown`). A provider-reported cost
//! (`costUsdTicks`, else `costUSDTicks`) is kept only where it belongs to one
//! model: a single-model split or an unsplit block.

use crate::json::{
    as_i64, as_object, as_str, as_u64, get, get_u64_or_zero, json_as_i64, json_as_object,
    json_as_str, json_as_u64, json_get, json_get_u64, json_of_text, member, member_of, parse_json, str_eq,
    Json,
};
use crate::calendar::local_day_text;
use crate::text::{decimal, decimal_string};
use crate::usage::{
    contribution_fits, counts_fit_exec, lemma_tally_at_upsert, upsert_group, zero_counts,
    GroupsView, UsageArgs, UsageCounts, UsageGroupBy, UsageGroups,
};
use chrono::TimeZone;
use vstd::prelude::*;

verus! {

/// `members[key]` as a `u64`, 0 when missing or not a non-negative integer.
pub open spec fn member_u64(members: Seq<(String, Json)>, key: Seq<char>) -> u64 {
    match member(members, key) {
        Some(v) => match as_u64(v) {
            Some(n) => n,
            None => 0,
        },
        None => 0,
    }
}

/// The counts a usage object carries.
pub open spec fn counts_of_members(members: Seq<(String, Json)>) -> UsageCounts {
    UsageCounts {
        input_tokens: member_u64(members, "inputTokens"@),
        output_tokens: member_u64(members, "outputTokens"@),
        cache_read_tokens: member_u64(members, "cachedReadTokens"@),
        cache_write_tokens: member_u64(members, "cacheCreationTokens"@),
        reasoning_tokens: member_u64(members, "reasoningTokens"@),
        model_calls: member_u64(members, "modelCalls"@),
        api_ms: member_u64(members, "apiDurationMs"@),
    }
}

/// The counts a usage value carries (none unless it is an object).
pub open spec fn counts_of(v: Json) -> UsageCounts {
    match v {
        Json::Object(members) => counts_of_members(members@),
        _ => zero_counts(),
    }
}

/// The record's `timestamp`, 0 when missing or not a non-negative integer.
pub open spec fn line_timestamp(line: Json) -> u64 {
    get_u64_or_zero(line, "timestamp"@)
}

/// The members of the record's `params.update.usage` object.
pub open spec fn usage_block(line: Json) -> Option<Seq<(String, Json)>> {
    match get(line, "params"@) {
        Some(p) => match get(p, "update"@) {
            Some(u) => match get(u, "usage"@) {
                Some(x) => as_object(x),
                None => None,
            },
            None => None,
        },
        None => None,
    }
}

/// The provider-reported cost of the turn, in ticks of 10^-10 USD.
pub open spec fn reported_ticks(usage: Seq<(String, Json)>) -> Option<i64> {
    match member(usage, "costUsdTicks"@) {
        Some(v) => as_i64(v),
        None => match member(usage, "costUSDTicks"@) {
            Some(v) => as_i64(v),
            None => None,
        },
    }
}

/// The non-empty per-model split of the turn, if there is one.
pub open spec fn model_usage(usage: Seq<(String, Json)>) -> Option<Seq<(String, Json)>> {
    match member(usage, "modelUsage"@) {
        Some(v) => match as_object(v) {
            Some(models) => if models.len() > 0 {
                Some(models)
            } else {
                None
            },
            None => None,
        },
        None => None,
    }
}

/// The model an unsplit usage block belongs to.
pub open spec fn model_name(usage: Seq<(String, Json)>) -> Seq<char> {
    match member(usage, "model"@) {
        Some(v) => match as_str(v) {
            Some(s) => s,
            None => "unknown"@,
        },
        None => "unknown"@,
    }
}

/// `key` names a member of `members`.
pub open spec fn has_key(members: Seq<(String, Json)>, key: Seq<char>) -> bool {
    exists|j: int| 0 <= j < members.len() && #[trigger] members[j].0@ == key
}

/// The models of a split with their counts, each model once (at its first
/// occurrence), in order.
pub open spec fn distinct_models(members: Seq<(String, Json)>) -> Seq<(Seq<char>, UsageCounts)>
    decreases members.len(),
{
    if members.len() == 0 {
        Seq::empty()
    } else {
        let rest = distinct_models(members.drop_last());
        if has_key(members.drop_last(), members.last().0@) {
            rest
        } else {
            rest.push((members.last().0@, counts_of(members.last().1)))
        }
    }
}

/// What one record adds: model, counts, and the reported cost that belongs to
/// that model.
pub type ContributionView = (Seq<char>, UsageCounts, Option<i64>);

/// The models of a split, each with the given reported cost.
pub open spec fn with_tick(ds: Seq<(Seq<char>, UsageCounts)>, tick: Option<i64>) -> Seq<ContributionView> {
    ds.map_values(|e: (Seq<char>, UsageCounts)| (e.0, e.1, tick))
}

/// The contributions of a usage block.
pub open spec fn contributions(usage: Seq<(String, Json)>) -> Seq<ContributionView> {
    match model_usage(usage) {
        Some(models) => {
            let ds = distinct_models(models);
            let tick = if ds.len() == 1 {
                reported_ticks(usage)
            } else {
                None
            };
            with_tick(ds, tick)
        },
        None => seq![(model_name(usage), counts_of_members(usage), reported_ticks(usage))],
    }
}

/// Adds the contributions one after the other to group `g`.
pub open spec fn apply_contributions(groups: GroupsView, g: Seq<char>, cs: Seq<ContributionView>) -> GroupsView
    decreases cs.len(),
{
    if cs.len() == 0 {
        groups
    } else {
        apply_contributions(upsert_group(groups, g, cs[0].0, cs[0].1, cs[0].2), g, cs.drop_first())
    }
}

/// The record counts: it is not older than the cutoff and has a usage block.
pub open spec fn line_selected(line: Json, cutoff: Option<u64>) -> bool {
    &&& !(cutoff matches Some(c) && line_timestamp(line) < c)
    &&& usage_block(line) is Some
}

/// The tallies after reading one record into group `g`.
pub open spec fn ingested(groups: GroupsView, line: Json, cutoff: Option<u64>, g: Seq<char>) -> GroupsView {
    if line_selected(line, cutoff) {
        apply_contributions(groups, g, contributions(usage_block(line).unwrap()))
    } else {
        groups
    }
}

/// Reading the record into group `g` overflows no counter.
pub open spec fn line_fits(groups: GroupsView, line: Json, cutoff: Option<u64>, g: Seq<char>) -> bool {
    line_selected(line, cutoff) ==> {
        let cs = contributions(usage_block(line).unwrap());
        forall|k: int| 0 <= k < cs.len() ==> contribution_fits(groups, g, #[trigger] cs[k].0, cs[k].1)
    }
}

/// What one record adds to one model.
pub struct Contribution {
    pub model: String,
    pub counts: UsageCounts,
    pub self_reported_ticks: Option<i64>,
}

impl View for Contribution {
    type V = ContributionView;

    open spec fn view(&self) -> ContributionView {
        (self.model@, self.counts, self.self_reported_ticks)
    }
}

proof fn lemma_distinct_models(members: Seq<(String, Json)>)
    ensures
        forall|i: int, j: int|
            0 <= i < j < distinct_models(members).len() ==> distinct_models(members)[i].0
                != distinct_models(members)[j].0,
        forall|i: int|
            0 <= i < distinct_models(members).len() ==> has_key(
                members,
                #[trigger] distinct_models(members)[i].0,
            ),
    decreases members.len(),
{
    if members.len() > 0 {
        let init = members.drop_last();
        lemma_distinct_models(init);
        let ds = distinct_models(members);
        let rest = distinct_models(init);
        assert forall|i: int| 0 <= i < ds.len() implies has_key(members, #[trigger] ds[i].0) by {
            if i < rest.len() {
                assert(ds[i] == rest[i]);
                let j = choose|j: int| 0 <= j < init.len() && #[trigger] init[j].0@ == rest[i].0;
                assert(members[j] == init[j]);
            } else {
                assert(members[members.len() - 1].0@ == ds[i].0);
            }
        }
        if !has_key(init, members.last().0@) {
            assert forall|i: int, j: int| 0 <= i < j < ds.len() implies ds[i].0 != ds[j].0 by {
                if j == rest.len() {
                    assert(ds[i] == rest[i]);
                    assert(has_key(init, rest[i].0));
                }
            }
        }
    }
}

fn member_u64_exec(members: &Vec<(String, Json)>, key: &str) -> (r: u64)
    ensures
        r == member_u64(members@, key@),
{
    match member_of(members, key) {
        Some(v) => match json_as_u64(v) {
            Some(n) => n,
            None => 0,
        },
        None => 0,
    }
}

/// The counts a usage object carries.
pub fn counts_of_member_vec(members: &Vec<(String, Json)>) -> (r: UsageCounts)
    ensures
        r == counts_of_members(members@),
{
    UsageCounts {
        input_tokens: member_u64_exec(members, "inputTokens"),
        output_tokens: member_u64_exec(members, "outputTokens"),
        cache_read_tokens: member_u64_exec(members, "cachedReadTokens"),
        cache_write_tokens: member_u64_exec(members, "cacheCreationTokens"),
        reasoning_tokens: member_u64_exec(members, "reasoningTokens"),
        model_calls: member_u64_exec(members, "modelCalls"),
        api_ms: member_u64_exec(members, "apiDurationMs"),
    }
}

/// The counts a usage value carries.
pub fn usage_counts(v: &Json) -> (r: UsageCounts)
    ensures
        r == counts_of(*v),
{
    match v {
        Json::Object(members) => counts_of_member_vec(members),
        _ => UsageCounts {
            input_tokens: 0,
            output_tokens: 0,
            cache_read_tokens: 0,
            cache_write_tokens: 0,
            reasoning_tokens: 0,
            model_calls: 0,
            api_ms: 0,
        },
    }
}

/// The record's timestamp.
pub fn record_timestamp(line: &Json) -> (ts: u64)
    ensures
        ts == line_timestamp(*line),
{
    json_get_u64(line, "timestamp")
}

/// The record's usage block.
pub fn record_usage_block(line: &Json) -> (r: Option<&Vec<(String, Json)>>)
    ensures
        r matches Some(ms) ==> usage_block(*line) == Some(ms@),
        r is None ==> usage_block(*line) is None,
{
    match json_get(line, "params") {
        Some(p) => match json_get(p, "update") {
            Some(u) => match json_get(u, "usage") {
                Some(x) => json_as_object(x),
                None => None,
            },
            None => None,
        },
        None => None,
    }
}

fn reported_ticks_exec(usage: &Vec<(String, Json)>) -> (r: Option<i64>)
    ensures
        r == reported_ticks(usage@),
{
    match member_of(usage, "costUsdTicks") {
        Some(v) => json_as_i64(v),
        None => match member_of(usage, "costUSDTicks") {
            Some(v) => json_as_i64(v),
            None => None,
        },
    }
}

fn model_usage_exec(usage: &Vec<(String, Json)>) -> (r: Option<&Vec<(String, Json)>>)
    ensures
        r matches Some(ms) ==> model_usage(usage@) == Some(ms@),
        r is None ==> model_usage(usage@) is None,
{
    match member_of(usage, "modelUsage") {
        Some(v) => match json_as_object(v) {
            Some(models) => if models.len() > 0 {
                Some(models)
            } else {
                None
            },
            None => None,
        },
        None => None,
    }
}

fn model_name_exec(usage: &Vec<(String, Json)>) -> (r: String)
    ensures
        r@ == model_name(usage@),
{
    match member_of(usage, "model") {
        Some(v) => match json_as_str(v) {
            Some(s) => String::from_str(s),
            None => String::from_str("unknown"),
        },
        None => String::from_str("unknown"),
    }
}

fn has_key_before(members: &Vec<(String, Json)>, k: usize) -> (r: bool)
    requires
        k < members@.len(),
    ensures
        r == has_key(members@.take(k as int), members@[k as int].0@),
{
    let mut j: usize = 0;
    while j < k
        invariant
            k < members@.len(),
            j <= k,
            forall|i: int| 0 <= i < j ==> members@[i].0@ != members@[k as int].0@,
        decreases k - j,
    {
        if str_eq(members[j].0.as_str(), members[k].0.as_str()) {
            proof {
                assert(members@.take(k as int)[j as int].0@ == members@[k as int].0@);
            }
            return true;
        }
        j = j + 1;
    }
    proof {
        let pre = members@.take(k as int);
        assert forall|i: int| 0 <= i < pre.len() implies #[trigger] pre[i].0@ != members@[k as int].0@ by {
            assert(pre[i] == members@[i]);
        }
    }
    false
}

/// The contributions of a usage block.
pub fn usage_contributions(usage: &Vec<(String, Json)>) -> (r: Vec<Contribution>)
    ensures
        r@.map_values(|c: Contribution| c@) == contributions(usage@),
{
    let ticks = reported_ticks_exec(usage);
    match model_usage_exec(usage) {
        Some(models) => {
            let mut ds: Vec<(String, UsageCounts)> = Vec::new();
            let mut k: usize = 0;
            proof {
                assert(models@.take(0) =~= Seq::<(String, Json)>::empty());
                assert(ds@.map_values(|e: (String, UsageCounts)| (e.0@, e.1)) =~= distinct_models(models@.take(0)));
            }
            while k < models.len()
                invariant
                    k <= models@.len(),
                    ds@.map_values(|e: (String, UsageCounts)| (e.0@, e.1)) == distinct_models(models@.take(k as int)),
                decreases models@.len() - k,
            {
                let seen = has_key_before(models, k);
                proof {
                    assert(models@.take(k + 1).drop_last() =~= models@.take(k as int));
                    assert(models@.take(k + 1).last() == models@[k as int]);
                }
                if !seen {
                    let c = usage_counts(&models[k].1);
                    ds.push((models[k].0.clone(), c));
                    proof {
                        assert(ds@.map_values(|e: (String, UsageCounts)| (e.0@, e.1)) =~= distinct_models(models@.take(k + 1)));
                    }
                }
                k = k + 1;
            }
            proof {
                assert(models@.take(models@.len() as int) =~= models@);
            }
            let tick = if ds.len() == 1 {
                ticks
            } else {
                None
            };
            let ghost dsv = ds@.map_values(|e: (String, UsageCounts)| (e.0@, e.1));
            let mut out: Vec<Contribution> = Vec::new();
            let mut i: usize = 0;
            while i < ds.len()
                invariant
                    i <= ds@.len(),
                    dsv == ds@.map_values(|e: (String, UsageCounts)| (e.0@, e.1)),
                    out@.map_values(|c: Contribution| c@) == with_tick(dsv.take(i as int), tick),
                decreases ds@.len() - i,
            {
                out.push(Contribution { model: ds[i].0.clone(), counts: ds[i].1, self_reported_ticks: tick });
                proof {
                    assert(dsv[i as int] == (ds@[i as int].0@, ds@[i as int].1));
                    assert(dsv.take(i + 1) =~= dsv.take(i as int).push(dsv[i as int]));
                    assert(with_tick(dsv.take(i + 1), tick) =~= with_tick(dsv.take(i as int), tick).push((dsv[i as int].0, dsv[i as int].1, tick)));
                    assert(out@.map_values(|c: Contribution| c@) =~= with_tick(dsv.take(i + 1), tick));
                }
                i = i + 1;
            }
            proof {
                assert(dsv.take(ds@.len() as int) =~= dsv);
            }
            out
        },
        None => {
            let mut out: Vec<Contribution> = Vec::new();
            out.push(
                Contribution {
                    model: model_name_exec(usage),
                    counts: counts_of_member_vec(usage),
                    self_reported_ticks: ticks,
                },
            );
            proof {
                assert(out@.map_values(|c: Contribution| c@) =~= contributions(usage@));
            }
            out
        },
    }
}

/// A reported cost is attributed only where the turn belongs to one model:
/// a turn split over several models attributes its cost to none of them.
pub proof fn lemma_cost_attribution(usage: Seq<(String, Json)>)
    ensures
        forall|k: int|
            0 <= k < contributions(usage).len() && (#[trigger] contributions(usage)[k]).2 is Some
                ==> contributions(usage).len() == 1,
{
}

/// `--since`: a record older than the cutoff leaves every tally unchanged.
pub proof fn lemma_cutoff_skips(groups: GroupsView, line: Json, c: u64, g: Seq<char>)
    requires
        line_timestamp(line) < c,
    ensures
        ingested(groups, line, Some(c), g) == groups,
{
}

/// Whether the record counts at all.
pub fn record_selected(line: &Json, cutoff: Option<u64>) -> (r: bool)
    ensures
        r == line_selected(*line, cutoff),
{
    let ts = record_timestamp(line);
    if let Some(c) = cutoff {
        if ts < c {
            return false;
        }
    }
    record_usage_block(line).is_some()
}

pub proof fn lemma_contributions_distinct(usage: Seq<(String, Json)>)
    ensures
        forall|i: int, j: int|
            0 <= i < j < contributions(usage).len() ==> contributions(usage)[i].0
                != contributions(usage)[j].0,
{
    if let Some(models) = model_usage(usage) {
        lemma_distinct_models(models);
    }
}

/// Whether reading the record into group `group` overflows no counter.
pub fn usage_line_fits(groups: &UsageGroups, line: &Json, cutoff: Option<u64>, group: &str) -> (r: bool)
    ensures
        r == line_fits(groups@, *line, cutoff, group@),
{
    if !record_selected(line, cutoff) {
        return true;
    }
    let usage = record_usage_block(line).unwrap();
    let cs = usage_contributions(usage);
    let ghost csv = cs@.map_values(|c: Contribution| c@);
    let mut k: usize = 0;
    while k < cs.len()
        invariant
            k <= cs@.len(),
            csv == cs@.map_values(|c: Contribution| c@),
            csv == contributions(usage_block(*line).unwrap()),
            line_selected(*line, cutoff),
            forall|j: int| 0 <= j < k ==> contribution_fits(groups@, group@, #[trigger] csv[j].0, csv[j].1),
        decreases cs@.len() - k,
    {
        let fits = match groups.tally_of(group, cs[k].model.as_str()) {
            Some(t) => counts_fit_exec(t.counts, cs[k].counts),
            None => true,
        };
        if !fits {
            proof {
                assert(csv[k as int] == cs@[k as int]@);
                assert(line_selected(*line, cutoff));
                assert(!contribution_fits(groups@, group@, csv[k as int].0, csv[k as int].1));
                let cs_spec = contributions(usage_block(*line).unwrap());
                assert(cs_spec[k as int].0 == csv[k as int].0);
                assert(!contribution_fits(groups@, group@, cs_spec[k as int].0, cs_spec[k as int].1));
            }
            return false;
        }
        proof {
            assert(csv[k as int] == cs@[k as int]@);
        }
        k = k + 1;
    }
    true
}

/// Reads one record into group `group`: a selected record adds each of its
/// contributions, any other record changes nothing.
pub fn ingest_usage_line(groups: &mut UsageGroups, line: &Json, cutoff: Option<u64>, group: &str)
    requires
        line_fits(old(groups)@, *line, cutoff, group@),
    ensures
        final(groups)@ == ingested(old(groups)@, *line, cutoff, group@),
{
    if !record_selected(line, cutoff) {
        return;
    }
    let usage = record_usage_block(line).unwrap();
    let cs = usage_contributions(usage);
    let ghost csv = cs@.map_values(|c: Contribution| c@);
    proof {
        lemma_contributions_distinct(usage@);
        assert(csv.skip(0) =~= csv);
        assert(line_selected(*line, cutoff));
        let cs_spec = contributions(usage_block(*line).unwrap());
        assert(cs_spec == csv);
        assert forall|j: int| 0 <= j < csv.len() implies contribution_fits(old(groups)@, group@, #[trigger] csv[j].0, csv[j].1) by {
            assert(cs_spec[j].0 == csv[j].0);
        }
    }
    let mut k: usize = 0;
    while k < cs.len()
        invariant
            k <= cs@.len(),
            csv == cs@.map_values(|c: Contribution| c@),
            csv == contributions(usage@),
            usage_block(*line) == Some(usage@),
            forall|i: int, j: int| 0 <= i < j < csv.len() ==> csv[i].0 != csv[j].0,
            apply_contributions(old(groups)@, group@, csv) == apply_contributions(groups@, group@, csv.skip(k as int)),
            forall|j: int| k <= j < csv.len() ==> contribution_fits(groups@, group@, #[trigger] csv[j].0, csv[j].1),
        decreases cs@.len() - k,
    {
        let ghost before = groups@;
        proof {
            assert(csv[k as int] == cs@[k as int]@);
        }
        groups.record(group, cs[k].model.as_str(), cs[k].counts, cs[k].self_reported_ticks);
        proof {
            assert(csv.skip(k as int).drop_first() =~= csv.skip(k + 1));
            assert forall|j: int| k + 1 <= j < csv.len() implies contribution_fits(groups@, group@, #[trigger] csv[j].0, csv[j].1) by {
                lemma_tally_at_upsert(before, group@, csv[k as int].0, csv[k as int].1, csv[k as int].2, group@, csv[j].0);
                assert(csv[k as int].0 != csv[j].0);
            }
        }
        k = k + 1;
    }
    proof {
        assert(csv.skip(cs@.len() as int) =~= Seq::<ContributionView>::empty());
    }
}

/// The first second chrono's calendar holds: `DateTime::<Utc>::MIN_UTC`,
/// year -262143, January 1st, 00:00:00 UTC.
pub const CHRONO_MIN_TIMESTAMP: i64 = -8_334_601_228_800;

/// The last second chrono's calendar holds: `DateTime::<Utc>::MAX_UTC`,
/// year 262142, December 31st, 23:59:59 UTC.
pub const CHRONO_MAX_TIMESTAMP: i64 = 8_210_266_876_799;

/// Whether chrono's `DateTime::from_timestamp(secs, 0)` gives a date and
/// time: whether `secs` lies in chrono's calendar, whose years run from
/// -262143 to 262142.
pub open spec fn chrono_timestamp_representable(secs: i64) -> bool {
    CHRONO_MIN_TIMESTAMP <= secs <= CHRONO_MAX_TIMESTAMP
}

/// chrono's `Local.timestamp_opt(secs, 0).single()` formatted as
/// `%Y-%m-%d`: the calendar date of a Unix timestamp in the machine's time
/// zone.
///
/// What is claimed, from chrono's source: `timestamp_opt` gives
/// `MappedLocalTime::None` exactly when `DateTime::from_timestamp(secs, 0)`
/// is `None`, that is outside the years -262143 to 262142, and otherwise a
/// `Single` value, which `single()` hands out. That value's local date is the
/// UTC date shifted by the zone's `FixedOffset`, which chrono keeps strictly
/// within a day of UTC; `%Y-%m-%d` writes it with chrono's year, month and
/// day padding. So a date comes back exactly when the timestamp is in range,
/// and it is the text of a calendar day at most one day from the UTC day.
/// Which of those days it is depends on the time zone and is not claimed,
/// nor is the panic in chrono's time zone lookup when the zone data have no
/// entry.
#[verifier::external_body]
fn local_calendar_date(secs: i64) -> (r: Option<String>)
    ensures
        r is Some <==> chrono_timestamp_representable(secs),
        r matches Some(text) ==> local_day_text(text@, secs as int),
{
    chrono::Local.timestamp_opt(secs, 0).single().map(|d| d.format("%Y-%m-%d").to_string())
}

/// The key of a day group: the local calendar date when there is one, else
/// the timestamp in decimal.
pub fn day_key(date: Option<String>, ts: u64) -> (r: String)
    ensures
        date matches Some(d) ==> r@ == d@,
        date is None ==> r@ == decimal(ts as nat),
{
    match date {
        Some(d) => d,
        None => decimal_string(ts as u128),
    }
}

/// The key under which day grouping files a record with timestamp `ts`:
/// the local `%Y-%m-%d` when chrono can place `ts` in its calendar, else
/// `ts` in decimal.
pub open spec fn day_key_fits(ts: u64, key: Seq<char>) -> bool {
    if chrono_timestamp_representable(ts as i64) {
        local_day_text(key, (ts as i64) as int)
    } else {
        key == decimal(ts as nat)
    }
}

/// The key a record with timestamp `ts` from session `session_id` may be
/// filed under for grouping `by`.
pub open spec fn group_key_fits(by: UsageGroupBy, ts: u64, session_id: Seq<char>, key: Seq<char>) -> bool {
    match by {
        UsageGroupBy::Day => day_key_fits(ts, key),
        UsageGroupBy::Session => key == session_id,
        UsageGroupBy::Model => key == "all"@,
    }
}

/// Local-time-zone `YYYY-MM-DD` of a Unix timestamp, or the timestamp in
/// decimal when chrono cannot place it in its calendar.
pub fn local_date(ts: u64) -> (r: String)
    ensures
        day_key_fits(ts, r@),
{
    let date = local_calendar_date(ts as i64);
    day_key(date, ts)
}

/// The group a record with timestamp `ts` from session `session_id` goes to.
pub fn group_key(args: &UsageArgs, ts: u64, session_id: &str) -> (r: String)
    ensures
        group_key_fits(args.by, ts, session_id@, r@),
        args.by == UsageGroupBy::Session ==> r@ == session_id@,
        args.by == UsageGroupBy::Model ==> r@ == "all"@,
{
    match args.by {
        UsageGroupBy::Day => local_date(ts),
        UsageGroupBy::Session => String::from_str(session_id),
        UsageGroupBy::Model => String::from_str("all"),
    }
}

/// `SystemTime::now().duration_since(UNIX_EPOCH)` in whole seconds, `None`
/// when the clock is before the epoch. Depends on the clock, so nothing is
/// claimed.
#[verifier::external_body]
fn seconds_since_epoch() -> Option<u64> {
    std::time::SystemTime::now().duration_since(std::time::UNIX_EPOCH).ok().map(|d| d.as_secs())
}

/// A clock reading in whole seconds since the epoch, 0 when there was none
/// (the clock is before the epoch).
pub fn seconds_or_zero(reading: Option<u64>) -> (r: u64)
    ensures
        r == match reading {
            Some(s) => s,
            None => 0,
        },
{
    match reading {
        Some(s) => s,
        None => 0,
    }
}

/// The current Unix time in seconds, 0 when the clock is before the epoch.
/// It is the clock's reading passed through `seconds_or_zero`; the reading
/// itself is not claimed.
pub fn now_ts() -> u64 {
    seconds_or_zero(seconds_since_epoch())
}

/// The oldest timestamp that `--since days` keeps, at time `now`: `days`
/// whole days back, or the epoch itself when that reaches before 1970, so
/// that every record counts.
pub fn cutoff_ts(since: Option<u32>, now: u64) -> (r: Option<u64>)
    ensures
        since is None ==> r is None,
        since matches Some(days) ==> r == Some(
            (if days * 86_400 <= now {
                now - days * 86_400
            } else {
                0
            }) as u64,
        ),
{
    match since {
        Some(days) => Some(now.saturating_sub((days as u64) * 86_400)),
        None => None,
    }
}

/// Reads one record of session `session_id` into its group, when that
/// overflows no counter; returns whether it did. A record it did not read
/// leaves the tallies as they were. The record goes to the group its key
/// names: the session, `all`, or under day grouping its local date (its
/// timestamp in decimal where chrono's calendar ends); it is read exactly
/// when it fits that group.
pub fn ingest_line(
    groups: &mut UsageGroups,
    line: &Json,
    args: &UsageArgs,
    cutoff: Option<u64>,
    session_id: &str,
) -> (read: bool)
    ensures
        !read ==> final(groups)@ == old(groups)@,
        args.by == UsageGroupBy::Session ==> read == line_fits(old(groups)@, *line, cutoff, session_id@),
        args.by == UsageGroupBy::Session && read ==> final(groups)@ == ingested(old(groups)@, *line, cutoff, session_id@),
        args.by == UsageGroupBy::Model ==> read == line_fits(old(groups)@, *line, cutoff, "all"@),
        args.by == UsageGroupBy::Model && read ==> final(groups)@ == ingested(old(groups)@, *line, cutoff, "all"@),
        exists|k: Seq<char>|
            #[trigger] group_key_fits(args.by, line_timestamp(*line), session_id@, k) && read
                == line_fits(old(groups)@, *line, cutoff, k) && (read ==> final(groups)@ == ingested(
                old(groups)@,
                *line,
                cutoff,
                k,
            )),
{
    let ts = record_timestamp(line);
    let key = group_key(args, ts, session_id);
    assert(group_key_fits(args.by, line_timestamp(*line), session_id@, key@));
    if usage_line_fits(groups, line, cutoff, key.as_str()) {
        ingest_usage_line(groups, line, cutoff, key.as_str());
        true
    } else {
        false
    }
}


/// Reads one line of a session's `updates.jsonl`: a line that is not one
/// JSON document is skipped (`None`) and changes nothing; a record is read
/// as `ingest_line` reads it, and whether it was read comes back.
pub fn ingest_text_line(
    groups: &mut UsageGroups,
    text: &str,
    args: &UsageArgs,
    cutoff: Option<u64>,
    session_id: &str,
) -> (r: Option<bool>)
    ensures
        json_of_text(text@) is None <==> r is None,
        r is None ==> final(groups)@ == old(groups)@,
        json_of_text(text@) matches Some(line) ==> r matches Some(read) && {
            &&& !read ==> final(groups)@ == old(groups)@
            &&& args.by == UsageGroupBy::Session ==> read == line_fits(old(groups)@, line, cutoff, session_id@)
            &&& args.by == UsageGroupBy::Session && read ==> final(groups)@ == ingested(
                old(groups)@,
                line,
                cutoff,
                session_id@,
            )
            &&& args.by == UsageGroupBy::Model ==> read == line_fits(old(groups)@, line, cutoff, "all"@)
            &&& args.by == UsageGroupBy::Model && read ==> final(groups)@ == ingested(
                old(groups)@,
                line,
                cutoff,
                "all"@,
            )
            &&& exists|k: Seq<char>|
                #[trigger] group_key_fits(args.by, line_timestamp(line), session_id@, k) && read
                    == line_fits(old(groups)@, line, cutoff, k) && (read ==> final(groups)@
                    == ingested(old(groups)@, line, cutoff, k))
        },
{
    match parse_json(text) {
        Some(line) => Some(ingest_line(groups, &line, args, cutoff, session_id)),
        None => None,
    }
}


/// The counts a usage value carries are read from its members by name:
/// input from `inputTokens`, output from `outputTokens`, cache reads from
/// `cachedReadTokens`, cache writes from `cacheCreationTokens`, reasoning from
/// `reasoningTokens`, calls from `modelCalls` and API time from
/// `apiDurationMs`, each 0 when missing or not a non-negative integer (and
/// all 0 for a value that is no object).
pub proof fn lemma_counts_read_by_key(v: Json)
    ensures
        counts_of(v).input_tokens == get_u64_or_zero(v, "inputTokens"@),
        counts_of(v).output_tokens == get_u64_or_zero(v, "outputTokens"@),
        counts_of(v).cache_read_tokens == get_u64_or_zero(v, "cachedReadTokens"@),
        counts_of(v).cache_write_tokens == get_u64_or_zero(v, "cacheCreationTokens"@),
        counts_of(v).reasoning_tokens == get_u64_or_zero(v, "reasoningTokens"@),
        counts_of(v).model_calls == get_u64_or_zero(v, "modelCalls"@),
        counts_of(v).api_ms == get_u64_or_zero(v, "apiDurationMs"@),
{
}

/// A usage block that does not split the turn per model contributes exactly
/// one tally, to its model, with counts read from the block's own members by
/// name (cache reads from `cachedReadTokens`, cache writes from
/// `cacheCreationTokens`, and so on) and the block's reported cost.
pub proof fn lemma_unsplit_contribution(usage: Seq<(String, Json)>)
    requires
        model_usage(usage) is None,
    ensures
        contributions(usage).len() == 1,
        contributions(usage)[0].0 == model_name(usage),
        contributions(usage)[0].1.input_tokens == member_u64(usage, "inputTokens"@),
        contributions(usage)[0].1.output_tokens == member_u64(usage, "outputTokens"@),
        contributions(usage)[0].1.cache_read_tokens == member_u64(usage, "cachedReadTokens"@),
        contributions(usage)[0].1.cache_write_tokens == member_u64(usage, "cacheCreationTokens"@),
        contributions(usage)[0].1.reasoning_tokens == member_u64(usage, "reasoningTokens"@),
        contributions(usage)[0].1.model_calls == member_u64(usage, "modelCalls"@),
        contributions(usage)[0].1.api_ms == member_u64(usage, "apiDurationMs"@),
        contributions(usage)[0].2 == reported_ticks(usage),
{
}

proof fn lemma_distinct_models_from_members(members: Seq<(String, Json)>, i: int)
    requires
        0 <= i < distinct_models(members).len(),
    ensures
        exists|j: int|
            0 <= j < members.len() && #[trigger] members[j].0@ == distinct_models(members)[i].0
                && distinct_models(members)[i].1 == counts_of(members[j].1),
    decreases members.len(),
{
    let init = members.drop_last();
    let rest = distinct_models(init);
    if i < rest.len() {
        lemma_distinct_models_from_members(init, i);
        let j = choose|j: int|
            0 <= j < init.len() && #[trigger] init[j].0@ == rest[i].0 && rest[i].1 == counts_of(init[j].1);
        assert(init[j] == members[j]);
    } else {
        let j = members.len() - 1;
        assert(members[j] == members.last());
        assert(members[j].0@ == distinct_models(members)[i].0);
    }
}

/// Each model of a per-model split contributes the counts read, by member
/// name, from that model's own object in the split.
pub proof fn lemma_split_contribution(usage: Seq<(String, Json)>, i: int)
    requires
        model_usage(usage) is Some,
        0 <= i < contributions(usage).len(),
    ensures
        exists|j: int|
            0 <= j < model_usage(usage).unwrap().len() && #[trigger] model_usage(usage).unwrap()[j].0@
                == contributions(usage)[i].0 && {
                let v = model_usage(usage).unwrap()[j].1;
                &&& contributions(usage)[i].1.input_tokens == get_u64_or_zero(v, "inputTokens"@)
                &&& contributions(usage)[i].1.output_tokens == get_u64_or_zero(v, "outputTokens"@)
                &&& contributions(usage)[i].1.cache_read_tokens == get_u64_or_zero(v, "cachedReadTokens"@)
                &&& contributions(usage)[i].1.cache_write_tokens == get_u64_or_zero(v, "cacheCreationTokens"@)
                &&& contributions(usage)[i].1.reasoning_tokens == get_u64_or_zero(v, "reasoningTokens"@)
                &&& contributions(usage)[i].1.model_calls == get_u64_or_zero(v, "modelCalls"@)
                &&& contributions(usage)[i].1.api_ms == get_u64_or_zero(v, "apiDurationMs"@)
            },
{
    let models = model_usage(usage).unwrap();
    let ds = distinct_models(models);
    assert(contributions(usage)[i].1 == ds[i].1);
    assert(contributions(usage)[i].0 == ds[i].0);
    lemma_distinct_models_from_members(models, i);
    let j = choose|j: int|
        0 <= j < models.len() && #[trigger] models[j].0@ == ds[i].0 && ds[i].1 == counts_of(models[j].1);
    lemma_counts_read_by_key(models[j].1);
}

} // verus!

use igrok::json::Json;
use igrok::usage::{UsageArgs, UsageCounts, UsageGroupBy, UsageGroups};
use igrok::usage_ingest::{
    cutoff_ts, day_key, group_key, ingest_line, ingest_text_line, local_date, seconds_or_zero, usage_line_fits,
};
use igrok::usage_prices::{
    cached_price_raw, catalog_price_keys_of, fetched_at_fresh, price_cache_fresh, price_cache_of_text, price_keys_of_text,
};
use igrok::usage_table::{grand_totals, render_table};

fn s(v: &str) -> Json {
    Json::Str(v.to_string())
}

fn obj(members: Vec<(&str, Json)>) -> Json {
    Json::Object(members.into_iter().map(|(k, v)| (k.to_string(), v)).collect())
}

fn usage_record(ts: u64, usage: Json) -> Json {
    obj(vec![
        ("timestamp", Json::PosInt(ts)),
        ("params", obj(vec![("update", obj(vec![("usage", usage)]))])),
    ])
}

fn counts(input: u64, output: u64, calls: u64, api_ms: u64) -> Json {
    obj(vec![
        ("inputTokens", Json::PosInt(input)),
        ("outputTokens", Json::PosInt(output)),
        ("cachedReadTokens", Json::PosInt(0)),
        ("cacheCreationTokens", Json::PosInt(0)),
        ("reasoningTokens", Json::PosInt(0)),
        ("modelCalls", Json::PosInt(calls)),
        ("apiDurationMs", Json::PosInt(api_ms)),
    ])
}

fn args(by: UsageGroupBy) -> UsageArgs {
    UsageArgs { by, since: None, json: false }
}

#[test]
fn unsplit_usage_goes_to_its_model_with_its_cost() {
    let mut groups = UsageGroups::new();
    let usage = obj(vec![
        ("model", s("grok-4")),
        ("inputTokens", Json::PosInt(100)),
        ("outputTokens", Json::PosInt(20)),
        ("modelCalls", Json::PosInt(1)),
        ("costUsdTicks", Json::PosInt(5_000_000_000)),
    ]);
    let line = usage_record(10, usage);
    assert!(ingest_line(&mut groups, &line, &args(UsageGroupBy::Session), None, "sess-1"));
    let t = groups.tally_of("sess-1", "grok-4").unwrap();
    assert_eq!(t.counts.input_tokens, 100);
    assert_eq!(t.counts.output_tokens, 20);
    assert_eq!(t.counts.model_calls, 1);
    assert_eq!(t.self_reported_ticks, vec![5_000_000_000]);
}

#[test]
fn missing_model_is_unknown_and_legacy_cost_key_counts() {
    let mut groups = UsageGroups::new();
    let usage = obj(vec![("inputTokens", Json::PosInt(7)), ("costUSDTicks", Json::NegInt(-3))]);
    let line = usage_record(10, usage);
    assert!(ingest_line(&mut groups, &line, &args(UsageGroupBy::Model), None, "s"));
    let t = groups.tally_of("all", "unknown").unwrap();
    assert_eq!(t.counts.input_tokens, 7);
    assert_eq!(t.self_reported_ticks, vec![-3]);
}

#[test]
fn first_cost_key_wins_even_when_unusable() {
    let mut groups = UsageGroups::new();
    let usage = obj(vec![
        ("model", s("m")),
        ("costUsdTicks", s("not a number")),
        ("costUSDTicks", Json::PosInt(9)),
    ]);
    let line = usage_record(10, usage);
    assert!(ingest_line(&mut groups, &line, &args(UsageGroupBy::Model), None, "s"));
    assert!(groups.tally_of("all", "m").unwrap().self_reported_ticks.is_empty());
}

#[test]
fn split_usage_attributes_cost_only_to_a_single_model() {
    let mut groups = UsageGroups::new();
    let single = obj(vec![
        ("costUsdTicks", Json::PosInt(42)),
        ("inputTokens", Json::PosInt(999)),
        ("modelUsage", obj(vec![("a", counts(10, 1, 1, 100))])),
    ]);
    assert!(ingest_line(&mut groups, &usage_record(1, single), &args(UsageGroupBy::Model), None, "s"));
    let multi = obj(vec![
        ("costUsdTicks", Json::PosInt(7)),
        ("modelUsage", obj(vec![("a", counts(5, 0, 1, 50)), ("b", counts(3, 2, 1, 30))])),
    ]);
    assert!(ingest_line(&mut groups, &usage_record(2, multi), &args(UsageGroupBy::Model), None, "s"));
    let a = groups.tally_of("all", "a").unwrap();
    assert_eq!(a.counts.input_tokens, 15);
    assert_eq!(a.counts.api_ms, 150);
    assert_eq!(a.self_reported_ticks, vec![42]);
    let b = groups.tally_of("all", "b").unwrap();
    assert_eq!(b.counts.input_tokens, 3);
    assert!(b.self_reported_ticks.is_empty());
}

#[test]
fn empty_split_falls_back_to_the_outer_block() {
    let mut groups = UsageGroups::new();
    let usage = obj(vec![
        ("model", s("outer")),
        ("inputTokens", Json::PosInt(4)),
        ("modelUsage", obj(vec![])),
    ]);
    assert!(ingest_line(&mut groups, &usage_record(1, usage), &args(UsageGroupBy::Model), None, "s"));
    assert_eq!(groups.tally_of("all", "outer").unwrap().counts.input_tokens, 4);
}

#[test]
fn records_without_usage_or_too_old_change_nothing() {
    let mut groups = UsageGroups::new();
    let no_usage = obj(vec![("timestamp", Json::PosInt(5)), ("params", obj(vec![]))]);
    assert!(ingest_line(&mut groups, &no_usage, &args(UsageGroupBy::Model), None, "s"));
    assert!(groups.is_empty());
    let old = usage_record(5, obj(vec![("model", s("m")), ("inputTokens", Json::PosInt(1))]));
    assert!(ingest_line(&mut groups, &old, &args(UsageGroupBy::Model), Some(6), "s"));
    assert!(groups.is_empty());
    assert!(ingest_line(&mut groups, &old, &args(UsageGroupBy::Model), Some(5), "s"));
    assert!(!groups.is_empty());
}

#[test]
fn groups_and_models_are_sorted_and_unique() {
    let mut groups = UsageGroups::new();
    for (sess, model) in [("s2", "b"), ("s1", "z"), ("s2", "a"), ("s1", "z"), ("s10", "m")] {
        let line = usage_record(1, obj(vec![("model", s(model)), ("inputTokens", Json::PosInt(1))]));
        assert!(ingest_line(&mut groups, &line, &args(UsageGroupBy::Session), None, sess));
    }
    let keys: Vec<(String, Vec<String>)> = groups
        .rows()
        .iter()
        .map(|g| (g.key.clone(), g.models.iter().map(|m| m.model.clone()).collect()))
        .collect();
    assert_eq!(
        keys,
        vec![
            ("s1".to_string(), vec!["z".to_string()]),
            ("s10".to_string(), vec!["m".to_string()]),
            ("s2".to_string(), vec!["a".to_string(), "b".to_string()]),
        ]
    );
    assert_eq!(groups.tally_of("s1", "z").unwrap().counts.input_tokens, 2);
}

#[test]
fn overflowing_record_is_refused_untouched() {
    let mut groups = UsageGroups::new();
    let big = usage_record(1, obj(vec![("model", s("m")), ("inputTokens", Json::PosInt(u64::MAX))]));
    assert!(ingest_line(&mut groups, &big, &args(UsageGroupBy::Model), None, "s"));
    let one = usage_record(1, obj(vec![("model", s("m")), ("inputTokens", Json::PosInt(1))]));
    assert!(!usage_line_fits(&groups, &one, None, "all"));
    assert!(!ingest_line(&mut groups, &one, &args(UsageGroupBy::Model), None, "s"));
    assert_eq!(groups.tally_of("all", "m").unwrap().counts.input_tokens, u64::MAX);
}

#[test]
fn group_keys_follow_the_grouping() {
    assert_eq!(group_key(&args(UsageGroupBy::Session), 0, "abc"), "abc");
    assert_eq!(group_key(&args(UsageGroupBy::Model), 0, "abc"), "all");
    assert_eq!(day_key(Some("2024-01-02".to_string()), 9), "2024-01-02");
    assert_eq!(day_key(None, 1_700_000_000), "1700000000");
    let day = group_key(&args(UsageGroupBy::Day), 86_400 * 365, "abc");
    assert_eq!(day.len(), 10);
}

#[test]
fn cutoff_counts_whole_days_back() {
    assert_eq!(cutoff_ts(None, 1_000_000), None);
    assert_eq!(cutoff_ts(Some(1), 1_000_000), Some(1_000_000 - 86_400));
    assert_eq!(cutoff_ts(Some(0), 5), Some(5));
    assert_eq!(cutoff_ts(Some(100_000), 1_700_000_000), Some(0));
    assert_eq!(cutoff_ts(Some(1), 86_400), Some(0));
}

#[test]
fn table_lays_out_rows_totals_and_api_time() {
    let mut groups = UsageGroups::new();
    let a = usage_record(1, obj(vec![("modelUsage", obj(vec![("grok-4", counts(15_664, 732, 2, 3_700_000))]))]));
    let b = usage_record(1, obj(vec![("modelUsage", obj(vec![("opus-4-6-very-long-model-name-here", counts(1_564_000, 10, 1, 1000))]))]));
    assert!(ingest_line(&mut groups, &a, &args(UsageGroupBy::Session), None, "session-one"));
    assert!(ingest_line(&mut groups, &b, &args(UsageGroupBy::Session), None, "session-two-with-a-long-id"));
    let totals = grand_totals(&groups).unwrap();
    assert_eq!(totals.input_tokens, 1_579_664);
    assert_eq!(totals.model_calls, 3);
    let costs = vec![Some("1.25".to_string()), None];
    let lines = render_table(&groups, UsageGroupBy::Session, &costs, "1.25", "1.2");
    let expected_header = format!(
        "{:<20} {:<24} {:>9} {:>8} {:>9} {:>9} {:>6} {:>9}",
        "SESSION", "MODEL", "INPUT", "OUTPUT", "CACHE-R", "CACHE-W", "CALLS", "COST"
    );
    assert_eq!(lines[0], expected_header);
    assert_eq!(
        lines[1],
        format!(
            "{:<20} {:<24} {:>9} {:>8} {:>9} {:>9} {:>6} {:>9}",
            "session-one", "grok-4", "15.7k", "732", "0", "0", 2, "$1.25"
        )
    );
    assert_eq!(
        lines[2],
        format!(
            "{:<20} {:<24} {:>9} {:>8} {:>9} {:>9} {:>6} {:>9}",
            "session-two-with-a-…", "opus-4-6-very-long-mode…", "1.56M", "10", "0", "0", 1, "-"
        )
    );
    assert_eq!(lines[3], "-".repeat(96));
    assert_eq!(
        lines[4],
        format!(
            "{:<20} {:<24} {:>9} {:>8} {:>9} {:>9} {:>6} {:>9}",
            "TOTAL", "", "1.58M", "742", "0", "0", 3, "$1.25+"
        )
    );
    assert_eq!(lines[5], "\nAPI time: 1h1m across 3 calls (avg 1.2s/call)");
    assert_eq!(lines.len(), 6);
}

#[test]
fn model_grouping_drops_the_group_column() {
    let mut groups = UsageGroups::new();
    let a = usage_record(1, obj(vec![("model", s("m")), ("inputTokens", Json::PosInt(5))]));
    assert!(ingest_line(&mut groups, &a, &args(UsageGroupBy::Model), None, "s"));
    let lines = render_table(&groups, UsageGroupBy::Model, &vec![Some("0.00".to_string())], "0.00", "");
    assert_eq!(lines[0], format!("{:<24} {:>9} {:>8} {:>9} {:>9} {:>6} {:>9}", "MODEL", "INPUT", "OUTPUT", "CACHE-R", "CACHE-W", "CALLS", "COST"));
    assert_eq!(lines[1], format!("{:<24} {:>9} {:>8} {:>9} {:>9} {:>6} {:>9}", "m", "5", "0", "0", "0", 0, "$0.00"));
    assert_eq!(lines[3], format!("{:<24} {:>9} {:>8} {:>9} {:>9} {:>6} {:>9}", "TOTAL", "5", "0", "0", "0", 0, "$0.00"));
    assert_eq!(lines.len(), 4);
}

#[test]
fn total_tokens_sums_the_four_token_kinds() {
    let mut groups = UsageGroups::new();
    let usage = obj(vec![
        ("model", s("m")),
        ("inputTokens", Json::PosInt(1)),
        ("outputTokens", Json::PosInt(2)),
        ("cachedReadTokens", Json::PosInt(4)),
        ("cacheCreationTokens", Json::PosInt(8)),
        ("reasoningTokens", Json::PosInt(16)),
    ]);
    assert!(ingest_line(&mut groups, &usage_record(1, usage), &args(UsageGroupBy::Model), None, "s"));
    assert_eq!(groups.tally_of("all", "m").unwrap().total_tokens(), 15);
    let c: UsageCounts = groups.tally_of("all", "m").unwrap().counts;
    assert_eq!(c.reasoning_tokens, 16);
}

#[test]
fn price_cache_freshness_and_raw_text() {
    let cache = obj(vec![("fetched_at", Json::PosInt(1_000)), ("raw", s("{}"))]);
    assert!(price_cache_fresh(&cache, 1_000 + 86_399));
    assert!(!price_cache_fresh(&cache, 1_000 + 86_400));
    assert!(price_cache_fresh(&cache, 10));
    assert_eq!(cached_price_raw(&cache), "{}");
    let stale = obj(vec![("fetched_at", s("x"))]);
    assert!(!price_cache_fresh(&stale, 0));
    assert_eq!(cached_price_raw(&stale), "");
}

#[test]
fn local_date_outside_the_calendar_is_decimal() {
    let ts: u64 = 9_223_372_036_854_775_807;
    assert_eq!(local_date(ts), "9223372036854775807");
    assert_eq!(group_key(&args(UsageGroupBy::Day), ts, "abc"), "9223372036854775807");
    let d = local_date(86_400 * 365);
    assert_eq!(d.len(), 10);
    assert!(d.starts_with("1971-01-01") || d.starts_with("1970-12-31"));
}

#[test]
fn price_cache_written_by_the_catalog_refresh_is_fresh() {
    // 2024-01-01T00:00:00Z is Unix second 1_704_067_200.
    let cache = obj(vec![("fetched_at", s("2024-01-01T00:00:00.250Z")), ("raw", s("{}"))]);
    assert!(price_cache_fresh(&cache, 1_704_067_200 + 86_399));
    assert!(!price_cache_fresh(&cache, 1_704_067_200 + 86_400));
    assert!(price_cache_fresh(&cache, 1_000));
    let east = obj(vec![("fetched_at", s("2024-01-01T01:00:00+01:00"))]);
    assert!(price_cache_fresh(&east, 1_704_067_200 + 86_399));
    assert!(!price_cache_fresh(&east, 1_704_067_200 + 86_400));
    let garbled = obj(vec![("fetched_at", s("yesterday"))]);
    assert!(!price_cache_fresh(&garbled, 0));
}

#[test]
fn fetch_time_freshness_is_under_a_day() {
    assert!(fetched_at_fresh(100, 100 + 86_399));
    assert!(!fetched_at_fresh(100, 100 + 86_400));
    assert!(fetched_at_fresh(200, 100));
    assert!(fetched_at_fresh(-5, 0));
    assert!(!fetched_at_fresh(-86_400, 0));
}

#[test]
fn price_keys_follow_the_catalog() {
    let full_cost = obj(vec![
        ("input", Json::OtherNumber),
        ("output", Json::PosInt(2)),
        ("cached_input", s("x")),
        ("cache_read", Json::PosInt(1)),
        ("cache_write", Json::PosInt(3)),
    ]);
    let sparse_cost = obj(vec![("output", Json::PosInt(5))]);
    let models = obj(vec![
        ("m1", obj(vec![("cost", full_cost)])),
        ("m2", obj(vec![("name", s("no cost"))])),
        ("m3", obj(vec![("cost", sparse_cost)])),
    ]);
    let catalog = obj(vec![
        ("p0", obj(vec![("name", s("no models"))])),
        ("p1", obj(vec![("models", models)])),
    ]);
    let keys = catalog_price_keys_of(&catalog);
    assert_eq!(keys.len(), 2);
    assert_eq!(keys[0].provider, "p1");
    assert_eq!(keys[0].model, "m1");
    assert_eq!(keys[0].input.as_deref(), Some("input"));
    assert_eq!(keys[0].output.as_deref(), Some("output"));
    assert_eq!(keys[0].cache_read.as_deref(), Some("cached_input"));
    assert_eq!(keys[0].cache_write.as_deref(), Some("cache_write"));
    assert_eq!(keys[1].model, "m3");
    assert_eq!(keys[1].input, None);
    assert_eq!(keys[1].output.as_deref(), Some("output"));
    assert_eq!(keys[1].cache_read, None);
    assert_eq!(keys[1].cache_write, None);
    assert!(catalog_price_keys_of(&s("not an object")).is_empty());
}

#[test]
fn local_date_follows_the_ends_of_the_calendar() {
    assert_eq!(local_date(8_210_266_876_800), "8210266876800");
    assert!(local_date(8_210_266_876_799).starts_with("+26214"));
    let below: u64 = (-8_334_601_228_801i64) as u64;
    assert_eq!(local_date(below), below.to_string());
    let first: u64 = (-8_334_601_228_800i64) as u64;
    assert!(local_date(first).starts_with("-26214"));
    assert_eq!(local_date(first).len(), 13);
}

#[test]
fn session_lines_are_parsed_then_read() {
    let mut groups = UsageGroups::new();
    let text = r#"{"timestamp": 10, "params": {"update": {"usage": {"model": "grok-4", "inputTokens": 100, "outputTokens": 20, "cost": 1.5}}}}"#;
    assert_eq!(ingest_text_line(&mut groups, text, &args(UsageGroupBy::Session), None, "sess-1"), Some(true));
    let t = groups.tally_of("sess-1", "grok-4").unwrap();
    assert_eq!(t.counts.input_tokens, 100);
    assert_eq!(t.counts.output_tokens, 20);
    assert_eq!(ingest_text_line(&mut groups, "{not json", &args(UsageGroupBy::Session), None, "sess-1"), None);
    assert_eq!(ingest_text_line(&mut groups, "", &args(UsageGroupBy::Session), None, "sess-1"), None);
    let neg = r#"{"timestamp": 11, "params": {"update": {"usage": {"model": "grok-4", "inputTokens": -5, "costUsdTicks": 7}}}}"#;
    assert_eq!(ingest_text_line(&mut groups, neg, &args(UsageGroupBy::Session), None, "sess-1"), Some(true));
    let t = groups.tally_of("sess-1", "grok-4").unwrap();
    assert_eq!(t.counts.input_tokens, 100);
    assert_eq!(t.self_reported_ticks, vec![7]);
    assert_eq!(groups.rows().len(), 1);
}

#[test]
fn price_cache_text_is_parsed_then_judged() {
    let stamped = r#"{"fetched_at": 1000, "raw": "{\"p\": {}}"}"#;
    assert_eq!(price_cache_of_text(stamped, 1000 + 86_399), Some((true, "{\"p\": {}}".to_string())));
    assert_eq!(price_cache_of_text(stamped, 1000 + 86_400), Some((false, "{\"p\": {}}".to_string())));
    let shell = r#"{"fetched_at": "2024-01-01T00:00:00Z", "raw": "x"}"#;
    assert_eq!(price_cache_of_text(shell, 1_704_067_200 + 10), Some((true, "x".to_string())));
    assert_eq!(price_cache_of_text(r#"{"raw": 3}"#, 0), Some((false, String::new())));
    assert_eq!(price_cache_of_text("not json", 0), None);
}

#[test]
fn price_keys_of_catalog_text() {
    let raw = r#"{"p1": {"models": {"m1": {"cost": {"input": 1.5, "cache_read": 0.1, "input_cache_write": 2}}, "m2": {}}}, "p0": {"name": "x"}}"#;
    let keys = price_keys_of_text(raw);
    assert_eq!(keys.len(), 1);
    assert_eq!(keys[0].provider, "p1");
    assert_eq!(keys[0].model, "m1");
    assert_eq!(keys[0].input.as_deref(), Some("input"));
    assert_eq!(keys[0].output, None);
    assert_eq!(keys[0].cache_read.as_deref(), Some("cache_read"));
    assert_eq!(keys[0].cache_write.as_deref(), Some("input_cache_write"));
    assert!(price_keys_of_text("[1, 2").is_empty());
}

#[test]
fn clock_reading_before_the_epoch_is_zero() {
    assert_eq!(seconds_or_zero(Some(1_700_000_000)), 1_700_000_000);
    assert_eq!(seconds_or_zero(None), 0);
}

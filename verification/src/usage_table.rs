//! The usage report as a text table: a header, one row per (group, model)
//! in map order, a separator, the totals, and the API-time summary.
//!
//! Cost amounts are computed from prices (floating point) by the caller and
//! handed in as text: per row the amount with two decimals (or none when no
//! price is known), the sum of the known amounts, and the average API
//! seconds per call with one decimal.

use crate::text::{
    decimal, decimal_string, pad_left, pad_right, push_char, push_decimal, push_pad_left,
    push_pad_right, truncate, truncated, lemma_truncated_width,
};
use crate::usage::{
    add_to_tally, contribution_fits, counts_add, counts_fit, fresh_tally, groups_sorted,
    lemma_tally_at_upsert, lemma_upsert_group_sorted, models_view, tally_at, tally_of,
    upsert_group, upsert_model, groups_view, GroupsView, ModelsView, TallyView, UsageCounts,
    UsageGroupBy, UsageGroups,
};
use crate::json::Json;
use crate::usage_ingest::{
    apply_contributions, contributions, ingested, lemma_contributions_distinct, line_fits,
    line_selected, usage_block, ContributionView,
};
use crate::usage_format::{duration_text, fmt_duration, fmt_tokens, tokens_text};
use vstd::prelude::*;

verus! {

/// One row of the report: group, model, tally.
pub type RowView = (Seq<char>, Seq<char>, TallyView);

/// The rows of one group, in model order.
pub open spec fn group_rows(g: Seq<char>, models: ModelsView) -> Seq<RowView> {
    models.map_values(|e: (Seq<char>, TallyView)| (g, e.0, e.1))
}

/// All rows, group after group.
pub open spec fn flat_rows(groups: GroupsView) -> Seq<RowView>
    decreases groups.len(),
{
    if groups.len() == 0 {
        Seq::empty()
    } else {
        flat_rows(groups.drop_last()) + group_rows(groups.last().0, groups.last().1)
    }
}

/// Column sums of the report.
pub ghost struct Totals {
    pub input: nat,
    pub output: nat,
    pub cache_read: nat,
    pub cache_write: nat,
    pub reasoning: nat,
    pub calls: nat,
    pub api_ms: nat,
}

/// `t` plus one row's counts.
pub open spec fn add_row(t: Totals, c: UsageCounts) -> Totals {
    Totals {
        input: t.input + c.input_tokens as nat,
        output: t.output + c.output_tokens as nat,
        cache_read: t.cache_read + c.cache_read_tokens as nat,
        cache_write: t.cache_write + c.cache_write_tokens as nat,
        reasoning: t.reasoning + c.reasoning_tokens as nat,
        calls: t.calls + c.model_calls as nat,
        api_ms: t.api_ms + c.api_ms as nat,
    }
}

/// The column sums of `rows`.
pub open spec fn totals_of(rows: Seq<RowView>) -> Totals
    decreases rows.len(),
{
    if rows.len() == 0 {
        Totals { input: 0, output: 0, cache_read: 0, cache_write: 0, reasoning: 0, calls: 0, api_ms: 0 }
    } else {
        add_row(totals_of(rows.drop_last()), rows.last().2.counts)
    }
}

/// Every column sum fits in 64 bits.
pub open spec fn totals_fit(t: Totals) -> bool {
    &&& t.input <= u64::MAX
    &&& t.output <= u64::MAX
    &&& t.cache_read <= u64::MAX
    &&& t.cache_write <= u64::MAX
    &&& t.reasoning <= u64::MAX
    &&& t.calls <= u64::MAX
    &&& t.api_ms <= u64::MAX
}

/// The width of the group column.
pub open spec fn group_width(by: UsageGroupBy) -> nat {
    match by {
        UsageGroupBy::Day => 12,
        UsageGroupBy::Session => 20,
        UsageGroupBy::Model => 24,
    }
}

/// The title of the group column.
pub open spec fn group_label(by: UsageGroupBy) -> Seq<char> {
    match by {
        UsageGroupBy::Day => "DAY"@,
        UsageGroupBy::Session => "SESSION"@,
        UsageGroupBy::Model => "MODEL"@,
    }
}

/// The group and model columns; grouping by model shows the model column only.
pub open spec fn lead_cols(by: UsageGroupBy, group: Seq<char>, model: Seq<char>) -> Seq<char> {
    if by == UsageGroupBy::Model {
        pad_right(model, 24)
    } else {
        pad_right(group, group_width(by)) + seq![' '] + pad_right(model, 24)
    }
}

/// One right-aligned column of width `w`, after its separating space.
pub open spec fn right_col(s: Seq<char>, w: nat) -> Seq<char> {
    seq![' '] + pad_left(s, w)
}

/// The right-aligned number columns.
pub open spec fn tail_cols(
    input: Seq<char>,
    output: Seq<char>,
    cache_read: Seq<char>,
    cache_write: Seq<char>,
    calls: Seq<char>,
    cost: Seq<char>,
) -> Seq<char> {
    right_col(input, 9) + right_col(output, 8) + right_col(cache_read, 9) + right_col(cache_write, 9)
        + right_col(calls, 6) + right_col(cost, 9)
}

/// The header line.
pub open spec fn header_line(by: UsageGroupBy) -> Seq<char> {
    lead_cols(by, group_label(by), "MODEL"@) + tail_cols(
        "INPUT"@,
        "OUTPUT"@,
        "CACHE-R"@,
        "CACHE-W"@,
        "CALLS"@,
        "COST"@,
    )
}

/// The cost text given for row `k`, if any.
pub open spec fn cost_text(costs: Seq<Option<String>>, k: int) -> Option<Seq<char>> {
    if 0 <= k < costs.len() {
        match costs[k] {
            Some(s) => Some(s@),
            None => None,
        }
    } else {
        None
    }
}

/// The cost column of row `k`: `$` and the amount, or `-` when unknown.
pub open spec fn cost_cell(costs: Seq<Option<String>>, k: int) -> Seq<char> {
    match cost_text(costs, k) {
        Some(s) => seq!['$'] + s,
        None => "-"@,
    }
}

/// The line of one row.
pub open spec fn row_line(by: UsageGroupBy, row: RowView, cost: Seq<char>) -> Seq<char> {
    let c = row.2.counts;
    lead_cols(by, truncated(row.0, group_width(by)), truncated(row.1, 24)) + tail_cols(
        tokens_text(c.input_tokens as nat),
        tokens_text(c.output_tokens as nat),
        tokens_text(c.cache_read_tokens as nat),
        tokens_text(c.cache_write_tokens as nat),
        decimal(c.model_calls as nat),
        cost,
    )
}

/// Every row has a known cost.
pub open spec fn all_costs_known(costs: Seq<Option<String>>, n: nat) -> bool {
    forall|k: int| 0 <= k < n ==> #[trigger] cost_text(costs, k) is Some
}

/// The total cost column: `$` and the sum, with `+` when some row's cost is
/// unknown.
pub open spec fn total_cost_cell(total: Seq<char>, known: bool) -> Seq<char> {
    if known {
        seq!['$'] + total
    } else {
        seq!['$'] + total + seq!['+']
    }
}

/// The totals line.
pub open spec fn total_line(by: UsageGroupBy, t: Totals, cost: Seq<char>) -> Seq<char> {
    let lead = if by == UsageGroupBy::Model {
        pad_right("TOTAL"@, 24)
    } else {
        lead_cols(by, "TOTAL"@, ""@)
    };
    lead + tail_cols(
        tokens_text(t.input),
        tokens_text(t.output),
        tokens_text(t.cache_read),
        tokens_text(t.cache_write),
        decimal(t.calls),
        cost,
    )
}

/// The separator line: 96 dashes.
pub open spec fn separator_line() -> Seq<char> {
    Seq::new(96, |i: int| '-')
}

/// The API-time summary (preceded by an empty line).
pub open spec fn api_line(t: Totals, avg: Seq<char>) -> Seq<char> {
    "\nAPI time: "@ + duration_text(t.api_ms) + " across "@ + decimal(t.calls) + " calls (avg "@
        + avg + "s/call)"@
}

/// The whole table, line by line.
pub open spec fn table_lines(
    by: UsageGroupBy,
    groups: GroupsView,
    costs: Seq<Option<String>>,
    total_cost: Seq<char>,
    api_avg: Seq<char>,
) -> Seq<Seq<char>> {
    let rows = flat_rows(groups);
    let t = totals_of(rows);
    let body = seq![header_line(by)] + Seq::new(rows.len(), |k: int| row_line(by, rows[k], cost_cell(costs, k)))
        + seq![
        separator_line(),
        total_line(by, t, total_cost_cell(total_cost, all_costs_known(costs, rows.len()))),
    ];
    if t.api_ms > 0 && t.calls > 0 {
        body.push(api_line(t, api_avg))
    } else {
        body
    }
}

/// The field-wise sum of two column sums.
pub open spec fn totals_add(a: Totals, b: Totals) -> Totals {
    Totals {
        input: a.input + b.input,
        output: a.output + b.output,
        cache_read: a.cache_read + b.cache_read,
        cache_write: a.cache_write + b.cache_write,
        reasoning: a.reasoning + b.reasoning,
        calls: a.calls + b.calls,
        api_ms: a.api_ms + b.api_ms,
    }
}

/// All column sums zero.
pub open spec fn zero_totals() -> Totals {
    Totals { input: 0, output: 0, cache_read: 0, cache_write: 0, reasoning: 0, calls: 0, api_ms: 0 }
}

/// The column sums of what a list of contributions adds.
pub open spec fn contributed_totals(cs: Seq<ContributionView>) -> Totals
    decreases cs.len(),
{
    if cs.len() == 0 {
        zero_totals()
    } else {
        add_row(contributed_totals(cs.drop_first()), cs[0].1)
    }
}

proof fn lemma_totals_concat(a: Seq<RowView>, b: Seq<RowView>)
    ensures
        totals_of(a + b) == totals_add(totals_of(a), totals_of(b)),
    decreases b.len(),
{
    if b.len() == 0 {
        assert(a + b =~= a);
    } else {
        lemma_totals_concat(a, b.drop_last());
        assert((a + b).drop_last() =~= a + b.drop_last());
        assert((a + b).last() == b.last());
    }
}

proof fn lemma_flat_rows_concat(a: GroupsView, b: GroupsView)
    ensures
        flat_rows(a + b) == flat_rows(a) + flat_rows(b),
    decreases b.len(),
{
    if b.len() == 0 {
        assert(a + b =~= a);
        assert(flat_rows(a) + flat_rows(b) =~= flat_rows(a));
    } else {
        lemma_flat_rows_concat(a, b.drop_last());
        assert((a + b).drop_last() =~= a + b.drop_last());
        assert((a + b).last() == b.last());
        assert(flat_rows(a + b) =~= flat_rows(a) + flat_rows(b));
    }
}

proof fn lemma_flat_rows_cons(x: (Seq<char>, ModelsView), rest: GroupsView)
    ensures
        flat_rows(seq![x] + rest) == group_rows(x.0, x.1) + flat_rows(rest),
{
    lemma_flat_rows_concat(seq![x], rest);
    assert(seq![x].drop_last() =~= Seq::<(Seq<char>, ModelsView)>::empty());
    assert(flat_rows(Seq::<(Seq<char>, ModelsView)>::empty()) == Seq::<RowView>::empty());
    assert(seq![x].last() == x);
    assert(Seq::<RowView>::empty() + group_rows(x.0, x.1) =~= group_rows(x.0, x.1));
    assert(flat_rows(seq![x]) =~= group_rows(x.0, x.1));
}

proof fn lemma_group_rows_cons(g: Seq<char>, x: (Seq<char>, TallyView), rest: ModelsView)
    ensures
        group_rows(g, seq![x] + rest) == seq![(g, x.0, x.1)] + group_rows(g, rest),
{
    assert(group_rows(g, seq![x] + rest) =~= seq![(g, x.0, x.1)] + group_rows(g, rest));
}

proof fn lemma_totals_one(r: RowView)
    ensures
        totals_of(seq![r]) == add_row(zero_totals(), r.2.counts),
{
    assert(seq![r].drop_last() =~= Seq::<RowView>::empty());
    assert(totals_of(Seq::<RowView>::empty()) == zero_totals());
    assert(seq![r].last() == r);
}

proof fn lemma_totals_upsert_model(g: Seq<char>, ms: ModelsView, m: Seq<char>, c: UsageCounts, tick: Option<i64>)
    requires
        match tally_of(ms, m) {
            Some(t) => counts_fit(t.counts, c),
            None => true,
        },
    ensures
        totals_of(group_rows(g, upsert_model(ms, m, c, tick))) == add_row(totals_of(group_rows(g, ms)), c),
    decreases ms.len(),
{
    let fresh = add_to_tally(fresh_tally(), c, tick);
    if ms.len() == 0 {
        assert(group_rows(g, upsert_model(ms, m, c, tick)) =~= seq![(g, m, fresh)]);
        lemma_totals_one((g, m, fresh));
        assert(group_rows(g, ms) =~= Seq::<RowView>::empty());
    } else if ms[0].0 == m {
        let rest = ms.drop_first();
        let upd = add_to_tally(ms[0].1, c, tick);
        assert(ms =~= seq![ms[0]] + rest);
        lemma_group_rows_cons(g, (m, upd), rest);
        lemma_group_rows_cons(g, ms[0], rest);
        lemma_totals_concat(seq![(g, m, upd)], group_rows(g, rest));
        lemma_totals_concat(seq![(g, ms[0].0, ms[0].1)], group_rows(g, rest));
        lemma_totals_one((g, m, upd));
        lemma_totals_one((g, ms[0].0, ms[0].1));
    } else if crate::order::text_lt(m, ms[0].0) {
        lemma_group_rows_cons(g, (m, fresh), ms);
        lemma_totals_concat(seq![(g, m, fresh)], group_rows(g, ms));
        lemma_totals_one((g, m, fresh));
    } else {
        let rest = ms.drop_first();
        assert(ms =~= seq![ms[0]] + rest);
        lemma_totals_upsert_model(g, rest, m, c, tick);
        lemma_group_rows_cons(g, ms[0], upsert_model(rest, m, c, tick));
        lemma_group_rows_cons(g, ms[0], rest);
        lemma_totals_concat(seq![(g, ms[0].0, ms[0].1)], group_rows(g, upsert_model(rest, m, c, tick)));
        lemma_totals_concat(seq![(g, ms[0].0, ms[0].1)], group_rows(g, rest));
    }
}

proof fn lemma_totals_upsert_group(v: GroupsView, g: Seq<char>, m: Seq<char>, c: UsageCounts, tick: Option<i64>)
    requires
        contribution_fits(v, g, m, c),
    ensures
        totals_of(flat_rows(upsert_group(v, g, m, c, tick))) == add_row(totals_of(flat_rows(v)), c),
    decreases v.len(),
{
    let empty_models = Seq::<(Seq<char>, TallyView)>::empty();
    if v.len() == 0 {
        lemma_flat_rows_cons((g, upsert_model(empty_models, m, c, tick)), v);
        lemma_totals_upsert_model(g, empty_models, m, c, tick);
        assert(group_rows(g, empty_models) =~= Seq::<RowView>::empty());
        assert(flat_rows(v) =~= Seq::<RowView>::empty());
        assert(group_rows(g, upsert_model(empty_models, m, c, tick)) + flat_rows(v) =~= group_rows(g, upsert_model(empty_models, m, c, tick)));
    } else if v[0].0 == g {
        let rest = v.drop_first();
        assert(v =~= seq![v[0]] + rest);
        lemma_flat_rows_cons((g, upsert_model(v[0].1, m, c, tick)), rest);
        lemma_flat_rows_cons(v[0], rest);
        lemma_totals_upsert_model(g, v[0].1, m, c, tick);
        lemma_totals_concat(group_rows(g, upsert_model(v[0].1, m, c, tick)), flat_rows(rest));
        lemma_totals_concat(group_rows(g, v[0].1), flat_rows(rest));
    } else if crate::order::text_lt(g, v[0].0) {
        lemma_flat_rows_cons((g, upsert_model(empty_models, m, c, tick)), v);
        lemma_totals_upsert_model(g, empty_models, m, c, tick);
        assert(group_rows(g, empty_models) =~= Seq::<RowView>::empty());
        lemma_totals_concat(group_rows(g, upsert_model(empty_models, m, c, tick)), flat_rows(v));
        lemma_totals_concat(group_rows(g, empty_models), flat_rows(v));
        assert(group_rows(g, empty_models) + flat_rows(v) =~= flat_rows(v));
    } else {
        let rest = v.drop_first();
        assert(v =~= seq![v[0]] + rest);
        assert(tally_at(v, g, m) == tally_at(rest, g, m));
        lemma_totals_upsert_group(rest, g, m, c, tick);
        lemma_flat_rows_cons(v[0], upsert_group(rest, g, m, c, tick));
        lemma_flat_rows_cons(v[0], rest);
        lemma_totals_concat(group_rows(v[0].0, v[0].1), flat_rows(upsert_group(rest, g, m, c, tick)));
        lemma_totals_concat(group_rows(v[0].0, v[0].1), flat_rows(rest));
    }
}

/// The totals account for every record read: reading a list of
/// contributions (each overflowing nothing, each to a different model) into
/// group `g` raises the column sums of the report by exactly their counts.
pub proof fn lemma_totals_after_contributions(v: GroupsView, g: Seq<char>, cs: Seq<ContributionView>)
    requires
        groups_sorted(v),
        forall|i: int, j: int| 0 <= i < j < cs.len() ==> cs[i].0 != cs[j].0,
        forall|k: int| 0 <= k < cs.len() ==> contribution_fits(v, g, #[trigger] cs[k].0, cs[k].1),
    ensures
        totals_of(flat_rows(apply_contributions(v, g, cs))) == totals_add(totals_of(flat_rows(v)), contributed_totals(cs)),
    decreases cs.len(),
{
    if cs.len() == 0 {
    } else {
        let v1 = upsert_group(v, g, cs[0].0, cs[0].1, cs[0].2);
        let rest = cs.drop_first();
        lemma_totals_upsert_group(v, g, cs[0].0, cs[0].1, cs[0].2);
        lemma_upsert_group_sorted(v, g, cs[0].0, cs[0].1, cs[0].2);
        assert forall|k: int| 0 <= k < rest.len() implies contribution_fits(v1, g, #[trigger] rest[k].0, rest[k].1) by {
            assert(rest[k] == cs[k + 1]);
            lemma_tally_at_upsert(v, g, cs[0].0, cs[0].1, cs[0].2, g, cs[k + 1].0);
        }
        assert forall|i: int, j: int| 0 <= i < j < rest.len() implies rest[i].0 != rest[j].0 by {
            assert(rest[i] == cs[i + 1]);
            assert(rest[j] == cs[j + 1]);
        }
        lemma_totals_after_contributions(v1, g, rest);
    }
}

/// Reading one record raises the report's column sums by exactly the counts
/// that the record carries, and by nothing when the record is not selected.
pub proof fn lemma_totals_after_line(v: GroupsView, line: Json, cutoff: Option<u64>, g: Seq<char>)
    requires
        groups_sorted(v),
        line_fits(v, line, cutoff, g),
    ensures
        totals_of(flat_rows(ingested(v, line, cutoff, g))) == if line_selected(line, cutoff) {
            totals_add(totals_of(flat_rows(v)), contributed_totals(contributions(usage_block(line).unwrap())))
        } else {
            totals_of(flat_rows(v))
        },
{
    if line_selected(line, cutoff) {
        let usage = usage_block(line).unwrap();
        lemma_contributions_distinct(usage);
        lemma_totals_after_contributions(v, g, contributions(usage));
    }
}

proof fn lemma_flat_rows_step(v: GroupsView, i: int)
    requires
        0 <= i < v.len(),
    ensures
        flat_rows(v.take(i + 1)) == flat_rows(v.take(i)) + group_rows(v[i].0, v[i].1),
{
    assert(v.take(i + 1).drop_last() =~= v.take(i));
}

proof fn lemma_flat_rows_prefix(v: GroupsView, i: int)
    requires
        0 <= i <= v.len(),
    ensures
        flat_rows(v.take(i)).len() <= flat_rows(v).len(),
        flat_rows(v).take(flat_rows(v.take(i)).len() as int) == flat_rows(v.take(i)),
    decreases v.len() - i,
{
    if i == v.len() {
        assert(v.take(i) =~= v);
        assert(flat_rows(v).take(flat_rows(v).len() as int) =~= flat_rows(v));
    } else {
        lemma_flat_rows_prefix(v, i + 1);
        lemma_flat_rows_step(v, i);
        let a = flat_rows(v.take(i));
        let b = flat_rows(v.take(i + 1));
        assert(b.take(a.len() as int) =~= a);
        assert(flat_rows(v).take(a.len() as int) =~= flat_rows(v).take(b.len() as int).take(a.len() as int));
    }
}

/// Column sums only grow as rows are added.
proof fn lemma_totals_prefix(rows: Seq<RowView>, n: int)
    requires
        0 <= n <= rows.len(),
    ensures
        ({
            let p = totals_of(rows.take(n));
            let t = totals_of(rows);
            &&& p.input <= t.input
            &&& p.output <= t.output
            &&& p.cache_read <= t.cache_read
            &&& p.cache_write <= t.cache_write
            &&& p.reasoning <= t.reasoning
            &&& p.calls <= t.calls
            &&& p.api_ms <= t.api_ms
        }),
    decreases rows.len(),
{
    if n == rows.len() {
        assert(rows.take(n) =~= rows);
    } else {
        lemma_totals_prefix(rows.drop_last(), n);
        assert(rows.drop_last().take(n) =~= rows.take(n));
    }
}

proof fn lemma_totals_push(rows: Seq<RowView>, r: RowView)
    ensures
        totals_of(rows.push(r)) == add_row(totals_of(rows), r.2.counts),
{
    assert(rows.push(r).drop_last() =~= rows);
}

/// The column sums of the whole report, or `None` when one of them does not
/// fit in 64 bits.
pub fn grand_totals(groups: &UsageGroups) -> (r: Option<UsageCounts>)
    ensures
        ({
            let t = totals_of(flat_rows(groups@));
            &&& r is Some <==> totals_fit(t)
            &&& r matches Some(c) ==> {
                &&& c.input_tokens == t.input
                &&& c.output_tokens == t.output
                &&& c.cache_read_tokens == t.cache_read
                &&& c.cache_write_tokens == t.cache_write
                &&& c.reasoning_tokens == t.reasoning
                &&& c.model_calls == t.calls
                &&& c.api_ms == t.api_ms
            }
        }),
{
    let rows = groups.rows();
    let ghost v = groups@;
    let ghost all = flat_rows(v);
    let mut acc = UsageCounts {
        input_tokens: 0,
        output_tokens: 0,
        cache_read_tokens: 0,
        cache_write_tokens: 0,
        reasoning_tokens: 0,
        model_calls: 0,
        api_ms: 0,
    };
    let mut i: usize = 0;
    proof {
        assert(v.take(0) =~= Seq::<(Seq<char>, ModelsView)>::empty());
    }
    while i < rows.len()
        invariant
            i <= rows@.len(),
            v == groups_view(rows@),
            all == flat_rows(v),
            v == groups@,
            ({
                let t = totals_of(flat_rows(v.take(i as int)));
                &&& acc.input_tokens == t.input
                &&& acc.output_tokens == t.output
                &&& acc.cache_read_tokens == t.cache_read
                &&& acc.cache_write_tokens == t.cache_write
                &&& acc.reasoning_tokens == t.reasoning
                &&& acc.model_calls == t.calls
                &&& acc.api_ms == t.api_ms
            }),
        decreases rows@.len() - i,
    {
        let ms = &rows[i].models;
        let ghost g = v[i as int];
        let ghost base = flat_rows(v.take(i as int));
        let mut j: usize = 0;
        proof {
            assert(g == rows@[i as int]@);
            assert(group_rows(g.0, g.1).take(0) =~= Seq::<RowView>::empty());
            assert(base + group_rows(g.0, g.1).take(0) =~= base);
        }
        while j < ms.len()
            invariant
                i < rows@.len(),
                j <= ms@.len(),
                v == groups_view(rows@),
                all == flat_rows(v),
                v == groups@,
                g == v[i as int],
                g.1 == models_view(ms@),
                base == flat_rows(v.take(i as int)),
                ({
                    let t = totals_of(base + group_rows(g.0, g.1).take(j as int));
                    &&& acc.input_tokens == t.input
                    &&& acc.output_tokens == t.output
                    &&& acc.cache_read_tokens == t.cache_read
                    &&& acc.cache_write_tokens == t.cache_write
                    &&& acc.reasoning_tokens == t.reasoning
                    &&& acc.model_calls == t.calls
                    &&& acc.api_ms == t.api_ms
                }),
            decreases ms@.len() - j,
        {
            let c = ms[j].tally.counts;
            let ghost pre = base + group_rows(g.0, g.1).take(j as int);
            let ghost row = group_rows(g.0, g.1)[j as int];
            proof {
                assert(row.2.counts == c);
                assert(pre.push(row) =~= base + group_rows(g.0, g.1).take(j + 1));
                lemma_totals_push(pre, row);
                lemma_flat_rows_step(v, i as int);
                lemma_flat_rows_prefix(v, i + 1);
                let upto = flat_rows(v.take(i + 1));
                assert(upto == base + group_rows(g.0, g.1));
                assert(upto.take(pre.len() as int + 1) =~= pre.push(row));
                lemma_totals_prefix(upto, pre.len() as int + 1);
                lemma_totals_prefix(all, upto.len() as int);
                assert(all.take(upto.len() as int) == upto);
                assert(upto.take(upto.len() as int) =~= upto);
            }
            if acc.input_tokens > u64::MAX - c.input_tokens || acc.output_tokens > u64::MAX
                - c.output_tokens || acc.cache_read_tokens > u64::MAX - c.cache_read_tokens
                || acc.cache_write_tokens > u64::MAX - c.cache_write_tokens || acc.reasoning_tokens
                > u64::MAX - c.reasoning_tokens || acc.model_calls > u64::MAX - c.model_calls
                || acc.api_ms > u64::MAX - c.api_ms {
                return None;
            }
            acc = UsageCounts {
                input_tokens: acc.input_tokens + c.input_tokens,
                output_tokens: acc.output_tokens + c.output_tokens,
                cache_read_tokens: acc.cache_read_tokens + c.cache_read_tokens,
                cache_write_tokens: acc.cache_write_tokens + c.cache_write_tokens,
                reasoning_tokens: acc.reasoning_tokens + c.reasoning_tokens,
                model_calls: acc.model_calls + c.model_calls,
                api_ms: acc.api_ms + c.api_ms,
            };
            j = j + 1;
        }
        proof {
            lemma_flat_rows_step(v, i as int);
            assert(group_rows(g.0, g.1).take(j as int) =~= group_rows(g.0, g.1));
        }
        i = i + 1;
    }
    proof {
        assert(v.take(i as int) =~= v);
    }
    Some(acc)
}

fn group_width_exec(by: UsageGroupBy) -> (w: usize)
    ensures
        w == group_width(by),
{
    match by {
        UsageGroupBy::Day => 12,
        UsageGroupBy::Session => 20,
        UsageGroupBy::Model => 24,
    }
}

fn push_lead_cols(out: &mut String, by: UsageGroupBy, group: &str, model: &str)
    ensures
        final(out)@ == old(out)@ + lead_cols(by, group@, model@),
{
    match by {
        UsageGroupBy::Model => {
            push_pad_right(out, model, 24);
        },
        _ => {
            push_pad_right(out, group, group_width_exec(by));
            push_char(out, ' ');
            push_pad_right(out, model, 24);
            proof {
                assert(final(out)@ =~= old(out)@ + lead_cols(by, group@, model@));
            }
        },
    }
}

fn push_right_col(out: &mut String, s: &str, w: usize)
    ensures
        final(out)@ == old(out)@ + right_col(s@, w as nat),
{
    push_char(out, ' ');
    push_pad_left(out, s, w);
    proof {
        assert(final(out)@ =~= old(out)@ + right_col(s@, w as nat));
    }
}

fn push_tail_cols(
    out: &mut String,
    input: &str,
    output: &str,
    cache_read: &str,
    cache_write: &str,
    calls: &str,
    cost: &str,
)
    ensures
        final(out)@ == old(out)@ + tail_cols(input@, output@, cache_read@, cache_write@, calls@, cost@),
{
    let ghost o = out@;
    let ghost c1 = right_col(input@, 9);
    let ghost c2 = right_col(output@, 8);
    let ghost c3 = right_col(cache_read@, 9);
    let ghost c4 = right_col(cache_write@, 9);
    let ghost c5 = right_col(calls@, 6);
    let ghost c6 = right_col(cost@, 9);
    push_right_col(out, input, 9);
    push_right_col(out, output, 8);
    proof {
        assert(out@ =~= o + (c1 + c2));
    }
    push_right_col(out, cache_read, 9);
    proof {
        assert(out@ =~= o + (c1 + c2 + c3));
    }
    push_right_col(out, cache_write, 9);
    proof {
        assert(out@ =~= o + (c1 + c2 + c3 + c4));
    }
    push_right_col(out, calls, 6);
    proof {
        assert(out@ =~= o + (c1 + c2 + c3 + c4 + c5));
    }
    push_right_col(out, cost, 9);
    proof {
        assert(out@ =~= o + (c1 + c2 + c3 + c4 + c5 + c6));
    }
}

/// The header line.
pub fn header_text(by: UsageGroupBy) -> (r: String)
    ensures
        r@ == header_line(by),
{
    let label = match by {
        UsageGroupBy::Day => "DAY",
        UsageGroupBy::Session => "SESSION",
        UsageGroupBy::Model => "MODEL",
    };
    let mut out = String::new();
    push_lead_cols(&mut out, by, label, "MODEL");
    push_tail_cols(&mut out, "INPUT", "OUTPUT", "CACHE-R", "CACHE-W", "CALLS", "COST");
    proof {
        assert(out@ =~= header_line(by));
    }
    out
}

/// The cost column of row `k`.
pub fn cost_cell_text(costs: &Vec<Option<String>>, k: usize) -> (r: String)
    ensures
        r@ == cost_cell(costs@, k as int),
{
    if k < costs.len() {
        match &costs[k] {
            Some(amount) => {
                let mut out = String::new();
                push_char(&mut out, '$');
                out.append(amount.as_str());
                proof {
                    assert(out@ =~= cost_cell(costs@, k as int));
                }
                out
            },
            None => String::from_str("-"),
        }
    } else {
        String::from_str("-")
    }
}

/// The line of one row.
pub fn row_text(by: UsageGroupBy, group: &str, model: &str, tally: &crate::usage::ModelTally, cost: &str) -> (r: String)
    ensures
        r@ == row_line(by, (group@, model@, tally@), cost@),
{
    let c = tally.counts;
    let g = truncate(group, group_width_exec(by));
    let m = truncate(model, 24);
    let mut out = String::new();
    push_lead_cols(&mut out, by, g.as_str(), m.as_str());
    let input = fmt_tokens(c.input_tokens);
    let output = fmt_tokens(c.output_tokens);
    let cache_read = fmt_tokens(c.cache_read_tokens);
    let cache_write = fmt_tokens(c.cache_write_tokens);
    let calls = decimal_string(c.model_calls as u128);
    push_tail_cols(
        &mut out,
        input.as_str(),
        output.as_str(),
        cache_read.as_str(),
        cache_write.as_str(),
        calls.as_str(),
        cost,
    );
    proof {
        assert(out@ =~= row_line(by, (group@, model@, tally@), cost@));
    }
    out
}

/// The separator line.
pub fn separator_text() -> (r: String)
    ensures
        r@ == separator_line(),
{
    let mut out = String::new();
    let mut i: usize = 0;
    while i < 96
        invariant
            i <= 96,
            out@ == Seq::new(i as nat, |k: int| '-'),
        decreases 96 - i,
    {
        push_char(&mut out, '-');
        i = i + 1;
        proof {
            assert(out@ =~= Seq::new(i as nat, |k: int| '-'));
        }
    }
    out
}

/// The report as text lines, ready to print one per line.
pub fn render_table(
    groups: &UsageGroups,
    by: UsageGroupBy,
    costs: &Vec<Option<String>>,
    total_cost: &str,
    api_avg: &str,
) -> (lines: Vec<String>)
    requires
        totals_fit(totals_of(flat_rows(groups@))),
    ensures
        lines@.map_values(|l: String| l@) == table_lines(by, groups@, costs@, total_cost@, api_avg@),
{
    let rows = groups.rows();
    let ghost v = groups@;
    let ghost all = flat_rows(v);
    let mut lines: Vec<String> = Vec::new();
    lines.push(header_text(by));
    let mut known = true;
    let mut i: usize = 0;
    proof {
        assert(v.take(0) =~= Seq::<(Seq<char>, ModelsView)>::empty());
    }
    while i < rows.len()
        invariant
            i <= rows@.len(),
            v == groups_view(rows@),
            v == groups@,
            all == flat_rows(v),
            lines@.len() == flat_rows(v.take(i as int)).len() + 1,
            lines@[0]@ == header_line(by),
            forall|q: int|
                0 <= q < flat_rows(v.take(i as int)).len() ==> #[trigger] lines@[q + 1]@ == row_line(
                    by,
                    flat_rows(v.take(i as int))[q],
                    cost_cell(costs@, q),
                ),
            known == all_costs_known(costs@, flat_rows(v.take(i as int)).len()),
        decreases rows@.len() - i,
    {
        let key = &rows[i].key;
        let ms = &rows[i].models;
        let ghost g = v[i as int];
        let ghost base = flat_rows(v.take(i as int));
        let mut j: usize = 0;
        proof {
            assert(g == rows@[i as int]@);
            assert(group_rows(g.0, g.1).take(0) =~= Seq::<RowView>::empty());
            assert(base + group_rows(g.0, g.1).take(0) =~= base);
        }
        while j < ms.len()
            invariant
                i < rows@.len(),
                j <= ms@.len(),
                v == groups_view(rows@),
                g == v[i as int],
                g.0 == key@,
                g.1 == models_view(ms@),
                base == flat_rows(v.take(i as int)),
                lines@.len() == (base + group_rows(g.0, g.1).take(j as int)).len() + 1,
                lines@[0]@ == header_line(by),
                forall|q: int|
                    0 <= q < (base + group_rows(g.0, g.1).take(j as int)).len() ==> #[trigger] lines@[q
                        + 1]@ == row_line(
                        by,
                        (base + group_rows(g.0, g.1).take(j as int))[q],
                        cost_cell(costs@, q),
                    ),
                known == all_costs_known(costs@, (base + group_rows(g.0, g.1).take(j as int)).len()),
            decreases ms@.len() - j,
        {
            let ghost pre = base + group_rows(g.0, g.1).take(j as int);
            let ghost row = group_rows(g.0, g.1)[j as int];
            let k: usize = lines.len() - 1;
            let cost = cost_cell_text(costs, k);
            if k >= costs.len() || costs[k].is_none() {
                known = false;
            }
            let line = row_text(by, key.as_str(), ms[j].model.as_str(), &ms[j].tally, cost.as_str());
            proof {
                assert(row == (key@, ms@[j as int].model@, ms@[j as int].tally@));
            }
            lines.push(line);
            proof {
                let post = base + group_rows(g.0, g.1).take(j + 1);
                assert(post =~= pre.push(row));
                assert forall|q: int| 0 <= q < post.len() implies #[trigger] lines@[q + 1]@ == row_line(by, post[q], cost_cell(costs@, q)) by {
                    if q < pre.len() {
                        assert(post[q] == pre[q]);
                    }
                }
                if known {
                    assert forall|q: int| 0 <= q < post.len() implies #[trigger] cost_text(costs@, q) is Some by {
                        if q < pre.len() {
                            assert(all_costs_known(costs@, pre.len()));
                        }
                    }
                } else {
                    if all_costs_known(costs@, post.len()) {
                        assert(cost_text(costs@, k as int) is Some);
                        if all_costs_known(costs@, pre.len()) {
                        } else {
                            assert forall|q: int| 0 <= q < pre.len() implies #[trigger] cost_text(costs@, q) is Some by {
                            }
                        }
                    }
                }
            }
            j = j + 1;
        }
        proof {
            lemma_flat_rows_step(v, i as int);
            assert(group_rows(g.0, g.1).take(j as int) =~= group_rows(g.0, g.1));
        }
        i = i + 1;
    }
    proof {
        assert(v.take(i as int) =~= v);
    }
    let ghost body_lines = lines@.map_values(|l: String| l@);
    proof {
        let expected = seq![header_line(by)] + Seq::new(all.len(), |k: int| row_line(by, all[k], cost_cell(costs@, k)));
        assert forall|q: int| 0 <= q < body_lines.len() implies body_lines[q] == expected[q] by {
            if q > 0 {
                let p = q - 1;
                assert(lines@[p + 1]@ == row_line(by, all[p], cost_cell(costs@, p)));
            }
        }
        assert(body_lines =~= expected);
    }
    let t = grand_totals(groups).unwrap();
    lines.push(separator_text());
    let mut total = String::new();
    match by {
        UsageGroupBy::Model => {
            push_pad_right(&mut total, "TOTAL", 24);
        },
        _ => {
            push_lead_cols(&mut total, by, "TOTAL", "");
        },
    }
    let mut cost = String::new();
    push_char(&mut cost, '$');
    cost.append(total_cost);
    if !known {
        push_char(&mut cost, '+');
    }
    let input = fmt_tokens(t.input_tokens);
    let output = fmt_tokens(t.output_tokens);
    let cache_read = fmt_tokens(t.cache_read_tokens);
    let cache_write = fmt_tokens(t.cache_write_tokens);
    let calls = decimal_string(t.model_calls as u128);
    push_tail_cols(
        &mut total,
        input.as_str(),
        output.as_str(),
        cache_read.as_str(),
        cache_write.as_str(),
        calls.as_str(),
        cost.as_str(),
    );
    let ghost tt = totals_of(all);
    proof {
        assert(cost@ =~= total_cost_cell(total_cost@, known));
        assert(total@ =~= total_line(by, tt, total_cost_cell(total_cost@, known)));
    }
    lines.push(total);
    if t.api_ms > 0 && t.model_calls > 0 {
        let mut api = String::new();
        api.append("\nAPI time: ");
        let d = fmt_duration(t.api_ms);
        api.append(d.as_str());
        api.append(" across ");
        push_decimal(&mut api, t.model_calls as u128);
        api.append(" calls (avg ");
        api.append(api_avg);
        api.append("s/call)");
        proof {
            assert(api@ =~= api_line(tt, api_avg@));
        }
        lines.push(api);
    }
    proof {
        assert(lines@.map_values(|l: String| l@) =~= table_lines(by, groups@, costs@, total_cost@, api_avg@));
    }
    lines
}


/// The width of the group and model columns together, before the number
/// columns.
pub open spec fn lead_width(by: UsageGroupBy) -> nat {
    if by == UsageGroupBy::Model {
        24
    } else {
        group_width(by) + 25
    }
}

/// In lines `above` and `below`, the column of width `w` (after its
/// separating space) starting at `start` shows `title` in `above` and `cell`
/// in `below`, both right-aligned.
pub open spec fn stands_under(above: Seq<char>, below: Seq<char>, start: int, w: nat, title: Seq<char>, cell: Seq<char>) -> bool {
    &&& above.subrange(start, start + w + 1) == right_col(title, w)
    &&& below.subrange(start, start + w + 1) == right_col(cell, w)
}

proof fn lemma_pad_right_len(s: Seq<char>, w: nat)
    requires
        s.len() <= w,
    ensures
        pad_right(s, w).len() == w,
{
}

proof fn lemma_right_col_len(s: Seq<char>, w: nat)
    requires
        s.len() <= w,
    ensures
        right_col(s, w).len() == w + 1,
{
}

proof fn lemma_lead_len(by: UsageGroupBy, g: Seq<char>, m: Seq<char>)
    requires
        g.len() <= group_width(by),
        m.len() <= 24,
    ensures
        lead_cols(by, g, m).len() == lead_width(by),
{
    lemma_pad_right_len(m, 24);
    if by != UsageGroupBy::Model {
        lemma_pad_right_len(g, group_width(by));
    }
}

/// Where each cell of the number columns sits, when the cells fit.
proof fn lemma_tail_cells(
    lead: Seq<char>,
    a: Seq<char>,
    b: Seq<char>,
    c: Seq<char>,
    d: Seq<char>,
    e: Seq<char>,
    f: Seq<char>,
)
    requires
        a.len() <= 9,
        b.len() <= 8,
        c.len() <= 9,
        d.len() <= 9,
        e.len() <= 6,
        f.len() <= 9,
    ensures
        ({
            let l = lead + tail_cols(a, b, c, d, e, f);
            let o = lead.len() as int;
            &&& l.len() == o + 56
            &&& l.subrange(o, o + 10) == right_col(a, 9)
            &&& l.subrange(o + 10, o + 19) == right_col(b, 8)
            &&& l.subrange(o + 19, o + 29) == right_col(c, 9)
            &&& l.subrange(o + 29, o + 39) == right_col(d, 9)
            &&& l.subrange(o + 39, o + 46) == right_col(e, 6)
            &&& l.subrange(o + 46, o + 56) == right_col(f, 9)
        }),
{
    lemma_right_col_len(a, 9);
    lemma_right_col_len(b, 8);
    lemma_right_col_len(c, 9);
    lemma_right_col_len(d, 9);
    lemma_right_col_len(e, 6);
    lemma_right_col_len(f, 9);
    let ra = right_col(a, 9);
    let rb = right_col(b, 8);
    let rc = right_col(c, 9);
    let rd = right_col(d, 9);
    let re = right_col(e, 6);
    let rf = right_col(f, 9);
    let l = lead + tail_cols(a, b, c, d, e, f);
    let o = lead.len() as int;
    assert(l =~= lead + ra + rb + rc + rd + re + rf);
    assert(l.subrange(o, o + 10) =~= ra);
    assert(l.subrange(o + 10, o + 19) =~= rb);
    assert(l.subrange(o + 19, o + 29) =~= rc);
    assert(l.subrange(o + 29, o + 39) =~= rd);
    assert(l.subrange(o + 39, o + 46) =~= re);
    assert(l.subrange(o + 46, o + 56) =~= rf);
}

/// Each cell of a row stands under its column's title in the header: the
/// input count under INPUT, the output count under OUTPUT, the cache-read
/// count under CACHE-R, the cache-write count under CACHE-W, the calls under
/// CALLS and the cost under COST, so long as the cells fit their columns.
pub proof fn lemma_row_cells_under_titles(by: UsageGroupBy, row: RowView, cost: Seq<char>)
    requires
        tokens_text(row.2.counts.input_tokens as nat).len() <= 9,
        tokens_text(row.2.counts.output_tokens as nat).len() <= 8,
        tokens_text(row.2.counts.cache_read_tokens as nat).len() <= 9,
        tokens_text(row.2.counts.cache_write_tokens as nat).len() <= 9,
        decimal(row.2.counts.model_calls as nat).len() <= 6,
        cost.len() <= 9,
    ensures
        ({
            let h = header_line(by);
            let l = row_line(by, row, cost);
            let c = row.2.counts;
            let o = lead_width(by) as int;
            &&& h.len() == l.len()
            &&& stands_under(h, l, o, 9, "INPUT"@, tokens_text(c.input_tokens as nat))
            &&& stands_under(h, l, o + 10, 8, "OUTPUT"@, tokens_text(c.output_tokens as nat))
            &&& stands_under(h, l, o + 19, 9, "CACHE-R"@, tokens_text(c.cache_read_tokens as nat))
            &&& stands_under(h, l, o + 29, 9, "CACHE-W"@, tokens_text(c.cache_write_tokens as nat))
            &&& stands_under(h, l, o + 39, 6, "CALLS"@, decimal(c.model_calls as nat))
            &&& stands_under(h, l, o + 46, 9, "COST"@, cost)
        }),
{
    reveal_strlit("DAY");
    reveal_strlit("SESSION");
    reveal_strlit("MODEL");
    reveal_strlit("INPUT");
    reveal_strlit("OUTPUT");
    reveal_strlit("CACHE-R");
    reveal_strlit("CACHE-W");
    reveal_strlit("CALLS");
    reveal_strlit("COST");
    let c = row.2.counts;
    lemma_truncated_width(row.0, group_width(by));
    lemma_truncated_width(row.1, 24);
    lemma_lead_len(by, group_label(by), "MODEL"@);
    lemma_lead_len(by, truncated(row.0, group_width(by)), truncated(row.1, 24));
    lemma_tail_cells(
        lead_cols(by, group_label(by), "MODEL"@),
        "INPUT"@,
        "OUTPUT"@,
        "CACHE-R"@,
        "CACHE-W"@,
        "CALLS"@,
        "COST"@,
    );
    lemma_tail_cells(
        lead_cols(by, truncated(row.0, group_width(by)), truncated(row.1, 24)),
        tokens_text(c.input_tokens as nat),
        tokens_text(c.output_tokens as nat),
        tokens_text(c.cache_read_tokens as nat),
        tokens_text(c.cache_write_tokens as nat),
        decimal(c.model_calls as nat),
        cost,
    );
}

} // verus!

//! Per-group, per-model usage tallies, kept as sorted maps: groups by key,
//! and inside each group the models by name, both in `text_lt` order with
//! every key once.

use crate::json::str_eq;
use crate::order::{
    lemma_text_lt_irreflexive, lemma_text_lt_total, lemma_text_lt_transitive, str_lt, text_lt,
};
use vstd::prelude::*;

verus! {

/// How records are grouped.
#[derive(Clone, Copy, Debug, PartialEq, Eq)]
pub enum UsageGroupBy {
    /// Per local calendar day.
    Day,
    /// Per session.
    Session,
    /// One group for everything: per model only.
    Model,
}

/// Options of the usage command.
#[derive(Clone, Copy, Debug)]
pub struct UsageArgs {
    /// Aggregate per calendar day (default), per session, or per model only.
    pub by: UsageGroupBy,
    /// Only include records from the last N days (default: all).
    pub since: Option<u32>,
    /// Emit machine-readable JSON instead of a table.
    pub json: bool,
}

/// The token and call counts of one usage record (or a sum of records).
#[derive(Clone, Copy, Debug, Default, PartialEq, Eq)]
pub struct UsageCounts {
    pub input_tokens: u64,
    pub output_tokens: u64,
    pub cache_read_tokens: u64,
    pub cache_write_tokens: u64,
    pub reasoning_tokens: u64,
    pub model_calls: u64,
    pub api_ms: u64,
}

/// All counts zero.
pub open spec fn zero_counts() -> UsageCounts {
    UsageCounts {
        input_tokens: 0,
        output_tokens: 0,
        cache_read_tokens: 0,
        cache_write_tokens: 0,
        reasoning_tokens: 0,
        model_calls: 0,
        api_ms: 0,
    }
}

/// Every field of `a + b` fits in 64 bits.
pub open spec fn counts_fit(a: UsageCounts, b: UsageCounts) -> bool {
    &&& a.input_tokens + b.input_tokens <= u64::MAX
    &&& a.output_tokens + b.output_tokens <= u64::MAX
    &&& a.cache_read_tokens + b.cache_read_tokens <= u64::MAX
    &&& a.cache_write_tokens + b.cache_write_tokens <= u64::MAX
    &&& a.reasoning_tokens + b.reasoning_tokens <= u64::MAX
    &&& a.model_calls + b.model_calls <= u64::MAX
    &&& a.api_ms + b.api_ms <= u64::MAX
}

/// The field-wise sum of two counts.
pub open spec fn counts_add(a: UsageCounts, b: UsageCounts) -> UsageCounts {
    UsageCounts {
        input_tokens: (a.input_tokens + b.input_tokens) as u64,
        output_tokens: (a.output_tokens + b.output_tokens) as u64,
        cache_read_tokens: (a.cache_read_tokens + b.cache_read_tokens) as u64,
        cache_write_tokens: (a.cache_write_tokens + b.cache_write_tokens) as u64,
        reasoning_tokens: (a.reasoning_tokens + b.reasoning_tokens) as u64,
        model_calls: (a.model_calls + b.model_calls) as u64,
        api_ms: (a.api_ms + b.api_ms) as u64,
    }
}

/// The field-wise sum of two counts.
pub fn add_counts(a: UsageCounts, b: UsageCounts) -> (r: UsageCounts)
    requires
        counts_fit(a, b),
    ensures
        r == counts_add(a, b),
{
    UsageCounts {
        input_tokens: a.input_tokens + b.input_tokens,
        output_tokens: a.output_tokens + b.output_tokens,
        cache_read_tokens: a.cache_read_tokens + b.cache_read_tokens,
        cache_write_tokens: a.cache_write_tokens + b.cache_write_tokens,
        reasoning_tokens: a.reasoning_tokens + b.reasoning_tokens,
        model_calls: a.model_calls + b.model_calls,
        api_ms: a.api_ms + b.api_ms,
    }
}

/// Whether every field of `a + b` fits in 64 bits.
pub fn counts_fit_exec(a: UsageCounts, b: UsageCounts) -> (r: bool)
    ensures
        r == counts_fit(a, b),
{
    a.input_tokens <= u64::MAX - b.input_tokens && a.output_tokens <= u64::MAX - b.output_tokens
        && a.cache_read_tokens <= u64::MAX - b.cache_read_tokens && a.cache_write_tokens
        <= u64::MAX - b.cache_write_tokens && a.reasoning_tokens <= u64::MAX - b.reasoning_tokens
        && a.model_calls <= u64::MAX - b.model_calls && a.api_ms <= u64::MAX - b.api_ms
}

/// One model's tally: the summed counts, and the provider-reported costs of
/// its turns (in ticks of 10^-10 USD) in the order the records came.
pub struct ModelTally {
    pub counts: UsageCounts,
    pub self_reported_ticks: Vec<i64>,
}

/// A tally as contracts see it.
pub ghost struct TallyView {
    pub counts: UsageCounts,
    pub ticks: Seq<i64>,
}

impl View for ModelTally {
    type V = TallyView;

    open spec fn view(&self) -> TallyView {
        TallyView { counts: self.counts, ticks: self.self_reported_ticks@ }
    }
}

impl ModelTally {
    /// Input, output, cache-read and cache-write tokens together.
    pub fn total_tokens(&self) -> (r: u64)
        requires
            self.counts.input_tokens + self.counts.output_tokens + self.counts.cache_read_tokens
                + self.counts.cache_write_tokens <= u64::MAX,
        ensures
            r == self.counts.input_tokens + self.counts.output_tokens
                + self.counts.cache_read_tokens + self.counts.cache_write_tokens,
    {
        self.counts.input_tokens + self.counts.output_tokens + self.counts.cache_read_tokens
            + self.counts.cache_write_tokens
    }
}

/// A tally with nothing in it.
pub open spec fn fresh_tally() -> TallyView {
    TallyView { counts: zero_counts(), ticks: Seq::empty() }
}

/// `t` with one record's counts added and, when the record reported a cost
/// that belongs to this model, that cost appended.
pub open spec fn add_to_tally(t: TallyView, c: UsageCounts, tick: Option<i64>) -> TallyView {
    TallyView {
        counts: counts_add(t.counts, c),
        ticks: match tick {
            Some(k) => t.ticks.push(k),
            None => t.ticks,
        },
    }
}

/// A group's models as contracts see them.
pub type ModelsView = Seq<(Seq<char>, TallyView)>;

/// All groups as contracts see them.
pub type GroupsView = Seq<(Seq<char>, ModelsView)>;

/// `models[m] += (c, tick)` on a sorted map, a missing entry starting empty.
pub open spec fn upsert_model(models: ModelsView, m: Seq<char>, c: UsageCounts, tick: Option<i64>) -> ModelsView
    decreases models.len(),
{
    if models.len() == 0 {
        seq![(m, add_to_tally(fresh_tally(), c, tick))]
    } else if models[0].0 == m {
        seq![(m, add_to_tally(models[0].1, c, tick))] + models.drop_first()
    } else if text_lt(m, models[0].0) {
        seq![(m, add_to_tally(fresh_tally(), c, tick))] + models
    } else {
        seq![models[0]] + upsert_model(models.drop_first(), m, c, tick)
    }
}

/// `groups[g][m] += (c, tick)` on the sorted map of sorted maps.
pub open spec fn upsert_group(
    groups: GroupsView,
    g: Seq<char>,
    m: Seq<char>,
    c: UsageCounts,
    tick: Option<i64>,
) -> GroupsView
    decreases groups.len(),
{
    if groups.len() == 0 {
        seq![(g, upsert_model(Seq::empty(), m, c, tick))]
    } else if groups[0].0 == g {
        seq![(g, upsert_model(groups[0].1, m, c, tick))] + groups.drop_first()
    } else if text_lt(g, groups[0].0) {
        seq![(g, upsert_model(Seq::empty(), m, c, tick))] + groups
    } else {
        seq![groups[0]] + upsert_group(groups.drop_first(), g, m, c, tick)
    }
}

/// The tally of model `m`, if the map has one.
pub open spec fn tally_of(models: ModelsView, m: Seq<char>) -> Option<TallyView>
    decreases models.len(),
{
    if models.len() == 0 {
        None
    } else if models[0].0 == m {
        Some(models[0].1)
    } else {
        tally_of(models.drop_first(), m)
    }
}

/// The models of group `g`, if there is such a group.
pub open spec fn models_of(groups: GroupsView, g: Seq<char>) -> Option<ModelsView>
    decreases groups.len(),
{
    if groups.len() == 0 {
        None
    } else if groups[0].0 == g {
        Some(groups[0].1)
    } else {
        models_of(groups.drop_first(), g)
    }
}

/// The tally of model `m` in group `g`, if there is one.
pub open spec fn tally_at(groups: GroupsView, g: Seq<char>, m: Seq<char>) -> Option<TallyView> {
    match models_of(groups, g) {
        Some(models) => tally_of(models, m),
        None => None,
    }
}

/// Adding `c` to `groups[g][m]` overflows no counter.
pub open spec fn contribution_fits(groups: GroupsView, g: Seq<char>, m: Seq<char>, c: UsageCounts) -> bool {
    match tally_at(groups, g, m) {
        Some(t) => counts_fit(t.counts, c),
        None => true,
    }
}

/// Keys strictly ascending: a sorted map with every key once.
pub open spec fn models_sorted(models: ModelsView) -> bool {
    forall|i: int, j: int| 0 <= i < j < models.len() ==> text_lt(models[i].0, models[j].0)
}

/// Groups strictly ascending, and each group's models too.
pub open spec fn groups_sorted(groups: GroupsView) -> bool {
    &&& forall|i: int, j: int| 0 <= i < j < groups.len() ==> text_lt(groups[i].0, groups[j].0)
    &&& forall|i: int| 0 <= i < groups.len() ==> models_sorted(#[trigger] groups[i].1)
}

/// One model's row in a group.
pub struct ModelRow {
    pub model: String,
    pub tally: ModelTally,
}

impl View for ModelRow {
    type V = (Seq<char>, TallyView);

    open spec fn view(&self) -> (Seq<char>, TallyView) {
        (self.model@, self.tally@)
    }
}

/// The view of a list of model rows.
pub open spec fn models_view(rows: Seq<ModelRow>) -> ModelsView {
    rows.map_values(|r: ModelRow| r@)
}

/// One group of the report.
pub struct GroupRow {
    pub key: String,
    pub models: Vec<ModelRow>,
}

impl View for GroupRow {
    type V = (Seq<char>, ModelsView);

    open spec fn view(&self) -> (Seq<char>, ModelsView) {
        (self.key@, models_view(self.models@))
    }
}

/// The view of a list of groups.
pub open spec fn groups_view(rows: Seq<GroupRow>) -> GroupsView {
    rows.map_values(|r: GroupRow| r@)
}

/// Usage tallies by group key, then by model: a sorted map of sorted maps.
pub struct UsageGroups {
    groups: Vec<GroupRow>,
}

impl View for UsageGroups {
    type V = GroupsView;

    closed spec fn view(&self) -> GroupsView {
        groups_view(self.groups@)
    }
}

impl UsageGroups {
    #[verifier::type_invariant]
    closed spec fn sorted(&self) -> bool {
        groups_sorted(self@)
    }
}

/// `t`, or an empty tally where there is none.
pub open spec fn tally_or_fresh(t: Option<TallyView>) -> TallyView {
    match t {
        Some(x) => x,
        None => fresh_tally(),
    }
}

/// `ms`, or no models where there is no group.
pub open spec fn models_or_empty(ms: Option<ModelsView>) -> ModelsView {
    match ms {
        Some(x) => x,
        None => Seq::empty(),
    }
}

/// Every key of `models` sorts after `b`.
pub open spec fn models_above(b: Seq<char>, models: ModelsView) -> bool {
    forall|j: int| 0 <= j < models.len() ==> text_lt(b, #[trigger] models[j].0)
}

/// Every key of `groups` sorts after `b`.
pub open spec fn groups_above(b: Seq<char>, groups: GroupsView) -> bool {
    forall|j: int| 0 <= j < groups.len() ==> text_lt(b, #[trigger] groups[j].0)
}

proof fn lemma_upsert_model_above(models: ModelsView, m: Seq<char>, c: UsageCounts, tick: Option<i64>, b: Seq<char>)
    requires
        models_above(b, models),
        text_lt(b, m),
    ensures
        models_above(b, upsert_model(models, m, c, tick)),
    decreases models.len(),
{
    let r = upsert_model(models, m, c, tick);
    if models.len() > 0 && models[0].0 != m && !text_lt(m, models[0].0) {
        lemma_upsert_model_above(models.drop_first(), m, c, tick, b);
        assert forall|j: int| 0 <= j < r.len() implies text_lt(b, #[trigger] r[j].0) by {
            if j > 0 {
                assert(r[j] == upsert_model(models.drop_first(), m, c, tick)[j - 1]);
            }
        }
    } else if models.len() > 0 && models[0].0 == m {
        assert forall|j: int| 0 <= j < r.len() implies text_lt(b, #[trigger] r[j].0) by {
            if j > 0 {
                assert(r[j] == models[j]);
            }
        }
    } else if models.len() > 0 {
        assert forall|j: int| 0 <= j < r.len() implies text_lt(b, #[trigger] r[j].0) by {
            if j > 0 {
                assert(r[j] == models[j - 1]);
            }
        }
    }
}

/// Adding to a sorted map of models keeps it sorted.
pub proof fn lemma_upsert_model_sorted(models: ModelsView, m: Seq<char>, c: UsageCounts, tick: Option<i64>)
    requires
        models_sorted(models),
    ensures
        models_sorted(upsert_model(models, m, c, tick)),
    decreases models.len(),
{
    let r = upsert_model(models, m, c, tick);
    if models.len() == 0 {
    } else if models[0].0 == m {
        assert forall|i: int, j: int| 0 <= i < j < r.len() implies text_lt(r[i].0, r[j].0) by {
            assert(r[i].0 == models[i].0);
            assert(r[j].0 == models[j].0);
        }
    } else if text_lt(m, models[0].0) {
        assert forall|i: int, j: int| 0 <= i < j < r.len() implies text_lt(r[i].0, r[j].0) by {
            if i == 0 {
                if j > 1 {
                    lemma_text_lt_transitive(m, models[0].0, models[j - 1].0);
                }
            } else {
                assert(r[i] == models[i - 1]);
            }
        }
    } else {
        let rest = models.drop_first();
        lemma_upsert_model_sorted(rest, m, c, tick);
        lemma_text_lt_total(m, models[0].0);
        assert(models_above(models[0].0, rest)) by {
            assert forall|j: int| 0 <= j < rest.len() implies text_lt(models[0].0, #[trigger] rest[j].0) by {
                assert(rest[j] == models[j + 1]);
            }
        }
        lemma_upsert_model_above(rest, m, c, tick, models[0].0);
        let ur = upsert_model(rest, m, c, tick);
        assert forall|i: int, j: int| 0 <= i < j < r.len() implies text_lt(r[i].0, r[j].0) by {
            if i == 0 {
                assert(r[j] == ur[j - 1]);
            } else {
                assert(r[i] == ur[i - 1]);
                assert(r[j] == ur[j - 1]);
            }
        }
    }
}

proof fn lemma_tally_of_absent(models: ModelsView, m: Seq<char>)
    requires
        forall|j: int| 0 <= j < models.len() ==> #[trigger] models[j].0 != m,
    ensures
        tally_of(models, m) is None,
    decreases models.len(),
{
    if models.len() > 0 {
        let rest = models.drop_first();
        assert forall|j: int| 0 <= j < rest.len() implies #[trigger] rest[j].0 != m by {
            assert(rest[j] == models[j + 1]);
        }
        lemma_tally_of_absent(rest, m);
    }
}

/// Reading a sorted map of models after adding to `m`: model `m` holds its
/// old tally (or an empty one) plus the record, every other model is
/// unchanged.
pub proof fn lemma_tally_of_upsert(models: ModelsView, m: Seq<char>, c: UsageCounts, tick: Option<i64>, m2: Seq<char>)
    requires
        models_sorted(models),
    ensures
        tally_of(upsert_model(models, m, c, tick), m2) == if m2 == m {
            Some(add_to_tally(tally_or_fresh(tally_of(models, m)), c, tick))
        } else {
            tally_of(models, m2)
        },
    decreases models.len(),
{
    let r = upsert_model(models, m, c, tick);
    if models.len() == 0 {
        assert(r.drop_first() =~= Seq::<(Seq<char>, TallyView)>::empty());
        assert(tally_of(r.drop_first(), m2) is None);
    } else if models[0].0 == m {
        assert(r.drop_first() =~= models.drop_first());
        assert(tally_of(models, m) == Some(models[0].1));
        if m2 != m {
            assert(tally_of(r, m2) == tally_of(models.drop_first(), m2));
        }
    } else if text_lt(m, models[0].0) {
        assert(r.drop_first() =~= models);
        assert forall|j: int| 0 <= j < models.len() implies #[trigger] models[j].0 != m by {
            if j > 0 {
                lemma_text_lt_transitive(m, models[0].0, models[j].0);
            }
            lemma_text_lt_irreflexive(m);
        }
        lemma_tally_of_absent(models, m);
    } else {
        let rest = models.drop_first();
        assert(models_sorted(rest)) by {
            assert forall|i: int, j: int| 0 <= i < j < rest.len() implies text_lt(rest[i].0, rest[j].0) by {
                assert(rest[i] == models[i + 1]);
                assert(rest[j] == models[j + 1]);
            }
        }
        lemma_tally_of_upsert(rest, m, c, tick, m2);
        assert(r.drop_first() =~= upsert_model(rest, m, c, tick));
        assert(r[0] == models[0]);
        assert(tally_of(models, m) == tally_of(rest, m));
        if models[0].0 == m2 {
            assert(tally_of(r, m2) == Some(models[0].1));
        } else {
            assert(tally_of(r, m2) == tally_of(upsert_model(rest, m, c, tick), m2));
            assert(tally_of(models, m2) == tally_of(rest, m2));
        }
    }
}

proof fn lemma_upsert_model_step(models: ModelsView, i: int, m: Seq<char>, c: UsageCounts, tick: Option<i64>)
    requires
        0 <= i < models.len(),
        models[i].0 != m,
        !text_lt(m, models[i].0),
    ensures
        upsert_model(models.skip(i), m, c, tick) == seq![models[i]] + upsert_model(models.skip(i + 1), m, c, tick),
        tally_of(models.skip(i), m) == tally_of(models.skip(i + 1), m),
{
    assert(models.skip(i).drop_first() =~= models.skip(i + 1));
}

proof fn lemma_upsert_group_step(groups: GroupsView, i: int, g: Seq<char>, m: Seq<char>, c: UsageCounts, tick: Option<i64>)
    requires
        0 <= i < groups.len(),
        groups[i].0 != g,
        !text_lt(g, groups[i].0),
    ensures
        upsert_group(groups.skip(i), g, m, c, tick) == seq![groups[i]] + upsert_group(groups.skip(i + 1), g, m, c, tick),
        models_of(groups.skip(i), g) == models_of(groups.skip(i + 1), g),
{
    assert(groups.skip(i).drop_first() =~= groups.skip(i + 1));
}

/// A tally holding one record.
fn new_tally(c: UsageCounts, tick: Option<i64>) -> (t: ModelTally)
    ensures
        t@ == add_to_tally(fresh_tally(), c, tick),
{
    let mut ticks: Vec<i64> = Vec::new();
    if let Some(k) = tick {
        ticks.push(k);
    }
    proof {
        assert(counts_add(zero_counts(), c) == c);
        assert(ticks@ =~= add_to_tally(fresh_tally(), c, tick).ticks);
    }
    ModelTally { counts: c, self_reported_ticks: ticks }
}

/// Adds one record to a tally.
fn add_record(t: &mut ModelTally, c: UsageCounts, tick: Option<i64>)
    requires
        counts_fit(old(t).counts, c),
    ensures
        final(t)@ == add_to_tally(old(t)@, c, tick),
{
    t.counts = add_counts(t.counts, c);
    if let Some(k) = tick {
        t.self_reported_ticks.push(k);
    }
}

/// `models[model] += (c, tick)`.
fn upsert_model_rows(models: &mut Vec<ModelRow>, model: &str, c: UsageCounts, tick: Option<i64>)
    requires
        match tally_of(models_view(old(models)@), model@) {
            Some(t) => counts_fit(t.counts, c),
            None => true,
        },
    ensures
        models_view(final(models)@) == upsert_model(models_view(old(models)@), model@, c, tick),
{
    let ghost old_v = models_view(models@);
    let mut i: usize = 0;
    proof {
        assert(old_v.skip(0) =~= old_v);
        assert(old_v.take(0) + old_v.skip(0) =~= old_v);
    }
    while i < models.len()
        invariant
            i <= models@.len(),
            models_view(models@) == old_v,
            old_v == models_view(old(models)@),
            upsert_model(old_v, model@, c, tick) == old_v.take(i as int) + upsert_model(old_v.skip(i as int), model@, c, tick),
            tally_of(old_v, model@) == tally_of(old_v.skip(i as int), model@),
            match tally_of(old_v, model@) {
                Some(t) => counts_fit(t.counts, c),
                None => true,
            },
        decreases models@.len() - i,
    {
        let same = str_eq(models[i].model.as_str(), model);
        if same {
            let mut row = models.remove(i);
            proof {
                assert(old_v.skip(i as int)[0] == old_v[i as int]);
                assert(row@ == old_v[i as int]);
            }
            add_record(&mut row.tally, c, tick);
            models.insert(i, row);
            proof {
                assert(old_v.skip(i as int).drop_first() =~= old_v.skip(i + 1));
                assert(models_view(models@) =~= old_v.take(i as int) + (seq![(model@, add_to_tally(old_v[i as int].1, c, tick))] + old_v.skip(i + 1)));
                assert(upsert_model(old_v.skip(i as int), model@, c, tick) == seq![(model@, add_to_tally(old_v[i as int].1, c, tick))] + old_v.skip(i + 1));
            }
            return;
        }
        let before = str_lt(model, models[i].model.as_str());
        if before {
            let t = new_tally(c, tick);
            let row = ModelRow { model: String::from_str(model), tally: t };
            models.insert(i, row);
            proof {
                assert(old_v.skip(i as int)[0] == old_v[i as int]);
                assert(models_view(models@) =~= old_v.take(i as int) + (seq![(model@, add_to_tally(fresh_tally(), c, tick))] + old_v.skip(i as int)));
                assert(upsert_model(old_v.skip(i as int), model@, c, tick) == seq![(model@, add_to_tally(fresh_tally(), c, tick))] + old_v.skip(i as int));
            }
            return;
        }
        proof {
            lemma_upsert_model_step(old_v, i as int, model@, c, tick);
            assert(old_v.take(i as int) + (seq![old_v[i as int]] + upsert_model(old_v.skip(i + 1), model@, c, tick)) =~= old_v.take(i + 1) + upsert_model(old_v.skip(i + 1), model@, c, tick));
        }
        i = i + 1;
    }
    let t = new_tally(c, tick);
    let row = ModelRow { model: String::from_str(model), tally: t };
    models.push(row);
    proof {
        assert(old_v.skip(i as int) =~= Seq::<(Seq<char>, TallyView)>::empty());
        assert(old_v.take(i as int) =~= old_v);
        assert(models_view(models@) =~= old_v + seq![(model@, add_to_tally(fresh_tally(), c, tick))]);
    }
}

impl UsageGroups {
    /// No groups yet.
    pub fn new() -> (r: Self)
        ensures
            r@ == Seq::<(Seq<char>, ModelsView)>::empty(),
    {
        let r = UsageGroups { groups: Vec::new() };
        proof {
            assert(r@ =~= Seq::<(Seq<char>, ModelsView)>::empty());
        }
        r
    }

    /// Whether there are no groups.
    pub fn is_empty(&self) -> (r: bool)
        ensures
            r == (self@.len() == 0),
    {
        self.groups.len() == 0
    }

    /// Adds one record's counts (and, when given, its reported cost) to
    /// `groups[group][model]`, creating missing entries empty.
    pub fn record(&mut self, group: &str, model: &str, c: UsageCounts, tick: Option<i64>)
        requires
            contribution_fits(old(self)@, group@, model@, c),
        ensures
            final(self)@ == upsert_group(old(self)@, group@, model@, c, tick),
            groups_sorted(old(self)@),
            groups_sorted(final(self)@),
    {
        proof {
            use_type_invariant(&*self);
        }
        let mut groups: Vec<GroupRow> = Vec::new();
        std::mem::swap(&mut groups, &mut self.groups);
        upsert_group_rows(&mut groups, group, model, c, tick);
        proof {
            lemma_upsert_group_sorted(old(self)@, group@, model@, c, tick);
        }
        self.groups = groups;
    }

    /// The tally of `model` in group `group`, if there is one.
    pub fn tally_of(&self, group: &str, model: &str) -> (r: Option<&ModelTally>)
        ensures
            r matches Some(t) ==> tally_at(self@, group@, model@) == Some(t@),
            r is None ==> tally_at(self@, group@, model@) is None,
    {
        let gs = &self.groups;
        let ghost v = self@;
        let mut i: usize = 0;
        proof {
            assert(v.skip(0) =~= v);
        }
        while i < gs.len()
            invariant
                i <= gs@.len(),
                v == groups_view(gs@),
                v == self@,
                models_of(v, group@) == models_of(v.skip(i as int), group@),
            decreases gs@.len() - i,
        {
            proof {
                assert(v.skip(i as int).drop_first() =~= v.skip(i + 1));
                assert(v.skip(i as int)[0] == gs@[i as int]@);
            }
            if str_eq(gs[i].key.as_str(), group) {
                let ms = &gs[i].models;
                let ghost mv = models_view(ms@);
                let mut j: usize = 0;
                proof {
                    assert(mv.skip(0) =~= mv);
                    assert(models_of(v.skip(i as int), group@) == Some(mv));
                }
                while j < ms.len()
                    invariant
                        j <= ms@.len(),
                        mv == models_view(ms@),
                        v == self@,
                        models_of(v, group@) == Some(mv),
                        tally_of(mv, model@) == tally_of(mv.skip(j as int), model@),
                    decreases ms@.len() - j,
                {
                    proof {
                        assert(mv.skip(j as int).drop_first() =~= mv.skip(j + 1));
                        assert(mv.skip(j as int)[0] == ms@[j as int]@);
                    }
                    if str_eq(ms[j].model.as_str(), model) {
                        proof {
                            assert(tally_of(mv.skip(j as int), model@) == Some(ms@[j as int].tally@));
                        }
                        return Some(&ms[j].tally);
                    }
                    j = j + 1;
                }
                proof {
                    assert(mv.skip(j as int) =~= Seq::<(Seq<char>, TallyView)>::empty());
                }
                return None;
            }
            i = i + 1;
        }
        proof {
            assert(v.skip(i as int) =~= Seq::<(Seq<char>, ModelsView)>::empty());
        }
        None
    }

    /// The groups in key order.
    pub fn rows(&self) -> (r: &Vec<GroupRow>)
        ensures
            groups_view(r@) == self@,
            groups_sorted(self@),
    {
        proof {
            use_type_invariant(self);
        }
        &self.groups
    }
}

/// `groups[group][model] += (c, tick)` on the rows of a sorted map.
fn upsert_group_rows(groups: &mut Vec<GroupRow>, group: &str, model: &str, c: UsageCounts, tick: Option<i64>)
    requires
        contribution_fits(groups_view(old(groups)@), group@, model@, c),
    ensures
        groups_view(final(groups)@) == upsert_group(groups_view(old(groups)@), group@, model@, c, tick),
{
    let ghost old_v = groups_view(groups@);
    let mut i: usize = 0;
    proof {
        assert(old_v.skip(0) =~= old_v);
        assert(old_v.take(0) + old_v.skip(0) =~= old_v);
    }
    while i < groups.len()
        invariant
            i <= groups@.len(),
            groups_view(groups@) == old_v,
            old_v == groups_view(old(groups)@),
            upsert_group(old_v, group@, model@, c, tick) == old_v.take(i as int) + upsert_group(old_v.skip(i as int), group@, model@, c, tick),
            models_of(old_v, group@) == models_of(old_v.skip(i as int), group@),
            contribution_fits(old_v, group@, model@, c),
        decreases groups@.len() - i,
    {
        let same = str_eq(groups[i].key.as_str(), group);
        if same {
            let mut row = groups.remove(i);
            proof {
                assert(old_v.skip(i as int)[0] == old_v[i as int]);
                assert(row@ == old_v[i as int]);
            }
            upsert_model_rows(&mut row.models, model, c, tick);
            groups.insert(i, row);
            proof {
                assert(old_v.skip(i as int).drop_first() =~= old_v.skip(i + 1));
                assert(groups_view(groups@) =~= old_v.take(i as int) + (seq![(group@, upsert_model(old_v[i as int].1, model@, c, tick))] + old_v.skip(i + 1)));
                assert(upsert_group(old_v.skip(i as int), group@, model@, c, tick) == seq![(group@, upsert_model(old_v[i as int].1, model@, c, tick))] + old_v.skip(i + 1));
            }
            return;
        }
        let before = str_lt(group, groups[i].key.as_str());
        if before {
            let mut models: Vec<ModelRow> = Vec::new();
            proof {
                assert(models_view(models@) =~= Seq::<(Seq<char>, TallyView)>::empty());
            }
            upsert_model_rows(&mut models, model, c, tick);
            let row = GroupRow { key: String::from_str(group), models };
            groups.insert(i, row);
            proof {
                assert(old_v.skip(i as int)[0] == old_v[i as int]);
                assert(groups_view(groups@) =~= old_v.take(i as int) + (seq![(group@, upsert_model(Seq::empty(), model@, c, tick))] + old_v.skip(i as int)));
                assert(upsert_group(old_v.skip(i as int), group@, model@, c, tick) == seq![(group@, upsert_model(Seq::empty(), model@, c, tick))] + old_v.skip(i as int));
            }
            return;
        }
        proof {
            lemma_upsert_group_step(old_v, i as int, group@, model@, c, tick);
            assert(old_v.take(i as int) + (seq![old_v[i as int]] + upsert_group(old_v.skip(i + 1), group@, model@, c, tick)) =~= old_v.take(i + 1) + upsert_group(old_v.skip(i + 1), group@, model@, c, tick));
        }
        i = i + 1;
    }
    let mut models: Vec<ModelRow> = Vec::new();
    proof {
        assert(models_view(models@) =~= Seq::<(Seq<char>, TallyView)>::empty());
    }
    upsert_model_rows(&mut models, model, c, tick);
    let row = GroupRow { key: String::from_str(group), models };
    groups.push(row);
    proof {
        assert(old_v.skip(i as int) =~= Seq::<(Seq<char>, ModelsView)>::empty());
        assert(old_v.take(i as int) =~= old_v);
        assert(groups_view(groups@) =~= old_v + seq![(group@, upsert_model(Seq::empty(), model@, c, tick))]);
    }
}

proof fn lemma_upsert_group_above(groups: GroupsView, g: Seq<char>, m: Seq<char>, c: UsageCounts, tick: Option<i64>, b: Seq<char>)
    requires
        groups_above(b, groups),
        text_lt(b, g),
    ensures
        groups_above(b, upsert_group(groups, g, m, c, tick)),
    decreases groups.len(),
{
    let r = upsert_group(groups, g, m, c, tick);
    if groups.len() > 0 && groups[0].0 != g && !text_lt(g, groups[0].0) {
        lemma_upsert_group_above(groups.drop_first(), g, m, c, tick, b);
        assert forall|j: int| 0 <= j < r.len() implies text_lt(b, #[trigger] r[j].0) by {
            if j > 0 {
                assert(r[j] == upsert_group(groups.drop_first(), g, m, c, tick)[j - 1]);
            }
        }
    } else if groups.len() > 0 && groups[0].0 == g {
        assert forall|j: int| 0 <= j < r.len() implies text_lt(b, #[trigger] r[j].0) by {
            if j > 0 {
                assert(r[j] == groups[j]);
            }
        }
    } else if groups.len() > 0 {
        assert forall|j: int| 0 <= j < r.len() implies text_lt(b, #[trigger] r[j].0) by {
            if j > 0 {
                assert(r[j] == groups[j - 1]);
            }
        }
    }
}

/// Adding to a sorted map of sorted maps keeps both levels sorted: the
/// report lists each group once, in ascending order, and in each group each
/// model once, in ascending order.
pub proof fn lemma_upsert_group_sorted(groups: GroupsView, g: Seq<char>, m: Seq<char>, c: UsageCounts, tick: Option<i64>)
    requires
        groups_sorted(groups),
    ensures
        groups_sorted(upsert_group(groups, g, m, c, tick)),
    decreases groups.len(),
{
    let r = upsert_group(groups, g, m, c, tick);
    lemma_upsert_model_sorted(Seq::empty(), m, c, tick);
    if groups.len() == 0 {
    } else if groups[0].0 == g {
        lemma_upsert_model_sorted(groups[0].1, m, c, tick);
        assert forall|i: int, j: int| 0 <= i < j < r.len() implies text_lt(r[i].0, r[j].0) by {
            assert(r[i].0 == groups[i].0);
            assert(r[j].0 == groups[j].0);
        }
        assert forall|i: int| 0 <= i < r.len() implies models_sorted(#[trigger] r[i].1) by {
            if i > 0 {
                assert(r[i] == groups[i]);
            }
        }
    } else if text_lt(g, groups[0].0) {
        assert forall|i: int, j: int| 0 <= i < j < r.len() implies text_lt(r[i].0, r[j].0) by {
            if i == 0 {
                if j > 1 {
                    lemma_text_lt_transitive(g, groups[0].0, groups[j - 1].0);
                }
            } else {
                assert(r[i] == groups[i - 1]);
            }
        }
        assert forall|i: int| 0 <= i < r.len() implies models_sorted(#[trigger] r[i].1) by {
            if i > 0 {
                assert(r[i] == groups[i - 1]);
            }
        }
    } else {
        let rest = groups.drop_first();
        assert(groups_sorted(rest)) by {
            assert forall|i: int, j: int| 0 <= i < j < rest.len() implies text_lt(rest[i].0, rest[j].0) by {
                assert(rest[i] == groups[i + 1]);
                assert(rest[j] == groups[j + 1]);
            }
            assert forall|i: int| 0 <= i < rest.len() implies models_sorted(#[trigger] rest[i].1) by {
                assert(rest[i] == groups[i + 1]);
            }
        }
        lemma_upsert_group_sorted(rest, g, m, c, tick);
        lemma_text_lt_total(g, groups[0].0);
        assert(groups_above(groups[0].0, rest)) by {
            assert forall|j: int| 0 <= j < rest.len() implies text_lt(groups[0].0, #[trigger] rest[j].0) by {
                assert(rest[j] == groups[j + 1]);
            }
        }
        lemma_upsert_group_above(rest, g, m, c, tick, groups[0].0);
        let ur = upsert_group(rest, g, m, c, tick);
        assert forall|i: int, j: int| 0 <= i < j < r.len() implies text_lt(r[i].0, r[j].0) by {
            if i == 0 {
                assert(r[j] == ur[j - 1]);
            } else {
                assert(r[i] == ur[i - 1]);
                assert(r[j] == ur[j - 1]);
            }
        }
        assert forall|i: int| 0 <= i < r.len() implies models_sorted(#[trigger] r[i].1) by {
            if i > 0 {
                assert(r[i] == ur[i - 1]);
            }
        }
    }
}

proof fn lemma_models_of_absent(groups: GroupsView, g: Seq<char>)
    requires
        forall|j: int| 0 <= j < groups.len() ==> #[trigger] groups[j].0 != g,
    ensures
        models_of(groups, g) is None,
    decreases groups.len(),
{
    if groups.len() > 0 {
        let rest = groups.drop_first();
        assert forall|j: int| 0 <= j < rest.len() implies #[trigger] rest[j].0 != g by {
            assert(rest[j] == groups[j + 1]);
        }
        lemma_models_of_absent(rest, g);
    }
}

/// The models found for a key of a sorted map of sorted maps are sorted.
proof fn lemma_models_of_sorted(groups: GroupsView, g: Seq<char>)
    requires
        groups_sorted(groups),
    ensures
        models_sorted(models_or_empty(models_of(groups, g))),
    decreases groups.len(),
{
    if groups.len() > 0 && groups[0].0 != g {
        let rest = groups.drop_first();
        assert(groups_sorted(rest)) by {
            assert forall|i: int, j: int| 0 <= i < j < rest.len() implies text_lt(rest[i].0, rest[j].0) by {
                assert(rest[i] == groups[i + 1]);
                assert(rest[j] == groups[j + 1]);
            }
            assert forall|i: int| 0 <= i < rest.len() implies models_sorted(#[trigger] rest[i].1) by {
                assert(rest[i] == groups[i + 1]);
            }
        }
        lemma_models_of_sorted(rest, g);
    } else if groups.len() > 0 {
        assert(models_sorted(groups[0].1));
    }
}

/// Reading the groups after adding to `groups[g]`: group `g` holds its old
/// models (or none) with the record added, every other group is unchanged.
pub proof fn lemma_models_of_upsert(groups: GroupsView, g: Seq<char>, m: Seq<char>, c: UsageCounts, tick: Option<i64>, g2: Seq<char>)
    requires
        groups_sorted(groups),
    ensures
        models_of(upsert_group(groups, g, m, c, tick), g2) == if g2 == g {
            Some(upsert_model(models_or_empty(models_of(groups, g)), m, c, tick))
        } else {
            models_of(groups, g2)
        },
    decreases groups.len(),
{
    let r = upsert_group(groups, g, m, c, tick);
    if groups.len() == 0 {
        assert(r.drop_first() =~= Seq::<(Seq<char>, ModelsView)>::empty());
        assert(models_of(r.drop_first(), g2) is None);
    } else if groups[0].0 == g {
        assert(r.drop_first() =~= groups.drop_first());
        assert(models_of(groups, g) == Some(groups[0].1));
        if g2 != g {
            assert(models_of(r, g2) == models_of(groups.drop_first(), g2));
        }
    } else if text_lt(g, groups[0].0) {
        assert(r.drop_first() =~= groups);
        assert forall|j: int| 0 <= j < groups.len() implies #[trigger] groups[j].0 != g by {
            if j > 0 {
                lemma_text_lt_transitive(g, groups[0].0, groups[j].0);
            }
            lemma_text_lt_irreflexive(g);
        }
        lemma_models_of_absent(groups, g);
    } else {
        let rest = groups.drop_first();
        assert(groups_sorted(rest)) by {
            assert forall|i: int, j: int| 0 <= i < j < rest.len() implies text_lt(rest[i].0, rest[j].0) by {
                assert(rest[i] == groups[i + 1]);
                assert(rest[j] == groups[j + 1]);
            }
            assert forall|i: int| 0 <= i < rest.len() implies models_sorted(#[trigger] rest[i].1) by {
                assert(rest[i] == groups[i + 1]);
            }
        }
        lemma_models_of_upsert(rest, g, m, c, tick, g2);
        assert(r.drop_first() =~= upsert_group(rest, g, m, c, tick));
        assert(r[0] == groups[0]);
        assert(models_of(groups, g) == models_of(rest, g));
        if groups[0].0 == g2 {
            assert(models_of(r, g2) == Some(groups[0].1));
        } else {
            assert(models_of(r, g2) == models_of(upsert_group(rest, g, m, c, tick), g2));
            assert(models_of(groups, g2) == models_of(rest, g2));
        }
    }
}

/// Read after write: after adding a record to `groups[g][m]`, that tally
/// holds its old value (or an empty tally) plus the record, and every other
/// tally is unchanged.
pub proof fn lemma_tally_at_upsert(groups: GroupsView, g: Seq<char>, m: Seq<char>, c: UsageCounts, tick: Option<i64>, g2: Seq<char>, m2: Seq<char>)
    requires
        groups_sorted(groups),
    ensures
        tally_at(upsert_group(groups, g, m, c, tick), g2, m2) == if g2 == g && m2 == m {
            Some(add_to_tally(tally_or_fresh(tally_at(groups, g, m)), c, tick))
        } else {
            tally_at(groups, g2, m2)
        },
{
    lemma_models_of_upsert(groups, g, m, c, tick, g2);
    lemma_models_of_sorted(groups, g);
    if g2 == g {
        lemma_tally_of_upsert(models_or_empty(models_of(groups, g)), m, c, tick, m2);
    }
}

} // verus!

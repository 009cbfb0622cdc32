//! The models.dev community catalog as model entries.
//!
//! Each provider of the catalog whose `base_url` and `env_key` are given,
//! and whose credential variable is set to something other than blanks,
//! becomes one entry per model, keyed `provider/model`, speaking the wire
//! dialect that the provider's `api` names. Providers that the built-in
//! catalog covers (`xai`) are skipped.

use crate::json::str_eq;
use crate::text::{decimal, push_char, push_decimal};
use indexmap::IndexMap;
use vstd::prelude::*;

verus! {

/// Wire protocol of a model endpoint.
#[derive(Clone, Copy, Debug, PartialEq, Eq)]
pub enum ApiBackend {
    ChatCompletions,
    Responses,
    Messages,
}

/// How the credential is presented.
#[derive(Clone, Copy, Debug, PartialEq, Eq)]
pub enum AuthScheme {
    Bearer,
    XApiKey,
}

/// A reasoning-effort level.
#[derive(Clone, Copy, Debug, PartialEq, Eq)]
pub enum ReasoningEffort {
    Low,
    Medium,
    High,
}

/// One entry of a model's reasoning-effort menu.
pub struct ReasoningEffortOption {
    pub id: String,
    pub label: String,
    pub value: ReasoningEffort,
    pub description: Option<String>,
    pub default: bool,
}

/// A menu entry as contracts see it.
pub ghost struct EffortView {
    pub id: Seq<char>,
    pub label: Seq<char>,
    pub value: ReasoningEffort,
    pub description: Option<Seq<char>>,
    pub default: bool,
}

impl View for ReasoningEffortOption {
    type V = EffortView;

    open spec fn view(&self) -> EffortView {
        EffortView {
            id: self.id@,
            label: self.label@,
            value: self.value,
            description: match self.description {
                Some(d) => Some(d@),
                None => None,
            },
            default: self.default,
        }
    }
}

/// One level of the default menu: id and label alike, medium the default.
pub open spec fn effort_entry(id: Seq<char>, value: ReasoningEffort) -> EffortView {
    EffortView { id, label: id, value, description: None, default: value == ReasoningEffort::Medium }
}

/// The reasoning-effort menu of catalog models that reason: low, medium
/// (the default), high.
pub open spec fn default_efforts() -> Seq<EffortView> {
    seq![
        effort_entry("low"@, ReasoningEffort::Low),
        effort_entry("medium"@, ReasoningEffort::Medium),
        effort_entry("high"@, ReasoningEffort::High),
    ]
}

fn effort_option(id: &str, value: ReasoningEffort) -> (r: ReasoningEffortOption)
    ensures
        r@ == effort_entry(id@, value),
{
    let is_default = match value {
        ReasoningEffort::Medium => true,
        _ => false,
    };
    ReasoningEffortOption {
        id: String::from_str(id),
        label: String::from_str(id),
        value,
        description: None,
        default: is_default,
    }
}

/// The default reasoning-effort menu.
pub fn default_reasoning_efforts() -> (r: Vec<ReasoningEffortOption>)
    ensures
        r@.map_values(|o: ReasoningEffortOption| o@) == default_efforts(),
{
    let mut r: Vec<ReasoningEffortOption> = Vec::new();
    r.push(effort_option("low", ReasoningEffort::Low));
    r.push(effort_option("medium", ReasoningEffort::Medium));
    r.push(effort_option("high", ReasoningEffort::High));
    proof {
        assert(r@.map_values(|o: ReasoningEffortOption| o@) =~= default_efforts());
    }
    r
}

/// The wire dialect of a provider.
pub struct Dialect {
    pub api_backend: ApiBackend,
    pub auth_scheme: AuthScheme,
    pub extra_headers: Vec<(String, String)>,
    /// The family that mints the model's conversation items (`anthropic` for
    /// the messages API, else `openai`).
    pub model_family: &'static str,
}

/// The text of a list of header pairs.
pub open spec fn headers_view(h: Seq<(String, String)>) -> Seq<(Seq<char>, Seq<char>)> {
    h.map_values(|p: (String, String)| (p.0@, p.1@))
}

/// The text of an optional string.
pub open spec fn opt_text(s: Option<String>) -> Option<Seq<char>> {
    match s {
        Some(t) => Some(t@),
        None => None,
    }
}

/// The text of an optional string slice.
pub open spec fn opt_str_text(s: Option<&str>) -> Option<Seq<char>> {
    match s {
        Some(t) => Some(t@),
        None => None,
    }
}

/// The provider's `api` names an Anthropic dialect.
pub open spec fn is_anthropic_api(api: Option<Seq<char>>) -> bool {
    match api {
        Some(a) => a == "anthropic"@ || a == "anthropic-messages"@ || a == "anthropic-completions"@,
        None => false,
    }
}

/// The provider's `api` names the OpenAI responses dialect.
pub open spec fn is_responses_api(api: Option<Seq<char>>) -> bool {
    match api {
        Some(a) => a == "openai-responses"@,
        None => false,
    }
}

/// The wire protocol for a provider's `api`; unknown or missing dialects
/// speak chat completions.
pub open spec fn backend_for(api: Option<Seq<char>>) -> ApiBackend {
    if is_anthropic_api(api) {
        ApiBackend::Messages
    } else if is_responses_api(api) {
        ApiBackend::Responses
    } else {
        ApiBackend::ChatCompletions
    }
}

/// The credential scheme for a provider's `api`.
pub open spec fn auth_for(api: Option<Seq<char>>) -> AuthScheme {
    if is_anthropic_api(api) {
        AuthScheme::XApiKey
    } else {
        AuthScheme::Bearer
    }
}

/// The extra headers for a provider's `api`.
pub open spec fn headers_for(api: Option<Seq<char>>) -> Seq<(Seq<char>, Seq<char>)> {
    if is_anthropic_api(api) {
        seq![("anthropic-version"@, "2023-06-01"@)]
    } else {
        Seq::empty()
    }
}

/// The model family of a wire protocol.
pub open spec fn family_for(backend: ApiBackend) -> Seq<char> {
    match backend {
        ApiBackend::Messages => "anthropic"@,
        _ => "openai"@,
    }
}

/// The dialect of a provider's `api`.
pub fn dialect_for(api: Option<&str>) -> (d: Dialect)
    ensures
        d.api_backend == backend_for(opt_str_text(api)),
        d.auth_scheme == auth_for(opt_str_text(api)),
        headers_view(d.extra_headers@) == headers_for(opt_str_text(api)),
        d.model_family@ == family_for(d.api_backend),
{
    let mut extra_headers: Vec<(String, String)> = Vec::new();
    let (api_backend, auth_scheme) = match api {
        Some(a) => if str_eq(a, "anthropic") || str_eq(a, "anthropic-messages") || str_eq(
            a,
            "anthropic-completions",
        ) {
            extra_headers.push((String::from_str("anthropic-version"), String::from_str("2023-06-01")));
            (ApiBackend::Messages, AuthScheme::XApiKey)
        } else if str_eq(a, "openai-responses") {
            (ApiBackend::Responses, AuthScheme::Bearer)
        } else {
            (ApiBackend::ChatCompletions, AuthScheme::Bearer)
        },
        None => (ApiBackend::ChatCompletions, AuthScheme::Bearer),
    };
    let model_family = match api_backend {
        ApiBackend::Messages => "anthropic",
        _ => "openai",
    };
    proof {
        assert(headers_view(extra_headers@) =~= headers_for(opt_str_text(api)));
    }
    Dialect { api_backend, auth_scheme, extra_headers, model_family }
}

/// Per-token prices of a catalog model, as text (`"0.000003"`).
pub struct DevPricing {
    /// USD per input token.
    pub prompt: Option<String>,
    /// USD per output token.
    pub completion: Option<String>,
}

/// A model of the catalog.
pub struct DevModel {
    pub name: Option<String>,
    pub context_window: Option<u64>,
    pub max_tokens: Option<u64>,
    pub reasoning: bool,
    pub tool_use: Option<bool>,
    pub pricing: DevPricing,
}

/// A provider of the catalog.
pub struct DevProvider {
    pub name: Option<String>,
    /// API dialect: `openai-completions`, `openai-responses`,
    /// `anthropic-messages`, ...
    pub api: Option<String>,
    pub base_url: Option<String>,
    /// Name of the environment variable holding this provider's API key.
    pub env_key: Option<String>,
    /// Models by id, in catalog order.
    pub models: Vec<(String, DevModel)>,
}

/// The catalog: providers by id, in catalog order.
pub struct DevCatalog {
    pub providers: Vec<(String, DevProvider)>,
}

/// Whether `c` has the Unicode `White_Space` property: the 25 code points
/// U+0009 to U+000D, U+0020, U+0085, U+00A0, U+1680, U+2000 to U+200A,
/// U+2028, U+2029, U+202F, U+205F and U+3000 of Unicode's `PropList.txt`.
pub open spec fn white_space(c: char) -> bool {
    let n = c as u32;
    ||| 0x09 <= n <= 0x0D
    ||| n == 0x20
    ||| n == 0x85
    ||| n == 0xA0
    ||| n == 0x1680
    ||| 0x2000 <= n <= 0x200A
    ||| n == 0x2028
    ||| n == 0x2029
    ||| n == 0x202F
    ||| n == 0x205F
    ||| n == 0x3000
}

/// Whether `c` has the Unicode `White_Space` property, as `char::is_whitespace`
/// answers it.
pub fn char_is_whitespace(c: char) -> (r: bool)
    ensures
        r == white_space(c),
{
    let n = c as u32;
    (0x09 <= n && n <= 0x0D) || n == 0x20 || n == 0x85 || n == 0xA0 || n == 0x1680 || (0x2000 <= n
        && n <= 0x200A) || n == 0x2028 || n == 0x2029 || n == 0x202F || n == 0x205F || n == 0x3000
}

/// Every character of `s` is white space (so `s.trim()` is empty).
pub open spec fn blank(s: Seq<char>) -> bool {
    forall|i: int| 0 <= i < s.len() ==> white_space(#[trigger] s[i])
}

/// Whether `s` holds only white space.
pub fn is_blank(s: &str) -> (r: bool)
    ensures
        r == blank(s@),
{
    let n = s.unicode_len();
    let mut i: usize = 0;
    while i < n
        invariant
            n == s@.len(),
            i <= n,
            forall|j: int| 0 <= j < i ==> white_space(#[trigger] s@[j]),
        decreases n - i,
    {
        if !char_is_whitespace(s.get_char(i)) {
            return false;
        }
        i = i + 1;
    }
    true
}

/// The value of the first variable named `name` in `env`.
pub open spec fn env_value(env: Seq<(String, String)>, name: Seq<char>) -> Option<Seq<char>>
    decreases env.len(),
{
    if env.len() == 0 {
        None
    } else if env[0].0@ == name {
        Some(env[0].1@)
    } else {
        env_value(env.drop_first(), name)
    }
}

/// The variable `name` is set to something other than white space.
pub open spec fn env_var_is_set(env: Seq<(String, String)>, name: Seq<char>) -> bool {
    match env_value(env, name) {
        Some(v) => !blank(v),
        None => false,
    }
}

/// Whether the variable `name` of the environment snapshot `env` is set to
/// something other than white space.
pub fn env_var_set(env: &Vec<(String, String)>, name: &str) -> (r: bool)
    ensures
        r == env_var_is_set(env@, name@),
{
    let mut i: usize = 0;
    proof {
        assert(env@.skip(0) =~= env@);
    }
    while i < env.len()
        invariant
            i <= env@.len(),
            env_value(env@, name@) == env_value(env@.skip(i as int), name@),
        decreases env@.len() - i,
    {
        proof {
            assert(env@.skip(i as int).drop_first() =~= env@.skip(i + 1));
        }
        if str_eq(env[i].0.as_str(), name) {
            return !is_blank(env[i].1.as_str());
        }
        i = i + 1;
    }
    false
}

/// The `[models] dev_catalog` setting: an explicit `false` disables the catalog.
pub fn enabled(dev_catalog: Option<bool>) -> (r: bool)
    ensures
        r == (dev_catalog != Some(false)),
{
    match dev_catalog {
        Some(false) => false,
        _ => true,
    }
}

/// The per-million price text given for a per-token price text, if any.
pub open spec fn price_text(prices: Seq<(String, Option<String>)>, p: Seq<char>) -> Option<Seq<char>>
    decreases prices.len(),
{
    if prices.len() == 0 {
        None
    } else if prices[0].0@ == p {
        opt_text(prices[0].1)
    } else {
        price_text(prices.drop_first(), p)
    }
}

/// The pricing part of a picker description: ` · $in/$out per M tok` when
/// both prices convert, else nothing.
pub open spec fn price_suffix(prices: Seq<(String, Option<String>)>, pricing: DevPricing) -> Seq<char> {
    match (pricing.prompt, pricing.completion) {
        (Some(p), Some(c)) => match (price_text(prices, p@), price_text(prices, c@)) {
            (Some(a), Some(b)) => " · $"@ + a + "/$"@ + b + " per M tok"@,
            _ => Seq::empty(),
        },
        _ => Seq::empty(),
    }
}

fn price_text_exec(prices: &Vec<(String, Option<String>)>, p: &str) -> (r: Option<String>)
    ensures
        opt_text(r) == price_text(prices@, p@),
{
    let mut i: usize = 0;
    proof {
        assert(prices@.skip(0) =~= prices@);
    }
    while i < prices.len()
        invariant
            i <= prices@.len(),
            price_text(prices@, p@) == price_text(prices@.skip(i as int), p@),
        decreases prices@.len() - i,
    {
        proof {
            assert(prices@.skip(i as int).drop_first() =~= prices@.skip(i + 1));
        }
        if str_eq(prices[i].0.as_str(), p) {
            return match &prices[i].1 {
                Some(t) => Some(t.clone()),
                None => None,
            };
        }
        i = i + 1;
    }
    None
}

fn push_price_suffix(out: &mut String, prices: &Vec<(String, Option<String>)>, pricing: &DevPricing)
    ensures
        final(out)@ == old(out)@ + price_suffix(prices@, *pricing),
{
    if let (Some(p), Some(c)) = (&pricing.prompt, &pricing.completion) {
        let a = price_text_exec(prices, p.as_str());
        let b = price_text_exec(prices, c.as_str());
        if let (Some(a), Some(b)) = (a, b) {
            out.append(" · $");
            out.append(a.as_str());
            out.append("/$");
            out.append(b.as_str());
            out.append(" per M tok");
            proof {
                assert(final(out)@ =~= old(out)@ + price_suffix(prices@, *pricing));
            }
            return;
        }
    }
    proof {
        assert(final(out)@ =~= old(out)@ + price_suffix(prices@, *pricing));
    }
}

/// A catalog model as a model entry.
pub struct DevModelEntry {
    /// `provider/model`.
    pub id: String,
    pub model: String,
    pub model_family: String,
    pub base_url: String,
    pub name: String,
    pub description: String,
    pub max_completion_tokens: Option<u32>,
    pub env_key: String,
    pub api_backend: ApiBackend,
    pub auth_scheme: AuthScheme,
    pub supports_reasoning_effort: bool,
    pub reasoning_efforts: Vec<ReasoningEffortOption>,
    pub extra_headers: Vec<(String, String)>,
    pub context_window: u64,
    pub agent_type: String,
    pub hidden: bool,
    pub supported_in_api: bool,
}

/// A model entry as contracts see it.
pub ghost struct EntryView {
    pub id: Seq<char>,
    pub model: Seq<char>,
    pub model_family: Seq<char>,
    pub base_url: Seq<char>,
    pub name: Seq<char>,
    pub description: Seq<char>,
    pub max_completion_tokens: Option<u32>,
    pub env_key: Seq<char>,
    pub api_backend: ApiBackend,
    pub auth_scheme: AuthScheme,
    pub supports_reasoning_effort: bool,
    pub reasoning_efforts: Seq<EffortView>,
    pub extra_headers: Seq<(Seq<char>, Seq<char>)>,
    pub context_window: u64,
    pub agent_type: Seq<char>,
    pub hidden: bool,
    pub supported_in_api: bool,
}

impl View for DevModelEntry {
    type V = EntryView;

    open spec fn view(&self) -> EntryView {
        EntryView {
            id: self.id@,
            model: self.model@,
            model_family: self.model_family@,
            base_url: self.base_url@,
            name: self.name@,
            description: self.description@,
            max_completion_tokens: self.max_completion_tokens,
            env_key: self.env_key@,
            api_backend: self.api_backend,
            auth_scheme: self.auth_scheme,
            supports_reasoning_effort: self.supports_reasoning_effort,
            reasoning_efforts: self.reasoning_efforts@.map_values(|o: ReasoningEffortOption| o@),
            extra_headers: headers_view(self.extra_headers@),
            context_window: self.context_window,
            agent_type: self.agent_type@,
            hidden: self.hidden,
            supported_in_api: self.supported_in_api,
        }
    }
}

/// The context window of a model: its own when given and non-zero, else
/// 200k tokens.
pub open spec fn context_window_of(m: DevModel) -> u64 {
    match m.context_window {
        Some(c) => if c != 0 {
            c
        } else {
            200_000
        },
        None => 200_000,
    }
}

/// The picker description: provider, context size in thousands, prices.
pub open spec fn description_of(label: Seq<char>, m: DevModel, prices: Seq<(String, Option<String>)>) -> Seq<char> {
    "via "@ + label + " · "@ + decimal((context_window_of(m) / 1000) as nat) + "k ctx"@ + price_suffix(
        prices,
        m.pricing,
    )
}

/// The text of `s`, or `fallback` when there is none.
pub open spec fn text_or(s: Option<String>, fallback: Seq<char>) -> Seq<char> {
    match s {
        Some(t) => t@,
        None => fallback,
    }
}

/// The entry of model `mid` of provider `pid`.
pub open spec fn entry_of(
    pid: Seq<char>,
    p: DevProvider,
    mid: Seq<char>,
    m: DevModel,
    prices: Seq<(String, Option<String>)>,
) -> EntryView {
    let backend = backend_for(opt_text(p.api));
    EntryView {
        id: pid + "/"@ + mid,
        model: mid,
        model_family: family_for(backend),
        base_url: text_or(p.base_url, ""@),
        name: text_or(m.name, mid),
        description: description_of(text_or(p.name, pid), m, prices),
        max_completion_tokens: match m.max_tokens {
            Some(t) => Some(t as u32),
            None => None,
        },
        env_key: text_or(p.env_key, ""@),
        api_backend: backend,
        auth_scheme: auth_for(opt_text(p.api)),
        supports_reasoning_effort: m.reasoning,
        reasoning_efforts: if m.reasoning {
            default_efforts()
        } else {
            Seq::empty()
        },
        extra_headers: headers_for(opt_text(p.api)),
        context_window: context_window_of(m),
        agent_type: "grok-build-plan"@,
        hidden: false,
        supported_in_api: true,
    }
}

/// The provider is expanded: not covered by the built-in catalog, with a
/// base URL, and with its credential variable set.
pub open spec fn provider_expanded(pid: Seq<char>, p: DevProvider, env: Seq<(String, String)>) -> bool {
    &&& pid != "xai"@
    &&& p.base_url is Some
    &&& match p.env_key {
        Some(k) => env_var_is_set(env, k@),
        None => false,
    }
}

/// The keyed entries of one provider, in model order.
pub open spec fn provider_entries(
    pid: Seq<char>,
    p: DevProvider,
    env: Seq<(String, String)>,
    prices: Seq<(String, Option<String>)>,
) -> Seq<(Seq<char>, EntryView)> {
    if provider_expanded(pid, p, env) {
        p.models@.map_values(
            |e: (String, DevModel)| (pid + "/"@ + e.0@, entry_of(pid, p, e.0@, e.1, prices)),
        )
    } else {
        Seq::empty()
    }
}

/// The keyed entries of all providers, provider after provider.
pub open spec fn catalog_entries(
    providers: Seq<(String, DevProvider)>,
    env: Seq<(String, String)>,
    prices: Seq<(String, Option<String>)>,
) -> Seq<(Seq<char>, EntryView)>
    decreases providers.len(),
{
    if providers.len() == 0 {
        Seq::empty()
    } else {
        catalog_entries(providers.drop_last(), env, prices) + provider_entries(
            providers.last().0@,
            providers.last().1,
            env,
            prices,
        )
    }
}

/// Insertion into an insertion-ordered map: a present key keeps its place
/// and takes the new value, a new key goes last.
pub open spec fn keyed_insert(m: Seq<(Seq<char>, EntryView)>, k: Seq<char>, e: EntryView) -> Seq<(Seq<char>, EntryView)>
    decreases m.len(),
{
    if m.len() == 0 {
        seq![(k, e)]
    } else if m[0].0 == k {
        seq![(k, e)] + m.drop_first()
    } else {
        seq![m[0]] + keyed_insert(m.drop_first(), k, e)
    }
}

/// The map built by inserting `items` in order.
pub open spec fn insert_all(items: Seq<(Seq<char>, EntryView)>) -> Seq<(Seq<char>, EntryView)>
    decreases items.len(),
{
    if items.len() == 0 {
        Seq::empty()
    } else {
        keyed_insert(insert_all(items.drop_last()), items.last().0, items.last().1)
    }
}

/// The expanded catalog as an insertion-ordered map from key to entry.
pub open spec fn expanded_catalog(
    catalog: DevCatalog,
    env: Seq<(String, String)>,
    prices: Seq<(String, Option<String>)>,
) -> Seq<(Seq<char>, EntryView)> {
    insert_all(catalog_entries(catalog.providers@, env, prices))
}

/// The catalog cache fetched `age_secs` whole seconds ago (rounded toward
/// zero) is younger than a day.
pub fn cache_age_is_fresh(age_secs: i64) -> (r: bool)
    ensures
        r == (age_secs < 86_400),
{
    age_secs < 86_400
}

/// Every entry of `m` uses a credential variable that is set.
pub open spec fn all_authenticated(m: Seq<(Seq<char>, EntryView)>, env: Seq<(String, String)>) -> bool {
    forall|i: int| 0 <= i < m.len() ==> env_var_is_set(env, #[trigger] m[i].1.env_key)
}

proof fn lemma_keyed_insert_authenticated(m: Seq<(Seq<char>, EntryView)>, k: Seq<char>, e: EntryView, env: Seq<(String, String)>)
    requires
        all_authenticated(m, env),
        env_var_is_set(env, e.env_key),
    ensures
        all_authenticated(keyed_insert(m, k, e), env),
    decreases m.len(),
{
    let r = keyed_insert(m, k, e);
    if m.len() > 0 && m[0].0 != k {
        let rest = m.drop_first();
        assert(all_authenticated(rest, env)) by {
            assert forall|i: int| 0 <= i < rest.len() implies env_var_is_set(env, #[trigger] rest[i].1.env_key) by {
                assert(rest[i] == m[i + 1]);
            }
        }
        lemma_keyed_insert_authenticated(rest, k, e, env);
        assert forall|i: int| 0 <= i < r.len() implies env_var_is_set(env, #[trigger] r[i].1.env_key) by {
            if i > 0 {
                assert(r[i] == keyed_insert(rest, k, e)[i - 1]);
            }
        }
    } else if m.len() > 0 {
        assert forall|i: int| 0 <= i < r.len() implies env_var_is_set(env, #[trigger] r[i].1.env_key) by {
            if i > 0 {
                assert(r[i] == m[i]);
            }
        }
    }
}

proof fn lemma_insert_all_authenticated(items: Seq<(Seq<char>, EntryView)>, env: Seq<(String, String)>)
    requires
        all_authenticated(items, env),
    ensures
        all_authenticated(insert_all(items), env),
    decreases items.len(),
{
    if items.len() > 0 {
        let init = items.drop_last();
        assert(all_authenticated(init, env)) by {
            assert forall|i: int| 0 <= i < init.len() implies env_var_is_set(env, #[trigger] init[i].1.env_key) by {
                assert(init[i] == items[i]);
            }
        }
        lemma_insert_all_authenticated(init, env);
        assert(env_var_is_set(env, items[items.len() - 1].1.env_key));
        lemma_keyed_insert_authenticated(insert_all(init), items.last().0, items.last().1, env);
    }
}

proof fn lemma_catalog_entries_authenticated(
    providers: Seq<(String, DevProvider)>,
    env: Seq<(String, String)>,
    prices: Seq<(String, Option<String>)>,
)
    ensures
        all_authenticated(catalog_entries(providers, env, prices), env),
    decreases providers.len(),
{
    if providers.len() > 0 {
        let init = providers.drop_last();
        lemma_catalog_entries_authenticated(init, env, prices);
        let a = catalog_entries(init, env, prices);
        let pid = providers.last().0@;
        let p = providers.last().1;
        let b = provider_entries(pid, p, env, prices);
        let all = a + b;
        assert forall|i: int| 0 <= i < all.len() implies env_var_is_set(env, #[trigger] all[i].1.env_key) by {
            if i < a.len() {
                assert(all[i] == a[i]);
            } else {
                assert(all[i] == b[i - a.len()]);
                assert(provider_expanded(pid, p, env));
            }
        }
    }
}

/// Models the user cannot authenticate to never appear: every expanded
/// entry names a credential variable that is set to something other than
/// white space.
pub proof fn lemma_expanded_entries_authenticated(
    catalog: DevCatalog,
    env: Seq<(String, String)>,
    prices: Seq<(String, Option<String>)>,
)
    ensures
        all_authenticated(expanded_catalog(catalog, env, prices), env),
{
    lemma_catalog_entries_authenticated(catalog.providers@, env, prices);
    lemma_insert_all_authenticated(catalog_entries(catalog.providers@, env, prices), env);
}

/// `key` and `e` come from model `j` of provider `i` of the catalog: the key
/// is the provider id, `/` and the model id; the entry sends the model id as
/// it stands (without the provider prefix) and carries the provider's base
/// URL and credential variable.
pub open spec fn from_catalog_model(
    providers: Seq<(String, DevProvider)>,
    key: Seq<char>,
    e: EntryView,
    i: int,
    j: int,
) -> bool {
    &&& 0 <= i < providers.len()
    &&& 0 <= j < providers[i].1.models@.len()
    &&& key == providers[i].0@ + "/"@ + providers[i].1.models@[j].0@
    &&& e.id == key
    &&& e.model == providers[i].1.models@[j].0@
    &&& providers[i].1.base_url matches Some(u) && e.base_url == u@
    &&& providers[i].1.env_key matches Some(k) && e.env_key == k@
}

/// `key` and `e` come from some model of the catalog.
pub open spec fn entry_from_catalog(providers: Seq<(String, DevProvider)>, key: Seq<char>, e: EntryView) -> bool {
    exists|i: int, j: int| #[trigger] from_catalog_model(providers, key, e, i, j)
}

/// Every entry of `m` comes from some model of the catalog.
pub open spec fn all_from_catalog(m: Seq<(Seq<char>, EntryView)>, providers: Seq<(String, DevProvider)>) -> bool {
    forall|n: int| 0 <= n < m.len() ==> entry_from_catalog(providers, #[trigger] m[n].0, m[n].1)
}

proof fn lemma_keyed_insert_from_catalog(
    m: Seq<(Seq<char>, EntryView)>,
    k: Seq<char>,
    e: EntryView,
    providers: Seq<(String, DevProvider)>,
)
    requires
        all_from_catalog(m, providers),
        entry_from_catalog(providers, k, e),
    ensures
        all_from_catalog(keyed_insert(m, k, e), providers),
    decreases m.len(),
{
    let r = keyed_insert(m, k, e);
    if m.len() > 0 && m[0].0 != k {
        let rest = m.drop_first();
        assert(all_from_catalog(rest, providers)) by {
            assert forall|n: int| 0 <= n < rest.len() implies entry_from_catalog(providers, #[trigger] rest[n].0, rest[n].1) by {
                assert(rest[n] == m[n + 1]);
            }
        }
        lemma_keyed_insert_from_catalog(rest, k, e, providers);
        assert forall|n: int| 0 <= n < r.len() implies entry_from_catalog(providers, #[trigger] r[n].0, r[n].1) by {
            if n > 0 {
                assert(r[n] == keyed_insert(rest, k, e)[n - 1]);
            }
        }
    } else if m.len() > 0 {
        assert forall|n: int| 0 <= n < r.len() implies entry_from_catalog(providers, #[trigger] r[n].0, r[n].1) by {
            if n > 0 {
                assert(r[n] == m[n]);
            }
        }
    }
}

proof fn lemma_insert_all_from_catalog(items: Seq<(Seq<char>, EntryView)>, providers: Seq<(String, DevProvider)>)
    requires
        all_from_catalog(items, providers),
    ensures
        all_from_catalog(insert_all(items), providers),
    decreases items.len(),
{
    if items.len() > 0 {
        let init = items.drop_last();
        assert(all_from_catalog(init, providers)) by {
            assert forall|n: int| 0 <= n < init.len() implies entry_from_catalog(providers, #[trigger] init[n].0, init[n].1) by {
                assert(init[n] == items[n]);
            }
        }
        lemma_insert_all_from_catalog(init, providers);
        let last = items[items.len() - 1];
        assert(entry_from_catalog(providers, last.0, last.1));
        lemma_keyed_insert_from_catalog(insert_all(init), items.last().0, items.last().1, providers);
    }
}

proof fn lemma_catalog_entries_from_catalog(
    providers: Seq<(String, DevProvider)>,
    env: Seq<(String, String)>,
    prices: Seq<(String, Option<String>)>,
)
    ensures
        all_from_catalog(catalog_entries(providers, env, prices), providers),
    decreases providers.len(),
{
    if providers.len() > 0 {
        let init = providers.drop_last();
        lemma_catalog_entries_from_catalog(init, env, prices);
        let a = catalog_entries(init, env, prices);
        let last = providers.len() - 1;
        let pid = providers.last().0@;
        let p = providers.last().1;
        let b = provider_entries(pid, p, env, prices);
        let all = a + b;
        assert forall|n: int| 0 <= n < all.len() implies entry_from_catalog(providers, #[trigger] all[n].0, all[n].1) by {
            if n < a.len() {
                assert(all[n] == a[n]);
                let (i, j) = choose|i: int, j: int| #[trigger] from_catalog_model(init, a[n].0, a[n].1, i, j);
                assert(init[i] == providers[i]);
                assert(from_catalog_model(providers, all[n].0, all[n].1, i, j));
            } else {
                let j = n - a.len();
                assert(all[n] == b[j]);
                assert(provider_expanded(pid, p, env));
                assert(providers[last] == providers.last());
                assert(from_catalog_model(providers, all[n].0, all[n].1, last, j));
            }
        }
    }
}

/// Every expanded entry comes from one model of the catalog: its key is the
/// provider id, `/` and the model id, the model it sends is that model id
/// without the provider prefix, and it carries the provider's base URL and
/// credential variable.
pub proof fn lemma_expanded_entries_from_catalog(
    catalog: DevCatalog,
    env: Seq<(String, String)>,
    prices: Seq<(String, Option<String>)>,
)
    ensures
        all_from_catalog(expanded_catalog(catalog, env, prices), catalog.providers@),
{
    lemma_catalog_entries_from_catalog(catalog.providers@, env, prices);
    lemma_insert_all_from_catalog(catalog_entries(catalog.providers@, env, prices), catalog.providers@);
}

fn clone_headers(h: &Vec<(String, String)>) -> (r: Vec<(String, String)>)
    ensures
        headers_view(r@) == headers_view(h@),
{
    let mut r: Vec<(String, String)> = Vec::new();
    let mut i: usize = 0;
    while i < h.len()
        invariant
            i <= h@.len(),
            headers_view(r@) == headers_view(h@.take(i as int)),
        decreases h@.len() - i,
    {
        let ghost before = r@;
        let a = h[i].0.clone();
        let b = h[i].1.clone();
        r.push((a, b));
        proof {
            assert(a@ == h@[i as int].0@ && b@ == h@[i as int].1@);
            assert(r@ =~= before.push((a, b)));
            assert(headers_view(r@) =~= headers_view(before).push((h@[i as int].0@, h@[i as int].1@)));
            assert(h@.take(i + 1) =~= h@.take(i as int).push(h@[i as int]));
            assert(headers_view(h@.take(i + 1)) =~= headers_view(h@.take(i as int)).push((h@[i as int].0@, h@[i as int].1@)));
            assert(headers_view(r@) =~= headers_view(h@.take(i + 1)));
        }
        i = i + 1;
    }
    proof {
        assert(h@.take(h@.len() as int) =~= h@);
    }
    r
}

fn text_or_exec(s: &Option<String>, fallback: &str) -> (r: String)
    ensures
        r@ == text_or(*s, fallback@),
{
    match s {
        Some(t) => t.clone(),
        None => String::from_str(fallback),
    }
}

/// The entry of model `mid` of provider `pid`, speaking dialect `d`.
fn make_entry(
    pid: &str,
    p: &DevProvider,
    d: &Dialect,
    mid: &str,
    m: &DevModel,
    prices: &Vec<(String, Option<String>)>,
) -> (r: DevModelEntry)
    requires
        d.api_backend == backend_for(opt_text(p.api)),
        d.auth_scheme == auth_for(opt_text(p.api)),
        headers_view(d.extra_headers@) == headers_for(opt_text(p.api)),
        d.model_family@ == family_for(d.api_backend),
    ensures
        r@ == entry_of(pid@, *p, mid@, *m, prices@),
{
    let mut id = String::from_str(pid);
    id.append("/");
    id.append(mid);
    let context_window: u64 = match m.context_window {
        Some(c) => if c != 0 {
            c
        } else {
            200_000
        },
        None => 200_000,
    };
    let label = text_or_exec(&p.name, pid);
    let mut description = String::from_str("via ");
    description.append(label.as_str());
    description.append(" · ");
    push_decimal(&mut description, (context_window / 1000) as u128);
    description.append("k ctx");
    push_price_suffix(&mut description, prices, &m.pricing);
    let efforts = if m.reasoning {
        default_reasoning_efforts()
    } else {
        let e: Vec<ReasoningEffortOption> = Vec::new();
        proof {
            assert(e@.map_values(|o: ReasoningEffortOption| o@) =~= Seq::<EffortView>::empty());
        }
        e
    };
    let entry = DevModelEntry {
        id,
        model: String::from_str(mid),
        model_family: String::from_str(d.model_family),
        base_url: text_or_exec(&p.base_url, ""),
        name: text_or_exec(&m.name, mid),
        description,
        max_completion_tokens: match m.max_tokens {
            Some(t) => Some(#[verifier::truncate] (t as u32)),
            None => None,
        },
        env_key: text_or_exec(&p.env_key, ""),
        api_backend: d.api_backend,
        auth_scheme: d.auth_scheme,
        supports_reasoning_effort: m.reasoning,
        reasoning_efforts: efforts,
        extra_headers: clone_headers(&d.extra_headers),
        context_window,
        agent_type: String::from_str("grok-build-plan"),
        hidden: false,
        supported_in_api: true,
    };
    proof {
        assert(entry@.id =~= pid@ + "/"@ + mid@);
        assert(entry@.description =~= description_of(text_or(p.name, pid@), *m, prices@));
        assert(entry@ == entry_of(pid@, *p, mid@, *m, prices@));
    }
    entry
}

#[verifier::external_type_specification]
#[verifier::external_body]
#[verifier::reject_recursive_types(K)]
#[verifier::reject_recursive_types(V)]
#[verifier::reject_recursive_types(S)]
pub struct ExIndexMap<K, V, S>(IndexMap<K, V, S>);

/// What an `IndexMap` of catalog entries holds: its keys and entries, in the
/// map's order.
pub uninterp spec fn catalog_map_entries(m: IndexMap<String, DevModelEntry>) -> Seq<(Seq<char>, EntryView)>;

/// `IndexMap::new`: a map that holds nothing.
#[verifier::external_body]
fn catalog_map_new() -> (m: IndexMap<String, DevModelEntry>)
    ensures
        catalog_map_entries(m) == Seq::<(Seq<char>, EntryView)>::empty(),
{
    IndexMap::new()
}

/// `IndexMap::insert`: as its documentation says, a key already present
/// keeps its place in the order and takes the new value, and a new key goes
/// last. String keys are equivalent exactly when their texts are equal.
/// The replaced value that `insert` returns is dropped.
#[verifier::external_body]
fn catalog_map_insert(m: &mut IndexMap<String, DevModelEntry>, key: String, e: DevModelEntry)
    ensures
        catalog_map_entries(*final(m)) == keyed_insert(catalog_map_entries(*old(m)), key@, e@),
{
    m.insert(key, e);
}

proof fn lemma_catalog_entries_step(
    providers: Seq<(String, DevProvider)>,
    i: int,
    env: Seq<(String, String)>,
    prices: Seq<(String, Option<String>)>,
)
    requires
        0 <= i < providers.len(),
    ensures
        catalog_entries(providers.take(i + 1), env, prices) == catalog_entries(providers.take(i), env, prices)
            + provider_entries(providers[i].0@, providers[i].1, env, prices),
{
    assert(providers.take(i + 1).drop_last() =~= providers.take(i));
}

proof fn lemma_insert_all_push(items: Seq<(Seq<char>, EntryView)>, x: (Seq<char>, EntryView))
    ensures
        insert_all(items.push(x)) == keyed_insert(insert_all(items), x.0, x.1),
{
    assert(items.push(x).drop_last() =~= items);
}

/// Expands the catalog into entries keyed `provider/model`, in catalog order
/// (a repeated key keeps its first place and takes the later entry), using
/// the environment snapshot `env` for credentials and `prices` to render
/// per-token prices per million tokens.
pub fn expand_catalog(
    catalog: &DevCatalog,
    env: &Vec<(String, String)>,
    prices: &Vec<(String, Option<String>)>,
) -> (r: IndexMap<String, DevModelEntry>)
    ensures
        catalog_map_entries(r) == expanded_catalog(*catalog, env@, prices@),
{
    let providers = &catalog.providers;
    let mut out = catalog_map_new();
    let mut i: usize = 0;
    proof {
        assert(providers@.take(0) =~= Seq::<(String, DevProvider)>::empty());
        assert(catalog_map_entries(out) =~= insert_all(catalog_entries(providers@.take(0), env@, prices@)));
    }
    while i < providers.len()
        invariant
            i <= providers@.len(),
            providers@ == catalog.providers@,
            catalog_map_entries(out) == insert_all(catalog_entries(providers@.take(i as int), env@, prices@)),
        decreases providers@.len() - i,
    {
        let pid = providers[i].0.as_str();
        let p = &providers[i].1;
        proof {
            lemma_catalog_entries_step(providers@, i as int, env@, prices@);
        }
        let skipped = str_eq(pid, "xai");
        let expanded = if skipped || p.base_url.is_none() {
            false
        } else {
            match &p.env_key {
                Some(k) => env_var_set(env, k.as_str()),
                None => false,
            }
        };
        if expanded {
            let api: Option<&str> = match &p.api {
                Some(a) => Some(a.as_str()),
                None => None,
            };
            let d = dialect_for(api);
            proof {
                assert(opt_str_text(api) == opt_text(p.api));
            }
            let ghost base = catalog_entries(providers@.take(i as int), env@, prices@);
            let ghost pe = provider_entries(pid@, *p, env@, prices@);
            let models = &p.models;
            let mut j: usize = 0;
            proof {
                assert(pe.take(0) =~= Seq::<(Seq<char>, EntryView)>::empty());
                assert(base + pe.take(0) =~= base);
            }
            while j < models.len()
                invariant
                    j <= models@.len(),
                    models@ == p.models@,
                    pe == provider_entries(pid@, *p, env@, prices@),
                    provider_expanded(pid@, *p, env@),
                    pe.len() == models@.len(),
                    d.api_backend == backend_for(opt_text(p.api)),
                    d.auth_scheme == auth_for(opt_text(p.api)),
                    headers_view(d.extra_headers@) == headers_for(opt_text(p.api)),
                    d.model_family@ == family_for(d.api_backend),
                    catalog_map_entries(out) == insert_all(base + pe.take(j as int)),
                decreases models@.len() - j,
            {
                let mid = models[j].0.as_str();
                let entry = make_entry(pid, p, &d, mid, &models[j].1, prices);
                let mut key = String::from_str(pid);
                key.append("/");
                key.append(mid);
                proof {
                    assert(pe[j as int] == (key@, entry@));
                    assert(base + pe.take(j + 1) =~= (base + pe.take(j as int)).push(pe[j as int]));
                    lemma_insert_all_push(base + pe.take(j as int), pe[j as int]);
                }
                catalog_map_insert(&mut out, key, entry);
                j = j + 1;
            }
            proof {
                assert(pe.take(j as int) =~= pe);
            }
        } else {
            proof {
                assert(provider_entries(pid@, *p, env@, prices@) =~= Seq::<(Seq<char>, EntryView)>::empty());
                assert(catalog_entries(providers@.take(i + 1), env@, prices@) =~= catalog_entries(providers@.take(i as int), env@, prices@));
            }
        }
        i = i + 1;
    }
    proof {
        assert(providers@.take(i as int) =~= providers@);
    }
    out
}

} // verus!

//! Detection of the agent: what is installed, who is signed in, and which
//! models can run a turn.

use vstd::prelude::*;

use crate::catalog;
use crate::catalog::{ChoiceV, ModelInfo, ModelV, OptionChoice};
use crate::collections::StrSet;
use crate::config;
use crate::json;
use crate::json::{Json, JsonV};
use crate::text;

verus! {

broadcast use json::group_json;

/// Whether the agent's account works.
#[derive(Clone, Copy, Debug, PartialEq, Eq, Structural)]
pub enum HarnessAuthState {
    Unknown,
    NeedsLogin,
}

/// What detection finds out about an agent.
#[derive(Debug)]
pub struct HarnessInfo {
    pub id: String,
    pub name: String,
    pub installed: bool,
    pub install_broken: bool,
    pub authenticated: bool,
    pub auth_method: Option<String>,
    pub auth_state: HarnessAuthState,
    pub account: Option<String>,
    pub agent_ready: bool,
    pub agent_note: Option<String>,
    pub models: Vec<ModelInfo>,
}

/// The model of a [`HarnessInfo`].
#[verifier::ext_equal]
pub struct InfoV {
    pub id: Seq<char>,
    pub name: Seq<char>,
    pub installed: bool,
    pub install_broken: bool,
    pub authenticated: bool,
    pub auth_method: Option<Seq<char>>,
    pub auth_state: HarnessAuthState,
    pub account: Option<Seq<char>>,
    pub agent_ready: bool,
    pub agent_note: Option<Seq<char>>,
    pub models: Seq<ModelV>,
}

impl View for HarnessInfo {
    type V = InfoV;

    open spec fn view(&self) -> InfoV {
        InfoV {
            id: self.id@,
            name: self.name@,
            installed: self.installed,
            install_broken: self.install_broken,
            authenticated: self.authenticated,
            auth_method: text::opt_text(self.auth_method),
            auth_state: self.auth_state,
            account: text::opt_text(self.account),
            agent_ready: self.agent_ready,
            agent_note: text::opt_text(self.agent_note),
            models: catalog::infos(self.models@),
        }
    }
}

/// What was found on the machine.
#[derive(Debug)]
pub struct Findings {
    /// The agent's binary was found.
    pub installed: bool,
    /// The binary does not run.
    pub install_broken: bool,
    /// What to tell of a binary that does not run.
    pub broken_note: String,
    /// The catalog that the binary lists.
    pub models: Vec<ModelInfo>,
    /// The resolved configuration; null if it could not be read.
    pub config: Json,
    /// The providers that the agent is signed in to.
    pub signed_in: Vec<String>,
    /// The names of the environment's API keys.
    pub api_keys: Vec<String>,
    /// What each local server advertises, if it answered.
    pub advertised: Vec<Option<Vec<String>>>,
    /// Why the stored local models could not be read.
    pub store_error: Option<String>,
}

/// The model of [`Findings`].
#[verifier::ext_equal]
pub struct FindingsV {
    pub installed: bool,
    pub install_broken: bool,
    pub broken_note: Seq<char>,
    pub models: Seq<ModelV>,
    pub config: JsonV,
    pub signed_in: Seq<Seq<char>>,
    pub api_keys: Seq<Seq<char>>,
    pub advertised: Seq<Option<Seq<Seq<char>>>>,
    pub store_error: Option<Seq<char>>,
}

impl View for Findings {
    type V = FindingsV;

    open spec fn view(&self) -> FindingsV {
        FindingsV {
            installed: self.installed,
            install_broken: self.install_broken,
            broken_note: self.broken_note@,
            models: catalog::infos(self.models@),
            config: self.config@,
            signed_in: text::texts(self.signed_in@),
            api_keys: text::texts(self.api_keys@),
            advertised: config::opt_lists(self.advertised@),
            store_error: text::opt_text(self.store_error),
        }
    }
}

// ---------------------------------------------------------------------------
// Who is signed in
// ---------------------------------------------------------------------------

/// The enabled ones of the providers.
pub open spec fn enabled_of(config: JsonV, ids: Seq<Seq<char>>) -> Seq<Seq<char>>
    decreases ids.len(),
{
    if ids.len() == 0 {
        Seq::empty()
    } else if config::enabled_in(config, ids.last()) {
        enabled_of(config, ids.drop_last()).push(ids.last())
    } else {
        enabled_of(config, ids.drop_last())
    }
}

/// The provider's key is in the environment, and the provider is enabled.
pub open spec fn key_serves(f: FindingsV, id: Seq<char>, key: Seq<char>) -> bool {
    config::enabled_in(f.config, id) && f.api_keys.contains(key)
}

/// Some enabled provider's key is in the environment.
pub open spec fn has_key(f: FindingsV) -> bool {
    ||| key_serves(f, "anthropic"@, "ANTHROPIC_API_KEY"@)
    ||| key_serves(f, "openai"@, "OPENAI_API_KEY"@)
    ||| key_serves(f, "openrouter"@, "OPENROUTER_API_KEY"@)
    ||| key_serves(f, "google"@, "GEMINI_API_KEY"@)
    ||| key_serves(f, "google"@, "GOOGLE_API_KEY"@)
    ||| key_serves(f, "groq"@, "GROQ_API_KEY"@)
    ||| key_serves(f, "xai"@, "XAI_API_KEY"@)
    ||| key_serves(f, "deepseek"@, "DEEPSEEK_API_KEY"@)
}

fn enabled_ones(config: &Json, ids: &Vec<String>) -> (r: Vec<String>)
    ensures
        text::texts(r@) == enabled_of(config@, text::texts(ids@)),
{
    let ghost all = text::texts(ids@);
    let mut out: Vec<String> = Vec::new();
    let mut i: usize = 0;
    assert(all.take(0) =~= Seq::empty());
    assert(text::texts(out@) =~= Seq::empty());
    while i < ids.len()
        invariant
            i <= ids@.len(),
            all == text::texts(ids@),
            text::texts(out@) == enabled_of(config@, all.take(i as int)),
        decreases ids@.len() - i,
    {
        assert(all.take(i + 1).drop_last() =~= all.take(i as int));
        assert(all.take(i + 1).last() == ids@[i as int]@);
        if config::provider_enabled(config, ids[i].as_str()) {
            let ghost before = text::texts(out@);
            let id: String = ids[i].clone();
            out.push(id);
            assert(text::texts(out@) =~= before.push(id@));
        }
        i += 1;
    }
    assert(all.take(i as int) =~= all);
    out
}

fn serves(f: &Findings, id: &str, key: &str) -> (r: bool)
    ensures
        r == key_serves(f@, id@, key@),
{
    config::provider_enabled(&f.config, id) && text::texts_contain(&f.api_keys, key)
}

fn any_key(f: &Findings) -> (r: bool)
    ensures
        r == has_key(f@),
{
    serves(f, "anthropic", "ANTHROPIC_API_KEY") || serves(f, "openai", "OPENAI_API_KEY") || serves(
        f,
        "openrouter",
        "OPENROUTER_API_KEY",
    ) || serves(f, "google", "GEMINI_API_KEY") || serves(f, "google", "GOOGLE_API_KEY") || serves(
        f,
        "groq",
        "GROQ_API_KEY",
    ) || serves(f, "xai", "XAI_API_KEY") || serves(f, "deepseek", "DEEPSEEK_API_KEY")
}

// ---------------------------------------------------------------------------
// Which models there are
// ---------------------------------------------------------------------------

/// Some entry has this key.
pub open spec fn has_entry(entries: Seq<(Seq<char>, JsonV)>, id: Seq<char>) -> bool {
    exists|i: int| 0 <= i < entries.len() && (#[trigger] entries[i]).0 == id
}

/// The model belongs to a local provider.
pub open spec fn local_model(local: Seq<(Seq<char>, JsonV)>, model: ModelV) -> bool {
    has_entry(local, catalog::provider_of(model.id))
}

/// The model can be used: a local server serves it, or it is not local and the
/// account can be used.
pub open spec fn usable(
    local: Seq<(Seq<char>, JsonV)>,
    available: Set<Seq<char>>,
    authenticated: bool,
    model: ModelV,
) -> bool {
    available.contains(model.id) || (authenticated && !local_model(local, model))
}

/// The usable ones of the models.
pub open spec fn usable_of(
    local: Seq<(Seq<char>, JsonV)>,
    available: Set<Seq<char>>,
    authenticated: bool,
    models: Seq<ModelV>,
) -> Seq<ModelV> {
    models.filter(|m: ModelV| usable(local, available, authenticated, m))
}

/// Where a model stands in the list: the default model first, then local
/// models that were set up here, then the rest.
pub open spec fn bucket(default: Option<Seq<char>>, model: ModelV) -> int {
    let own = text::starts_with(model.id, "orx-local-"@);
    if Some(model.id) == default {
        if own {
            0
        } else {
            1
        }
    } else if own {
        2
    } else {
        3
    }
}

/// The models of one bucket, in their order.
pub open spec fn in_bucket(default: Option<Seq<char>>, models: Seq<ModelV>, b: int) -> Seq<ModelV> {
    models.filter(|m: ModelV| bucket(default, m) == b)
}

/// The models, bucket by bucket.
pub open spec fn listed_first(default: Option<Seq<char>>, models: Seq<ModelV>) -> Seq<ModelV> {
    in_bucket(default, models, 0) + in_bucket(default, models, 1) + in_bucket(default, models, 2)
        + in_bucket(default, models, 3)
}

fn entry_known(entries: &Vec<(String, Json)>, id: &str) -> (r: bool)
    ensures
        r == has_entry(json::entry_models(entries@), id@),
{
    let ghost all = json::entry_models(entries@);
    let mut i: usize = 0;
    while i < entries.len()
        invariant
            i <= entries@.len(),
            all == json::entry_models(entries@),
            forall|j: int| 0 <= j < i ==> (#[trigger] all[j]).0 != id@,
        decreases entries@.len() - i,
    {
        assert(all[i as int].0 == entries@[i as int].0@);
        if text::str_eq(entries[i].0.as_str(), id) {
            return true;
        }
        i += 1;
    }
    false
}

fn is_local_model(local: &Vec<(String, Json)>, model: &ModelInfo) -> (r: bool)
    ensures
        r == local_model(json::entry_models(local@), model@),
{
    let provider: String = catalog::model_provider(model.id.as_str());
    entry_known(local, provider.as_str())
}

fn bucket_of(default: Option<&str>, model: &ModelInfo) -> (r: u8)
    ensures
        r == bucket(text::opt_str(default), model@),
{
    let own: bool = text::starts_with_text(model.id.as_str(), "orx-local-");
    if text::opt_is(default, model.id.as_str()) {
        if own {
            0
        } else {
            1
        }
    } else if own {
        2
    } else {
        3
    }
}

/// Keep the usable ones of the models.
fn keep_usable(
    models: Vec<ModelInfo>,
    local: &Vec<(String, Json)>,
    available: &StrSet,
    authenticated: bool,
) -> (r: Vec<ModelInfo>)
    ensures
        catalog::infos(r@) == usable_of(
            json::entry_models(local@),
            available@,
            authenticated,
            catalog::infos(models@),
        ),
{
    let ghost all = catalog::infos(models@);
    let ghost entries = json::entry_models(local@);
    let mut rest: Vec<ModelInfo> = models;
    let mut out: Vec<ModelInfo> = Vec::new();
    let ghost mut done: int = 0;
    proof {
        reveal(Seq::filter);
        assert(all.take(0) =~= Seq::empty());
        assert(all.skip(0) =~= all);
        assert(catalog::infos(out@) =~= Seq::empty());
    }
    while rest.len() > 0
        invariant
            0 <= done <= all.len(),
            entries == json::entry_models(local@),
            catalog::infos(rest@) == all.skip(done),
            catalog::infos(out@) == usable_of(entries, available@, authenticated, all.take(done)),
        decreases rest@.len(),
    {
        proof {
            reveal(Seq::filter);
        }
        let ghost was = catalog::infos(rest@);
        assert(was.len() == rest@.len());
        let model: ModelInfo = rest.remove(0);
        assert(was[0] == model@);
        assert(catalog::infos(rest@) =~= was.skip(1));
        assert(all.skip(done).skip(1) =~= all.skip(done + 1));
        assert(all.take(done + 1).drop_last() =~= all.take(done));
        assert(all.take(done + 1).last() == model@);
        if available.contains(model.id.as_str()) || (authenticated && !is_local_model(
            local,
            &model,
        )) {
            let ghost before = catalog::infos(out@);
            out.push(model);
            assert(catalog::infos(out@) =~= before.push(model@));
        }
        proof {
            done = done + 1;
        }
    }
    assert(all.skip(done).len() == 0);
    assert(all.take(done) =~= all);
    out
}

fn add_model(v: &mut Vec<ModelInfo>, model: ModelInfo)
    ensures
        catalog::infos(final(v)@) == catalog::infos(old(v)@).push(model@),
{
    let ghost before = catalog::infos(v@);
    v.push(model);
    assert(catalog::infos(v@) =~= before.push(model@));
}

fn join_models(v: &mut Vec<ModelInfo>, mut more: Vec<ModelInfo>)
    ensures
        catalog::infos(final(v)@) == catalog::infos(old(v)@) + catalog::infos(more@),
{
    let ghost before = catalog::infos(v@);
    let ghost tail = catalog::infos(more@);
    v.append(&mut more);
    assert(catalog::infos(v@) =~= before + tail);
}

/// Put the models in the order in which they are listed.
fn list_models(models: Vec<ModelInfo>, default: Option<&str>) -> (r: Vec<ModelInfo>)
    ensures
        catalog::infos(r@) == listed_first(text::opt_str(default), catalog::infos(models@)),
{
    let ghost all = catalog::infos(models@);
    let ghost d = text::opt_str(default);
    let mut rest: Vec<ModelInfo> = models;
    let mut b0: Vec<ModelInfo> = Vec::new();
    let mut b1: Vec<ModelInfo> = Vec::new();
    let mut b2: Vec<ModelInfo> = Vec::new();
    let mut b3: Vec<ModelInfo> = Vec::new();
    let ghost mut done: int = 0;
    proof {
        reveal(Seq::filter);
        assert(all.take(0) =~= Seq::empty());
        assert(all.skip(0) =~= all);
        assert(catalog::infos(b0@) =~= Seq::empty());
        assert(catalog::infos(b1@) =~= Seq::empty());
        assert(catalog::infos(b2@) =~= Seq::empty());
        assert(catalog::infos(b3@) =~= Seq::empty());
    }
    while rest.len() > 0
        invariant
            0 <= done <= all.len(),
            d == text::opt_str(default),
            catalog::infos(rest@) == all.skip(done),
            catalog::infos(b0@) == in_bucket(d, all.take(done), 0),
            catalog::infos(b1@) == in_bucket(d, all.take(done), 1),
            catalog::infos(b2@) == in_bucket(d, all.take(done), 2),
            catalog::infos(b3@) == in_bucket(d, all.take(done), 3),
        decreases rest@.len(),
    {
        proof {
            reveal(Seq::filter);
        }
        let ghost was = catalog::infos(rest@);
        assert(was.len() == rest@.len());
        let model: ModelInfo = rest.remove(0);
        assert(was[0] == model@);
        assert(catalog::infos(rest@) =~= was.skip(1));
        assert(all.skip(done).skip(1) =~= all.skip(done + 1));
        assert(all.take(done + 1).drop_last() =~= all.take(done));
        assert(all.take(done + 1).last() == model@);
        let b: u8 = bucket_of(default, &model);
        if b == 0 {
            add_model(&mut b0, model);
        } else if b == 1 {
            add_model(&mut b1, model);
        } else if b == 2 {
            add_model(&mut b2, model);
        } else {
            add_model(&mut b3, model);
        }
        proof {
            done = done + 1;
        }
    }
    assert(all.skip(done).len() == 0);
    assert(all.take(done) =~= all);
    join_models(&mut b0, b1);
    join_models(&mut b0, b2);
    join_models(&mut b0, b3);
    b0
}

// ---------------------------------------------------------------------------
// Detection
// ---------------------------------------------------------------------------

pub const LOCAL_MISSING: &'static str = "Some local models are unavailable. Start the server, load the configured model, and re-check OpenCode.";

pub const KEY_REJECTED: &'static str = " rejected the stored API key, so its models are hidden. Re-add it with `opencode2 auth login`.";

pub const LOCAL_DOWN: &'static str = "Local model server unavailable or configured model not found. Start the server, load your model, and re-check OpenCode.";

pub const LOCAL_UNLISTED: &'static str = "The local server is reachable, but OpenCode did not list the configured model. Check `opencode2 models` and re-check OpenCode.";

pub const NO_MODELS: &'static str = "OpenCode listed no models. Check `opencode2 models` and re-check OpenCode.";

pub const NOT_SIGNED_IN: &'static str = "Configure a local model in OpenCode, or sign in with `opencode2 auth login`.";

pub const NOT_INSTALLED: &'static str = "Install opencode2 (npm i -g @opencode/cli), then configure a local model or sign in with `opencode2 auth login`.";

pub const NO_CONFIG: &'static str = "Could not read OpenCode configuration. Update OpenCode and re-check to discover local models.";

/// How to repair an installation that does not run.
pub const OPENCODE_REINSTALL: &'static str = "Reinstall opencode2 (npm i -g @opencode/cli)";

/// A detection before the stored keys have been tried.
#[derive(Debug)]
pub struct Detection {
    pub info: HarnessInfo,
    /// The models that can be used if no key is rejected.
    pub models: Vec<ModelInfo>,
    /// The enabled providers that the agent is signed in to.
    pub providers: Vec<String>,
    /// Those of them whose stored keys are to be tried.
    pub cloud: Vec<String>,
    /// Some provider is local.
    pub has_local: bool,
    /// Some local server serves a configured model.
    pub has_served: bool,
    /// The configuration could not be read.
    pub no_config: bool,
    pub broken_note: String,
    pub store_error: Option<String>,
}

/// The model of a [`Detection`].
#[verifier::ext_equal]
pub struct DetectionV {
    pub info: InfoV,
    pub models: Seq<ModelV>,
    pub providers: Seq<Seq<char>>,
    pub cloud: Seq<Seq<char>>,
    pub has_local: bool,
    pub has_served: bool,
    pub no_config: bool,
    pub broken_note: Seq<char>,
    pub store_error: Option<Seq<char>>,
}

impl View for Detection {
    type V = DetectionV;

    open spec fn view(&self) -> DetectionV {
        DetectionV {
            info: self.info@,
            models: catalog::infos(self.models@),
            providers: text::texts(self.providers@),
            cloud: text::texts(self.cloud@),
            has_local: self.has_local,
            has_served: self.has_served,
            no_config: self.no_config,
            broken_note: self.broken_note@,
            store_error: text::opt_text(self.store_error),
        }
    }
}

/// The providers that are not among the local ones.
pub open spec fn not_local(local: Seq<(Seq<char>, JsonV)>, ids: Seq<Seq<char>>) -> Seq<Seq<char>>
    decreases ids.len(),
{
    if ids.len() == 0 {
        Seq::empty()
    } else if has_entry(local, ids.last()) {
        not_local(local, ids.drop_last())
    } else {
        not_local(local, ids.drop_last()).push(ids.last())
    }
}

/// The account can be used: the agent is signed in somewhere, or has a key.
pub open spec fn is_authenticated(f: FindingsV) -> bool {
    enabled_of(f.config, f.signed_in).len() > 0 || has_key(f)
}

/// Some local model of the catalog is not served.
pub open spec fn lacks_local(
    local: Seq<(Seq<char>, JsonV)>,
    available: Set<Seq<char>>,
    models: Seq<ModelV>,
) -> bool {
    exists|i: int|
        0 <= i < models.len() && local_model(local, #[trigger] models[i]) && !available.contains(
            models[i].id,
        )
}

/// The catalog with the configured names.
pub open spec fn named_models(f: FindingsV) -> Seq<ModelV> {
    f.models.map_values(|m: ModelV| config::labelled(m, f.config))
}

/// The local models that are served.
pub open spec fn served_ids(f: FindingsV) -> Set<Seq<char>> {
    config::available(config::local_in(f.config), f.advertised)
}

/// The models that can be used if no key is rejected, as they are listed.
pub open spec fn usable_models(f: FindingsV) -> Seq<ModelV> {
    listed_first(
        f.config.str_at("model"@),
        usable_of(
            config::local_in(f.config),
            served_ids(f),
            is_authenticated(f),
            named_models(f),
        ),
    )
}

/// What the findings come to before the stored keys have been tried.
pub open spec fn prepared(f: FindingsV) -> DetectionV {
    let local = config::local_in(f.config);
    let providers = enabled_of(f.config, f.signed_in);
    let models = usable_models(f);
    DetectionV {
        info: InfoV {
            id: "opencode"@,
            name: "OpenCode"@,
            installed: f.installed,
            install_broken: f.install_broken,
            authenticated: is_authenticated(f),
            auth_method: if providers.len() > 0 {
                Some("oauth"@)
            } else if has_key(f) {
                Some("apiKey"@)
            } else if local.len() > 0 {
                Some("local"@)
            } else {
                None
            },
            auth_state: HarnessAuthState::Unknown,
            account: if providers.len() > 0 {
                Some(text::join(providers, ", "@))
            } else {
                None
            },
            agent_ready: f.installed && !f.install_broken && models.len() > 0,
            agent_note: if lacks_local(local, served_ids(f), named_models(f)) {
                Some(LOCAL_MISSING@)
            } else {
                None
            },
            models: Seq::empty(),
        },
        models,
        providers,
        cloud: not_local(local, providers),
        has_local: local.len() > 0,
        has_served: served_ids(f) != Set::<Seq<char>>::empty(),
        no_config: f.config is Null,
        broken_note: f.broken_note,
        store_error: f.store_error,
    }
}

fn local_is_missing(
    models: &Vec<ModelInfo>,
    local: &Vec<(String, Json)>,
    available: &StrSet,
) -> (r: bool)
    ensures
        r == lacks_local(json::entry_models(local@), available@, catalog::infos(models@)),
{
    let ghost all = catalog::infos(models@);
    let ghost entries = json::entry_models(local@);
    let mut i: usize = 0;
    while i < models.len()
        invariant
            i <= models@.len(),
            all == catalog::infos(models@),
            entries == json::entry_models(local@),
            forall|j: int|
                0 <= j < i ==> !(local_model(entries, #[trigger] all[j]) && !available@.contains(
                    all[j].id,
                )),
        decreases models@.len() - i,
    {
        assert(all[i as int] == models@[i as int]@);
        if is_local_model(local, &models[i]) && !available.contains(models[i].id.as_str()) {
            return true;
        }
        i += 1;
    }
    false
}

fn without_local(local: &Vec<(String, Json)>, ids: &Vec<String>) -> (r: Vec<String>)
    ensures
        text::texts(r@) == not_local(json::entry_models(local@), text::texts(ids@)),
{
    let ghost all = text::texts(ids@);
    let ghost entries = json::entry_models(local@);
    let mut out: Vec<String> = Vec::new();
    let mut i: usize = 0;
    assert(all.take(0) =~= Seq::empty());
    assert(text::texts(out@) =~= Seq::empty());
    while i < ids.len()
        invariant
            i <= ids@.len(),
            all == text::texts(ids@),
            entries == json::entry_models(local@),
            text::texts(out@) == not_local(entries, all.take(i as int)),
        decreases ids@.len() - i,
    {
        assert(all.take(i + 1).drop_last() =~= all.take(i as int));
        assert(all.take(i + 1).last() == ids@[i as int]@);
        if !entry_known(local, ids[i].as_str()) {
            let ghost before = text::texts(out@);
            let id: String = ids[i].clone();
            out.push(id);
            assert(text::texts(out@) =~= before.push(id@));
        }
        i += 1;
    }
    assert(all.take(i as int) =~= all);
    out
}

/// What the findings come to before the stored keys have been tried.
pub fn prepare(findings: Findings) -> (r: Detection)
    ensures
        r@ == prepared(findings@),
{
    let ghost f = findings@;
    let has_env_key: bool = any_key(&findings);
    let local: Vec<(String, Json)> = config::local_providers(&findings.config);
    assert(json::entry_models(local@).len() == local@.len());
    let available: StrSet = config::available_local_models(&local, &findings.advertised);
    let providers: Vec<String> = enabled_ones(&findings.config, &findings.signed_in);
    assert(text::texts(providers@).len() == providers@.len());
    let mut models: Vec<ModelInfo> = findings.models;
    config::apply_configured_labels(&mut models, &findings.config);
    assert(catalog::infos(models@) == named_models(f));
    let signed_in: bool = providers.len() > 0;
    let authenticated: bool = signed_in || has_env_key;
    let missing: bool = local_is_missing(&models, &local, &available);
    let kept: Vec<ModelInfo> = keep_usable(models, &local, &available, authenticated);
    let listed: Vec<ModelInfo> = list_models(kept, findings.config.str_at("model"));
    assert(catalog::infos(listed@).len() == listed@.len());
    let auth_method: Option<String> = if signed_in {
        Some("oauth".to_owned())
    } else if has_env_key {
        Some("apiKey".to_owned())
    } else if local.len() > 0 {
        Some("local".to_owned())
    } else {
        None
    };
    let account: Option<String> = if signed_in {
        Some(text::join_texts(&providers, ", "))
    } else {
        None
    };
    let agent_note: Option<String> = if missing {
        Some(LOCAL_MISSING.to_owned())
    } else {
        None
    };
    let cloud: Vec<String> = without_local(&local, &providers);
    let none: Vec<ModelInfo> = Vec::new();
    assert(catalog::infos(none@) =~= Seq::empty());
    Detection {
        info: HarnessInfo {
            id: "opencode".to_owned(),
            name: "OpenCode".to_owned(),
            installed: findings.installed,
            install_broken: findings.install_broken,
            authenticated,
            auth_method,
            auth_state: HarnessAuthState::Unknown,
            account,
            agent_ready: findings.installed && !findings.install_broken && listed.len() > 0,
            agent_note,
            models: none,
        },
        models: listed,
        providers,
        cloud,
        has_local: local.len() > 0,
        has_served: !available.is_empty(),
        no_config: findings.config.is_null(),
        broken_note: findings.broken_note,
        store_error: findings.store_error,
    }
}

/// The models of providers whose keys work.
pub open spec fn living_of(dead: Seq<Seq<char>>, models: Seq<ModelV>) -> Seq<ModelV> {
    models.filter(|m: ModelV| !dead.contains(catalog::provider_of(m.id)))
}

/// The providers, each marked if its key was rejected.
pub open spec fn marked(providers: Seq<Seq<char>>, dead: Seq<Seq<char>>) -> Seq<Seq<char>> {
    providers.map_values(
        |p: Seq<char>|
            if dead.contains(p) {
                p + " (key rejected)"@
            } else {
                p
            },
    )
}

/// The two notes, one behind the other.
pub open spec fn noted(first: Option<Seq<char>>, note: Seq<char>) -> Seq<char> {
    match first {
        Some(f) => f + " "@ + note,
        None => note,
    }
}

/// What a detection comes to if the agent could run a turn: the models of
/// providers with rejected keys are hidden, and where no model is left the
/// agent needs a sign-in.
pub open spec fn with_dead(d: DetectionV, dead: Seq<Seq<char>>) -> InfoV {
    let hidden = if dead.len() > 0 {
        InfoV {
            account: Some(text::join(marked(d.providers, dead), ", "@)),
            agent_note: Some(noted(d.info.agent_note, text::join(dead, ", "@) + KEY_REJECTED@)),
            ..d.info
        }
    } else {
        d.info
    };
    let models = if dead.len() > 0 {
        living_of(dead, d.models)
    } else {
        d.models
    };
    if models.len() == 0 {
        InfoV {
            agent_ready: false,
            auth_state: HarnessAuthState::NeedsLogin,
            models,
            ..hidden
        }
    } else {
        InfoV { models, ..hidden }
    }
}

/// Why the agent can run no turn.
pub open spec fn idle_note(d: DetectionV) -> Seq<char> {
    if d.info.install_broken {
        d.broken_note
    } else if d.info.installed && d.has_local {
        if d.has_served {
            LOCAL_UNLISTED@
        } else {
            LOCAL_DOWN@
        }
    } else if d.info.installed && d.info.authenticated {
        NO_MODELS@
    } else if d.info.installed {
        NOT_SIGNED_IN@
    } else {
        NOT_INSTALLED@
    }
}

/// What a detection comes to, once it is known which providers' keys are
/// rejected.
pub open spec fn concluded(d: DetectionV, dead: Seq<Seq<char>>) -> InfoV {
    let info = if d.info.agent_ready {
        with_dead(d, dead)
    } else {
        InfoV { agent_note: Some(idle_note(d)), ..d.info }
    };
    let note = match d.store_error {
        Some(e) => Some(e),
        None => if info.installed && !info.install_broken && !info.agent_ready && d.no_config {
            Some(NO_CONFIG@)
        } else {
            info.agent_note
        },
    };
    InfoV { agent_note: note, ..info }
}

fn keep_living(models: Vec<ModelInfo>, dead: &Vec<String>) -> (r: Vec<ModelInfo>)
    ensures
        catalog::infos(r@) == living_of(text::texts(dead@), catalog::infos(models@)),
{
    let ghost all = catalog::infos(models@);
    let ghost gone = text::texts(dead@);
    let mut rest: Vec<ModelInfo> = models;
    let mut out: Vec<ModelInfo> = Vec::new();
    let ghost mut done: int = 0;
    proof {
        reveal(Seq::filter);
        assert(all.take(0) =~= Seq::empty());
        assert(all.skip(0) =~= all);
        assert(catalog::infos(out@) =~= Seq::empty());
    }
    while rest.len() > 0
        invariant
            0 <= done <= all.len(),
            gone == text::texts(dead@),
            catalog::infos(rest@) == all.skip(done),
            catalog::infos(out@) == living_of(gone, all.take(done)),
        decreases rest@.len(),
    {
        proof {
            reveal(Seq::filter);
        }
        let ghost was = catalog::infos(rest@);
        assert(was.len() == rest@.len());
        let model: ModelInfo = rest.remove(0);
        assert(was[0] == model@);
        assert(catalog::infos(rest@) =~= was.skip(1));
        assert(all.skip(done).skip(1) =~= all.skip(done + 1));
        assert(all.take(done + 1).drop_last() =~= all.take(done));
        assert(all.take(done + 1).last() == model@);
        let provider: String = catalog::model_provider(model.id.as_str());
        if !text::texts_contain(dead, provider.as_str()) {
            add_model(&mut out, model);
        }
        proof {
            done = done + 1;
        }
    }
    assert(all.skip(done).len() == 0);
    assert(all.take(done) =~= all);
    out
}

fn mark_dead(providers: &Vec<String>, dead: &Vec<String>) -> (r: Vec<String>)
    ensures
        text::texts(r@) == marked(text::texts(providers@), text::texts(dead@)),
{
    let ghost all = marked(text::texts(providers@), text::texts(dead@));
    let mut out: Vec<String> = Vec::new();
    let mut i: usize = 0;
    assert(text::texts(out@) =~= all.take(0));
    while i < providers.len()
        invariant
            i <= providers@.len(),
            all == marked(text::texts(providers@), text::texts(dead@)),
            all.len() == providers@.len(),
            text::texts(out@) == all.take(i as int),
        decreases providers@.len() - i,
    {
        let ghost before = text::texts(out@);
        let shown: String = if text::texts_contain(dead, providers[i].as_str()) {
            text::concat2(providers[i].as_str(), " (key rejected)")
        } else {
            providers[i].clone()
        };
        assert(text::texts(providers@)[i as int] == providers@[i as int]@);
        assert(all[i as int] == shown@);
        out.push(shown);
        assert(text::texts(out@) =~= before.push(shown@));
        i += 1;
        assert(text::texts(out@) =~= all.take(i as int));
    }
    assert(all.take(i as int) =~= all);
    out
}

fn idle_note_of(d: &Detection) -> (r: String)
    ensures
        r@ == idle_note(d@),
{
    if d.info.install_broken {
        d.broken_note.clone()
    } else if d.info.installed && d.has_local {
        if d.has_served {
            LOCAL_UNLISTED.to_owned()
        } else {
            LOCAL_DOWN.to_owned()
        }
    } else if d.info.installed && d.info.authenticated {
        NO_MODELS.to_owned()
    } else if d.info.installed {
        NOT_SIGNED_IN.to_owned()
    } else {
        NOT_INSTALLED.to_owned()
    }
}

/// What a detection comes to, once it is known which providers' keys are
/// rejected.
pub fn conclude(detection: Detection, dead: &Vec<String>) -> (r: HarnessInfo)
    ensures
        r@ == concluded(detection@, text::texts(dead@)),
{
    let ghost d = detection@;
    let ghost gone = text::texts(dead@);
    assert(gone.len() == dead@.len());
    let mut detection: Detection = detection;
    if detection.info.agent_ready {
        let mut models: Vec<ModelInfo> = detection.models;
        if dead.len() > 0 {
            models = keep_living(models, dead);
            let names: Vec<String> = mark_dead(&detection.providers, dead);
            let account: String = text::join_texts(&names, ", ");
            let who: String = text::join_texts(dead, ", ");
            let note: String = text::concat2(who.as_str(), KEY_REJECTED);
            let full: String = match &detection.info.agent_note {
                Some(first) => text::concat3(first.as_str(), " ", note.as_str()),
                None => note,
            };
            detection.info.account = Some(account);
            detection.info.agent_note = Some(full);
        }
        assert(catalog::infos(models@).len() == models@.len());
        if models.len() == 0 {
            detection.info.agent_ready = false;
            detection.info.auth_state = HarnessAuthState::NeedsLogin;
        }
        detection.info.models = models;
        assert(detection.info@ =~= with_dead(d, gone));
    } else {
        let note: String = idle_note_of(&detection);
        detection.info.agent_note = Some(note);
    }
    let mut info: HarnessInfo = detection.info;
    if info.installed && !info.install_broken && !info.agent_ready && detection.no_config {
        info.agent_note = Some(NO_CONFIG.to_owned());
    }
    match detection.store_error {
        Some(e) => {
            info.agent_note = Some(e);
        },
        None => {},
    }
    info
}

// ---------------------------------------------------------------------------
// The agent
// ---------------------------------------------------------------------------

/// The agent.
pub struct OpenCode;

/// How a plan is entered.
#[derive(Clone, Copy, Debug, PartialEq, Eq, Structural)]
pub enum PlanActivation {
    Command,
}

/// The choices that the agent offers.
#[derive(Debug)]
pub struct HarnessOptions {
    pub permission_choices: Vec<OptionChoice>,
    pub permission_default: String,
    pub plan: PlanActivation,
    pub reasoning_choices: Vec<OptionChoice>,
}

impl OpenCode {
    pub fn id(&self) -> (r: &'static str)
        ensures
            r@ == "opencode"@,
    {
        "opencode"
    }

    pub fn name(&self) -> (r: &'static str)
        ensures
            r@ == "OpenCode"@,
    {
        "OpenCode"
    }

    pub fn supports_chat(&self) -> (r: bool)
        ensures
            r,
    {
        true
    }

    /// What is known of the agent, given what was found and which providers'
    /// keys a live request rejects.
    pub fn detect(&self, findings: Findings, dead: &Vec<String>) -> (r: Option<HarnessInfo>)
        ensures
            r matches Some(info) && info@ == concluded(
                prepared(findings@),
                text::texts(dead@),
            ),
    {
        Some(conclude(prepare(findings), dead))
    }

    /// Permissions are asked for or approved; planning is entered by a
    /// command. Reasoning is a matter of the model, so there are no choices
    /// for the agent as a whole.
    pub fn options(&self) -> (r: HarnessOptions)
        ensures
            catalog::choice_models(r.permission_choices@) == seq![
                (ChoiceV {
                    id: "default"@,
                    label: "Default"@,
                    description: Some("Ask before actions that need your approval"@),
                }),
                (ChoiceV {
                    id: "auto-approve"@,
                    label: "Auto-approve"@,
                    description: Some(
                        "Approve requests automatically, except actions you have denied"@,
                    ),
                }),
            ],
            r.permission_default@ == "default"@,
            r.plan == PlanActivation::Command,
            r.reasoning_choices@.len() == 0,
    {
        let mut choices: Vec<OptionChoice> = Vec::new();
        choices.push(
            OptionChoice::described(
                "default",
                "Default",
                "Ask before actions that need your approval",
            ),
        );
        choices.push(
            OptionChoice::described(
                "auto-approve",
                "Auto-approve",
                "Approve requests automatically, except actions you have denied",
            ),
        );
        HarnessOptions {
            permission_choices: choices,
            permission_default: "default".to_owned(),
            plan: PlanActivation::Command,
            reasoning_choices: Vec::new(),
        }
    }

    /// The components of the agent's configuration directory, below the
    /// user's configuration directory.
    pub fn config_home(&self) -> (r: Vec<String>)
        ensures
            text::texts(r@) == seq!["opencode"@],
    {
        let mut path: Vec<String> = Vec::new();
        path.push("opencode".to_owned());
        assert(text::texts(path@) =~= seq!["opencode"@]);
        path
    }

    /// The components of the skill file, below the user's configuration
    /// directory.
    pub fn skill_target(&self) -> (r: Vec<String>)
        ensures
            text::texts(r@) == seq!["opencode"@, "skills"@, "orx"@, "SKILL.md"@],
    {
        let mut path: Vec<String> = self.config_home();
        text::push_text(&mut path, "skills");
        text::push_text(&mut path, "orx");
        text::push_text(&mut path, "SKILL.md");
        assert(text::texts(path@) =~= seq!["opencode"@, "skills"@, "orx"@, "SKILL.md"@]);
        path
    }

    /// Where a session keeps its skills, below its directory.
    pub fn session_skills_dir(&self) -> (r: Option<&'static str>)
        ensures
            text::opt_str(r) == Some(".opencode/skills"@),
    {
        Some(".opencode/skills")
    }
}

/// Where the agent keeps its credentials: the components below the user's
/// data directory, or below the home directory if there is none.
pub fn opencode_auth_path(data_home: Option<&str>, home: Option<&str>) -> (r: Option<Vec<String>>)
    ensures
        catalog::opt_texts(r) == (match (text::opt_str(data_home), text::opt_str(home)) {
            (Some(data), _) => Some(seq![data, "opencode"@, "auth.json"@]),
            (None, Some(h)) => Some(seq![h, ".local"@, "share"@, "opencode"@, "auth.json"@]),
            (None, None) => None,
        }),
{
    let mut path: Vec<String> = Vec::new();
    match data_home {
        Some(data) => {
            path.push(data.to_owned());
        },
        None => match home {
            Some(h) => {
                path.push(h.to_owned());
                path.push(".local".to_owned());
                path.push("share".to_owned());
            },
            None => {
                return None;
            },
        },
    }
    path.push("opencode".to_owned());
    path.push("auth.json".to_owned());
    proof {
        if data_home is Some {
            assert(text::texts(path@) =~= seq![data_home->0@, "opencode"@, "auth.json"@]);
        } else {
            assert(text::texts(path@) =~= seq![
                home->0@,
                ".local"@,
                "share"@,
                "opencode"@,
                "auth.json"@,
            ]);
        }
    }
    Some(path)
}

// ---------------------------------------------------------------------------
// Laws
// ---------------------------------------------------------------------------

/// The agent is ready exactly if it lists a model, and only if it is installed
/// and runs.
pub proof fn ready_agents_have_models(f: FindingsV, dead: Seq<Seq<char>>)
    ensures
        ({
            let info = concluded(prepared(f), dead);
            &&& info.agent_ready == (info.models.len() > 0)
            &&& info.agent_ready ==> f.installed && !f.install_broken
        }),
{
}

/// No model of a provider with a rejected key is listed.
pub proof fn rejected_keys_hide_their_models(f: FindingsV, dead: Seq<Seq<char>>, i: int)
    requires
        0 <= i < concluded(prepared(f), dead).models.len(),
    ensures
        !dead.contains(catalog::provider_of(concluded(prepared(f), dead).models[i].id)),
{
    let models = prepared(f).models;
    let keep = |m: ModelV| !dead.contains(catalog::provider_of(m.id));
    broadcast use vstd::seq_lib::group_filter_ensures;

    if dead.len() > 0 {
        let living = living_of(dead, models);
        assert(living == models.filter(keep));
        assert(keep(living[i]));
    }
}

/// Every listed model can be used: a local server serves it, or the account
/// can be used and the model is not local.
pub proof fn listed_models_are_usable(f: FindingsV, dead: Seq<Seq<char>>, i: int)
    requires
        0 <= i < concluded(prepared(f), dead).models.len(),
    ensures
        usable(
            config::local_in(f.config),
            served_ids(f),
            is_authenticated(f),
            concluded(prepared(f), dead).models[i],
        ),
{
    let m = concluded(prepared(f), dead).models[i];
    let local = config::local_in(f.config);
    let ids = served_ids(f);
    let auth = is_authenticated(f);
    let kept = usable_of(local, ids, auth, named_models(f));
    let listed = usable_models(f);
    let default = f.config.str_at("model"@);
    broadcast use vstd::seq_lib::group_filter_ensures;

    let living = living_of(dead, listed);
    let alive = |m: ModelV| !dead.contains(catalog::provider_of(m.id));
    if dead.len() > 0 {
        assert(living == listed.filter(alive));
        lemma_filter_from(listed, alive, i);
    }
    assert(listed.contains(m));
    let k = choose|k: int| 0 <= k < listed.len() && listed[k] == m;
    lemma_listed_from(default, kept, k);
    assert(kept.contains(m));
    let pred = |m: ModelV| usable(local, ids, auth, m);
    assert(kept == named_models(f).filter(pred));
    let n = choose|n: int| 0 <= n < kept.len() && kept[n] == m;
    assert(pred(kept[n]));
}

proof fn lemma_filter_from(models: Seq<ModelV>, pred: spec_fn(ModelV) -> bool, i: int)
    requires
        0 <= i < models.filter(pred).len(),
    ensures
        models.contains(models.filter(pred)[i]),
    decreases models.len(),
{
    reveal(Seq::filter);
    let init = models.drop_last();
    if i < init.filter(pred).len() {
        lemma_filter_from(init, pred, i);
        let k = choose|k: int| 0 <= k < init.len() && init[k] == init.filter(pred)[i];
        assert(models[k] == init.filter(pred)[i]);
        assert(models.filter(pred)[i] == init.filter(pred)[i]);
    } else {
        assert(models[models.len() - 1] == models.last());
    }
}

proof fn lemma_listed_from(default: Option<Seq<char>>, models: Seq<ModelV>, k: int)
    requires
        0 <= k < listed_first(default, models).len(),
    ensures
        models.contains(listed_first(default, models)[k]),
{
    listing_loses_nothing(default, models);
    let listed = listed_first(default, models);
    listed.to_multiset_ensures();
    models.to_multiset_ensures();
    assert(listed.contains(listed[k]));
    assert(listed.to_multiset().count(listed[k]) > 0);
}

/// Putting the models in order loses none and adds none.
pub proof fn listing_loses_nothing(default: Option<Seq<char>>, models: Seq<ModelV>)
    ensures
        listed_first(default, models).to_multiset() == models.to_multiset(),
    decreases models.len(),
{
    reveal(Seq::filter);
    let b = |i: int| in_bucket(default, models, i);
    lemma_four(b(0), b(1), b(2), b(3));
    if models.len() == 0 {
        assert(listed_first(default, models) =~= models);
    } else {
        let init = models.drop_last();
        let m = models.last();
        let a = |i: int| in_bucket(default, init, i);
        listing_loses_nothing(default, init);
        lemma_four(a(0), a(1), a(2), a(3));
        vstd::seq_lib::to_multiset_build(init, m);
        assert(models =~= init.push(m));
        let n = bucket(default, m);
        vstd::seq_lib::to_multiset_build(a(n), m);
        assert(listed_first(default, models).to_multiset() =~= models.to_multiset());
    }
}

proof fn lemma_four(a: Seq<ModelV>, b: Seq<ModelV>, c: Seq<ModelV>, d: Seq<ModelV>)
    ensures
        (a + b + c + d).to_multiset() == a.to_multiset().add(b.to_multiset()).add(
            c.to_multiset(),
        ).add(d.to_multiset()),
{
    vstd::seq_lib::lemma_multiset_commutative(a, b);
    vstd::seq_lib::lemma_multiset_commutative(a + b, c);
    vstd::seq_lib::lemma_multiset_commutative(a + b + c, d);
}

/// The configured default model is listed first, if it can be used.
pub proof fn the_default_model_comes_first(default: Seq<char>, models: Seq<ModelV>, i: int)
    requires
        0 <= i < models.len(),
        models[i].id == default,
    ensures
        listed_first(Some(default), models).len() > 0,
        listed_first(Some(default), models)[0].id == default,
{
    broadcast use vstd::seq_lib::group_filter_ensures;

    let b0 = in_bucket(Some(default), models, 0);
    let b1 = in_bucket(Some(default), models, 1);
    let n = bucket(Some(default), models[i]);
    let p0 = |m: ModelV| bucket(Some(default), m) == 0;
    let p1 = |m: ModelV| bucket(Some(default), m) == 1;
    assert(b0 == models.filter(p0));
    assert(b1 == models.filter(p1));
    if n == 0 {
        assert(p0(models[i]));
        assert(models.filter(p0).contains(models[i]));
    } else {
        assert(p1(models[i]));
        assert(models.filter(p1).contains(models[i]));
    }
    if b0.len() > 0 {
        assert(p0(b0[0]));
        assert(listed_first(Some(default), models)[0] == b0[0]);
    } else {
        assert(p1(b1[0]));
        assert(listed_first(Some(default), models)[0] == b1[0]);
    }
}

proof fn lemma_enabled(config: JsonV, ids: Seq<Seq<char>>, id: Seq<char>)
    ensures
        enabled_of(config, ids).contains(id) <==> ids.contains(id) && config::enabled_in(
            config,
            id,
        ),
        enabled_of(config, ids).len() > 0 ==> exists|i: int|
            0 <= i < ids.len() && config::enabled_in(config, #[trigger] ids[i]),
    decreases ids.len(),
{
    if ids.len() > 0 {
        let init = ids.drop_last();
        lemma_enabled(config, init, id);
        assert(ids =~= init.push(ids.last()));
        if enabled_of(config, init).len() > 0 {
            let i = choose|i: int|
                0 <= i < init.len() && config::enabled_in(config, #[trigger] init[i]);
            assert(ids[i] == init[i]);
        }
        let kept = enabled_of(config, init);
        if config::enabled_in(config, ids.last()) {
            assert(ids[ids.len() - 1] == ids.last());
            if kept.push(ids.last()).contains(id) && id != ids.last() {
                let k = choose|k: int|
                    0 <= k < kept.push(ids.last()).len() && kept.push(ids.last())[k] == id;
                assert(kept[k] == id);
            }
            if kept.contains(id) {
                let k = choose|k: int| 0 <= k < kept.len() && kept[k] == id;
                assert(kept.push(ids.last())[k] == id);
            }
            assert(kept.push(ids.last())[kept.len() as int] == ids.last());
        }
        if init.contains(id) {
            let k = choose|k: int| 0 <= k < init.len() && init[k] == id;
            assert(ids[k] == id);
        }
        if ids.contains(id) && id != ids.last() {
            let k = choose|k: int| 0 <= k < ids.len() && ids[k] == id;
            assert(init[k] == id);
        }
    }
}

/// Whose key is read from where: the account can be used exactly if the agent
/// is signed in to an enabled provider, or the environment has the key of an
/// enabled one, under the name that the provider's key goes by. Google's goes
/// by two. Being signed in comes before a key, and a key before local models.
pub proof fn keys_open_the_account(f: FindingsV, dead: Seq<Seq<char>>)
    ensures
        ({
            let info = concluded(prepared(f), dead);
            let on = |id: Seq<char>| config::enabled_in(f.config, id);
            let set = |key: Seq<char>| f.api_keys.contains(key);
            let signed_in = exists|i: int|
                0 <= i < f.signed_in.len() && on(#[trigger] f.signed_in[i]);
            let keyed = (on("anthropic"@) && set("ANTHROPIC_API_KEY"@)) || (on("openai"@) && set(
                "OPENAI_API_KEY"@,
            )) || (on("openrouter"@) && set("OPENROUTER_API_KEY"@)) || (on("google"@) && set(
                "GEMINI_API_KEY"@,
            )) || (on("google"@) && set("GOOGLE_API_KEY"@)) || (on("groq"@) && set("GROQ_API_KEY"@))
                || (on("xai"@) && set("XAI_API_KEY"@)) || (on("deepseek"@) && set(
                "DEEPSEEK_API_KEY"@,
            ));
            let local = config::local_in(f.config).len() > 0;
            &&& info.authenticated <==> signed_in || keyed
            &&& signed_in ==> info.auth_method == Some("oauth"@) && info.account is Some
            &&& !signed_in && keyed ==> info.auth_method == Some("apiKey"@)
            &&& !signed_in && !keyed && local ==> info.auth_method == Some("local"@)
            &&& !signed_in && !keyed && !local ==> info.auth_method is None
            &&& !signed_in && dead.len() == 0 ==> info.account is None
        }),
{
    let on = |id: Seq<char>| config::enabled_in(f.config, id);
    if exists|i: int| 0 <= i < f.signed_in.len() && on(#[trigger] f.signed_in[i]) {
        let i = choose|i: int| 0 <= i < f.signed_in.len() && on(#[trigger] f.signed_in[i]);
        lemma_enabled(f.config, f.signed_in, f.signed_in[i]);
        assert(f.signed_in.contains(f.signed_in[i]));
    } else {
        lemma_enabled(f.config, f.signed_in, Seq::empty());
        if enabled_of(f.config, f.signed_in).len() > 0 {
            let i = choose|i: int|
                0 <= i < f.signed_in.len() && config::enabled_in(
                    f.config,
                    #[trigger] f.signed_in[i],
                );
            assert(on(f.signed_in[i]));
        }
    }
}

proof fn lemma_kept(models: Seq<ModelV>, pred: spec_fn(ModelV) -> bool, m: ModelV)
    requires
        models.contains(m),
        pred(m),
    ensures
        models.filter(pred).contains(m),
    decreases models.len(),
{
    reveal(Seq::filter);
    let init = models.drop_last();
    if models.last() == m {
        let after = models.filter(pred);
        assert(after == init.filter(pred).push(m));
        assert(after[after.len() - 1] == m);
    } else {
        let k = choose|k: int| 0 <= k < models.len() && models[k] == m;
        assert(init[k] == m);
        lemma_kept(init, pred, m);
        let n = choose|n: int| 0 <= n < init.filter(pred).len() && init.filter(pred)[n] == m;
        assert(models.filter(pred)[n] == m);
    }
}

proof fn lemma_still_listed(f: FindingsV, dead: Seq<Seq<char>>, m: ModelV)
    requires
        f.installed,
        !f.install_broken,
        named_models(f).contains(m),
        usable(config::local_in(f.config), served_ids(f), is_authenticated(f), m),
        !dead.contains(catalog::provider_of(m.id)),
    ensures
        concluded(prepared(f), dead).models.contains(m),
{
    let local = config::local_in(f.config);
    let ids = served_ids(f);
    let auth = is_authenticated(f);
    let named = named_models(f);
    let pred = |m: ModelV| usable(local, ids, auth, m);
    let kept = usable_of(local, ids, auth, named);
    lemma_kept(named, pred, m);
    assert(kept.contains(m));
    let default = f.config.str_at("model"@);
    let listed = listed_first(default, kept);
    listing_loses_nothing(default, kept);
    listed.to_multiset_ensures();
    kept.to_multiset_ensures();
    assert(kept.to_multiset().count(m) > 0);
    assert(listed.contains(m));
    let alive = |m: ModelV| !dead.contains(catalog::provider_of(m.id));
    if dead.len() > 0 {
        lemma_kept(listed, alive, m);
        assert(living_of(dead, listed) == listed.filter(alive));
    }
    assert(usable_models(f) == listed);
}

/// Once the account can be used, every model of the catalog that is not local
/// is listed, unless its provider's key is rejected; so the agent is ready.
pub proof fn usable_accounts_list_the_catalog(f: FindingsV, dead: Seq<Seq<char>>, i: int)
    requires
        f.installed,
        !f.install_broken,
        concluded(prepared(f), dead).authenticated,
        0 <= i < f.models.len(),
        !dead.contains(catalog::provider_of(f.models[i].id)),
        forall|k: int|
            0 <= k < config::local_in(f.config).len() ==> (#[trigger] config::local_in(
                f.config,
            )[k]).0 != catalog::provider_of(f.models[i].id),
    ensures
        ({
            let info = concluded(prepared(f), dead);
            &&& info.agent_ready
            &&& exists|n: int|
                0 <= n < info.models.len() && (#[trigger] info.models[n]).id == f.models[i].id
                    && info.models[n].levels == f.models[i].levels
        }),
{
    let m = named_models(f)[i];
    assert(named_models(f).contains(m));
    assert(m == config::labelled(f.models[i], f.config));
    lemma_still_listed(f, dead, m);
    let info = concluded(prepared(f), dead);
    let n = choose|n: int| 0 <= n < info.models.len() && info.models[n] == m;
    assert(info.models[n].id == f.models[i].id);
}

/// The key of an enabled provider in the environment is enough: with any one
/// of them, and without being signed in anywhere, the account can be used, by
/// key, and every model of the catalog that is not local is listed.
pub proof fn any_one_key_is_enough(f: FindingsV, provider: Seq<char>, key: Seq<char>, i: int)
    requires
        ({
            ||| provider == "anthropic"@ && key == "ANTHROPIC_API_KEY"@
            ||| provider == "openai"@ && key == "OPENAI_API_KEY"@
            ||| provider == "openrouter"@ && key == "OPENROUTER_API_KEY"@
            ||| provider == "google"@ && key == "GEMINI_API_KEY"@
            ||| provider == "google"@ && key == "GOOGLE_API_KEY"@
            ||| provider == "groq"@ && key == "GROQ_API_KEY"@
            ||| provider == "xai"@ && key == "XAI_API_KEY"@
            ||| provider == "deepseek"@ && key == "DEEPSEEK_API_KEY"@
        }),
        config::enabled_in(f.config, provider),
        f.api_keys.contains(key),
    ensures
        ({
            let info = concluded(prepared(f), Seq::empty());
            &&& info.authenticated
            &&& (forall|k: int|
                0 <= k < f.signed_in.len() ==> !config::enabled_in(
                    f.config,
                    #[trigger] f.signed_in[k],
                )) ==> info.auth_method == Some("apiKey"@)
            &&& f.installed && !f.install_broken && 0 <= i < f.models.len() && (forall|k: int|
                0 <= k < config::local_in(f.config).len() ==> (#[trigger] config::local_in(
                    f.config,
                )[k]).0 != catalog::provider_of(f.models[i].id)) ==> info.agent_ready && exists|
                n: int,
            |
                0 <= n < info.models.len() && (#[trigger] info.models[n]).id == f.models[i].id
        }),
{
    keys_open_the_account(f, Seq::empty());
    if f.installed && !f.install_broken && 0 <= i < f.models.len() && (forall|k: int|
        0 <= k < config::local_in(f.config).len() ==> (#[trigger] config::local_in(f.config)[k]).0
            != catalog::provider_of(f.models[i].id)) {
        usable_accounts_list_the_catalog(f, Seq::empty(), i);
    }
}

/// A local model is listed as soon as its server serves it, with an account or
/// without one.
pub proof fn served_models_are_listed(f: FindingsV, dead: Seq<Seq<char>>, i: int)
    requires
        f.installed,
        !f.install_broken,
        0 <= i < f.models.len(),
        config::available(config::local_in(f.config), f.advertised).contains(f.models[i].id),
        !dead.contains(catalog::provider_of(f.models[i].id)),
    ensures
        ({
            let info = concluded(prepared(f), dead);
            &&& info.agent_ready
            &&& exists|n: int|
                0 <= n < info.models.len() && (#[trigger] info.models[n]).id == f.models[i].id
        }),
{
    let m = named_models(f)[i];
    assert(named_models(f).contains(m));
    assert(m == config::labelled(f.models[i], f.config));
    lemma_still_listed(f, dead, m);
    let info = concluded(prepared(f), dead);
    let n = choose|n: int| 0 <= n < info.models.len() && info.models[n] == m;
    assert(info.models[n].id == f.models[i].id);
}

/// The account names the enabled providers that the agent is signed in to, in
/// their order, with commas between them; those whose keys are rejected are
/// marked.
pub proof fn the_account_names_the_providers(f: FindingsV)
    requires
        f.signed_in.len() > 0,
        forall|i: int|
            0 <= i < f.signed_in.len() ==> config::enabled_in(f.config, #[trigger] f.signed_in[i]),
    ensures
        concluded(prepared(f), Seq::empty()).account == Some(text::join(f.signed_in, ", "@)),
{
    lemma_all_enabled(f.config, f.signed_in);
}

proof fn lemma_all_enabled(config: JsonV, ids: Seq<Seq<char>>)
    requires
        forall|i: int| 0 <= i < ids.len() ==> config::enabled_in(config, #[trigger] ids[i]),
    ensures
        enabled_of(config, ids) == ids,
    decreases ids.len(),
{
    if ids.len() > 0 {
        let init = ids.drop_last();
        assert forall|i: int| 0 <= i < init.len() implies config::enabled_in(
            config,
            #[trigger] init[i],
        ) by {
            assert(init[i] == ids[i]);
        }
        assert(config::enabled_in(config, ids[ids.len() - 1]));
        lemma_all_enabled(config, init);
        assert(enabled_of(config, ids) =~= ids);
    } else {
        assert(enabled_of(config, ids) =~= ids);
    }
}

/// Rejected keys are told: they are named in the note, behind what the note
/// says otherwise, and marked in the account. Where no model is left, the agent
/// needs a sign-in and is not ready.
pub proof fn rejected_keys_are_told(f: FindingsV, dead: Seq<Seq<char>>)
    requires
        prepared(f).info.agent_ready,
        dead.len() > 0,
    ensures
        ({
            let info = concluded(prepared(f), dead);
            let before = concluded(prepared(f), Seq::empty());
            let told = text::join(dead, ", "@)
                + " rejected the stored API key, so its models are hidden. Re-add it with `opencode2 auth login`."@;
            let providers = prepared(f).providers;
            let names = Seq::new(
                providers.len(),
                |i: int|
                    if dead.contains(providers[i]) {
                        providers[i] + " (key rejected)"@
                    } else {
                        providers[i]
                    },
            );
            &&& info.account == Some(text::join(names, ", "@))
            &&& info.models.len() == 0 ==> info.auth_state == HarnessAuthState::NeedsLogin
                && !info.agent_ready
            &&& info.models.len() > 0 ==> info.auth_state == HarnessAuthState::Unknown
                && info.agent_ready
            &&& f.store_error is None && info.models.len() > 0 ==> info.agent_note == Some(
                match before.agent_note {
                    Some(note) => note + " "@ + told,
                    None => told,
                },
            )
            &&& info.authenticated == before.authenticated
            &&& info.auth_method == before.auth_method
        }),
{
    let providers = prepared(f).providers;
    let names = Seq::new(
        providers.len(),
        |i: int|
            if dead.contains(providers[i]) {
                providers[i] + " (key rejected)"@
            } else {
                providers[i]
            },
    );
    assert(marked(providers, dead) =~= names);
}

/// Why an agent is not ready: it is not installed, it does not run, its local
/// server does not serve, its local model is not listed, it lists nothing, or
/// it is not signed in. A store that could not be read comes first, and a
/// configuration that could not be read before the rest.
pub proof fn agents_tell_why_they_are_idle(f: FindingsV)
    requires
        !prepared(f).info.agent_ready,
    ensures
        ({
            let info = concluded(prepared(f), Seq::empty());
            let local = config::local_in(f.config).len() > 0;
            let served = config::available(config::local_in(f.config), f.advertised);
            let note = info.agent_note;
            let read = f.store_error is None && f.config !is Null;
            &&& !info.agent_ready && info.models.len() == 0
            &&& f.store_error is Some ==> note == f.store_error
            &&& f.store_error is None && f.config is Null && f.installed && !f.install_broken
                ==> note == Some(NO_CONFIG@)
            &&& f.store_error is None && f.install_broken ==> note == Some(f.broken_note)
            &&& f.store_error is None && !f.installed && !f.install_broken ==> note == Some(
                NOT_INSTALLED@,
            )
            &&& read && f.installed && !f.install_broken ==> {
                &&& local && served == Set::<Seq<char>>::empty() ==> note == Some(LOCAL_DOWN@)
                &&& local && served != Set::<Seq<char>>::empty() ==> note == Some(LOCAL_UNLISTED@)
                &&& !local && info.authenticated ==> note == Some(NO_MODELS@)
                &&& !local && !info.authenticated ==> note == Some(NOT_SIGNED_IN@)
            }
        }),
{
}

/// A ready agent tells that a local model is missing, exactly if the catalog
/// has a model of a local provider that is not served, and nothing else.
pub proof fn missing_local_models_are_told(f: FindingsV)
    requires
        prepared(f).info.agent_ready,
        f.store_error is None,
    ensures
        ({
            let info = concluded(prepared(f), Seq::empty());
            let missing = exists|i: int|
                0 <= i < f.models.len() && has_entry(
                    config::local_in(f.config),
                    catalog::provider_of((#[trigger] f.models[i]).id),
                ) && !config::available(config::local_in(f.config), f.advertised).contains(
                    f.models[i].id,
                );
            info.agent_note == (if missing {
                Some(LOCAL_MISSING@)
            } else {
                None
            })
        }),
{
    let named = named_models(f);
    let local = config::local_in(f.config);
    let ids = served_ids(f);
    if lacks_local(local, ids, named) {
        let i = choose|i: int|
            0 <= i < named.len() && local_model(local, #[trigger] named[i]) && !ids.contains(
                named[i].id,
            );
        assert(named[i].id == f.models[i].id);
    }
    if exists|i: int|
        0 <= i < f.models.len() && has_entry(
            local,
            catalog::provider_of((#[trigger] f.models[i]).id),
        ) && !ids.contains(f.models[i].id) {
        let i = choose|i: int|
            0 <= i < f.models.len() && has_entry(
                local,
                catalog::provider_of((#[trigger] f.models[i]).id),
            ) && !ids.contains(f.models[i].id);
        assert(named[i].id == f.models[i].id);
        assert(local_model(local, named[i]));
    }
}

proof fn lemma_none_kept(models: Seq<ModelV>, pred: spec_fn(ModelV) -> bool)
    requires
        forall|i: int| 0 <= i < models.len() ==> !pred(#[trigger] models[i]),
    ensures
        models.filter(pred) == Seq::<ModelV>::empty(),
    decreases models.len(),
{
    reveal(Seq::filter);
    if models.len() > 0 {
        let init = models.drop_last();
        assert forall|i: int| 0 <= i < init.len() implies !pred(#[trigger] init[i]) by {
            assert(init[i] == models[i]);
        }
        lemma_none_kept(init, pred);
        assert(!pred(models[models.len() - 1]));
    }
}

proof fn lemma_all_kept(models: Seq<ModelV>, pred: spec_fn(ModelV) -> bool)
    requires
        forall|i: int| 0 <= i < models.len() ==> pred(#[trigger] models[i]),
    ensures
        models.filter(pred) == models,
    decreases models.len(),
{
    reveal(Seq::filter);
    if models.len() > 0 {
        let init = models.drop_last();
        assert forall|i: int| 0 <= i < init.len() implies pred(#[trigger] init[i]) by {
            assert(init[i] == models[i]);
        }
        lemma_all_kept(init, pred);
        assert(pred(models[models.len() - 1]));
        assert(models.filter(pred) =~= models);
    } else {
        assert(models.filter(pred) =~= models);
    }
}

proof fn lemma_same_filter(
    models: Seq<ModelV>,
    p: spec_fn(ModelV) -> bool,
    q: spec_fn(ModelV) -> bool,
)
    requires
        forall|m: ModelV| #[trigger] p(m) == q(m),
    ensures
        models.filter(p) == models.filter(q),
    decreases models.len(),
{
    reveal(Seq::filter);
    if models.len() > 0 {
        lemma_same_filter(models.drop_last(), p, q);
        assert(p(models.last()) == q(models.last()));
    }
}

/// Models that were set up here stand before the others, but for the default
/// model, and models of the same sort keep the catalog's order.
pub proof fn own_models_come_before_others(
    default: Option<Seq<char>>,
    models: Seq<ModelV>,
    a: int,
    b: int,
)
    ensures
        ({
            let listed = listed_first(default, models);
            let own = |m: ModelV| text::starts_with(m.id, "orx-local-"@);
            &&& 0 <= a < b < listed.len() && own(listed[b]) && Some(listed[b].id) != default
                && Some(listed[a].id) != default ==> own(listed[a])
            &&& listed.filter(|m: ModelV| own(m) && Some(m.id) != default) == models.filter(
                |m: ModelV| own(m) && Some(m.id) != default,
            )
            &&& listed.filter(|m: ModelV| !own(m) && Some(m.id) != default) == models.filter(
                |m: ModelV| !own(m) && Some(m.id) != default,
            )
        }),
{
    broadcast use vstd::seq_lib::group_filter_ensures;

    let listed = listed_first(default, models);
    let own = |m: ModelV| text::starts_with(m.id, "orx-local-"@);
    let p2 = |m: ModelV| own(m) && Some(m.id) != default;
    let p3 = |m: ModelV| !own(m) && Some(m.id) != default;
    let b0 = in_bucket(default, models, 0);
    let b1 = in_bucket(default, models, 1);
    let b2 = in_bucket(default, models, 2);
    let b3 = in_bucket(default, models, 3);
    let in0 = |m: ModelV| bucket(default, m) == 0;
    let in1 = |m: ModelV| bucket(default, m) == 1;
    let in2 = |m: ModelV| bucket(default, m) == 2;
    let in3 = |m: ModelV| bucket(default, m) == 3;
    assert(b0 == models.filter(in0));
    assert(b1 == models.filter(in1));
    assert(b2 == models.filter(in2));
    assert(b3 == models.filter(in3));
    assert forall|i: int| 0 <= i < b0.len() implies Some((#[trigger] b0[i]).id) == default by {
        assert(in0(b0[i]));
    }
    assert forall|i: int| 0 <= i < b1.len() implies Some((#[trigger] b1[i]).id) == default by {
        assert(in1(b1[i]));
    }
    assert forall|i: int| 0 <= i < b2.len() implies p2(#[trigger] b2[i]) by {
        assert(in2(b2[i]));
    }
    assert forall|i: int| 0 <= i < b3.len() implies p3(#[trigger] b3[i]) by {
        assert(in3(b3[i]));
    }
    lemma_none_kept(b0, p2);
    lemma_none_kept(b1, p2);
    lemma_all_kept(b2, p2);
    lemma_none_kept(b3, p2);
    lemma_none_kept(b0, p3);
    lemma_none_kept(b1, p3);
    lemma_none_kept(b2, p3);
    lemma_all_kept(b3, p3);
    Seq::filter_distributes_over_add(b0, b1, p2);
    Seq::filter_distributes_over_add(b0 + b1, b2, p2);
    Seq::filter_distributes_over_add(b0 + b1 + b2, b3, p2);
    Seq::filter_distributes_over_add(b0, b1, p3);
    Seq::filter_distributes_over_add(b0 + b1, b2, p3);
    Seq::filter_distributes_over_add(b0 + b1 + b2, b3, p3);
    lemma_same_filter(models, p2, in2);
    lemma_same_filter(models, p3, in3);
    assert(listed.filter(p2) =~= b2);
    assert(listed.filter(p3) =~= b3);
    if 0 <= a < b < listed.len() && own(listed[b]) && Some(listed[b].id) != default && Some(
        listed[a].id,
    ) != default {
        let n = b0.len() + b1.len();
        if b >= n + b2.len() {
            assert(listed[b] == b3[b - n - b2.len()]);
            assert(p3(listed[b]));
        }
        if a < b0.len() {
            assert(listed[a] == b0[a]);
        } else if a < n {
            assert(listed[a] == b1[a - b0.len()]);
        } else if a < n + b2.len() {
            assert(listed[a] == b2[a - n]);
            assert(p2(listed[a]));
        }
    }
}

/// The stored keys that are tried are those of the enabled providers that the
/// agent is signed in to and that are not local, and no others.
pub proof fn local_providers_need_no_key(f: FindingsV, id: Seq<char>)
    ensures
        prepared(f).cloud.contains(id) <==> f.signed_in.contains(id) && config::enabled_in(
            f.config,
            id,
        ) && (forall|k: int|
            0 <= k < config::local_in(f.config).len() ==> (#[trigger] config::local_in(
                f.config,
            )[k]).0 != id),
{
    let local = config::local_in(f.config);
    let providers = enabled_of(f.config, f.signed_in);
    lemma_enabled(f.config, f.signed_in, id);
    lemma_not_local(local, providers, id);
}

proof fn lemma_not_local(local: Seq<(Seq<char>, JsonV)>, ids: Seq<Seq<char>>, id: Seq<char>)
    ensures
        not_local(local, ids).contains(id) <==> ids.contains(id) && !has_entry(local, id),
    decreases ids.len(),
{
    if ids.len() > 0 {
        let init = ids.drop_last();
        let kept = not_local(local, init);
        let last = ids.last();
        lemma_not_local(local, init, id);
        assert(ids =~= init.push(last));
        lemma_push_contains(init, last, id);
        lemma_push_contains(kept, last, id);
    }
}

proof fn lemma_push_contains(s: Seq<Seq<char>>, last: Seq<char>, id: Seq<char>)
    ensures
        s.push(last).contains(id) <==> s.contains(id) || last == id,
{
    let t = s.push(last);
    assert(t[s.len() as int] == last);
    if s.contains(id) {
        let k = choose|k: int| 0 <= k < s.len() && s[k] == id;
        assert(t[k] == id);
    }
    if t.contains(id) && last != id {
        let k = choose|k: int| 0 <= k < t.len() && t[k] == id;
        assert(s[k] == id);
    }
}

} // verus!

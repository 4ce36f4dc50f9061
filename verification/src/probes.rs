//! Throwaway runs of the agent: their arguments, and what their output says
//! of a provider's stored key.

use vstd::prelude::*;

use crate::catalog;
use crate::catalog::{ModelInfo, ModelV};
use crate::config;
use crate::config::OpenCodeVersion;
use crate::json;
use crate::json::{Json, JsonV};
use crate::native;
use crate::text;

verus! {

broadcast use json::group_json;

// ---------------------------------------------------------------------------
// Rejected keys
// ---------------------------------------------------------------------------

/// The text, in lower case, has one of the phrases with which providers reject
/// a key. A bare `401` is none of them: line numbers and counts contain it.
pub open spec fn has_marker(lower: Seq<char>) -> bool {
    ||| text::contains(lower, "api key not valid"@)
    ||| text::contains(lower, "invalid api key"@)
    ||| text::contains(lower, "incorrect api key"@)
    ||| text::contains(lower, "invalid x-api-key"@)
    ||| text::contains(lower, "invalid_api_key"@)
    ||| text::contains(lower, "authentication_error"@)
    ||| text::contains(lower, "authentication failed"@)
    ||| text::contains(lower, "unauthorized"@)
    ||| text::contains(lower, "status 401"@)
    ||| text::contains(lower, "http 401"@)
    ||| text::contains(lower, "code 401"@)
    ||| text::contains(lower, "error 401"@)
    ||| text::contains(lower, "(401)"@)
    ||| text::contains(lower, "key has expired"@)
    ||| text::contains(lower, "api key expired"@)
    ||| text::contains(lower, "no auth credentials"@)
}

/// The output tells that a key was rejected.
pub fn is_auth_rejection(output: &str) -> (r: bool)
    ensures
        r == has_marker(text::lower_text(output@)),
{
    let lower: String = text::lower_of(output);
    let l: &str = lower.as_str();
    text::contains_text(l, "api key not valid") || text::contains_text(l, "invalid api key")
        || text::contains_text(l, "incorrect api key") || text::contains_text(
        l,
        "invalid x-api-key",
    ) || text::contains_text(l, "invalid_api_key") || text::contains_text(l, "authentication_error")
        || text::contains_text(l, "authentication failed") || text::contains_text(
        l,
        "unauthorized",
    ) || text::contains_text(l, "status 401") || text::contains_text(l, "http 401")
        || text::contains_text(l, "code 401") || text::contains_text(l, "error 401")
        || text::contains_text(l, "(401)") || text::contains_text(l, "key has expired")
        || text::contains_text(l, "api key expired") || text::contains_text(
        l,
        "no auth credentials",
    )
}

/// What a child process left behind.
#[derive(Debug)]
pub struct ChildOutput {
    pub success: bool,
    pub stdout: String,
    pub stderr: String,
}

/// What a key probe showed: whether the key was rejected, or nothing if the
/// child never answered.
pub open spec fn verdict(out: Option<ChildOutput>) -> Option<bool> {
    match out {
        Some(o) => Some(
            !o.success && has_marker(text::lower_text(o.stdout@ + "\n"@ + o.stderr@)),
        ),
        None => None,
    }
}

/// The request of a key probe.
pub const PROBE_MESSAGE: &'static str = "Reply with the single word ok";

/// What a key probe showed.
pub fn probe_rejects_key(out: &Option<ChildOutput>) -> (r: Option<bool>)
    ensures
        r == verdict(*out),
{
    match out {
        Some(o) => {
            let all: String = text::concat3(o.stdout.as_str(), "\n", o.stderr.as_str());
            Some(!o.success && is_auth_rejection(all.as_str()))
        },
        None => None,
    }
}

// ---------------------------------------------------------------------------
// Verdicts on stored keys
// ---------------------------------------------------------------------------

/// The verdicts on stored keys, by the version of the credentials and the
/// provider.
#[derive(Debug)]
pub struct Verdicts {
    entries: Vec<(String, bool)>,
}

/// The verdict under a key.
pub open spec fn recorded(entries: Seq<(Seq<char>, bool)>, key: Seq<char>) -> Option<bool>
    decreases entries.len(),
{
    if entries.len() == 0 {
        None
    } else if entries.last().0 == key {
        Some(entries.last().1)
    } else {
        recorded(entries.drop_last(), key)
    }
}

impl View for Verdicts {
    type V = Seq<(Seq<char>, bool)>;

    closed spec fn view(&self) -> Seq<(Seq<char>, bool)> {
        Seq::new(self.entries@.len(), |i: int| (self.entries@[i].0@, self.entries@[i].1))
    }
}

impl Verdicts {
    /// No verdict yet.
    pub fn new() -> (r: Verdicts)
        ensures
            r@ == Seq::<(Seq<char>, bool)>::empty(),
    {
        let r: Verdicts = Verdicts { entries: Vec::new() };
        assert(r@ =~= Seq::empty());
        r
    }

    /// The verdict under a key.
    pub fn get(&self, key: &str) -> (r: Option<bool>)
        ensures
            r == recorded(self@, key@),
    {
        let ghost all = self@;
        let mut i: usize = self.entries.len();
        assert(all.take(i as int) =~= all);
        while i > 0
            invariant
                i <= self.entries@.len(),
                all == self@,
                recorded(all, key@) == recorded(all.take(i as int), key@),
            decreases i,
        {
            assert(all.take(i as int).last() == (
                self.entries@[i - 1].0@,
                self.entries@[i - 1].1,
            ));
            assert(all.take(i as int).drop_last() =~= all.take(i - 1));
            if text::str_eq(self.entries[i - 1].0.as_str(), key) {
                return Some(self.entries[i - 1].1);
            }
            i -= 1;
        }
        None
    }

    /// Remember what a probe showed. A child that never answered showed
    /// nothing, and nothing is remembered.
    pub fn record(&mut self, key: &str, shown: Option<bool>)
        ensures
            final(self)@ == with_verdict(old(self)@, key@, shown),
    {
        match shown {
            Some(dead) => {
                let ghost before = self@;
                self.entries.push((key.to_owned(), dead));
                assert(self@ =~= before.push((key@, dead)));
            },
            None => {},
        }
    }
}

/// The verdicts with what a probe showed.
pub open spec fn with_verdict(
    entries: Seq<(Seq<char>, bool)>,
    key: Seq<char>,
    shown: Option<bool>,
) -> Seq<(Seq<char>, bool)> {
    match shown {
        Some(dead) => entries.push((key, dead)),
        None => entries,
    }
}

/// A key to be looked at: the provider, the model to probe it with, the name
/// of its verdict, and the verdict if there is one.
#[derive(Debug)]
pub struct KeyCheck {
    pub provider: String,
    pub model: String,
    pub key: String,
    pub cached: Option<bool>,
}

/// The model of a [`KeyCheck`].
#[verifier::ext_equal]
pub struct CheckV {
    pub provider: Seq<char>,
    pub model: Seq<char>,
    pub key: Seq<char>,
    pub cached: Option<bool>,
}

impl View for KeyCheck {
    type V = CheckV;

    open spec fn view(&self) -> CheckV {
        CheckV {
            provider: self.provider@,
            model: self.model@,
            key: self.key@,
            cached: self.cached,
        }
    }
}

/// The models of a sequence of checks.
pub open spec fn check_models(v: Seq<KeyCheck>) -> Seq<CheckV> {
    Seq::new(v.len(), |i: int| v[i]@)
}

/// The id of the provider's first model.
pub open spec fn first_of(models: Seq<ModelV>, provider: Seq<char>) -> Option<Seq<char>>
    decreases models.len(),
{
    if models.len() == 0 {
        None
    } else if catalog::provider_of(models[0].id) == provider {
        Some(models[0].id)
    } else {
        first_of(models.drop_first(), provider)
    }
}

/// The name of a verdict.
pub open spec fn verdict_key(version: u64, provider: Seq<char>) -> Seq<char> {
    text::decimal(version as nat) + ":"@ + provider
}

/// The keys to be looked at: one of each provider that has a model, which is
/// probed with its first.
pub open spec fn checks(
    version: u64,
    providers: Seq<Seq<char>>,
    models: Seq<ModelV>,
    verdicts: Seq<(Seq<char>, bool)>,
) -> Seq<CheckV>
    decreases providers.len(),
{
    if providers.len() == 0 {
        Seq::empty()
    } else {
        let init = checks(version, providers.drop_last(), models, verdicts);
        let provider = providers.last();
        match first_of(models, provider) {
            Some(model) => init.push(
                CheckV {
                    provider,
                    model,
                    key: verdict_key(version, provider),
                    cached: recorded(verdicts, verdict_key(version, provider)),
                },
            ),
            None => init,
        }
    }
}

fn first_model_of(models: &Vec<ModelInfo>, provider: &str) -> (r: Option<String>)
    ensures
        text::opt_text(r) == first_of(catalog::infos(models@), provider@),
{
    let ghost all = catalog::infos(models@);
    let mut i: usize = 0;
    assert(all.skip(0) =~= all);
    while i < models.len()
        invariant
            i <= models@.len(),
            all == catalog::infos(models@),
            first_of(all, provider@) == first_of(all.skip(i as int), provider@),
        decreases models@.len() - i,
    {
        assert(all.skip(i as int)[0] == models@[i as int]@);
        assert(all.skip(i as int).drop_first() =~= all.skip(i + 1));
        let owner: String = catalog::model_provider(models[i].id.as_str());
        if text::str_eq(owner.as_str(), provider) {
            return Some(models[i].id.clone());
        }
        i += 1;
    }
    None
}

/// The keys to be looked at.
pub fn key_checks(
    version: u64,
    providers: &Vec<String>,
    models: &Vec<ModelInfo>,
    verdicts: &Verdicts,
) -> (r: Vec<KeyCheck>)
    ensures
        check_models(r@) == checks(
            version,
            text::texts(providers@),
            catalog::infos(models@),
            verdicts@,
        ),
{
    let ghost all = text::texts(providers@);
    let mut out: Vec<KeyCheck> = Vec::new();
    let mut i: usize = 0;
    assert(all.take(0) =~= Seq::empty());
    assert(check_models(out@) =~= Seq::empty());
    while i < providers.len()
        invariant
            i <= providers@.len(),
            all == text::texts(providers@),
            check_models(out@) == checks(
                version,
                all.take(i as int),
                catalog::infos(models@),
                verdicts@,
            ),
        decreases providers@.len() - i,
    {
        assert(all.take(i + 1).drop_last() =~= all.take(i as int));
        assert(all.take(i + 1).last() == providers@[i as int]@);
        match first_model_of(models, providers[i].as_str()) {
            Some(model) => {
                let number: String = text::decimal_of(version);
                let key: String = text::concat3(number.as_str(), ":", providers[i].as_str());
                let cached: Option<bool> = verdicts.get(key.as_str());
                let check: KeyCheck = KeyCheck {
                    provider: providers[i].clone(),
                    model,
                    key,
                    cached,
                };
                let ghost before = check_models(out@);
                out.push(check);
                assert(check_models(out@) =~= before.push(check@));
            },
            None => {},
        }
        i += 1;
    }
    assert(all.take(i as int) =~= all);
    out
}

/// The key is known to be rejected: by the verdict there was, or by what the
/// probe showed.
pub open spec fn is_dead(check: CheckV, shown: Option<bool>) -> bool {
    match check.cached {
        Some(dead) => dead,
        None => shown == Some(true),
    }
}

/// The providers whose stored keys are rejected.
pub open spec fn dead_of(all: Seq<CheckV>, shown: Seq<Option<bool>>) -> Seq<Seq<char>>
    decreases all.len(),
{
    if all.len() == 0 {
        Seq::empty()
    } else if is_dead(all.last(), shown[all.len() - 1]) {
        dead_of(all.drop_last(), shown).push(all.last().provider)
    } else {
        dead_of(all.drop_last(), shown)
    }
}

/// The providers whose stored keys are rejected, given what the probe of each
/// showed (nothing where none was made).
pub fn dead_providers(all_checks: &Vec<KeyCheck>, shown: &Vec<Option<bool>>) -> (r: Vec<String>)
    requires
        all_checks@.len() == shown@.len(),
    ensures
        text::texts(r@) == dead_of(check_models(all_checks@), shown@),
{
    let ghost all = check_models(all_checks@);
    let mut out: Vec<String> = Vec::new();
    let mut i: usize = 0;
    assert(all.take(0) =~= Seq::empty());
    assert(text::texts(out@) =~= Seq::empty());
    while i < all_checks.len()
        invariant
            i <= all_checks@.len(),
            all_checks@.len() == shown@.len(),
            all == check_models(all_checks@),
            text::texts(out@) == dead_of(all.take(i as int), shown@),
        decreases all_checks@.len() - i,
    {
        assert(all.take(i + 1).drop_last() =~= all.take(i as int));
        assert(all.take(i + 1).last() == all_checks@[i as int]@);
        let dead: bool = match all_checks[i].cached {
            Some(d) => d,
            None => match shown[i] {
                Some(d) => d,
                None => false,
            },
        };
        if dead {
            let ghost before = text::texts(out@);
            let provider: String = all_checks[i].provider.clone();
            out.push(provider);
            assert(text::texts(out@) =~= before.push(provider@));
        }
        i += 1;
    }
    assert(all.take(i as int) =~= all);
    out
}

// ---------------------------------------------------------------------------
// Children
// ---------------------------------------------------------------------------

/// The arguments of a throwaway run: the read-only agent, no plugins where the
/// agent knows the flag, the model if one is chosen, then the message.
pub open spec fn child_arguments(
    version: OpenCodeVersion,
    model: Option<Seq<char>>,
    message: Seq<char>,
) -> Seq<Seq<char>> {
    let agent = seq!["run"@, "--agent"@, "plan"@];
    let pure = if version == OpenCodeVersion::V1 {
        agent.push("--pure"@)
    } else {
        agent
    };
    let chosen = match model {
        Some(m) => pure.push("--model"@).push(m),
        None => pure,
    };
    chosen.push(message)
}

/// The arguments of a throwaway run.
pub fn opencode_child(version: OpenCodeVersion, model: Option<&str>, message: &str) -> (r: Vec<
    String,
>)
    ensures
        text::texts(r@) == child_arguments(version, text::opt_str(model), message@),
{
    let mut args: Vec<String> = Vec::new();
    assert(text::texts(args@) =~= Seq::empty());
    text::push_text(&mut args, "run");
    text::push_text(&mut args, "--agent");
    text::push_text(&mut args, "plan");
    assert(text::texts(args@) =~= seq!["run"@, "--agent"@, "plan"@]);
    if version == OpenCodeVersion::V1 {
        text::push_text(&mut args, "--pure");
    }
    match model {
        Some(m) => {
            text::push_text(&mut args, "--model");
            text::push_text(&mut args, m);
        },
        None => {},
    }
    text::push_text(&mut args, message);
    args
}

/// The message of a one-shot request.
pub open spec fn shot_message(system: Seq<char>, prompt: Seq<char>) -> Seq<char> {
    system + "\n\n"@ + prompt
}

/// The reply to a one-shot request.
pub open spec fn shot_reply(out: Option<ChildOutput>) -> Option<Seq<char>> {
    match out {
        Some(o) => if o.success {
            Some(o.stdout@)
        } else {
            None
        },
        None => None,
    }
}

/// The message of a one-shot request: the agent takes no system prompt, so it
/// leads the message.
pub fn one_shot_message(system: &str, prompt: &str) -> (r: String)
    ensures
        r@ == shot_message(system@, prompt@),
{
    text::concat3(system, "\n\n", prompt)
}

/// The reply to a one-shot request: what a child that succeeded printed.
pub fn opencode_one_shot(out: &Option<ChildOutput>) -> (r: Option<String>)
    ensures
        text::opt_text(r) == shot_reply(*out),
{
    match out {
        Some(o) => if o.success {
            Some(o.stdout.clone())
        } else {
            None
        },
        None => None,
    }
}

/// The argument lists with which the configuration is asked for, in the order
/// in which they are tried.
pub open spec fn config_requests(version: OpenCodeVersion) -> Seq<Seq<Seq<char>>> {
    let bare = seq!["debug"@, "config"@];
    if version == OpenCodeVersion::V2 {
        seq![bare]
    } else {
        seq![bare.push("--pure"@), bare]
    }
}

/// The texts of argument lists.
pub open spec fn lists_of(v: Seq<Vec<String>>) -> Seq<Seq<Seq<char>>> {
    Seq::new(v.len(), |i: int| text::texts(v[i]@))
}

fn bare_request() -> (r: Vec<String>)
    ensures
        text::texts(r@) == seq!["debug"@, "config"@],
{
    let mut args: Vec<String> = Vec::new();
    assert(text::texts(args@) =~= Seq::empty());
    text::push_text(&mut args, "debug");
    text::push_text(&mut args, "config");
    assert(text::texts(args@) =~= seq!["debug"@, "config"@]);
    args
}

/// The argument lists with which the configuration is asked for.
pub fn debug_config_args(version: OpenCodeVersion) -> (r: Vec<Vec<String>>)
    ensures
        lists_of(r@) == config_requests(version),
{
    let mut out: Vec<Vec<String>> = Vec::new();
    if version == OpenCodeVersion::V1 {
        let mut args: Vec<String> = bare_request();
        text::push_text(&mut args, "--pure");
        out.push(args);
    }
    out.push(bare_request());
    assert(lists_of(out@) =~= config_requests(version));
    out
}

/// The configuration in what the agent printed, as one object.
pub open spec fn config_of(out: Seq<char>) -> Option<JsonV> {
    match native::parsed(out) {
        Some(doc) => Some(config::normalized(doc)),
        None => None,
    }
}

/// The configuration in what the agent printed. Without any, the next
/// argument list is to be tried.
pub fn opencode_debug_config(out: Option<&str>) -> (r: Option<Json>)
    ensures
        json::opt_model(r) == (match out {
            Some(t) => config_of(t@),
            None => None,
        }),
{
    match out {
        Some(t) => match native::parse_json(t) {
            Some(doc) => Some(config::normalize_debug_config(&doc)),
            None => None,
        },
        None => None,
    }
}

// ---------------------------------------------------------------------------
// Laws
// ---------------------------------------------------------------------------

/// A key is probed once for each version of the credentials: once a child has
/// answered, its verdict is found again; while none has, there is none.
pub proof fn verdicts_are_remembered(
    entries: Seq<(Seq<char>, bool)>,
    key: Seq<char>,
    shown: Option<bool>,
    other: Seq<char>,
)
    ensures
        shown is Some ==> recorded(with_verdict(entries, key, shown), key) == shown,
        shown is None ==> with_verdict(entries, key, shown) == entries,
        other != key ==> recorded(with_verdict(entries, key, shown), other) == recorded(
            entries,
            other,
        ),
{
    match shown {
        Some(dead) => {
            assert(entries.push((key, dead)).drop_last() =~= entries);
        },
        None => {},
    }
}

/// Every provider that is called dead was asked for and has a model in the
/// catalog.
pub proof fn dead_providers_were_asked_for(
    version: u64,
    providers: Seq<Seq<char>>,
    models: Seq<ModelV>,
    verdicts: Seq<(Seq<char>, bool)>,
    shown: Seq<Option<bool>>,
    i: int,
)
    requires
        0 <= i < dead_of(checks(version, providers, models, verdicts), shown).len(),
    ensures
        ({
            let p = dead_of(checks(version, providers, models, verdicts), shown)[i];
            providers.contains(p) && first_of(models, p) is Some
        }),
{
    lemma_checks(version, providers, models, verdicts);
    let k = lemma_dead(checks(version, providers, models, verdicts), shown, i);
    assert(providers.contains(checks(version, providers, models, verdicts)[k].provider));
}

proof fn lemma_dead(all: Seq<CheckV>, shown: Seq<Option<bool>>, i: int) -> (k: int)
    requires
        0 <= i < dead_of(all, shown).len(),
    ensures
        0 <= k < all.len(),
        dead_of(all, shown)[i] == all[k].provider,
    decreases all.len(),
{
    if i < dead_of(all.drop_last(), shown).len() {
        lemma_dead(all.drop_last(), shown, i)
    } else {
        all.len() - 1
    }
}

proof fn lemma_checks(
    version: u64,
    providers: Seq<Seq<char>>,
    models: Seq<ModelV>,
    verdicts: Seq<(Seq<char>, bool)>,
)
    ensures
        forall|k: int|
            0 <= k < checks(version, providers, models, verdicts).len() ==> providers.contains(
                (#[trigger] checks(version, providers, models, verdicts)[k]).provider,
            ) && first_of(models, checks(version, providers, models, verdicts)[k].provider) is Some,
    decreases providers.len(),
{
    if providers.len() > 0 {
        let init = providers.drop_last();
        let was = checks(version, init, models, verdicts);
        let now = checks(version, providers, models, verdicts);
        lemma_checks(version, init, models, verdicts);
        assert(providers[providers.len() - 1] == providers.last());
        assert forall|k: int| 0 <= k < now.len() implies providers.contains(
            (#[trigger] now[k]).provider,
        ) && first_of(models, now[k].provider) is Some by {
            if k < was.len() {
                assert(now[k] == was[k]);
                let m = choose|m: int| 0 <= m < init.len() && init[m] == was[k].provider;
                assert(providers[m] == was[k].provider);
            }
        }
    }
}

proof fn lemma_lower_parts(a: Seq<char>, b: Seq<char>)
    ensures
        text::lower_text(a + b) == text::lower_text(a) + text::lower_text(b),
{
    assert(text::lower_text(a + b) =~= text::lower_text(a) + text::lower_text(b));
}

/// Each phrase with which a provider rejects a key is recognised, in any case
/// and wherever it stands in what the child printed, but only if the child
/// failed. A child that succeeded rejects nothing, whatever it printed, and one
/// that never answered shows nothing.
pub proof fn rejections_are_recognised(
    out: ChildOutput,
    phrase: Seq<char>,
    spelled: Seq<char>,
    a: Seq<char>,
    b: Seq<char>,
)
    requires
        ({
            ||| phrase == "api key not valid"@
            ||| phrase == "invalid api key"@
            ||| phrase == "incorrect api key"@
            ||| phrase == "invalid x-api-key"@
            ||| phrase == "invalid_api_key"@
            ||| phrase == "authentication_error"@
            ||| phrase == "authentication failed"@
            ||| phrase == "unauthorized"@
            ||| phrase == "status 401"@
            ||| phrase == "http 401"@
            ||| phrase == "code 401"@
            ||| phrase == "error 401"@
            ||| phrase == "(401)"@
            ||| phrase == "key has expired"@
            ||| phrase == "api key expired"@
            ||| phrase == "no auth credentials"@
        }),
        text::lower_text(spelled) == phrase,
        out.stdout@ == a + spelled + b || out.stderr@ == a + spelled + b,
    ensures
        !out.success ==> verdict(Some(out)) == Some(true),
        out.success ==> verdict(Some(out)) == Some(false),
        verdict(None) is None,
{
    let all = out.stdout@ + "\n"@ + out.stderr@;
    let (before, behind) = if out.stdout@ == a + spelled + b {
        (a, b + "\n"@ + out.stderr@)
    } else {
        (out.stdout@ + "\n"@ + a, b)
    };
    assert(all =~= before + spelled + behind);
    lemma_lower_parts(before + spelled, behind);
    lemma_lower_parts(before, spelled);
    text::phrases_are_found(text::lower_text(before), phrase, text::lower_text(behind));
}

/// Nothing else is taken for a rejection: what is recognised speaks of a key,
/// of authentication or authorization, or names the status in so many words. A
/// bare number is none.
pub proof fn bare_numbers_reject_nothing(out: ChildOutput)
    requires
        verdict(Some(out)) == Some(true),
    ensures
        ({
            let printed = text::lower_text(out.stdout@ + "\n"@ + out.stderr@);
            &&& !out.success
            &&& {
                ||| text::contains(printed, "key"@)
                ||| text::contains(printed, "auth"@)
                ||| text::contains(printed, "status 401"@)
                ||| text::contains(printed, "http 401"@)
                ||| text::contains(printed, "code 401"@)
                ||| text::contains(printed, "error 401"@)
                ||| text::contains(printed, "(401)"@)
            }
        }),
{
    let printed = text::lower_text(out.stdout@ + "\n"@ + out.stderr@);
    reveal_strlit("key");
    reveal_strlit("auth");
    reveal_strlit("api key not valid");
    reveal_strlit("invalid api key");
    reveal_strlit("incorrect api key");
    reveal_strlit("invalid x-api-key");
    reveal_strlit("invalid_api_key");
    reveal_strlit("authentication_error");
    reveal_strlit("authentication failed");
    reveal_strlit("unauthorized");
    reveal_strlit("status 401");
    reveal_strlit("http 401");
    reveal_strlit("code 401");
    reveal_strlit("error 401");
    reveal_strlit("(401)");
    reveal_strlit("key has expired");
    reveal_strlit("api key expired");
    reveal_strlit("no auth credentials");
    assert("api key not valid"@.subrange(4, 7) =~= "key"@);
    assert("invalid api key"@.subrange(12, 15) =~= "key"@);
    assert("incorrect api key"@.subrange(14, 17) =~= "key"@);
    assert("invalid x-api-key"@.subrange(14, 17) =~= "key"@);
    assert("invalid_api_key"@.subrange(12, 15) =~= "key"@);
    assert("authentication_error"@.subrange(0, 4) =~= "auth"@);
    assert("authentication failed"@.subrange(0, 4) =~= "auth"@);
    assert("unauthorized"@.subrange(2, 6) =~= "auth"@);
    assert("key has expired"@.subrange(0, 3) =~= "key"@);
    assert("api key expired"@.subrange(4, 7) =~= "key"@);
    assert("no auth credentials"@.subrange(3, 7) =~= "auth"@);
    lemma_within(printed, "api key not valid"@, "key"@, 4);
    lemma_within(printed, "invalid api key"@, "key"@, 12);
    lemma_within(printed, "incorrect api key"@, "key"@, 14);
    lemma_within(printed, "invalid x-api-key"@, "key"@, 14);
    lemma_within(printed, "invalid_api_key"@, "key"@, 12);
    lemma_within(printed, "authentication_error"@, "auth"@, 0);
    lemma_within(printed, "authentication failed"@, "auth"@, 0);
    lemma_within(printed, "unauthorized"@, "auth"@, 2);
    lemma_within(printed, "key has expired"@, "key"@, 0);
    lemma_within(printed, "api key expired"@, "key"@, 4);
    lemma_within(printed, "no auth credentials"@, "auth"@, 3);
}

proof fn lemma_within(s: Seq<char>, phrase: Seq<char>, word: Seq<char>, at: int)
    requires
        text::occurs_at(phrase, word, at),
    ensures
        text::contains(s, phrase) ==> text::contains(s, word),
{
    if text::contains(s, phrase) {
        let i = choose|i: int| text::occurs_at(s, phrase, i);
        assert(s.subrange(i + at, i + at + word.len()) =~= s.subrange(
            i,
            i + phrase.len(),
        ).subrange(at, at + word.len()));
        assert(text::occurs_at(s, word, i + at));
    }
}

/// A key is probed with the first model of its provider: one that belongs to
/// the provider, with none of the provider's before it.
pub proof fn keys_are_probed_with_the_first_model(models: Seq<ModelV>, provider: Seq<char>, i: int)
    requires
        0 <= i < models.len(),
        catalog::provider_of(models[i].id) == provider,
        forall|j: int|
            0 <= j < i ==> catalog::provider_of((#[trigger] models[j]).id) != provider,
    ensures
        first_of(models, provider) == Some(models[i].id),
    decreases models.len(),
{
    if i > 0 {
        assert(catalog::provider_of(models[0].id) != provider);
        let rest = models.drop_first();
        assert(rest[i - 1] == models[i]);
        assert forall|j: int| 0 <= j < i - 1 implies catalog::provider_of((#[trigger] rest[j]).id)
            != provider by {
            assert(rest[j] == models[j + 1]);
        }
        keys_are_probed_with_the_first_model(rest, provider, i - 1);
    }
}

proof fn lemma_checked(
    version: u64,
    providers: Seq<Seq<char>>,
    models: Seq<ModelV>,
    verdicts: Seq<(Seq<char>, bool)>,
    p: int,
) -> (k: int)
    requires
        0 <= p < providers.len(),
        first_of(models, providers[p]) is Some,
    ensures
        0 <= k < checks(version, providers, models, verdicts).len(),
        ({
            let check = checks(version, providers, models, verdicts)[k];
            let key = verdict_key(version, providers[p]);
            &&& check.provider == providers[p]
            &&& Some(check.model) == first_of(models, providers[p])
            &&& check.key == key
            &&& check.cached == recorded(verdicts, key)
        }),
    decreases providers.len(),
{
    let init = providers.drop_last();
    let was = checks(version, init, models, verdicts);
    if p == providers.len() - 1 {
        was.len() as int
    } else {
        assert(init[p] == providers[p]);
        let k = lemma_checked(version, init, models, verdicts, p);
        assert(checks(version, providers, models, verdicts)[k] == was[k]);
        k
    }
}

/// Every provider with a model is looked at: with the model that its key is
/// probed with, under a name of its own for this version of the credentials,
/// and with the verdict that is known under that name.
pub proof fn every_provider_with_a_model_is_checked(
    version: u64,
    providers: Seq<Seq<char>>,
    models: Seq<ModelV>,
    verdicts: Seq<(Seq<char>, bool)>,
    p: int,
    i: int,
) -> (k: int)
    requires
        0 <= p < providers.len(),
        0 <= i < models.len(),
        catalog::provider_of(models[i].id) == providers[p],
    ensures
        0 <= k < checks(version, providers, models, verdicts).len(),
        ({
            let check = checks(version, providers, models, verdicts)[k];
            &&& check.provider == providers[p]
            &&& catalog::provider_of(check.model) == providers[p]
            &&& check.key == text::decimal(version as nat) + ":"@ + providers[p]
            &&& check.cached == recorded(verdicts, check.key)
        }),
{
    lemma_first_of(models, providers[p], i);
    lemma_checked(version, providers, models, verdicts, p)
}

proof fn lemma_first_of(models: Seq<ModelV>, provider: Seq<char>, i: int)
    requires
        0 <= i < models.len(),
        catalog::provider_of(models[i].id) == provider,
    ensures
        first_of(models, provider) matches Some(id) && catalog::provider_of(id) == provider,
    decreases models.len(),
{
    if catalog::provider_of(models[0].id) != provider {
        assert(models.drop_first()[i - 1] == models[i]);
        lemma_first_of(models.drop_first(), provider, i - 1);
    }
}

/// Two providers, and two versions of the credentials, never share a verdict.
pub proof fn verdicts_are_not_shared(v: u64, w: u64, a: Seq<char>, b: Seq<char>)
    ensures
        verdict_key(v, a) == verdict_key(w, b) ==> v == w && a == b,
{
    if verdict_key(v, a) == verdict_key(w, b) {
        reveal_strlit(":");
        text::decimal_reads_back(v as nat);
        text::decimal_reads_back(w as nat);
        let x = text::decimal(v as nat);
        let y = text::decimal(w as nat);
        let s = verdict_key(v, a);
        let t = verdict_key(w, b);
        assert(s[x.len() as int] == ':');
        assert(t[y.len() as int] == ':');
        if x.len() < y.len() {
            assert(t[x.len() as int] == y[x.len() as int]);
            assert(text::is_digit(y[x.len() as int]));
        }
        if y.len() < x.len() {
            assert(s[y.len() as int] == x[y.len() as int]);
            assert(text::is_digit(x[y.len() as int]));
        }
        assert(x =~= s.take(x.len() as int));
        assert(y =~= t.take(x.len() as int));
        assert(a =~= s.skip(x.len() as int + 1));
        assert(b =~= t.skip(x.len() as int + 1));
    }
}

proof fn lemma_dead_found(all: Seq<CheckV>, shown: Seq<Option<bool>>, k: int) -> (i: int)
    requires
        0 <= k < all.len(),
        is_dead(all[k], shown[k]),
    ensures
        0 <= i < dead_of(all, shown).len(),
        dead_of(all, shown)[i] == all[k].provider,
    decreases all.len(),
{
    let init = all.drop_last();
    if k == all.len() - 1 {
        dead_of(init, shown).len() as int
    } else {
        assert(init[k] == all[k]);
        let i = lemma_dead_found(init, shown, k);
        assert(dead_of(all, shown)[i] == dead_of(init, shown)[i]);
        i
    }
}

/// A provider is called dead if the verdict that was known says so, or, where
/// none was, if its probe showed that: a known verdict is not asked about again.
/// A provider with a working key, or with one of which nothing is known, is
/// not.
pub proof fn rejected_keys_make_dead_providers(all: Seq<CheckV>, shown: Seq<Option<bool>>, k: int)
    requires
        0 <= k < all.len(),
    ensures
        all[k].cached == Some(true) ==> dead_of(all, shown).contains(all[k].provider),
        all[k].cached is None && shown[k] == Some(true) ==> dead_of(all, shown).contains(
            all[k].provider,
        ),
        (forall|j: int|
            0 <= j < all.len() && (#[trigger] all[j]).provider == all[k].provider ==> all[j].cached
                == Some(false) || (all[j].cached is None && shown[j] != Some(true))) ==> !dead_of(
            all,
            shown,
        ).contains(all[k].provider),
{
    if is_dead(all[k], shown[k]) {
        let i = lemma_dead_found(all, shown, k);
        assert(dead_of(all, shown)[i] == all[k].provider);
    }
    if dead_of(all, shown).contains(all[k].provider) {
        let i = choose|i: int|
            0 <= i < dead_of(all, shown).len() && dead_of(all, shown)[i] == all[k].provider;
        let j = lemma_dead_source(all, shown, i);
        assert(all[j].provider == all[k].provider);
    }
}

proof fn lemma_dead_source(all: Seq<CheckV>, shown: Seq<Option<bool>>, i: int) -> (k: int)
    requires
        0 <= i < dead_of(all, shown).len(),
    ensures
        0 <= k < all.len(),
        dead_of(all, shown)[i] == all[k].provider,
        is_dead(all[k], shown[k]),
    decreases all.len(),
{
    let init = all.drop_last();
    if i < dead_of(init, shown).len() {
        assert(dead_of(all, shown)[i] == dead_of(init, shown)[i]);
        let k = lemma_dead_source(init, shown, i);
        assert(init[k] == all[k]);
        k
    } else {
        all.len() - 1
    }
}

/// A throwaway run takes the read-only agent and ends with the message. Plugins
/// are switched off where the agent knows how, and a model is named exactly if
/// one is chosen.
pub proof fn throwaway_runs_are_read_only(model: Seq<char>, message: Seq<char>)
    ensures
        child_arguments(OpenCodeVersion::V1, None, message) == seq![
            "run"@,
            "--agent"@,
            "plan"@,
            "--pure"@,
            message,
        ],
        child_arguments(OpenCodeVersion::V1, Some(model), message) == seq![
            "run"@,
            "--agent"@,
            "plan"@,
            "--pure"@,
            "--model"@,
            model,
            message,
        ],
        child_arguments(OpenCodeVersion::V2, None, message) == seq![
            "run"@,
            "--agent"@,
            "plan"@,
            message,
        ],
        child_arguments(OpenCodeVersion::V2, Some(model), message) == seq![
            "run"@,
            "--agent"@,
            "plan"@,
            "--model"@,
            model,
            message,
        ],
{
}

/// The configuration is asked for without plugins first, where the agent knows
/// how, and then plainly.
pub proof fn plain_requests_come_last(version: OpenCodeVersion)
    ensures
        config_requests(version).last() == seq!["debug"@, "config"@],
        config_requests(OpenCodeVersion::V1) == seq![
            seq!["debug"@, "config"@, "--pure"@],
            seq!["debug"@, "config"@],
        ],
        config_requests(OpenCodeVersion::V2).len() == 1,
{
    assert(seq!["debug"@, "config"@].push("--pure"@) =~= seq!["debug"@, "config"@, "--pure"@]);
}

/// A one-shot request leads with the instructions, then an empty line and the
/// prompt; its reply is what a child that succeeded printed.
pub proof fn instructions_lead_the_message(
    system: Seq<char>,
    prompt: Seq<char>,
    out: ChildOutput,
)
    ensures
        ({
            let message = shot_message(system, prompt);
            let n = system.len() as int;
            &&& message.take(n) == system
            &&& message[n] == '\n' && message[n + 1] == '\n'
            &&& message.skip(n + 2) == prompt
            &&& out.success ==> shot_reply(Some(out)) == Some(out.stdout@)
            &&& !out.success ==> shot_reply(Some(out)) is None
            &&& shot_reply(None) is None
        }),
{
    reveal_strlit("\n\n");
    let message = shot_message(system, prompt);
    let n = system.len() as int;
    assert(message.take(n) =~= system);
    assert(message.skip(n + 2) =~= prompt);
}

/// What the agent prints of its configuration is read as one object, whether
/// it is one or a list of sources; what is no document is none.
pub proof fn printed_configs_are_read(out: Seq<char>, doc: JsonV)
    ensures
        native::parsed(out) == Some(doc) ==> config_of(out) == Some(config::normalized(doc)),
        native::parsed(out) is None ==> config_of(out) is None,
{
}

} // verus!

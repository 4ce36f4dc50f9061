//! The agent's resolved configuration: which providers are enabled, which of
//! them run on this machine, and what they serve.

use vstd::prelude::*;

use crate::cards;
use crate::catalog;
use crate::catalog::{ModelInfo, ModelV};
use crate::collections::StrSet;
use crate::document;
use crate::json;
use crate::json::{Json, JsonV};
use crate::text;

verus! {

broadcast use json::group_json;

// ---------------------------------------------------------------------------
// Versions
// ---------------------------------------------------------------------------

/// The generations of the agent.
#[derive(Clone, Copy, Debug, PartialEq, Eq, Structural)]
pub enum OpenCodeVersion {
    V1,
    V2,
}

/// The last component of a path with `/` between its components.
pub open spec fn file_name(path: Seq<char>) -> Seq<char> {
    match text::rsplit_once(path, '/') {
        Some((_, name)) => name,
        None => path,
    }
}

/// A file name without its extension. A leading dot starts no extension.
pub open spec fn stem(name: Seq<char>) -> Seq<char> {
    match text::rsplit_once(name, '.') {
        Some((before, _)) => if before.len() == 0 {
            name
        } else {
            before
        },
        None => name,
    }
}

/// The generation of a binary, which shows in the stem of its file name.
pub open spec fn version_of(path: Seq<char>) -> OpenCodeVersion {
    if stem(file_name(path)) == "opencode2"@ {
        OpenCodeVersion::V2
    } else {
        OpenCodeVersion::V1
    }
}

/// The last component of a path.
pub fn file_name_of(path: &str) -> (r: String)
    ensures
        r@ == file_name(path@),
{
    match text::rsplit_once_text(path, '/') {
        Some((_, name)) => name,
        None => path.to_owned(),
    }
}

/// The generation of a binary.
pub fn opencode_version_of(path: &str) -> (r: OpenCodeVersion)
    ensures
        r == version_of(path@),
{
    let name: String = file_name_of(path);
    let stem: String = match text::rsplit_once_text(name.as_str(), '.') {
        Some((before, _)) => if before.as_str().is_empty() {
            name
        } else {
            before
        },
        None => name,
    };
    if text::str_eq(stem.as_str(), "opencode2") {
        OpenCodeVersion::V2
    } else {
        OpenCodeVersion::V1
    }
}

// ---------------------------------------------------------------------------
// The resolved configuration
// ---------------------------------------------------------------------------

/// The model that a source names: an id, or a provider with a model.
pub open spec fn source_model(info: JsonV) -> Option<Seq<char>> {
    match info.get("model"@) {
        Some(JsonV::Str(id)) => Some(id),
        Some(JsonV::Object(entries)) => {
            let id = match json::find(entries, "model"@) {
                Some(m) => Some(m),
                None => json::find(entries, "modelID"@),
            };
            match (json::find(entries, "providerID"@), id) {
                (Some(JsonV::Str(provider)), Some(JsonV::Str(id))) => Some(provider + "/"@ + id),
                _ => None,
            }
        },
        _ => None,
    }
}

/// The model of the first source that names one.
pub open spec fn first_model(sources: Seq<JsonV>) -> Option<Seq<char>>
    decreases sources.len(),
{
    if sources.len() == 0 {
        None
    } else {
        match first_model(sources.drop_last()) {
            Some(id) => Some(id),
            None => source_model(sources.last().member("info"@)),
        }
    }
}

/// What the first source that has this member says of it.
pub open spec fn first_member(sources: Seq<JsonV>, key: Seq<char>) -> Option<JsonV>
    decreases sources.len(),
{
    if sources.len() == 0 {
        None
    } else {
        match first_member(sources.drop_last(), key) {
            Some(v) => Some(v),
            None => sources.last().member("info"@).get(key),
        }
    }
}

/// The entries with those of `more` whose keys are not among them.
pub open spec fn with_missing(
    entries: Seq<(Seq<char>, JsonV)>,
    more: Seq<(Seq<char>, JsonV)>,
) -> Seq<(Seq<char>, JsonV)>
    decreases more.len(),
{
    if more.len() == 0 {
        entries
    } else {
        let init = with_missing(entries, more.drop_last());
        match json::find(init, more.last().0) {
            Some(_) => init,
            None => json::bind(init, more.last().0, more.last().1),
        }
    }
}

/// The entries of an object, and none of anything else.
pub open spec fn entries_of(doc: Option<JsonV>) -> Seq<(Seq<char>, JsonV)> {
    match doc {
        Some(JsonV::Object(entries)) => entries,
        _ => Seq::empty(),
    }
}

/// The providers of all sources; of one that several describe, the first
/// description.
pub open spec fn all_providers(sources: Seq<JsonV>) -> Seq<(Seq<char>, JsonV)>
    decreases sources.len(),
{
    if sources.len() == 0 {
        Seq::empty()
    } else {
        with_missing(
            all_providers(sources.drop_last()),
            entries_of(sources.last().member("info"@).get("providers"@)),
        )
    }
}

/// The entries with `key` bound to the value, if there is one.
pub open spec fn bind_some(
    entries: Seq<(Seq<char>, JsonV)>,
    key: Seq<char>,
    value: Option<JsonV>,
) -> Seq<(Seq<char>, JsonV)> {
    match value {
        Some(v) => json::bind(entries, key, v),
        None => entries,
    }
}

/// Configuration sources folded into one object.
pub open spec fn folded(sources: Seq<JsonV>) -> JsonV {
    let providers = all_providers(sources);
    let model = match first_model(sources) {
        Some(id) => Some(JsonV::Str(id)),
        None => None,
    };
    let e0 = bind_some(Seq::empty(), "model"@, model);
    let e1 = bind_some(e0, "enabled_providers"@, first_member(sources, "enabled_providers"@));
    let e2 = bind_some(e1, "disabled_providers"@, first_member(sources, "disabled_providers"@));
    JsonV::Object(
        if providers.len() > 0 {
            json::bind(e2, "provider"@, JsonV::Object(providers))
        } else {
            e2
        },
    )
}

/// A configuration as one object: an array of sources is folded, anything
/// else stays as it is.
pub open spec fn normalized(config: JsonV) -> JsonV {
    match config.as_array() {
        Some(sources) => folded(sources),
        None => config,
    }
}

fn model_in(info: &Json) -> (r: Option<String>)
    ensures
        text::opt_text(r) == source_model(info@),
{
    match info.get("model") {
        Some(Json::Str(id)) => Some(id.clone()),
        Some(Json::Object(entries)) => {
            let id: Option<&Json> = match document::find_in(entries, "model") {
                Some(m) => Some(m),
                None => document::find_in(entries, "modelID"),
            };
            match (document::find_in(entries, "providerID"), id) {
                (Some(Json::Str(provider)), Some(Json::Str(id))) => Some(
                    text::concat3(provider.as_str(), "/", id.as_str()),
                ),
                _ => None,
            }
        },
        _ => None,
    }
}

fn add_missing(entries: &mut Vec<(String, Json)>, more: &Vec<(String, Json)>)
    ensures
        json::entry_models(final(entries)@) == with_missing(
            json::entry_models(old(entries)@),
            json::entry_models(more@),
        ),
{
    let ghost before = json::entry_models(entries@);
    let ghost all = json::entry_models(more@);
    let mut i: usize = 0;
    assert(all.take(0) =~= Seq::empty());
    while i < more.len()
        invariant
            i <= more@.len(),
            all == json::entry_models(more@),
            json::entry_models(entries@) == with_missing(before, all.take(i as int)),
        decreases more@.len() - i,
    {
        assert(all.take(i + 1).drop_last() =~= all.take(i as int));
        assert(all.take(i + 1).last() == (more@[i as int].0@, more@[i as int].1@));
        let known: bool = match document::find_in(entries, more[i].0.as_str()) {
            Some(_) => true,
            None => false,
        };
        if !known {
            document::bind_in(entries, more[i].0.as_str(), more[i].1.copy());
        }
        i += 1;
    }
    assert(all.take(i as int) =~= all);
}

/// A configuration as one object.
pub fn normalize_debug_config(config: &Json) -> (r: Json)
    ensures
        r@ == normalized(config@),
{
    let sources: &Vec<Json> = match config.as_array() {
        Some(sources) => sources,
        None => {
            return config.copy();
        },
    };
    let ghost all = json::models(sources@);
    let mut model: Option<String> = None;
    let mut enabled: Option<Json> = None;
    let mut disabled: Option<Json> = None;
    let mut providers: Vec<(String, Json)> = Vec::new();
    let mut i: usize = 0;
    assert(all.take(0) =~= Seq::empty());
    assert(json::entry_models(providers@) =~= Seq::empty());
    while i < sources.len()
        invariant
            i <= sources@.len(),
            all == json::models(sources@),
            text::opt_text(model) == first_model(all.take(i as int)),
            json::opt_model(enabled) == first_member(all.take(i as int), "enabled_providers"@),
            json::opt_model(disabled) == first_member(all.take(i as int), "disabled_providers"@),
            json::entry_models(providers@) == all_providers(all.take(i as int)),
        decreases sources@.len() - i,
    {
        assert(all.take(i + 1).drop_last() =~= all.take(i as int));
        assert(all.take(i + 1).last() == sources@[i as int]@);
        match sources[i].get("info") {
            Some(info) => {
                if model.is_none() {
                    model = model_in(info);
                }
                if enabled.is_none() {
                    enabled = document::copy_opt(info.get("enabled_providers"));
                }
                if disabled.is_none() {
                    disabled = document::copy_opt(info.get("disabled_providers"));
                }
                match info.get("providers") {
                    Some(Json::Object(more)) => {
                        add_missing(&mut providers, more);
                    },
                    _ => {},
                }
            },
            None => {},
        }
        i += 1;
    }
    assert(all.take(i as int) =~= all);
    let mut entries: Vec<(String, Json)> = Vec::new();
    assert(json::entry_models(entries@) =~= Seq::empty());
    match model {
        Some(id) => {
            document::bind_in(&mut entries, "model", Json::Str(id));
        },
        None => {},
    }
    match enabled {
        Some(list) => {
            document::bind_in(&mut entries, "enabled_providers", list);
        },
        None => {},
    }
    match disabled {
        Some(list) => {
            document::bind_in(&mut entries, "disabled_providers", list);
        },
        None => {},
    }
    assert(json::entry_models(providers@).len() == providers@.len());
    if providers.len() > 0 {
        document::bind_in(&mut entries, "provider", Json::Object(providers));
    }
    Json::Object(entries)
}

// ---------------------------------------------------------------------------
// Providers
// ---------------------------------------------------------------------------

/// Some item of the array is this text.
pub open spec fn has_string(items: Seq<JsonV>, id: Seq<char>) -> bool {
    exists|i: int| 0 <= i < items.len() && (#[trigger] items[i]).as_str() == Some(id)
}

/// A provider is enabled: if there is a list of enabled providers it is on
/// it, and it is not on the list of disabled ones.
pub open spec fn enabled_in(config: JsonV, id: Seq<char>) -> bool {
    &&& config.array_at("enabled_providers"@) matches Some(list) ==> has_string(list, id)
    &&& config.array_at("disabled_providers"@) matches Some(list) ==> !has_string(list, id)
}

fn lists_string(items: &Vec<Json>, id: &str) -> (r: bool)
    ensures
        r == has_string(json::models(items@), id@),
{
    let ghost all = json::models(items@);
    let mut i: usize = 0;
    while i < items.len()
        invariant
            i <= items@.len(),
            all == json::models(items@),
            forall|j: int| 0 <= j < i ==> (#[trigger] all[j]).as_str() != Some(id@),
        decreases items@.len() - i,
    {
        assert(all[i as int] == items@[i as int]@);
        if text::opt_is(items[i].as_str(), id) {
            return true;
        }
        i += 1;
    }
    false
}

/// A provider is enabled.
pub fn provider_enabled(config: &Json, id: &str) -> (r: bool)
    ensures
        r == enabled_in(config@, id@),
{
    let on: bool = match config.array_at("enabled_providers") {
        Some(list) => lists_string(list, id),
        None => true,
    };
    let off: bool = match config.array_at("disabled_providers") {
        Some(list) => lists_string(list, id),
        None => false,
    };
    on && !off
}

/// The scheme and the host of a URL, as `url` reads it.
pub uninterp spec fn url_parts(url: Seq<char>) -> Option<(Seq<char>, Option<Seq<char>>)>;

/// The texts of a scheme and a host.
pub open spec fn part_texts(parts: Option<(String, Option<String>)>) -> Option<
    (Seq<char>, Option<Seq<char>>),
> {
    match parts {
        Some((scheme, host)) => Some((scheme@, text::opt_text(host))),
        None => None,
    }
}

/// `reqwest::Url::parse`, then `Url::scheme` and `Url::host_str`: the same
/// text always gives the same scheme and host, or is no URL.
#[verifier::external_body]
fn read_url(url: &str) -> (r: Option<(String, Option<String>)>)
    ensures
        part_texts(r) == url_parts(url@),
{
    match reqwest::Url::parse(url) {
        Ok(u) => Some((u.scheme().to_owned(), u.host_str().map(str::to_owned))),
        Err(_) => None,
    }
}

/// Decimal digits and dots only.
pub open spec fn dotted(s: Seq<char>) -> bool {
    forall|i: int| 0 <= i < s.len() ==> text::is_digit(#[trigger] s[i]) || s[i] == '.'
}

/// The host is this machine.
pub open spec fn loopback_host(host: Seq<char>) -> bool {
    ||| host == "localhost"@
    ||| host == "[::1]"@
    ||| text::starts_with(host, "127."@) && dotted(host)
}

/// A web address on this machine.
pub open spec fn is_loopback(parts: Option<(Seq<char>, Option<Seq<char>>)>) -> bool {
    match parts {
        Some((scheme, Some(host))) => (scheme == "http"@ || scheme == "https"@) && loopback_host(
            host,
        ),
        _ => false,
    }
}

fn is_dotted(s: &str) -> (r: bool)
    ensures
        r == dotted(s@),
{
    let v: Vec<char> = text::chars_of(s);
    let mut i: usize = 0;
    while i < v.len()
        invariant
            i <= v@.len(),
            v@ == s@,
            forall|j: int| 0 <= j < i ==> text::is_digit(#[trigger] s@[j]) || s@[j] == '.',
        decreases v@.len() - i,
    {
        assert(s@[i as int] == v@[i as int]);
        if !text::digit(v[i]) && v[i] != '.' {
            return false;
        }
        i += 1;
    }
    true
}

/// A web address on this machine, given its scheme and host.
pub fn loopback_parts(scheme: &str, host: Option<&str>) -> (r: bool)
    ensures
        r == is_loopback(Some((scheme@, text::opt_str(host)))),
{
    match host {
        Some(h) => (text::str_eq(scheme, "http") || text::str_eq(scheme, "https")) && (
        text::str_eq(h, "localhost") || text::str_eq(h, "[::1]") || (text::starts_with_text(
            h,
            "127.",
        ) && is_dotted(h))),
        None => false,
    }
}

/// The text is a web address on this machine.
pub fn is_loopback_url(url: &str) -> (r: bool)
    ensures
        r == is_loopback(url_parts(url@)),
{
    match read_url(url) {
        Some((scheme, host)) => loopback_parts(scheme.as_str(), text::opt_as_str(&host)),
        None => false,
    }
}

/// The address at which a provider is served.
pub open spec fn base_url(provider: JsonV) -> Option<Seq<char>> {
    provider.member("options"@).str_at("baseURL"@)
}

/// The provider is enabled and served on this machine.
pub open spec fn is_local(config: JsonV, id: Seq<char>, provider: JsonV) -> bool {
    enabled_in(config, id) && match base_url(provider) {
        Some(url) => is_loopback(url_parts(url)),
        None => false,
    }
}

/// The entries whose providers are local.
pub open spec fn local_entries(config: JsonV, entries: Seq<(Seq<char>, JsonV)>) -> Seq<
    (Seq<char>, JsonV),
>
    decreases entries.len(),
{
    if entries.len() == 0 {
        Seq::empty()
    } else if is_local(config, entries.last().0, entries.last().1) {
        local_entries(config, entries.drop_last()).push(entries.last())
    } else {
        local_entries(config, entries.drop_last())
    }
}

/// The configured providers that are enabled and served on this machine.
pub open spec fn local_in(config: JsonV) -> Seq<(Seq<char>, JsonV)> {
    local_entries(config, entries_of(config.get("provider"@)))
}

fn base_url_of(provider: &Json) -> (r: Option<&str>)
    ensures
        text::opt_str(r) == base_url(provider@),
{
    match provider.get("options") {
        Some(options) => options.str_at("baseURL"),
        None => None,
    }
}

/// The configured providers that are enabled and served on this machine.
pub fn local_providers(config: &Json) -> (r: Vec<(String, Json)>)
    ensures
        json::entry_models(r@) == local_in(config@),
{
    let mut out: Vec<(String, Json)> = Vec::new();
    assert(json::entry_models(out@) =~= Seq::empty());
    match config.get("provider") {
        Some(Json::Object(entries)) => {
            let ghost all = json::entry_models(entries@);
            let mut i: usize = 0;
            assert(all.take(0) =~= Seq::empty());
            while i < entries.len()
                invariant
                    i <= entries@.len(),
                    all == json::entry_models(entries@),
                    json::entry_models(out@) == local_entries(config@, all.take(i as int)),
                decreases entries@.len() - i,
            {
                assert(all.take(i + 1).drop_last() =~= all.take(i as int));
                assert(all.take(i + 1).last() == (entries@[i as int].0@, entries@[i as int].1@));
                let local: bool = provider_enabled(config, entries[i].0.as_str())
                    && match base_url_of(&entries[i].1) {
                    Some(url) => is_loopback_url(url),
                    None => false,
                };
                if local {
                    let ghost before = json::entry_models(out@);
                    let entry: (String, Json) = (entries[i].0.clone(), entries[i].1.copy());
                    out.push(entry);
                    assert(json::entry_models(out@) =~= before.push((entry.0@, entry.1@)));
                }
                i += 1;
            }
            assert(all.take(i as int) =~= all);
        },
        _ => {},
    }
    out
}

/// Where to ask a local server what it serves.
#[derive(Debug)]
pub struct Probe {
    pub base_url: String,
    pub api_key: String,
}

/// Where to ask a provider's server what it serves, and with which key.
pub fn local_probe(provider: &Json) -> (r: Option<Probe>)
    ensures
        match r {
            Some(p) => base_url(provider@) == Some(p.base_url@) && p.api_key@ == cards::text_or(
                provider@.member("options"@).str_at("apiKey"@),
                Seq::empty(),
            ),
            None => base_url(provider@) is None,
        },
{
    match provider.get("options") {
        Some(options) => match options.text_at("baseURL") {
            Some(base_url) => {
                let api_key: String = match options.text_at("apiKey") {
                    Some(key) => key,
                    None => String::new(),
                };
                Some(Probe { base_url, api_key })
            },
            None => None,
        },
        None => None,
    }
}

/// The id under which a server knows a configured model.
pub open spec fn api_id(entry: (Seq<char>, JsonV)) -> Seq<char> {
    cards::text_or(entry.1.str_at("id"@), entry.0)
}

/// The full ids of those configured models that the server advertises.
pub open spec fn served_of(
    id: Seq<char>,
    models: Seq<(Seq<char>, JsonV)>,
    advertised: Seq<Seq<char>>,
) -> Set<Seq<char>>
    decreases models.len(),
{
    if models.len() == 0 {
        Set::empty()
    } else if advertised.contains(api_id(models.last())) {
        served_of(id, models.drop_last(), advertised).insert(id + "/"@ + models.last().0)
    } else {
        served_of(id, models.drop_last(), advertised)
    }
}

/// The full ids of a provider's configured models that its server advertises.
pub open spec fn served(id: Seq<char>, provider: JsonV, advertised: Seq<Seq<char>>) -> Set<
    Seq<char>,
> {
    served_of(id, entries_of(provider.get("models"@)), advertised)
}

/// The advertised ids, where a server answered.
pub open spec fn opt_lists(v: Seq<Option<Vec<String>>>) -> Seq<Option<Seq<Seq<char>>>> {
    Seq::new(v.len(), |i: int| catalog::opt_texts(v[i]))
}

/// What the server of the provider at this place answered.
pub open spec fn answer_at(advertised: Seq<Option<Seq<Seq<char>>>>, i: int) -> Option<
    Seq<Seq<char>>,
> {
    if 0 <= i < advertised.len() {
        advertised[i]
    } else {
        None
    }
}

/// The full ids of the configured models that the local servers advertise:
/// provider by provider, with what each server answered.
pub open spec fn available(
    providers: Seq<(Seq<char>, JsonV)>,
    advertised: Seq<Option<Seq<Seq<char>>>>,
) -> Set<Seq<char>>
    decreases providers.len(),
{
    if providers.len() == 0 {
        Set::empty()
    } else {
        let rest = available(providers.drop_last(), advertised);
        match answer_at(advertised, providers.len() - 1) {
            Some(ids) => rest.union(served(providers.last().0, providers.last().1, ids)),
            None => rest,
        }
    }
}

fn add_served(out: &mut StrSet, id: &str, provider: &Json, advertised: &Vec<String>)
    ensures
        final(out)@ == old(out)@.union(served(id@, provider@, text::texts(advertised@))),
{
    let ghost before = out@;
    let ghost ids = text::texts(advertised@);
    match provider.get("models") {
        Some(Json::Object(models)) => {
            let ghost all = json::entry_models(models@);
            let mut i: usize = 0;
            assert(all.take(0) =~= Seq::empty());
            assert(before =~= before.union(served_of(id@, all.take(0), ids)));
            while i < models.len()
                invariant
                    i <= models@.len(),
                    all == json::entry_models(models@),
                    ids == text::texts(advertised@),
                    out@ == before.union(served_of(id@, all.take(i as int), ids)),
                decreases models@.len() - i,
            {
                assert(all.take(i + 1).drop_last() =~= all.take(i as int));
                assert(all.take(i + 1).last() == (models@[i as int].0@, models@[i as int].1@));
                let known: String = cards::owned_or(
                    models[i].1.text_at("id"),
                    models[i].0.as_str(),
                );
                if text::texts_contain(advertised, known.as_str()) {
                    let full: String = text::concat3(id, "/", models[i].0.as_str());
                    let _ = out.insert(full.as_str());
                    assert(out@ =~= before.union(served_of(id@, all.take(i + 1), ids)));
                }
                i += 1;
            }
            assert(all.take(i as int) =~= all);
        },
        _ => {
            assert(out@ =~= before.union(served(id@, provider@, ids)));
        },
    }
}

/// The full ids of the configured models that the local servers advertise.
pub fn available_local_models(
    providers: &Vec<(String, Json)>,
    advertised: &Vec<Option<Vec<String>>>,
) -> (r: StrSet)
    ensures
        r@ == available(json::entry_models(providers@), opt_lists(advertised@)),
{
    let ghost all = json::entry_models(providers@);
    let ghost lists = opt_lists(advertised@);
    let mut out: StrSet = StrSet::new();
    let mut i: usize = 0;
    assert(all.take(0) =~= Seq::empty());
    while i < providers.len()
        invariant
            i <= providers@.len(),
            all == json::entry_models(providers@),
            lists == opt_lists(advertised@),
            out@ == available(all.take(i as int), lists),
        decreases providers@.len() - i,
    {
        assert(all.take(i + 1).drop_last() =~= all.take(i as int));
        assert(all.take(i + 1).last() == (providers@[i as int].0@, providers@[i as int].1@));
        if i < advertised.len() {
            assert(lists[i as int] == catalog::opt_texts(advertised@[i as int]));
            match &advertised[i] {
                Some(ids) => {
                    add_served(&mut out, providers[i].0.as_str(), &providers[i].1, ids);
                },
                None => {},
            }
        }
        i += 1;
    }
    assert(all.take(i as int) =~= all);
    out
}

// ---------------------------------------------------------------------------
// Labels and sign-ins
// ---------------------------------------------------------------------------

/// The name that the configuration gives a provider's model.
pub open spec fn configured_name(config: JsonV, provider: Seq<char>, id: Seq<char>) -> Option<
    Seq<char>,
> {
    config.member("provider"@).member(provider).member("models"@).member(id).str_at("name"@)
}

/// A model without a name gets the configured one.
pub open spec fn labelled(model: ModelV, config: JsonV) -> ModelV {
    match (model.display_name, text::split_once(model.id, '/')) {
        (None, Some((provider, id))) => ModelV {
            display_name: configured_name(config, provider, id),
            ..model
        },
        _ => model,
    }
}

fn name_in(config: &Json, provider: &str, id: &str) -> (r: Option<String>)
    ensures
        text::opt_text(r) == configured_name(config@, provider@, id@),
{
    let null: Json = Json::Null;
    let providers: &Json = crate::events::member_or(config, "provider", &null);
    let entry: &Json = crate::events::member_or(providers, provider, &null);
    let models: &Json = crate::events::member_or(entry, "models", &null);
    let model: &Json = crate::events::member_or(models, id, &null);
    model.text_at("name")
}

/// Give the models without a name the configured ones.
pub fn apply_configured_labels(models: &mut Vec<ModelInfo>, config: &Json)
    ensures
        catalog::infos(final(models)@) == catalog::infos(old(models)@).map_values(
            |m: ModelV| labelled(m, config@),
        ),
{
    let ghost before = catalog::infos(models@);
    let ghost all = before.map_values(|m: ModelV| labelled(m, config@));
    let mut i: usize = 0;
    assert(catalog::infos(models@) =~= all.take(0) + before.skip(0));
    while i < models.len()
        invariant
            i <= models@.len(),
            models@.len() == before.len(),
            all == before.map_values(|m: ModelV| labelled(m, config@)),
            catalog::infos(models@) == all.take(i as int) + before.skip(i as int),
        decreases models@.len() - i,
    {
        let ghost was = models@;
        assert(catalog::infos(was)[i as int] == before[i as int]);
        if models[i].display_name.is_none() {
            match text::split_once_text(models[i].id.as_str(), '/') {
                Some((provider, id)) => {
                    let name: Option<String> = name_in(config, provider.as_str(), id.as_str());
                    models[i].display_name = name;
                },
                None => {},
            }
        }
        assert(models@[i as int]@ == all[i as int]);
        assert forall|k: int| 0 <= k < was.len() && k != i implies models@[k] == was[k] by {}
        assert(catalog::infos(models@) =~= all.take(i + 1) + before.skip(i + 1)) by {
            assert forall|k: int| 0 <= k < was.len() implies catalog::infos(models@)[k] == (
            all.take(i + 1) + before.skip(i + 1))[k] by {
                if k != i {
                    assert(catalog::infos(was)[k] == (all.take(i as int) + before.skip(i as int))[k]);
                }
            }
        }
        i += 1;
    }
    assert(all.take(i as int) + before.skip(i as int) =~= all);
}

/// The providers that the agent is signed in to: the keys of its stored
/// credentials.
pub fn opencode_providers(auth: Option<&Json>) -> (r: Vec<String>)
    ensures
        text::texts(r@) == catalog::keys_of(entries_of(json::ref_model(auth))),
{
    match auth {
        Some(Json::Object(entries)) => catalog::object_keys(entries),
        _ => {
            let out: Vec<String> = Vec::new();
            assert(text::texts(out@) =~= catalog::keys_of(Seq::empty()));
            out
        },
    }
}

// ---------------------------------------------------------------------------
// Laws
// ---------------------------------------------------------------------------

/// A configuration that is no array of sources stays as it is.
pub proof fn objects_pass_through(config: JsonV)
    requires
        !(config is Array),
    ensures
        normalized(config) == config,
{
}

proof fn lemma_with_missing_keeps(
    entries: Seq<(Seq<char>, JsonV)>,
    more: Seq<(Seq<char>, JsonV)>,
    id: Seq<char>,
)
    requires
        json::find(entries, id) is Some,
    ensures
        json::find(with_missing(entries, more), id) == json::find(entries, id),
    decreases more.len(),
{
    if more.len() > 0 {
        lemma_with_missing_keeps(entries, more.drop_last(), id);
        let init = with_missing(entries, more.drop_last());
        json::find_after_bind(init, more.last().0, more.last().1, id);
    }
}

/// What an earlier source says of the model, of the lists of providers and of
/// a provider stands, whatever the sources behind it say.
pub proof fn the_first_source_wins(first: Seq<JsonV>, more: Seq<JsonV>, key: Seq<char>)
    ensures
        first_model(first) is Some ==> first_model(first + more) == first_model(first),
        first_member(first, key) is Some ==> first_member(first + more, key) == first_member(
            first,
            key,
        ),
        json::find(all_providers(first), key) is Some ==> json::find(
            all_providers(first + more),
            key,
        ) == json::find(all_providers(first), key),
    decreases more.len(),
{
    if more.len() == 0 {
        assert(first + more =~= first);
    } else {
        the_first_source_wins(first, more.drop_last(), key);
        assert((first + more).drop_last() =~= first + more.drop_last());
        assert((first + more).last() == more.last());
        if json::find(all_providers(first), key) is Some {
            lemma_with_missing_keeps(
                all_providers(first + more.drop_last()),
                entries_of(more.last().member("info"@).get("providers"@)),
                key,
            );
        }
    }
}

/// A folded configuration reads as one that was an object from the start: the
/// model, the lists of providers and the providers stand under their keys.
pub proof fn folded_configs_read_back(sources: Seq<JsonV>)
    ensures
        folded(sources).str_at("model"@) == first_model(sources),
        folded(sources).get("enabled_providers"@) == first_member(sources, "enabled_providers"@),
        folded(sources).get("disabled_providers"@) == first_member(sources, "disabled_providers"@),
        entries_of(folded(sources).get("provider"@)) == all_providers(sources),
{
    let providers = all_providers(sources);
    let model = match first_model(sources) {
        Some(id) => Some(JsonV::Str(id)),
        None => None,
    };
    let on = first_member(sources, "enabled_providers"@);
    let off = first_member(sources, "disabled_providers"@);
    let e0 = bind_some(Seq::empty(), "model"@, model);
    let e1 = bind_some(e0, "enabled_providers"@, on);
    let e2 = bind_some(e1, "disabled_providers"@, off);
    reveal_strlit("model");
    reveal_strlit("enabled_providers");
    reveal_strlit("disabled_providers");
    reveal_strlit("provider");
    assert("model"@.len() != "enabled_providers"@.len());
    assert("model"@.len() != "disabled_providers"@.len());
    assert("model"@.len() != "provider"@.len());
    assert("enabled_providers"@.len() != "disabled_providers"@.len());
    assert("enabled_providers"@.len() != "provider"@.len());
    assert("disabled_providers"@.len() != "provider"@.len());
    lemma_bind_some(Seq::empty(), "model"@, model);
    lemma_bind_some(e0, "enabled_providers"@, on);
    lemma_bind_some(e1, "disabled_providers"@, off);
    lemma_bind_some(e2, "provider"@, Some(JsonV::Object(providers)));
    if providers.len() == 0 {
        assert(providers =~= Seq::empty());
    }
}

proof fn lemma_bind_some(
    entries: Seq<(Seq<char>, JsonV)>,
    key: Seq<char>,
    value: Option<JsonV>,
)
    ensures
        value is Some ==> json::find(bind_some(entries, key, value), key) == value,
        forall|k: Seq<char>|
            k != key || value is None ==> #[trigger] json::find(bind_some(entries, key, value), k)
                == json::find(entries, k),
{
    match value {
        Some(v) => {
            json::find_after_bind(entries, key, v, key);
            assert forall|k: Seq<char>| k != key implies #[trigger] json::find(
                bind_some(entries, key, value),
                k,
            ) == json::find(entries, k) by {
                json::find_after_bind(entries, key, v, k);
            }
        },
        None => {},
    }
}

proof fn lemma_local_entries(config: JsonV, entries: Seq<(Seq<char>, JsonV)>)
    ensures
        forall|i: int|
            0 <= i < local_entries(config, entries).len() ==> is_local(
                config,
                (#[trigger] local_entries(config, entries)[i]).0,
                local_entries(config, entries)[i].1,
            ),
    decreases entries.len(),
{
    if entries.len() > 0 {
        let init = entries.drop_last();
        lemma_local_entries(config, init);
        assert forall|i: int| 0 <= i < local_entries(config, entries).len() implies is_local(
            config,
            (#[trigger] local_entries(config, entries)[i]).0,
            local_entries(config, entries)[i].1,
        ) by {
            if i < local_entries(config, init).len() {
                assert(local_entries(config, entries)[i] == local_entries(config, init)[i]);
            }
        }
    }
}

proof fn lemma_served(
    id: Seq<char>,
    models: Seq<(Seq<char>, JsonV)>,
    advertised: Seq<Seq<char>>,
    full: Seq<char>,
) -> (i: int)
    requires
        served_of(id, models, advertised).contains(full),
    ensures
        0 <= i < models.len(),
        advertised.contains(api_id(models[i])),
        full == id + "/"@ + models[i].0,
    decreases models.len(),
{
    if advertised.contains(api_id(models.last())) && full == id + "/"@ + models.last().0 {
        models.len() - 1
    } else {
        lemma_served(id, models.drop_last(), advertised, full)
    }
}

proof fn lemma_available(
    providers: Seq<(Seq<char>, JsonV)>,
    advertised: Seq<Option<Seq<Seq<char>>>>,
    full: Seq<char>,
) -> (i: int)
    requires
        available(providers, advertised).contains(full),
    ensures
        0 <= i < providers.len(),
        answer_at(advertised, i) is Some,
        served(providers[i].0, providers[i].1, answer_at(advertised, i)->0).contains(full),
    decreases providers.len(),
{
    let n = providers.len() - 1;
    if answer_at(advertised, n) is Some && served(
        providers.last().0,
        providers.last().1,
        answer_at(advertised, n)->0,
    ).contains(full) {
        n
    } else {
        lemma_available(providers.drop_last(), advertised, full)
    }
}

/// A local model is available only where its provider is enabled and served
/// on this machine, its server answered, and the server advertises the model.
pub proof fn available_models_are_served(
    config: JsonV,
    advertised: Seq<Option<Seq<Seq<char>>>>,
    full: Seq<char>,
) -> (found: (int, int))
    requires
        available(local_in(config), advertised).contains(full),
    ensures
        ({
            let (i, k) = found;
            let provider = local_in(config)[i];
            let models = entries_of(provider.1.get("models"@));
            &&& 0 <= i < local_in(config).len()
            &&& is_local(config, provider.0, provider.1)
            &&& answer_at(advertised, i) matches Some(ids) && ids.contains(api_id(models[k]))
            &&& 0 <= k < models.len()
            &&& full == provider.0 + "/"@ + models[k].0
        }),
{
    let i = lemma_available(local_in(config), advertised, full);
    let provider = local_in(config)[i];
    lemma_local_entries(config, entries_of(config.get("provider"@)));
    let k = lemma_served(
        provider.0,
        entries_of(provider.1.get("models"@)),
        answer_at(advertised, i)->0,
        full,
    );
    (i, k)
}

/// Who is enabled is a matter of the two lists alone: a list of enabled
/// providers leaves out everyone else, and a list of disabled ones leaves out
/// those on it. Without lists everyone is enabled.
pub proof fn the_lists_decide_who_is_enabled(config: JsonV, id: Seq<char>)
    ensures
        ({
            let on = config.get("enabled_providers"@);
            let off = config.get("disabled_providers"@);
            let listed = |list: Option<JsonV>|
                list is Some && list->0 is Array && list->0->Array_0.contains(JsonV::Str(id));
            let is_list = |list: Option<JsonV>| list is Some && list->0 is Array;
            enabled_in(config, id) <==> (is_list(on) ==> listed(on)) && (is_list(off) ==> !listed(
                off,
            ))
        }),
{
    let on = config.get("enabled_providers"@);
    let off = config.get("disabled_providers"@);
    assert forall|items: Seq<JsonV>| #[trigger] has_string(items, id) <==> items.contains(
        JsonV::Str(id),
    ) by {
        if has_string(items, id) {
            let i = choose|i: int|
                0 <= i < items.len() && (#[trigger] items[i]).as_str() == Some(id);
            assert(items[i] == JsonV::Str(id));
        }
        if items.contains(JsonV::Str(id)) {
            let i = choose|i: int| 0 <= i < items.len() && items[i] == JsonV::Str(id);
            assert(items[i].as_str() == Some(id));
        }
    }
}

/// The hosts that are this machine: its name, its address of the newer kind,
/// and every address of the older kind that begins with 127; a name that only
/// begins like such an address is none. Only web addresses count.
pub proof fn this_machine_has_three_names(
    scheme: Seq<char>,
    rest: Seq<char>,
    host: Seq<char>,
    i: int,
)
    requires
        forall|k: int|
            0 <= k < rest.len() ==> '0' <= #[trigger] rest[k] <= '9' || rest[k] == '.',
    ensures
        ({
            let local = |scheme: Seq<char>, host: Seq<char>| is_loopback(Some((scheme, Some(host))));
            let web = scheme == "http"@ || scheme == "https"@;
            &&& web ==> local(scheme, "localhost"@)
            &&& web ==> local(scheme, "[::1]"@)
            &&& web ==> local(scheme, "127."@ + rest)
            &&& !web ==> !local(scheme, host)
            &&& host != "localhost"@ && host != "[::1]"@ && 0 <= i < host.len() && host[i] != '.'
                && !('0' <= host[i] <= '9') ==> !local(scheme, host)
            &&& host != "localhost"@ && host != "[::1]"@ && !text::starts_with(host, "127."@)
                ==> !local(scheme, host)
            &&& !is_loopback(None)
            &&& !is_loopback(Some((scheme, None)))
        }),
{
    reveal_strlit("127.");
    let full = "127."@ + rest;
    assert(full.take("127."@.len() as int) =~= "127."@);
    assert forall|k: int| 0 <= k < full.len() implies text::is_digit(#[trigger] full[k]) || full[k]
        == '.' by {
        if k >= 4 {
            assert(full[k] == rest[k - 4]);
        }
    }
}

proof fn lemma_local_kept(config: JsonV, entries: Seq<(Seq<char>, JsonV)>, i: int) -> (k: int)
    requires
        0 <= i < entries.len(),
        is_local(config, entries[i].0, entries[i].1),
    ensures
        0 <= k < local_entries(config, entries).len(),
        local_entries(config, entries)[k] == entries[i],
    decreases entries.len(),
{
    let init = entries.drop_last();
    if i == entries.len() - 1 {
        local_entries(config, init).len() as int
    } else {
        assert(init[i] == entries[i]);
        lemma_local_kept(config, init, i)
    }
}

proof fn lemma_local_source(config: JsonV, entries: Seq<(Seq<char>, JsonV)>, k: int) -> (i: int)
    requires
        0 <= k < local_entries(config, entries).len(),
    ensures
        0 <= i < entries.len(),
        local_entries(config, entries)[k] == entries[i],
    decreases entries.len(),
{
    let init = entries.drop_last();
    if k < local_entries(config, init).len() {
        let i = lemma_local_source(config, init, k);
        assert(init[i] == entries[i]);
        i
    } else {
        assert(entries[entries.len() - 1] == entries.last());
        entries.len() - 1
    }
}

/// A configured provider is local exactly if it is enabled and its address is
/// on this machine: each such provider is found, as it is configured, and no
/// other.
pub proof fn local_providers_are_found(config: JsonV, i: int, id: Seq<char>, provider: JsonV)
    ensures
        ({
            let configured = entries_of(config.get("provider"@));
            let url = provider.member("options"@).str_at("baseURL"@);
            let here = enabled_in(config, id) && url is Some && is_loopback(url_parts(url->0));
            &&& 0 <= i < configured.len() && configured[i] == (id, provider) && here
                ==> local_in(config).contains((id, provider))
            &&& local_in(config).contains((id, provider)) ==> here && configured.contains(
                (id, provider),
            )
        }),
{
    let configured = entries_of(config.get("provider"@));
    if 0 <= i < configured.len() && configured[i] == (id, provider) && is_local(
        config,
        id,
        provider,
    ) {
        let k = lemma_local_kept(config, configured, i);
        assert(local_in(config)[k] == (id, provider));
    }
    if local_in(config).contains((id, provider)) {
        let k = choose|k: int| 0 <= k < local_in(config).len() && local_in(config)[k] == (id, provider);
        lemma_local_entries(config, configured);
        let n = lemma_local_source(config, configured, k);
        assert(configured[n] == (id, provider));
    }
}

proof fn lemma_serves(
    id: Seq<char>,
    models: Seq<(Seq<char>, JsonV)>,
    advertised: Seq<Seq<char>>,
    k: int,
)
    requires
        0 <= k < models.len(),
        advertised.contains(api_id(models[k])),
    ensures
        served_of(id, models, advertised).contains(id + "/"@ + models[k].0),
    decreases models.len(),
{
    if k < models.len() - 1 {
        assert(models.drop_last()[k] == models[k]);
        lemma_serves(id, models.drop_last(), advertised, k);
    }
}

proof fn lemma_offers(
    providers: Seq<(Seq<char>, JsonV)>,
    advertised: Seq<Option<Seq<Seq<char>>>>,
    i: int,
    full: Seq<char>,
)
    requires
        0 <= i < providers.len(),
        answer_at(advertised, i) is Some,
        served(providers[i].0, providers[i].1, answer_at(advertised, i)->0).contains(full),
    ensures
        available(providers, advertised).contains(full),
    decreases providers.len(),
{
    if i < providers.len() - 1 {
        assert(providers.drop_last()[i] == providers[i]);
        lemma_offers(providers.drop_last(), advertised, i, full);
    }
}

/// A configured model of a local provider is available as soon as the
/// provider's server advertises it, by the id that the model is configured to
/// have there, or else by its own. What one server advertises makes no model of
/// another one available.
pub proof fn advertised_models_are_available(
    config: JsonV,
    advertised: Seq<Option<Seq<Seq<char>>>>,
    i: int,
    k: int,
    ids: Seq<Seq<char>>,
)
    requires
        0 <= i < local_in(config).len(),
        0 <= i < advertised.len(),
        advertised[i] == Some(ids),
        0 <= k < entries_of(local_in(config)[i].1.get("models"@)).len(),
        ({
            let model = entries_of(local_in(config)[i].1.get("models"@))[k];
            match model.1.str_at("id"@) {
                Some(id) => ids.contains(id),
                None => ids.contains(model.0),
            }
        }),
    ensures
        ({
            let (id, provider) = local_in(config)[i];
            let model = entries_of(provider.get("models"@))[k];
            available(local_in(config), advertised).contains(id + "/"@ + model.0)
        }),
{
    let (id, provider) = local_in(config)[i];
    let models = entries_of(provider.get("models"@));
    lemma_serves(id, models, ids, k);
    lemma_offers(local_in(config), advertised, i, id + "/"@ + models[k].0);
}

/// A model is named by its configuration only where it has no name of its own,
/// and nothing else of it changes.
pub proof fn configured_names_fill_in(
    config: JsonV,
    model: ModelV,
    provider: Seq<char>,
    id: Seq<char>,
)
    ensures
        labelled(model, config).id == model.id,
        labelled(model, config).levels == model.levels,
        labelled(model, config).description == model.description,
        model.display_name is Some ==> labelled(model, config) == model,
        !model.id.contains('/') ==> labelled(model, config) == model,
        model.display_name is None && model.id == provider + "/"@ + id && !provider.contains('/')
            ==> labelled(model, config).display_name == config.member("provider"@).member(
            provider,
        ).member("models"@).member(id).str_at("name"@),
{
    reveal_strlit("/");
    text::splits_read_back(model.id, '/');
    if text::split_once(model.id, '/') is Some {
        let (a, b) = text::split_once(model.id, '/')->0;
        assert(model.id[a.len() as int] == '/');
    }
    if model.id == provider + "/"@ + id && !provider.contains('/') {
        let n = provider.len() as int;
        assert(model.id[n] == '/');
        text::lemma_first_index(model.id, '/');
        let at = text::first_index(model.id, '/');
        assert forall|j: int| 0 <= j < n implies model.id[j] != '/' by {
            assert(model.id[j] == provider[j]);
            if provider[j] == '/' {
                assert(provider.contains('/'));
            }
        }
        assert(at == n);
        assert(model.id.take(n) =~= provider);
        assert(model.id.skip(n + 1) =~= id);
    }
}

/// Of several sources, the first that names a model decides, whether it names
/// it in one word or as a provider with a model.
pub proof fn sources_name_the_model(
    info: JsonV,
    model: JsonV,
    word: Seq<char>,
    provider: Seq<char>,
    rest: Seq<JsonV>,
    source: JsonV,
)
    requires
        info.get("model"@) == Some(model),
        source.get("info"@) == Some(info),
    ensures
        ({
            let folded_model = folded(seq![source] + rest).str_at("model"@);
            &&& model == JsonV::Str(word) ==> folded_model == Some(word)
            &&& model is Object && model.str_at("providerID"@) == Some(provider) && model.str_at(
                "model"@,
            ) == Some(word) ==> folded_model == Some(provider + "/"@ + word)
            &&& model is Object && model.str_at("providerID"@) == Some(provider) && model.get(
                "model"@,
            ) is None && model.str_at("modelID"@) == Some(word) ==> folded_model == Some(
                provider + "/"@ + word,
            )
        }),
{
    folded_configs_read_back(seq![source] + rest);
    the_first_source_wins(seq![source], rest, Seq::empty());
    reveal_with_fuel(first_model, 2);
    assert(seq![source].drop_last() =~= Seq::empty());
    assert(seq![source].last() == source);
}

/// A source that says nothing is passed over, and the one behind it decides.
pub proof fn silent_sources_are_passed_over(first: Seq<JsonV>, source: JsonV, id: Seq<char>)
    ensures
        first_model(first) is None ==> folded(first.push(source)).str_at("model"@)
            == source_model(source.member("info"@)),
        first_member(first, "enabled_providers"@) is None ==> folded(first.push(source)).get(
            "enabled_providers"@,
        ) == source.member("info"@).get("enabled_providers"@),
        first_member(first, "disabled_providers"@) is None ==> folded(first.push(source)).get(
            "disabled_providers"@,
        ) == source.member("info"@).get("disabled_providers"@),
        json::find(all_providers(first), id) is None ==> folded(first.push(source)).member(
            "provider"@,
        ).get(id) == json::find(entries_of(source.member("info"@).get("providers"@)), id),
{
    let all = first.push(source);
    folded_configs_read_back(all);
    assert(all.drop_last() =~= first);
    assert(all.last() == source);
    let more = entries_of(source.member("info"@).get("providers"@));
    if json::find(all_providers(first), id) is None {
        lemma_with_missing_adds(all_providers(first), more, id);
        if all_providers(all).len() == 0 {
            assert(json::find(all_providers(all), id) is None);
        }
    }
}

proof fn lemma_with_missing_adds(
    entries: Seq<(Seq<char>, JsonV)>,
    more: Seq<(Seq<char>, JsonV)>,
    id: Seq<char>,
)
    requires
        json::find(entries, id) is None,
    ensures
        json::find(with_missing(entries, more), id) == json::find(more, id),
    decreases more.len(),
{
    if more.len() > 0 {
        let before = more.drop_last();
        let init = with_missing(entries, before);
        lemma_with_missing_adds(entries, before, id);
        lemma_find_last(more, id);
        json::find_after_bind(init, more.last().0, more.last().1, id);
    }
}

proof fn lemma_find_last(entries: Seq<(Seq<char>, JsonV)>, id: Seq<char>)
    requires
        entries.len() > 0,
    ensures
        json::find(entries, id) == (match json::find(entries.drop_last(), id) {
            Some(v) => Some(v),
            None => if entries.last().0 == id {
                Some(entries.last().1)
            } else {
                None
            },
        }),
    decreases entries.len(),
{
    let init = entries.drop_last();
    if entries.len() == 1 {
        reveal_with_fuel(json::find, 2);
        assert(entries.drop_first() =~= Seq::empty());
    } else {
        assert(init[0] == entries[0]);
        lemma_find_last(entries.drop_first(), id);
        assert(entries.drop_first().drop_last() =~= init.drop_first());
        assert(entries.drop_first().last() == entries.last());
    }
}

/// The generation shows in the file's name alone, whatever its directory and
/// with any extension.
pub proof fn names_tell_the_generation(dir: Seq<char>, ext: Seq<char>)
    requires
        !ext.contains('.'),
        !ext.contains('/'),
    ensures
        version_of("opencode2"@) == OpenCodeVersion::V2,
        version_of(dir + "/opencode2"@) == OpenCodeVersion::V2,
        version_of(dir + "/opencode2."@ + ext) == OpenCodeVersion::V2,
        version_of("opencode"@) == OpenCodeVersion::V1,
        version_of(dir + "/opencode"@) == OpenCodeVersion::V1,
        version_of(dir + "/opencode."@ + ext) == OpenCodeVersion::V1,
{
    reveal_strlit("opencode2");
    reveal_strlit("opencode");
    reveal_strlit("/opencode2");
    reveal_strlit("/opencode");
    reveal_strlit("/opencode2.");
    reveal_strlit("/opencode.");
    let two = "opencode2"@;
    let one = "opencode"@;
    assert(two.len() != one.len());
    assert(!two.contains('/') && !two.contains('.'));
    assert(!one.contains('/') && !one.contains('.'));
    lemma_plain_name(two);
    lemma_plain_name(one);
    lemma_name_in(dir, two);
    lemma_name_in(dir, one);
    assert(dir + "/opencode2"@ =~= dir + seq!['/'] + two);
    assert(dir + "/opencode"@ =~= dir + seq!['/'] + one);
    lemma_extended(two, ext);
    lemma_extended(one, ext);
    let two_ext = two + seq!['.'] + ext;
    let one_ext = one + seq!['.'] + ext;
    lemma_name_in(dir, two_ext);
    lemma_name_in(dir, one_ext);
    assert(dir + "/opencode2."@ + ext =~= dir + seq!['/'] + two_ext);
    assert(dir + "/opencode."@ + ext =~= dir + seq!['/'] + one_ext);
}

proof fn lemma_plain_name(name: Seq<char>)
    requires
        !name.contains('/'),
        !name.contains('.'),
    ensures
        file_name(name) == name,
        stem(name) == name,
{
    text::splits_read_back(name, '/');
    text::splits_read_back(name, '.');
    if text::rsplit_once(name, '/') is Some {
        let (a, b) = text::rsplit_once(name, '/')->0;
        assert((a + seq!['/'] + b)[a.len() as int] == '/');
    }
    if text::rsplit_once(name, '.') is Some {
        let (a, b) = text::rsplit_once(name, '.')->0;
        assert((a + seq!['.'] + b)[a.len() as int] == '.');
    }
}

proof fn lemma_split_behind(a: Seq<char>, b: Seq<char>, c: char)
    requires
        !b.contains(c),
    ensures
        text::rsplit_once(a + seq![c] + b, c) == Some((a, b)),
{
    let s = a + seq![c] + b;
    let n = a.len() as int;
    text::splits_read_back(s, c);
    assert(s[n] == c);
    assert(s.contains(c));
    let (x, y) = text::rsplit_once(s, c)->0;
    let m = x.len() as int;
    assert(s[m] == c);
    if m < n {
        assert(y[n - m - 1] == s[n]);
        assert(y.contains(c));
    }
    if m > n {
        assert(b[m - n - 1] == s[m]);
        assert(b.contains(c));
    }
    assert(a =~= s.take(n));
    assert(x =~= s.take(m));
    assert(b =~= s.skip(n + 1));
    assert(y =~= s.skip(m + 1));
}

proof fn lemma_name_in(dir: Seq<char>, name: Seq<char>)
    requires
        !name.contains('/'),
    ensures
        file_name(dir + seq!['/'] + name) == name,
{
    lemma_split_behind(dir, name, '/');
}

proof fn lemma_extended(name: Seq<char>, ext: Seq<char>)
    requires
        name.len() > 0,
        !name.contains('/'),
        !ext.contains('.'),
        !ext.contains('/'),
    ensures
        stem(name + seq!['.'] + ext) == name,
        !(name + seq!['.'] + ext).contains('/'),
{
    lemma_split_behind(name, ext, '.');
    let s = name + seq!['.'] + ext;
    if s.contains('/') {
        let k = choose|k: int| 0 <= k < s.len() && s[k] == '/';
        if k < name.len() {
            assert(name[k] == '/');
        } else if k > name.len() {
            assert(ext[k - name.len() - 1] == '/');
        }
    }
}

/// A folded configuration has providers only where a source has some.
pub proof fn nothing_is_made_up_of_nothing(sources: Seq<JsonV>)
    requires
        all_providers(sources).len() == 0,
    ensures
        folded(sources).get("provider"@) is None,
{
    let model = match first_model(sources) {
        Some(id) => Some(JsonV::Str(id)),
        None => None,
    };
    let on = first_member(sources, "enabled_providers"@);
    let off = first_member(sources, "disabled_providers"@);
    let e0 = bind_some(Seq::empty(), "model"@, model);
    let e1 = bind_some(e0, "enabled_providers"@, on);
    reveal_strlit("model");
    reveal_strlit("enabled_providers");
    reveal_strlit("disabled_providers");
    reveal_strlit("provider");
    assert("model"@.len() != "provider"@.len());
    assert("enabled_providers"@.len() != "provider"@.len());
    assert("disabled_providers"@.len() != "provider"@.len());
    lemma_bind_some(Seq::empty(), "model"@, model);
    lemma_bind_some(e0, "enabled_providers"@, on);
    lemma_bind_some(e1, "disabled_providers"@, off);
}

} // verus!

//! Model providers: reading and editing the models configuration.

use vstd::prelude::*;
use crate::error::AppError;
use crate::table::{increasing, rank_names, ranks_names, Table};
use crate::text::{
    chars_of, ends_with, opt_str, same, string_of, strip_trailing, strs, trim, trimmed,
    without_trailing,
};
use crate::yaml;
use crate::yaml::{
    copy_map, get, get_string, key, lemma_list_view, lemma_lookup_valid, lemma_map_view,
    lemma_put_lookup, lemma_put_valid, lemma_untagged_valid, list_view, lookup, map_view, put,
    retag, set_entry, set_entry_if_missing, string_field, valid, Yaml, YamlView,
};

verus! {

/// What is shown in place of an API key.
pub const API_KEY_MASK: &'static str = "******";

/// A configured model.
#[derive(Debug, PartialEq, Eq)]
pub struct ProviderModel {
    pub name: String,
    pub provider: Option<String>,
    pub provider_name: Option<String>,
    pub base_url: Option<String>,
    pub api_key: String,
    pub model: Option<String>,
}

/// The models of one provider.
#[derive(Debug, PartialEq, Eq)]
pub struct ProviderGroup {
    pub name: String,
    pub display_name: String,
    pub models: Vec<ProviderModel>,
}

/// The models configuration as a front end sees it.
#[derive(Debug, PartialEq, Eq)]
pub struct ProviderConfig {
    pub path: String,
    pub supported_providers: Vec<String>,
    pub providers: Vec<ProviderGroup>,
    pub models: Vec<ProviderModel>,
}

/// A model that is to be saved.
#[derive(Debug, PartialEq, Eq)]
pub struct ProviderModelInput {
    pub name: String,
    pub provider: Option<String>,
    pub base_url: Option<String>,
    pub api_key: String,
    pub model: Option<String>,
}

/// What a configured model holds.
pub struct ModelView {
    pub name: Seq<char>,
    pub provider: Option<Seq<char>>,
    pub provider_name: Option<Seq<char>>,
    pub base_url: Option<Seq<char>>,
    pub api_key: Seq<char>,
    pub model: Option<Seq<char>>,
}

impl View for ProviderModel {
    type V = ModelView;

    open spec fn view(&self) -> ModelView {
        ModelView {
            name: self.name@,
            provider: opt_str(self.provider),
            provider_name: opt_str(self.provider_name),
            base_url: opt_str(self.base_url),
            api_key: self.api_key@,
            model: opt_str(self.model),
        }
    }
}

/// What each model of a list holds.
pub open spec fn model_views(v: Seq<ProviderModel>) -> Seq<ModelView> {
    v.map_values(|m: ProviderModel| m@)
}

/// The names of the models of a list.
pub open spec fn model_names(v: Seq<ModelView>) -> Seq<Seq<char>> {
    v.map_values(|m: ModelView| m.name)
}

fn copy_model(m: &ProviderModel) -> (r: ProviderModel)
    ensures
        r@ == m@,
{
    ProviderModel {
        name: m.name.clone(),
        provider: m.provider.clone(),
        provider_name: m.provider_name.clone(),
        base_url: m.base_url.clone(),
        api_key: m.api_key.clone(),
        model: m.model.clone(),
    }
}

// ── Reading ─────────────────────────────────────────────────────────────────────────────────

/// The first of two optional values that is there.
pub open spec fn either<A>(a: Option<A>, b: Option<A>) -> Option<A> {
    match a {
        Some(x) => Some(x),
        None => b,
    }
}

/// An optional value, or the given one.
pub open spec fn value_or<A>(a: Option<A>, b: A) -> A {
    match a {
        Some(x) => x,
        None => b,
    }
}

/// The model that one item of a provider's list describes, where it has an identifier.
pub open spec fn listed_model(
    id: Seq<char>,
    entry: Seq<(YamlView, YamlView)>,
    item: YamlView,
) -> Option<ModelView> {
    match item.entries() {
        Some(e) => match string_field(e, "id"@) {
            Some(name) => Some(
                ModelView {
                    name,
                    provider: Some(id),
                    provider_name: Some(value_or(string_field(entry, "name"@), id)),
                    base_url: either(
                        string_field(entry, "baseUrl"@),
                        string_field(entry, "base_url"@),
                    ),
                    api_key: API_KEY_MASK@,
                    model: string_field(e, "name"@),
                },
            ),
            None => None,
        },
        None => None,
    }
}

/// The models that the items of a provider's list describe, in order.
pub open spec fn listed_models(
    id: Seq<char>,
    entry: Seq<(YamlView, YamlView)>,
    items: Seq<YamlView>,
) -> Seq<ModelView>
    decreases items.len(),
{
    if items.len() == 0 {
        Seq::empty()
    } else {
        let before = listed_models(id, entry, items.drop_last());
        match listed_model(id, entry, items.last()) {
            Some(m) => before.push(m),
            None => before,
        }
    }
}

/// The models of one provider entry.
pub open spec fn provider_models(k: YamlView, v: YamlView) -> Seq<ModelView> {
    match (k.text(), v.entries()) {
        (Some(id), Some(entry)) => match lookup(entry, key("models"@)) {
            Some(l) => match l.elements() {
                Some(items) => listed_models(id, entry, items),
                None => Seq::empty(),
            },
            None => Seq::empty(),
        },
        _ => Seq::empty(),
    }
}

/// The models of all provider entries, in order.
pub open spec fn all_models(m: Seq<(YamlView, YamlView)>) -> Seq<ModelView>
    decreases m.len(),
{
    if m.len() == 0 {
        Seq::empty()
    } else {
        all_models(m.drop_last()) + provider_models(m.last().0, m.last().1)
    }
}

/// The models that a configuration describes, in the order of the document.
pub open spec fn configured_models(root: YamlView) -> Seq<ModelView> {
    match root.entries() {
        Some(m) => match lookup(m, key("providers"@)) {
            Some(p) => match p.entries() {
                Some(e) => all_models(e),
                None => Seq::empty(),
            },
            None => Seq::empty(),
        },
        None => Seq::empty(),
    }
}

/// Whether `r` lists `all` by name, models of one name in their given order.
pub open spec fn by_name(r: Seq<ModelView>, all: Seq<ModelView>) -> bool {
    exists|p: Seq<int>| #[trigger]
        ranks_names(p, model_names(all)) && r =~= Seq::new(p.len(), |i: int| all[p[i]])
}

/// The group that a model belongs to.
pub open spec fn group_of(m: ModelView) -> Seq<char> {
    value_or(m.provider, "custom"@)
}

/// The models of the group `g`, in order.
pub open spec fn models_of(models: Seq<ModelView>, g: Seq<char>) -> Seq<ModelView> {
    models.filter(|m: ModelView| group_of(m) == g)
}

/// Whether `r` are the groups of `models`, by name, each with its models and the display name of
/// the first of them.
pub open spec fn grouped(r: Seq<ProviderGroup>, models: Seq<ModelView>) -> bool {
    &&& increasing(group_names(r))
    &&& forall|g: Seq<char>|
        group_names(r).contains(g) <==> exists|i: int|
            0 <= i < models.len() && group_of(#[trigger] models[i]) == g
    &&& forall|k: int| 0 <= k < r.len() ==> #[trigger] group_right(r[k], models)
}

/// The names of groups.
pub open spec fn group_names(r: Seq<ProviderGroup>) -> Seq<Seq<char>> {
    r.map_values(|g: ProviderGroup| g.name@)
}

/// Whether a group has the models with its name, and the display name of the first of them.
pub open spec fn group_right(g: ProviderGroup, models: Seq<ModelView>) -> bool {
    let own = models_of(models, g.name@);
    &&& model_views(g.models@) == own
    &&& own.len() > 0
    &&& g.display_name@ == value_or(own[0].provider_name, g.name@)
}

fn provider_models_of(k: &Yaml, v: &Yaml) -> (r: Vec<ProviderModel>)
    ensures
        model_views(r@) == provider_models(k@, v@),
{
    let mut out: Vec<ProviderModel> = Vec::new();
    assert(model_views(out@) == Seq::<ModelView>::empty());
    let id = match k.as_str() {
        Some(id) => id,
        None => {
            return out;
        },
    };
    let entry = match v.as_mapping() {
        Some(e) => e,
        None => {
            return out;
        },
    };
    let base_url = match get_string(entry, "baseUrl") {
        Some(u) => Some(u),
        None => get_string(entry, "base_url"),
    };
    let provider_name = match get_string(entry, "name") {
        Some(n) => n,
        None => id.to_owned(),
    };
    let items = match get(entry, "models") {
        Some(l) => match l.as_sequence() {
            Some(items) => items,
            None => {
                return out;
            },
        },
        None => {
            return out;
        },
    };
    let ghost all = list_view(items@);
    let ghost e = map_view(entry@);
    proof {
        lemma_list_view(items@);
        assert(all.take(0) == Seq::<YamlView>::empty());
    }
    let mut i: usize = 0;
    while i < items.len()
        invariant
            all == list_view(items@),
            all.len() == items.len(),
            forall|k: int| 0 <= k < items.len() ==> #[trigger] all[k] == items@[k]@,
            e == map_view(entry@),
            opt_str(base_url) == either(string_field(e, "baseUrl"@), string_field(e, "base_url"@)),
            provider_name@ == value_or(string_field(e, "name"@), id@),
            i <= items.len(),
            model_views(out@) == listed_models(id@, e, all.take(i as int)),
        decreases items.len() - i,
    {
        let ghost prev = out@;
        proof {
            let t = all.take(i + 1);
            assert(t.drop_last() == all.take(i as int));
            assert(t.last() == items@[i as int]@);
        }
        if let Some(m) = items[i].as_mapping() {
            if let Some(name) = get_string(m, "id") {
                let model = ProviderModel {
                    name,
                    provider: Some(id.to_owned()),
                    provider_name: Some(provider_name.clone()),
                    base_url: base_url.clone(),
                    api_key: API_KEY_MASK.to_owned(),
                    model: get_string(m, "name"),
                };
                assert(listed_model(id@, e, items@[i as int]@) == Some(model@));
                out.push(model);
                assert(model_views(out@) == model_views(prev).push(model@));
            }
        }
        i = i + 1;
    }
    assert(all.take(all.len() as int) == all);
    out
}

/// The models that a configuration describes, in the order of the document.
pub fn configured(root: &Yaml) -> (r: Vec<ProviderModel>)
    ensures
        model_views(r@) == configured_models(root@),
{
    let mut out: Vec<ProviderModel> = Vec::new();
    assert(model_views(out@) == Seq::<ModelView>::empty());
    let m = match root.as_mapping() {
        Some(m) => m,
        None => {
            return out;
        },
    };
    let entries = match get(m, "providers") {
        Some(p) => match p.as_mapping() {
            Some(e) => e,
            None => {
                return out;
            },
        },
        None => {
            return out;
        },
    };
    let ghost all = map_view(entries@);
    proof {
        lemma_map_view(entries@);
        assert(all.take(0) == Seq::<(YamlView, YamlView)>::empty());
    }
    let mut i: usize = 0;
    while i < entries.len()
        invariant
            all == map_view(entries@),
            all.len() == entries.len(),
            forall|k: int|
                0 <= k < entries.len() ==> #[trigger] all[k] == (entries@[k].0@, entries@[k].1@),
            i <= entries.len(),
            model_views(out@) == all_models(all.take(i as int)),
        decreases entries.len() - i,
    {
        let ghost prev = out@;
        proof {
            let t = all.take(i + 1);
            assert(t.drop_last() == all.take(i as int));
            assert(t.last() == all[i as int]);
        }
        let mut found = provider_models_of(&entries[i].0, &entries[i].1);
        let ghost part = found@;
        out.append(&mut found);
        assert(model_views(out@) == model_views(prev) + model_views(part));
        i = i + 1;
    }
    assert(all.take(all.len() as int) == all);
    out
}

/// The models by name, models of one name in their given order.
pub fn sort_models(models: &Vec<ProviderModel>) -> (r: Vec<ProviderModel>)
    ensures
        by_name(model_views(r@), model_views(models@)),
{
    let ghost all = model_views(models@);
    let mut names: Vec<String> = Vec::new();
    let mut i: usize = 0;
    while i < models.len()
        invariant
            all == model_views(models@),
            i <= models.len(),
            strs(names@) == model_names(all).take(i as int),
        decreases models.len() - i,
    {
        let ghost prev = names@;
        names.push(models[i].name.clone());
        assert(strs(names@) == strs(prev).push(all[i as int].name));
        i = i + 1;
    }
    assert(model_names(all).take(all.len() as int) == model_names(all));
    let order = rank_names(&names);
    let ghost p = order@.map_values(|i: usize| i as int);
    let mut out: Vec<ProviderModel> = Vec::new();
    let mut k: usize = 0;
    while k < order.len()
        invariant
            all == model_views(models@),
            p == order@.map_values(|i: usize| i as int),
            ranks_names(p, model_names(all)),
            k <= order.len(),
            out.len() == k,
            forall|j: int| 0 <= j < k ==> (#[trigger] out@[j])@ == all[p[j]],
        decreases order.len() - k,
    {
        assert(0 <= p[k as int] < all.len());
        out.push(copy_model(&models[order[k]]));
        k = k + 1;
    }
    assert(model_views(out@) =~= Seq::new(p.len(), |i: int| all[p[i]]));
    out
}

fn group_name(m: &ProviderModel) -> (r: String)
    ensures
        r@ == group_of(m@),
{
    match &m.provider {
        Some(p) => p.clone(),
        None => "custom".to_owned(),
    }
}

fn group_members(models: &Vec<ProviderModel>, g: &str) -> (r: Vec<ProviderModel>)
    ensures
        model_views(r@) == models_of(model_views(models@), g@),
{
    let ghost all = model_views(models@);
    let ghost pred = |m: ModelView| group_of(m) == g@;
    let mut out: Vec<ProviderModel> = Vec::new();
    let mut i: usize = 0;
    proof {
        reveal(Seq::filter);
        assert(all.take(0) == Seq::<ModelView>::empty());
        assert(model_views(out@) == Seq::<ModelView>::empty());
    }
    while i < models.len()
        invariant
            all == model_views(models@),
            pred == (|m: ModelView| group_of(m) == g@),
            i <= models.len(),
            model_views(out@) == all.take(i as int).filter(pred),
        decreases models.len() - i,
    {
        let ghost prev = out@;
        proof {
            reveal(Seq::filter);
            let t = all.take(i + 1);
            assert(t.drop_last() == all.take(i as int));
            assert(t.last() == models@[i as int]@);
        }
        let name = group_name(&models[i]);
        if same(name.as_str(), g) {
            out.push(copy_model(&models[i]));
            assert(model_views(out@) == model_views(prev).push(models@[i as int]@));
        }
        i = i + 1;
    }
    assert(all.take(all.len() as int) == all);
    out
}

/// The models by provider.
pub fn group_models(models: &Vec<ProviderModel>) -> (r: Vec<ProviderGroup>)
    ensures
        grouped(r@, model_views(models@)),
{
    let ghost all = model_views(models@);
    let mut seen: Table<()> = Table::new();
    let mut i: usize = 0;
    while i < models.len()
        invariant
            all == model_views(models@),
            i <= models.len(),
            forall|g: Seq<char>| #[trigger]
                seen@.contains_key(g) <==> exists|j: int|
                    0 <= j < i && group_of(#[trigger] all[j]) == g,
        decreases models.len() - i,
    {
        let ghost before = seen@;
        let name = group_name(&models[i]);
        let ghost n = name@;
        seen.insert(name, ());
        proof {
            assert(group_of(all[i as int]) == n);
            assert forall|g: Seq<char>| #[trigger]
                seen@.contains_key(g) <==> exists|j: int|
                    0 <= j < i + 1 && group_of(#[trigger] all[j]) == g by {
                if before.contains_key(g) {
                    let j = choose|j: int| 0 <= j < i && group_of(#[trigger] all[j]) == g;
                    assert(group_of(all[j]) == g);
                }
                if exists|j: int| 0 <= j < i + 1 && group_of(#[trigger] all[j]) == g {
                    let j = choose|j: int| 0 <= j < i + 1 && group_of(#[trigger] all[j]) == g;
                    if j < i {
                        assert(before.contains_key(g));
                    }
                }
            }
        }
        i = i + 1;
    }
    let names = seen.sorted_keys();
    let mut out: Vec<ProviderGroup> = Vec::new();
    let mut k: usize = 0;
    while k < names.len()
        invariant
            all == model_views(models@),
            strs(names@).to_set() == seen@.dom(),
            forall|g: Seq<char>| #[trigger]
                seen@.contains_key(g) <==> exists|j: int|
                    0 <= j < all.len() && group_of(#[trigger] all[j]) == g,
            k <= names.len(),
            out.len() == k,
            group_names(out@) == strs(names@).take(k as int),
            forall|j: int| 0 <= j < k ==> #[trigger] group_right(out@[j], all),
        decreases names.len() - k,
    {
        let ghost prev = out@;
        let ghost g = names@[k as int]@;
        let members = group_members(models, names[k].as_str());
        proof {
            assert(strs(names@)[k as int] == g);
            assert(strs(names@).to_set().contains(g));
            assert(seen@.contains_key(g));
            let j = choose|j: int| 0 <= j < all.len() && group_of(#[trigger] all[j]) == g;
            let pred = |m: ModelView| group_of(m) == g;
            assert(pred(all[j]));
            all.lemma_filter_contains(pred, j);
            assert(models_of(all, g).contains(all[j]));
        }
        let display_name = match &members[0].provider_name {
            Some(n) => n.clone(),
            None => names[k].clone(),
        };
        assert(members@[0]@ == models_of(all, g)[0]);
        let group = ProviderGroup { name: names[k].clone(), display_name, models: members };
        assert(group_right(group, all));
        out.push(group);
        assert(group_names(out@) == group_names(prev).push(g));
        k = k + 1;
    }
    proof {
        assert(strs(names@).take(names@.len() as int) == strs(names@));
        assert forall|g: Seq<char>|
            group_names(out@).contains(g) <==> exists|i: int|
                0 <= i < all.len() && group_of(#[trigger] all[i]) == g by {
            assert(strs(names@).to_set().contains(g) == seen@.contains_key(g));
        }
    }
    out
}

/// The key under which a provider is offered.
pub open spec fn canonical(provider: Seq<char>) -> Option<Seq<char>> {
    if provider == "openai"@ || provider == "anthropic"@ || provider == "deepseek"@ || provider
        == "ollama"@ {
        Some(provider)
    } else if provider == "dashscope"@ || provider == "qwen"@ || provider == "aliyun"@ {
        Some("dashscope"@)
    } else if provider == "moonshot"@ || provider == "kimi"@ {
        Some("moonshot"@)
    } else if provider == "zhipu"@ || provider == "glm"@ {
        Some("zhipu"@)
    } else if provider == "gemini"@ || provider == "google"@ {
        Some("gemini"@)
    } else if provider == "azure"@ || provider == "azure_openai"@ {
        Some("azure_openai"@)
    } else {
        None
    }
}

/// The key under which a provider is offered.
pub fn canonical_provider_key(provider: &str) -> (r: Option<String>)
    ensures
        opt_str(r) == canonical(provider@),
{
    if same(provider, "openai") || same(provider, "anthropic") || same(provider, "deepseek")
        || same(provider, "ollama") {
        Some(provider.to_owned())
    } else if same(provider, "dashscope") || same(provider, "qwen") || same(provider, "aliyun") {
        Some("dashscope".to_owned())
    } else if same(provider, "moonshot") || same(provider, "kimi") {
        Some("moonshot".to_owned())
    } else if same(provider, "zhipu") || same(provider, "glm") {
        Some("zhipu".to_owned())
    } else if same(provider, "gemini") || same(provider, "google") {
        Some("gemini".to_owned())
    } else if same(provider, "azure") || same(provider, "azure_openai") {
        Some("azure_openai".to_owned())
    } else {
        None
    }
}

/// Whether a provider key is offered for the given supported providers.
pub open spec fn offered(supported: Seq<Seq<char>>, k: Seq<char>) -> bool {
    k == "custom"@ || exists|i: int|
        0 <= i < supported.len() && canonical(#[trigger] supported[i]) == Some(k)
}

/// The provider keys on offer, each once, in increasing order.
pub fn supported_provider_names(supported: &Vec<String>) -> (r: Vec<String>)
    ensures
        increasing(strs(r@)),
        forall|k: Seq<char>| #[trigger] strs(r@).to_set().contains(k) <==> offered(
            strs(supported@),
            k,
        ),
{
    let ghost all = strs(supported@);
    let mut seen: Table<()> = Table::new();
    seen.insert("custom".to_owned(), ());
    let mut i: usize = 0;
    while i < supported.len()
        invariant
            all == strs(supported@),
            i <= supported.len(),
            forall|k: Seq<char>| #[trigger]
                seen@.contains_key(k) <==> offered(all.take(i as int), k),
        decreases supported.len() - i,
    {
        let ghost before = seen@;
        let c = canonical_provider_key(supported[i].as_str());
        let ghost cv = opt_str(c);
        if let Some(k) = c {
            seen.insert(k, ());
        }
        proof {
            let t = all.take(i + 1);
            assert(t[i as int] == all[i as int]);
            assert(canonical(t[i as int]) == cv);
            assert forall|k: Seq<char>| #[trigger] seen@.contains_key(k) <==> offered(t, k) by {
                if before.contains_key(k) && k != "custom"@ {
                    let j = choose|j: int|
                        0 <= j < all.take(i as int).len() && canonical(
                            #[trigger] all.take(i as int)[j],
                        ) == Some(k);
                    assert(t[j] == all.take(i as int)[j]);
                }
                if offered(t, k) && k != "custom"@ {
                    let j = choose|j: int|
                        0 <= j < t.len() && canonical(#[trigger] t[j]) == Some(k);
                    if j < i {
                        assert(all.take(i as int)[j] == t[j]);
                        assert(before.contains_key(k));
                    }
                }
            }
        }
        i = i + 1;
    }
    let r = seen.sorted_keys();
    proof {
        assert(all.take(all.len() as int) == all);
        assert forall|k: Seq<char>| #[trigger] strs(r@).to_set().contains(k) <==> offered(
            all,
            k,
        ) by {
            assert(strs(r@).to_set().contains(k) == seen@.contains_key(k));
        }
    }
    r
}

/// The configuration that a document describes.
pub fn provider_config(path: &str, root: &Yaml, supported: &Vec<String>) -> (r: ProviderConfig)
    ensures
        r.path@ == path@,
        by_name(model_views(r.models@), configured_models(root@)),
        grouped(r.providers@, model_views(r.models@)),
        increasing(strs(r.supported_providers@)),
        forall|k: Seq<char>| #[trigger]
            strs(r.supported_providers@).to_set().contains(k) <==> offered(strs(supported@), k),
{
    let found = configured(root);
    let models = sort_models(&found);
    let providers = group_models(&models);
    ProviderConfig {
        path: path.to_owned(),
        supported_providers: supported_provider_names(supported),
        providers,
        models,
    }
}

// ── Saving ──────────────────────────────────────────────────────────────────────────────────

/// What a model that is to be saved holds.
pub struct InputView {
    pub name: Seq<char>,
    pub provider: Option<Seq<char>>,
    pub base_url: Option<Seq<char>>,
    pub api_key: Seq<char>,
    pub model: Option<Seq<char>>,
}

impl View for ProviderModelInput {
    type V = InputView;

    open spec fn view(&self) -> InputView {
        InputView {
            name: self.name@,
            provider: opt_str(self.provider),
            base_url: opt_str(self.base_url),
            api_key: self.api_key@,
            model: opt_str(self.model),
        }
    }
}

/// An optional text without surrounding white space, where something is left of it.
pub open spec fn nonblank(s: Option<Seq<char>>) -> Option<Seq<char>> {
    match s {
        Some(t) => if trim(t).len() > 0 {
            Some(trim(t))
        } else {
            None
        },
        None => None,
    }
}

/// The base URL of an endpoint: without trailing slashes and the path of the chat operation.
pub open spec fn base_of_endpoint(endpoint: Seq<char>) -> Seq<char> {
    let s = strip_trailing(endpoint, '/');
    if "/chat/completions"@.is_suffix_of(s) {
        s.take(s.len() - "/chat/completions"@.len())
    } else {
        s
    }
}

/// The provider under which a model is saved.
pub open spec fn saved_provider(input: InputView) -> Seq<char> {
    value_or(nonblank(input.provider), "custom"@)
}

/// The base URL that is saved: the given one, or that of the provider's endpoint.
pub open spec fn saved_base_url(input: InputView, endpoint: Option<Seq<char>>) -> Option<
    Seq<char>,
> {
    match nonblank(input.base_url) {
        Some(u) => Some(u),
        None => match endpoint {
            Some(e) => Some(base_of_endpoint(e)),
            None => None,
        },
    }
}

/// The API key that a provider entry holds.
pub open spec fn stored_key(entry: Option<YamlView>) -> Option<Seq<char>> {
    match entry {
        Some(v) => match v.entries() {
            Some(e) => either(string_field(e, "apiKey"@), string_field(e, "api_key"@)),
            None => None,
        },
        None => None,
    }
}

/// The API key that is saved: the given one, or the stored one where the mask was given.
pub open spec fn saved_key(input: InputView, entry: Option<YamlView>) -> Option<Seq<char>> {
    let requested = trim(input.api_key);
    if requested == API_KEY_MASK@ {
        stored_key(entry)
    } else if requested.len() == 0 {
        None
    } else {
        Some(requested)
    }
}

/// The entry of a provider that was not there before.
pub open spec fn new_entry(provider: Seq<char>, base_url: Seq<char>, api_key: Seq<char>) -> Seq<
    (YamlView, YamlView),
> {
    seq![
        (key("name"@), YamlView::Str(provider)),
        (key("baseUrl"@), YamlView::Str(base_url)),
        (key("apiKey"@), YamlView::Str(api_key)),
        (key("api"@), YamlView::Str("openai-completions"@)),
        (key("auth"@), YamlView::Str("apiKey"@)),
        (key("models"@), YamlView::List(Seq::empty())),
    ]
}

/// The entries with one added where its key is missing.
pub open spec fn put_if_missing(
    m: Seq<(YamlView, YamlView)>,
    k: YamlView,
    v: YamlView,
) -> Seq<(YamlView, YamlView)> {
    match lookup(m, k) {
        Some(_) => m,
        None => put(m, k, v),
    }
}

/// A provider's entries with the connection settings filled in.
pub open spec fn connected(
    e: Seq<(YamlView, YamlView)>,
    base_url: Seq<char>,
    api_key: Seq<char>,
) -> Seq<(YamlView, YamlView)> {
    let a = put(e, key("baseUrl"@), YamlView::Str(base_url));
    let b = put(a, key("apiKey"@), YamlView::Str(api_key));
    let c = put_if_missing(b, key("api"@), YamlView::Str("openai-completions"@));
    let d = put_if_missing(c, key("auth"@), YamlView::Str("apiKey"@));
    put_if_missing(d, key("models"@), YamlView::List(Seq::empty()))
}

/// Whether an item of a model list has the identifier `name`.
pub open spec fn has_id(item: YamlView, name: Seq<char>) -> bool {
    match item.entries() {
        Some(e) => string_field(e, "id"@) == Some(name),
        None => false,
    }
}

/// A model list without the items named `name`, and with a new one at the end.
pub open spec fn relisted(items: Seq<YamlView>, name: Seq<char>, model: Seq<char>) -> Seq<
    YamlView,
> {
    items.filter(|item: YamlView| !has_id(item, name)).push(model_item(name, model))
}

/// The item of a model list for the model `name`.
pub open spec fn model_item(name: Seq<char>, model: Seq<char>) -> YamlView {
    YamlView::Mapping(
        seq![(key("id"@), YamlView::Str(name)), (key("name"@), YamlView::Str(model))],
    )
}

/// A provider's value after saving a model, or the message with which saving fails.
pub open spec fn saved_entry(
    v: YamlView,
    base_url: Seq<char>,
    api_key: Seq<char>,
    name: Seq<char>,
    model: Seq<char>,
) -> Result<YamlView, Seq<char>> {
    match v.entries() {
        None => Err("provider 必须是 YAML map"@),
        Some(e) => {
            let c = connected(e, base_url, api_key);
            match lookup(c, key("models"@)) {
                Some(l) => match l.elements() {
                    Some(items) => Ok(
                        v.retagged(
                            YamlView::Mapping(
                                put(
                                    c,
                                    key("models"@),
                                    l.retagged(YamlView::List(relisted(items, name, model))),
                                ),
                            ),
                        ),
                    ),
                    None => Err("provider.models 必须是 YAML list"@),
                },
                None => Err("provider.models 必须是 YAML list"@),
            }
        },
    }
}

/// The root of a document, or an empty mapping where it is none.
pub open spec fn root_mapping(root: YamlView) -> YamlView {
    match root.entries() {
        Some(_) => root,
        None => YamlView::Mapping(Seq::empty()),
    }
}

/// The entries of the root, with one for the providers.
pub open spec fn root_entries(root: YamlView) -> Seq<(YamlView, YamlView)> {
    put_if_missing(
        root_mapping(root).entries()->0,
        key("providers"@),
        YamlView::Mapping(Seq::empty()),
    )
}

/// The value under which the providers stand.
pub open spec fn providers_value(root: YamlView) -> YamlView {
    lookup(root_entries(root), key("providers"@))->0
}

/// The document after saving a model, or the message with which saving fails.
pub open spec fn saved_document(
    root: YamlView,
    input: InputView,
    base_url: Seq<char>,
) -> Result<YamlView, Seq<char>> {
    let provider = saved_provider(input);
    let name = trim(input.name);
    match providers_value(root).entries() {
        None => Err("providers 必须是 YAML map"@),
        Some(pm) => {
            let found = lookup(pm, key(provider));
            match saved_key(input, found) {
                None => Err("api_key 不能为空"@),
                Some(api_key) => {
                    let entry = value_or(
                        found,
                        YamlView::Mapping(new_entry(provider, base_url, api_key)),
                    );
                    match saved_entry(
                        entry,
                        base_url,
                        api_key,
                        name,
                        value_or(nonblank(input.model), name),
                    ) {
                        Err(e) => Err(e),
                        Ok(v) => Ok(
                            root_mapping(root).retagged(
                                YamlView::Mapping(
                                    put(
                                        root_entries(root),
                                        key("providers"@),
                                        providers_value(root).retagged(
                                            YamlView::Mapping(put(pm, key(provider), v)),
                                        ),
                                    ),
                                ),
                            ),
                        ),
                    }
                },
            }
        },
    }
}

/// What stands in the way of saving before the document is looked at.
pub open spec fn input_fault(input: InputView, endpoint: Option<Seq<char>>) -> Option<Seq<char>> {
    if trim(input.name).len() == 0 {
        Some("model key 不能为空"@)
    } else if saved_base_url(input, endpoint) is None {
        Some("请选择 provider 或填写 base_url"@)
    } else {
        None
    }
}

fn nonblank_of(s: &Option<String>) -> (r: Option<String>)
    ensures
        opt_str(r) == nonblank(opt_str(*s)),
{
    match s {
        Some(t) => {
            let u = trimmed(t.as_str());
            if u.as_str().is_empty() {
                None
            } else {
                Some(u)
            }
        },
        None => None,
    }
}

/// The base URL of an endpoint.
pub fn provider_base_from_endpoint(endpoint: &str) -> (r: String)
    ensures
        r@ == base_of_endpoint(endpoint@),
{
    let s = without_trailing(endpoint, '/');
    if ends_with(s.as_str(), "/chat/completions") {
        let v = chars_of(s.as_str());
        let n: usize = chars_of("/chat/completions").len();
        string_of(&v, 0, v.len() - n)
    } else {
        s
    }
}

/// The provider under which a model would be saved.
pub fn requested_provider(input: &ProviderModelInput) -> (r: String)
    ensures
        r@ == saved_provider(input@),
{
    match nonblank_of(&input.provider) {
        Some(p) => p,
        None => "custom".to_owned(),
    }
}

fn stored_key_of(entry: Option<&Yaml>) -> (r: Option<String>)
    ensures
        opt_str(r) == stored_key(
            match entry {
                Some(v) => Some(v@),
                None => None,
            },
        ),
{
    match entry {
        Some(v) => match v.as_mapping() {
            Some(e) => match get_string(e, "apiKey") {
                Some(k) => Some(k),
                None => get_string(e, "api_key"),
            },
            None => None,
        },
        None => None,
    }
}

fn text_value(s: &str) -> (r: Yaml)
    ensures
        r@ == YamlView::Str(s@),
        valid(r@),
{
    Yaml::Str(s.to_owned())
}

fn text_entry(k: &str, v: &str) -> (r: (Yaml, Yaml))
    ensures
        r.0@ == key(k@),
        r.1@ == YamlView::Str(v@),
{
    (text_value(k), text_value(v))
}

fn new_entry_of(provider: &str, base_url: &str, api_key: &str) -> (r: Vec<(Yaml, Yaml)>)
    ensures
        map_view(r@) == new_entry(provider@, base_url@, api_key@),
{
    let empty: Vec<Yaml> = Vec::new();
    assert(list_view(empty@) == Seq::<YamlView>::empty());
    let mut r: Vec<(Yaml, Yaml)> = Vec::new();
    r.push(text_entry("name", provider));
    r.push(text_entry("baseUrl", base_url));
    r.push(text_entry("apiKey", api_key));
    r.push(text_entry("api", "openai-completions"));
    r.push(text_entry("auth", "apiKey"));
    r.push((text_value("models"), Yaml::List(empty)));
    proof {
        lemma_map_view(r@);
        assert(map_view(r@) =~= new_entry(provider@, base_url@, api_key@));
    }
    r
}

fn relist(items: &Vec<Yaml>, name: &str, model: &str) -> (r: Vec<Yaml>)
    ensures
        list_view(r@) == relisted(list_view(items@), name@, model@),
{
    let ghost all = list_view(items@);
    let ghost pred = |item: YamlView| !has_id(item, name@);
    let mut out: Vec<Yaml> = Vec::new();
    proof {
        lemma_list_view(items@);
        reveal(Seq::filter);
        assert(all.take(0) == Seq::<YamlView>::empty());
    }
    let mut i: usize = 0;
    while i < items.len()
        invariant
            all == list_view(items@),
            all.len() == items.len(),
            forall|k: int| 0 <= k < items.len() ==> #[trigger] all[k] == items@[k]@,
            pred == (|item: YamlView| !has_id(item, name@)),
            i <= items.len(),
            list_view(out@) == all.take(i as int).filter(pred),
        decreases items.len() - i,
    {
        let ghost prev = out@;
        proof {
            reveal(Seq::filter);
            let t = all.take(i + 1);
            assert(t.drop_last() == all.take(i as int));
            assert(t.last() == items@[i as int]@);
        }
        let taken = match items[i].as_mapping() {
            Some(e) => match get_string(e, "id") {
                Some(id) => same(id.as_str(), name),
                None => false,
            },
            None => false,
        };
        assert(taken == has_id(items@[i as int]@, name@));
        if !taken {
            out.push(items[i].copy());
            assert(out@.drop_last() == prev);
        }
        i = i + 1;
    }
    assert(all.take(all.len() as int) == all);
    let mut entry: Vec<(Yaml, Yaml)> = Vec::new();
    entry.push(text_entry("id", name));
    entry.push(text_entry("name", model));
    proof {
        lemma_map_view(entry@);
        assert(map_view(entry@) =~= seq![
            (key("id"@), YamlView::Str(name@)),
            (key("name"@), YamlView::Str(model@)),
        ]);
    }
    let ghost prev = out@;
    let item = Yaml::Mapping(entry);
    assert(item@ == model_item(name@, model@));
    out.push(item);
    proof {
        assert(out@.drop_last() == prev);
        assert(list_view(out@) == list_view(prev).push(model_item(name@, model@)));
    }
    out
}

fn save_entry(v: &Yaml, base_url: &str, api_key: &str, name: &str, model: &str) -> (r: Result<
    Yaml,
    String,
>)
    ensures
        match r {
            Ok(y) => saved_entry(v@, base_url@, api_key@, name@, model@) == Ok::<
                YamlView,
                Seq<char>,
            >(y@),
            Err(e) => saved_entry(v@, base_url@, api_key@, name@, model@) == Err::<
                YamlView,
                Seq<char>,
            >(e@),
        },
{
    let mut e = match v.as_mapping() {
        Some(m) => copy_map(m),
        None => {
            return Err("provider 必须是 YAML map".to_owned());
        },
    };
    let empty: Vec<Yaml> = Vec::new();
    assert(list_view(empty@) == Seq::<YamlView>::empty());
    set_entry(&mut e, "baseUrl", text_value(base_url));
    set_entry(&mut e, "apiKey", text_value(api_key));
    set_entry_if_missing(&mut e, "api", text_value("openai-completions"));
    set_entry_if_missing(&mut e, "auth", text_value("apiKey"));
    set_entry_if_missing(&mut e, "models", Yaml::List(empty));
    let models = match get(&e, "models") {
        Some(l) => match l.as_sequence() {
            Some(items) => retag(l, Yaml::List(relist(items, name, model))),
            None => {
                return Err("provider.models 必须是 YAML list".to_owned());
            },
        },
        None => {
            return Err("provider.models 必须是 YAML list".to_owned());
        },
    };
    set_entry(&mut e, "models", models);
    Ok(retag(v, Yaml::Mapping(e)))
}

/// The document after saving a model under the given base URL.
pub fn save_document(root: &Yaml, input: &ProviderModelInput, base_url: &str) -> (r: Result<
    Yaml,
    String,
>)
    ensures
        match r {
            Ok(y) => saved_document(root@, input@, base_url@) == Ok::<YamlView, Seq<char>>(y@),
            Err(e) => saved_document(root@, input@, base_url@) == Err::<YamlView, Seq<char>>(e@),
        },
{
    let empty: Vec<(Yaml, Yaml)> = Vec::new();
    assert(map_view(empty@) == Seq::<(YamlView, YamlView)>::empty());
    let name = trimmed(input.name.as_str());
    let provider = requested_provider(input);
    let model = match nonblank_of(&input.model) {
        Some(m) => m,
        None => name.clone(),
    };
    let mut entries = match root.as_mapping() {
        Some(m) => copy_map(m),
        None => Vec::new(),
    };
    set_entry_if_missing(&mut entries, "providers", Yaml::Mapping(empty));
    let ghost rm = map_view(entries@);
    assert(rm == root_entries(root@));
    proof {
        lemma_put_lookup(
            root_mapping(root@).entries()->0,
            key("providers"@),
            YamlView::Mapping(Seq::empty()),
            key("providers"@),
        );
    }
    let providers = match get(&entries, "providers") {
        Some(p) => p,
        None => {
            assert(false);
            return Err(String::new());
        },
    };
    assert(providers@ == providers_value(root@));
    let mut pm = match providers.as_mapping() {
        Some(m) => copy_map(m),
        None => {
            return Err("providers 必须是 YAML map".to_owned());
        },
    };
    let ghost pm0 = map_view(pm@);
    let found = get(&pm, provider.as_str());
    let requested = trimmed(input.api_key.as_str());
    let api_key = if same(requested.as_str(), API_KEY_MASK) {
        match stored_key_of(found) {
            Some(k) => k,
            None => {
                return Err("api_key 不能为空".to_owned());
            },
        }
    } else if requested.as_str().is_empty() {
        return Err("api_key 不能为空".to_owned());
    } else {
        requested
    };
    let saved = match found {
        Some(v) => save_entry(v, base_url, api_key.as_str(), name.as_str(), model.as_str()),
        None => {
            let fresh = Yaml::Mapping(new_entry_of(provider.as_str(), base_url, api_key.as_str()));
            save_entry(&fresh, base_url, api_key.as_str(), name.as_str(), model.as_str())
        },
    };
    match saved {
        Err(e) => Err(e),
        Ok(v) => {
            set_entry(&mut pm, provider.as_str(), v);
            let p = retag(providers, Yaml::Mapping(pm));
            set_entry(&mut entries, "providers", p);
            match root.as_mapping() {
                Some(_) => Ok(retag(root, Yaml::Mapping(entries))),
                None => Ok(Yaml::Mapping(entries)),
            }
        },
    }
}

/// The document in a file: an empty mapping where there is no file or nothing in it.
pub open spec fn file_document(content: Option<Seq<char>>) -> Result<YamlView, Seq<char>> {
    match content {
        None => Ok(YamlView::Mapping(Seq::empty())),
        Some(t) => if trim(t).len() == 0 {
            Ok(YamlView::Mapping(Seq::empty()))
        } else {
            yaml::yaml_document(t)
        },
    }
}

/// The document in a file, given its content where there is a file.
pub fn read_yaml_root(content: Option<&str>) -> (r: Result<Yaml, AppError>)
    ensures
        ({
            let doc = file_document(
                match content {
                    Some(t) => Some(t@),
                    None => None,
                },
            );
            match r {
                Ok(y) => doc == Ok::<YamlView, Seq<char>>(y@) && valid(y@),
                Err(e) => doc is Err && (e matches AppError::Config(m) && m@
                    == "解析模型配置失败: "@ + doc->Err_0),
            }
        }),
{
    let empty: Vec<(Yaml, Yaml)> = Vec::new();
    assert(map_view(empty@) == Seq::<(YamlView, YamlView)>::empty());
    match content {
        None => Ok(Yaml::Mapping(empty)),
        Some(t) => {
            let u = trimmed(t);
            if u.as_str().is_empty() {
                Ok(Yaml::Mapping(empty))
            } else {
                match yaml::parse(t) {
                    Ok(y) => Ok(y),
                    Err(e) => {
                        let mut m = "解析模型配置失败: ".to_owned();
                        m.push_str(e.as_str());
                        Err(AppError::Config(m))
                    },
                }
            }
        },
    }
}

/// The configuration in a file, given its content where there is a file.
pub fn read_provider_config(path: &str, content: Option<&str>, supported: &Vec<String>) -> (r: Result<
    ProviderConfig,
    AppError,
>)
    ensures
        ({
            let doc = file_document(
                match content {
                    Some(t) => Some(t@),
                    None => None,
                },
            );
            match r {
                Ok(c) => {
                    &&& doc is Ok
                    &&& c.path@ == path@
                    &&& by_name(model_views(c.models@), configured_models(doc->Ok_0))
                    &&& grouped(c.providers@, model_views(c.models@))
                    &&& increasing(strs(c.supported_providers@))
                    &&& forall|k: Seq<char>| #[trigger]
                        strs(c.supported_providers@).to_set().contains(k) <==> offered(
                            strs(supported@),
                            k,
                        )
                },
                Err(e) => doc is Err && (e matches AppError::Config(m) && m@
                    == "解析模型配置失败: "@ + doc->Err_0),
            }
        }),
{
    match read_yaml_root(content) {
        Ok(root) => Ok(provider_config(path, &root, supported)),
        Err(e) => Err(e),
    }
}

/// What a file holds after saving a model, or the message of the error with which saving fails.
pub open spec fn saved_text(
    content: Option<Seq<char>>,
    input: InputView,
    endpoint: Option<Seq<char>>,
) -> Result<Seq<char>, Seq<char>> {
    match input_fault(input, endpoint) {
        Some(e) => Err(e),
        None => match file_document(content) {
            Err(e) => Err("解析模型配置失败: "@ + e),
            Ok(root) => match saved_document(root, input, saved_base_url(input, endpoint)->0) {
                Err(e) => Err(e),
                Ok(v) => match yaml::yaml_text(v) {
                    Ok(t) => Ok(t),
                    Err(e) => Err("序列化模型配置失败: "@ + e),
                },
            },
        },
    }
}

/// The new content of the configuration file after saving a model, given the old content where
/// there is a file, and the endpoint of the requested provider where it is known.
pub fn save_model(content: Option<&str>, input: &ProviderModelInput, endpoint: Option<&str>) -> (r:
    Result<String, AppError>)
    ensures
        ({
            let c = match content {
                Some(t) => Some(t@),
                None => None,
            };
            let e = match endpoint {
                Some(t) => Some(t@),
                None => None,
            };
            match r {
                Ok(t) => saved_text(c, input@, e) == Ok::<Seq<char>, Seq<char>>(t@),
                Err(err) => err matches AppError::Config(m) && saved_text(c, input@, e) == Err::<
                    Seq<char>,
                    Seq<char>,
                >(m@),
            }
        }),
{
    let name = trimmed(input.name.as_str());
    if name.as_str().is_empty() {
        return Err(AppError::Config("model key 不能为空".to_owned()));
    }
    let base_url = match nonblank_of(&input.base_url) {
        Some(u) => u,
        None => match endpoint {
            Some(e) => provider_base_from_endpoint(e),
            None => {
                return Err(AppError::Config("请选择 provider 或填写 base_url".to_owned()));
            },
        },
    };
    let root = match read_yaml_root(content) {
        Ok(y) => y,
        Err(e) => {
            return Err(e);
        },
    };
    match save_document(&root, input, base_url.as_str()) {
        Err(e) => Err(AppError::Config(e)),
        Ok(y) => {
            proof {
                lemma_saved_valid(root@, input@, base_url@);
            }
            match yaml::print(&y) {
                Ok(t) => Ok(t),
                Err(e) => {
                    let mut m = "序列化模型配置失败: ".to_owned();
                    m.push_str(e.as_str());
                    Err(AppError::Config(m))
                },
            }
        },
    }
}

// ── Validity and laws ───────────────────────────────────────────────────────────────────────

proof fn lemma_map_parts(m: Seq<(YamlView, YamlView)>)
    requires
        valid(YamlView::Mapping(m)),
    ensures
        forall|i: int| 0 <= i < m.len() ==> valid((#[trigger] m[i]).0) && valid(m[i].1),
{
    assert(forall|i: int|
        #![trigger m[i]]
        0 <= i < m.len() ==> valid(m[i].0) && valid(m[i].1));
}

proof fn lemma_new_entry_valid(provider: Seq<char>, base_url: Seq<char>, api_key: Seq<char>)
    ensures
        valid(YamlView::Mapping(new_entry(provider, base_url, api_key))),
{
    reveal_strlit("name");
    reveal_strlit("baseUrl");
    reveal_strlit("apiKey");
    reveal_strlit("api");
    reveal_strlit("auth");
    reveal_strlit("models");
    let m = new_entry(provider, base_url, api_key);
    assert(valid(YamlView::List(Seq::<YamlView>::empty())));
    assert forall|i: int| 0 <= i < m.len() implies valid((#[trigger] m[i]).0) && valid(m[i].1) by {
        assert(m[i].0 is Str);
        assert(m[i].1 is Str || m[i].1 == YamlView::List(Seq::empty()));
    }
    assert("name"@[0] != "baseUrl"@[0]);
    assert("name"@[0] != "apiKey"@[0]);
    assert("api"@.len() == 3 && "apiKey"@.len() == 6 && "auth"@.len() == 4 && "name"@.len() == 4);
    assert("auth"@[1] != "name"@[1]);
    assert("models"@[0] != "apiKey"@[0]);
    assert("baseUrl"@.len() == 7 && "models"@.len() == 6);
    assert(yaml::keys_differ(m));
}

proof fn lemma_put_if_missing_valid(m: Seq<(YamlView, YamlView)>, k: YamlView, v: YamlView)
    requires
        valid(YamlView::Mapping(m)),
        k is Str,
        valid(v),
    ensures
        valid(YamlView::Mapping(put_if_missing(m, k, v))),
{
    lemma_put_valid(m, k, v);
}

proof fn lemma_relisted_valid(items: Seq<YamlView>, name: Seq<char>, model: Seq<char>)
    requires
        valid(YamlView::List(items)),
    ensures
        valid(YamlView::List(relisted(items, name, model))),
{
    let pred = |item: YamlView| !has_id(item, name);
    let kept = items.filter(pred);
    let m = seq![(key("id"@), YamlView::Str(name)), (key("name"@), YamlView::Str(model))];
    reveal_strlit("id");
    reveal_strlit("name");
    assert("id"@.len() == 2 && "name"@.len() == 4);
    assert(m[0].0 != m[1].0);
    assert forall|i: int| 0 <= i < m.len() implies valid((#[trigger] m[i]).0) && valid(m[i].1) by {
        assert(m[i].0 is Str && m[i].1 is Str);
    }
    assert(yaml::keys_differ(m));
    assert(valid(YamlView::Mapping(m)));
    let l = relisted(items, name, model);
    assert forall|i: int| 0 <= i < l.len() implies valid(#[trigger] l[i]) by {
        if i < kept.len() {
            assert(kept[i] == l[i]);
            assert(kept.contains(kept[i]));
            items.lemma_filter_contains_rev(pred, kept[i]);
            let j = choose|j: int| 0 <= j < items.len() && items[j] == kept[i];
            yaml::lemma_element_valid(items, j);
        }
    }
}

proof fn lemma_entry_valid(
    v: YamlView,
    base_url: Seq<char>,
    api_key: Seq<char>,
    name: Seq<char>,
    model: Seq<char>,
)
    requires
        valid(v),
    ensures
        saved_entry(v, base_url, api_key, name, model) matches Ok(w) ==> valid(w),
{
    lemma_untagged_valid(v, v);
    if let Some(e) = v.entries() {
        assert(v.untagged() == YamlView::Mapping(e));
        let a = put(e, key("baseUrl"@), YamlView::Str(base_url));
        lemma_put_valid(e, key("baseUrl"@), YamlView::Str(base_url));
        let b = put(a, key("apiKey"@), YamlView::Str(api_key));
        lemma_put_valid(a, key("apiKey"@), YamlView::Str(api_key));
        let c = put_if_missing(b, key("api"@), YamlView::Str("openai-completions"@));
        lemma_put_if_missing_valid(b, key("api"@), YamlView::Str("openai-completions"@));
        let d = put_if_missing(c, key("auth"@), YamlView::Str("apiKey"@));
        lemma_put_if_missing_valid(c, key("auth"@), YamlView::Str("apiKey"@));
        assert(valid(YamlView::List(Seq::<YamlView>::empty())));
        lemma_put_if_missing_valid(d, key("models"@), YamlView::List(Seq::empty()));
        let f = connected(e, base_url, api_key);
        lemma_map_parts(f);
        lemma_lookup_valid(f, key("models"@));
        if let Some(l) = lookup(f, key("models"@)) {
            if let Some(items) = l.elements() {
                lemma_untagged_valid(l, YamlView::List(relisted(items, name, model)));
                lemma_relisted_valid(items, name, model);
                let l2 = l.retagged(YamlView::List(relisted(items, name, model)));
                lemma_put_valid(f, key("models"@), l2);
                lemma_untagged_valid(v, YamlView::Mapping(put(f, key("models"@), l2)));
            }
        }
    }
}

/// A document stays valid when a model is saved in it.
pub proof fn lemma_saved_valid(root: YamlView, input: InputView, base_url: Seq<char>)
    requires
        valid(root),
    ensures
        saved_document(root, input, base_url) matches Ok(v) ==> valid(v),
{
    let rm = root_mapping(root);
    assert(valid(YamlView::Mapping(Seq::<(YamlView, YamlView)>::empty())));
    lemma_untagged_valid(rm, rm);
    let first = rm.entries()->0;
    assert(rm.untagged() == YamlView::Mapping(first));
    lemma_put_if_missing_valid(
        first,
        key("providers"@),
        YamlView::Mapping(Seq::<(YamlView, YamlView)>::empty()),
    );
    let entries = root_entries(root);
    lemma_put_lookup(
        first,
        key("providers"@),
        YamlView::Mapping(Seq::empty()),
        key("providers"@),
    );
    lemma_map_parts(entries);
    lemma_lookup_valid(entries, key("providers"@));
    let pv = providers_value(root);
    lemma_untagged_valid(pv, pv);
    if let Some(pm) = pv.entries() {
        let provider = saved_provider(input);
        let found = lookup(pm, key(provider));
        lemma_map_parts(pm);
        lemma_lookup_valid(pm, key(provider));
        if let Some(api_key) = saved_key(input, found) {
            lemma_new_entry_valid(provider, base_url, api_key);
            let entry = value_or(
                found,
                YamlView::Mapping(new_entry(provider, base_url, api_key)),
            );
            let name = trim(input.name);
            let model = value_or(nonblank(input.model), name);
            lemma_entry_valid(entry, base_url, api_key, name, model);
            if let Ok(v) = saved_entry(entry, base_url, api_key, name, model) {
                lemma_put_valid(pm, key(provider), v);
                let inner = YamlView::Mapping(put(pm, key(provider), v));
                lemma_untagged_valid(pv, inner);
                lemma_put_valid(entries, key("providers"@), pv.retagged(inner));
                lemma_untagged_valid(
                    rm,
                    YamlView::Mapping(put(entries, key("providers"@), pv.retagged(inner))),
                );
            }
        }
    }
}

proof fn lemma_listed_masked(id: Seq<char>, entry: Seq<(YamlView, YamlView)>, items: Seq<YamlView>)
    ensures
        forall|i: int|
            0 <= i < listed_models(id, entry, items).len() ==> (#[trigger] listed_models(
                id,
                entry,
                items,
            )[i]).api_key == API_KEY_MASK@,
    decreases items.len(),
{
    if items.len() > 0 {
        lemma_listed_masked(id, entry, items.drop_last());
    }
}

proof fn lemma_all_masked(m: Seq<(YamlView, YamlView)>)
    ensures
        forall|i: int|
            0 <= i < all_models(m).len() ==> (#[trigger] all_models(m)[i]).api_key
                == API_KEY_MASK@,
    decreases m.len(),
{
    if m.len() > 0 {
        lemma_all_masked(m.drop_last());
        let (k, v) = m.last();
        if let (Some(id), Some(entry)) = (k.text(), v.entries()) {
            if let Some(l) = lookup(entry, key("models"@)) {
                if let Some(items) = l.elements() {
                    lemma_listed_masked(id, entry, items);
                }
            }
        }
    }
}

/// No API key of a configuration is shown: every model that is read has the mask in its place.
pub proof fn law_keys_are_masked(root: YamlView, i: int)
    requires
        0 <= i < configured_models(root).len(),
    ensures
        configured_models(root)[i].api_key == API_KEY_MASK@,
{
    lemma_all_masked(
        match root.entries() {
            Some(m) => match lookup(m, key("providers"@)) {
                Some(p) => match p.entries() {
                    Some(e) => e,
                    None => Seq::empty(),
                },
                None => Seq::empty(),
            },
            None => Seq::empty(),
        },
    );
}

proof fn lemma_key_names()
    ensures
        "baseUrl"@ != "apiKey"@,
        "baseUrl"@ != "api"@,
        "baseUrl"@ != "auth"@,
        "baseUrl"@ != "models"@,
        "apiKey"@ != "api"@,
        "apiKey"@ != "auth"@,
        "apiKey"@ != "models"@,
        "id"@ != "name"@,
{
    reveal_strlit("name");
    reveal_strlit("id");
    reveal_strlit("baseUrl");
    reveal_strlit("apiKey");
    reveal_strlit("api");
    reveal_strlit("auth");
    reveal_strlit("models");
    assert("baseUrl"@.len() == 7 && "apiKey"@.len() == 6 && "api"@.len() == 3 && "auth"@.len() == 4
        && "models"@.len() == 6 && "id"@.len() == 2 && "name"@.len() == 4);
    assert("apiKey"@[0] != "models"@[0]);
}

proof fn lemma_connected(e: Seq<(YamlView, YamlView)>, base_url: Seq<char>, api_key: Seq<char>)
    ensures
        lookup(connected(e, base_url, api_key), key("baseUrl"@)) == Some(YamlView::Str(base_url)),
        lookup(connected(e, base_url, api_key), key("apiKey"@)) == Some(YamlView::Str(api_key)),
{
    lemma_key_names();
    let a = put(e, key("baseUrl"@), YamlView::Str(base_url));
    let b = put(a, key("apiKey"@), YamlView::Str(api_key));
    let c = put_if_missing(b, key("api"@), YamlView::Str("openai-completions"@));
    let d = put_if_missing(c, key("auth"@), YamlView::Str("apiKey"@));
    lemma_put_lookup(e, key("baseUrl"@), YamlView::Str(base_url), key("baseUrl"@));
    lemma_put_lookup(a, key("apiKey"@), YamlView::Str(api_key), key("baseUrl"@));
    lemma_put_lookup(a, key("apiKey"@), YamlView::Str(api_key), key("apiKey"@));
    lemma_put_lookup(b, key("api"@), YamlView::Str("openai-completions"@), key("baseUrl"@));
    lemma_put_lookup(b, key("api"@), YamlView::Str("openai-completions"@), key("apiKey"@));
    lemma_put_lookup(c, key("auth"@), YamlView::Str("apiKey"@), key("baseUrl"@));
    lemma_put_lookup(c, key("auth"@), YamlView::Str("apiKey"@), key("apiKey"@));
    lemma_put_lookup(d, key("models"@), YamlView::List(Seq::empty()), key("baseUrl"@));
    lemma_put_lookup(d, key("models"@), YamlView::List(Seq::empty()), key("apiKey"@));
}

proof fn lemma_models_among(m: Seq<(YamlView, YamlView)>, i: int, x: ModelView)
    requires
        0 <= i < m.len(),
        provider_models(m[i].0, m[i].1).contains(x),
    ensures
        all_models(m).contains(x),
    decreases m.len(),
{
    let before = all_models(m.drop_last());
    let last = provider_models(m.last().0, m.last().1);
    if i == m.len() - 1 {
        let j = choose|j: int| 0 <= j < last.len() && last[j] == x;
        assert((before + last)[before.len() + j] == x);
    } else {
        lemma_models_among(m.drop_last(), i, x);
        let j = choose|j: int| 0 <= j < before.len() && before[j] == x;
        assert((before + last)[j] == x);
    }
}

/// The provider entries of a document.
pub open spec fn provider_entries(root: YamlView) -> Option<Seq<(YamlView, YamlView)>> {
    match root.entries() {
        Some(m) => match lookup(m, key("providers"@)) {
            Some(p) => p.entries(),
            None => None,
        },
        None => None,
    }
}

proof fn lemma_saved_entries(root: YamlView, input: InputView, base_url: Seq<char>)
    requires
        saved_document(root, input, base_url) is Ok,
    ensures
        ({
            let pm = providers_value(root).entries()->0;
            let provider = saved_provider(input);
            let found = lookup(pm, key(provider));
            let api_key = saved_key(input, found)->0;
            let entry = value_or(
                found,
                YamlView::Mapping(new_entry(provider, base_url, api_key)),
            );
            let name = trim(input.name);
            let w = saved_entry(
                entry,
                base_url,
                api_key,
                name,
                value_or(nonblank(input.model), name),
            )->Ok_0;
            provider_entries(saved_document(root, input, base_url)->Ok_0) == Some(
                put(pm, key(provider), w),
            )
        }),
{
    let pv = providers_value(root);
    let pm = pv.entries()->0;
    let provider = saved_provider(input);
    let found = lookup(pm, key(provider));
    let api_key = saved_key(input, found)->0;
    let entry = value_or(found, YamlView::Mapping(new_entry(provider, base_url, api_key)));
    let name = trim(input.name);
    let w = saved_entry(
        entry,
        base_url,
        api_key,
        name,
        value_or(nonblank(input.model), name),
    )->Ok_0;
    let inner = YamlView::Mapping(put(pm, key(provider), w));
    let entries = root_entries(root);
    yaml::lemma_retagged(pv, inner);
    lemma_put_lookup(entries, key("providers"@), pv.retagged(inner), key("providers"@));
    yaml::lemma_retagged(
        root_mapping(root),
        YamlView::Mapping(put(entries, key("providers"@), pv.retagged(inner))),
    );
}

/// A model that was saved is listed when the configuration is read again: under its name and
/// provider, with the saved base URL, the saved model identifier, and the mask for its key.
pub proof fn law_saved_model_is_listed(root: YamlView, input: InputView, base_url: Seq<char>)
    requires
        saved_document(root, input, base_url) is Ok,
    ensures
        exists|m: ModelView| #[trigger]
            configured_models(saved_document(root, input, base_url)->Ok_0).contains(m) && m.name
                == trim(input.name) && m.provider == Some(saved_provider(input)) && m.base_url
                == Some(base_url) && m.api_key == API_KEY_MASK@ && m.model == Some(
                value_or(nonblank(input.model), trim(input.name)),
            ),
{
    lemma_saved_entries(root, input, base_url);
    lemma_key_names();
    let doc = saved_document(root, input, base_url)->Ok_0;
    let pm = providers_value(root).entries()->0;
    let provider = saved_provider(input);
    let found = lookup(pm, key(provider));
    let api_key = saved_key(input, found)->0;
    let entry = value_or(found, YamlView::Mapping(new_entry(provider, base_url, api_key)));
    let name = trim(input.name);
    let model = value_or(nonblank(input.model), name);
    let w = saved_entry(entry, base_url, api_key, name, model)->Ok_0;
    let c = connected(entry.entries()->0, base_url, api_key);
    let l = lookup(c, key("models"@))->0;
    let items = l.elements()->0;
    let l2 = l.retagged(YamlView::List(relisted(items, name, model)));
    let e2 = put(c, key("models"@), l2);
    yaml::lemma_retagged(entry, YamlView::Mapping(e2));
    yaml::lemma_retagged(l, YamlView::List(relisted(items, name, model)));
    lemma_put_lookup(c, key("models"@), l2, key("models"@));
    lemma_put_lookup(c, key("models"@), l2, key("baseUrl"@));
    lemma_connected(entry.entries()->0, base_url, api_key);
    assert(w.entries() == Some(e2));
    let item = model_item(name, model);
    let fields = seq![(key("id"@), YamlView::Str(name)), (key("name"@), YamlView::Str(model))];
    assert(fields.drop_first()[0] == fields[1]);
    assert(item.entries() == Some(fields));
    assert(string_field(fields, "id"@) == Some(name));
    assert(lookup(fields.drop_first(), key("name"@)) == Some(YamlView::Str(model)));
    assert(string_field(fields, "name"@) == Some(model));
    let all = relisted(items, name, model);
    assert(all.last() == item);
    assert(listed_model(provider, e2, item) is Some);
    let m = listed_model(provider, e2, item)->0;
    let listed = listed_models(provider, e2, all);
    assert(listed.last() == m);
    assert(listed[listed.len() - 1] == m);
    assert(provider_models(key(provider), w) == listed);
    yaml::lemma_put_contains(pm, key(provider), w);
    let p2 = put(pm, key(provider), w);
    let i = choose|i: int| 0 <= i < p2.len() && p2[i] == (key(provider), w);
    lemma_models_among(p2, i, m);
    assert(configured_models(doc).contains(m));
}

/// Saving with the mask in place of a key keeps the stored key; saving with a key stores it.
pub proof fn law_save_keeps_or_sets_the_key(root: YamlView, input: InputView, base_url: Seq<char>)
    requires
        saved_document(root, input, base_url) is Ok,
    ensures
        ({
            let k = key(saved_provider(input));
            let before = stored_key(lookup(providers_value(root).entries()->0, k));
            let after = stored_key(
                lookup(provider_entries(saved_document(root, input, base_url)->Ok_0)->0, k),
            );
            after == if trim(input.api_key) == API_KEY_MASK@ {
                before
            } else {
                Some(trim(input.api_key))
            }
        }),
{
    lemma_saved_entries(root, input, base_url);
    lemma_key_names();
    let pm = providers_value(root).entries()->0;
    let provider = saved_provider(input);
    let found = lookup(pm, key(provider));
    let api_key = saved_key(input, found)->0;
    let entry = value_or(found, YamlView::Mapping(new_entry(provider, base_url, api_key)));
    let name = trim(input.name);
    let model = value_or(nonblank(input.model), name);
    let w = saved_entry(entry, base_url, api_key, name, model)->Ok_0;
    let c = connected(entry.entries()->0, base_url, api_key);
    let l = lookup(c, key("models"@))->0;
    let items = l.elements()->0;
    let l2 = l.retagged(YamlView::List(relisted(items, name, model)));
    yaml::lemma_retagged(entry, YamlView::Mapping(put(c, key("models"@), l2)));
    lemma_put_lookup(c, key("models"@), l2, key("apiKey"@));
    lemma_connected(entry.entries()->0, base_url, api_key);
    lemma_put_lookup(pm, key(provider), w, key(provider));
}

/// Saving a model leaves the entries of all other providers as they were.
pub proof fn law_save_keeps_other_providers(
    root: YamlView,
    input: InputView,
    base_url: Seq<char>,
    other: YamlView,
)
    requires
        saved_document(root, input, base_url) is Ok,
        other != key(saved_provider(input)),
    ensures
        lookup(provider_entries(saved_document(root, input, base_url)->Ok_0)->0, other) == lookup(
            providers_value(root).entries()->0,
            other,
        ),
{
    lemma_saved_entries(root, input, base_url);
    let pm = providers_value(root).entries()->0;
    let provider = saved_provider(input);
    let found = lookup(pm, key(provider));
    let api_key = saved_key(input, found)->0;
    let entry = value_or(found, YamlView::Mapping(new_entry(provider, base_url, api_key)));
    let name = trim(input.name);
    let w = saved_entry(
        entry,
        base_url,
        api_key,
        name,
        value_or(nonblank(input.model), name),
    )->Ok_0;
    lemma_put_lookup(pm, key(provider), w, other);
}

proof fn lemma_connected_field(
    e: Seq<(YamlView, YamlView)>,
    base_url: Seq<char>,
    api_key: Seq<char>,
    k: YamlView,
)
    requires
        k != key("baseUrl"@),
        k != key("apiKey"@),
    ensures
        lookup(e, k) is Some ==> lookup(connected(e, base_url, api_key), k) == lookup(e, k),
        lookup(e, key("models"@)) is None ==> lookup(
            connected(e, base_url, api_key),
            key("models"@),
        ) == Some(YamlView::List(Seq::empty())),
        k != key("api"@) && k != key("auth"@) && k != key("models"@) ==> lookup(
            connected(e, base_url, api_key),
            k,
        ) == lookup(e, k),
{
    lemma_key_names();
    reveal_strlit("api");
    reveal_strlit("auth");
    reveal_strlit("models");
    assert("api"@.len() == 3 && "auth"@.len() == 4 && "models"@.len() == 6);
    let m = key("models"@);
    let a = put(e, key("baseUrl"@), YamlView::Str(base_url));
    let b = put(a, key("apiKey"@), YamlView::Str(api_key));
    let c = put_if_missing(b, key("api"@), YamlView::Str("openai-completions"@));
    let d = put_if_missing(c, key("auth"@), YamlView::Str("apiKey"@));
    lemma_put_lookup(e, key("baseUrl"@), YamlView::Str(base_url), k);
    lemma_put_lookup(a, key("apiKey"@), YamlView::Str(api_key), k);
    lemma_put_lookup(b, key("api"@), YamlView::Str("openai-completions"@), k);
    lemma_put_lookup(c, key("auth"@), YamlView::Str("apiKey"@), k);
    lemma_put_lookup(d, m, YamlView::List(Seq::empty()), k);
    lemma_put_lookup(e, key("baseUrl"@), YamlView::Str(base_url), m);
    lemma_put_lookup(a, key("apiKey"@), YamlView::Str(api_key), m);
    lemma_put_lookup(b, key("api"@), YamlView::Str("openai-completions"@), m);
    lemma_put_lookup(c, key("auth"@), YamlView::Str("apiKey"@), m);
    lemma_put_lookup(d, m, YamlView::List(Seq::empty()), m);
}

/// Saving a model leaves the other models of its provider in the list, in their order; what stood there
/// under the name of the model goes, and the model comes at the end. A provider that had no list gets
/// one with the model alone. The other settings of the provider stay.
pub proof fn law_save_keeps_other_models(
    root: YamlView,
    input: InputView,
    base_url: Seq<char>,
    field: Seq<char>,
)
    requires
        saved_document(root, input, base_url) is Ok,
    ensures
        ({
            let k = key(saved_provider(input));
            let name = trim(input.name);
            let model = if input.model is Some && trim(input.model->0).len() > 0 {
                trim(input.model->0)
            } else {
                name
            };
            let item = YamlView::Mapping(
                seq![
                    (YamlView::Str("id"@), YamlView::Str(name)),
                    (YamlView::Str("name"@), YamlView::Str(model)),
                ],
            );
            let before = lookup(providers_value(root).entries()->0, k);
            let after = lookup(provider_entries(saved_document(root, input, base_url)->Ok_0)->0, k);
            let old_list = if before is Some {
                lookup(before->0.entries()->0, key("models"@))
            } else {
                None
            };
            let list = lookup(after->0.entries()->0, key("models"@));
            &&& after is Some && after->0.entries() is Some
            &&& list is Some && list->0.elements() is Some
            &&& old_list is Some ==> list->0.elements()->0 == old_list->0.elements()->0.filter(
                |i: YamlView|
                    !(i.entries() is Some && string_field(i.entries()->0, "id"@) == Some(name)),
            ).push(item)
            &&& old_list is None ==> list->0.elements()->0 == seq![item]
            &&& before is Some && field != "baseUrl"@ && field != "apiKey"@ && field != "models"@
                && lookup(before->0.entries()->0, key(field)) is Some ==> lookup(
                after->0.entries()->0,
                key(field),
            ) == lookup(before->0.entries()->0, key(field))
        }),
{
    lemma_saved_entries(root, input, base_url);
    lemma_key_names();
    reveal_strlit("models");
    reveal_strlit("name");
    reveal_strlit("api");
    reveal_strlit("auth");
    assert("api"@.len() == 3 && "auth"@.len() == 4 && "models"@.len() == 6 && "name"@.len() == 4);
    let pm = providers_value(root).entries()->0;
    let provider = saved_provider(input);
    let found = lookup(pm, key(provider));
    let api_key = saved_key(input, found)->0;
    let fresh = new_entry(provider, base_url, api_key);
    let entry = value_or(found, YamlView::Mapping(fresh));
    let name = trim(input.name);
    let model = value_or(nonblank(input.model), name);
    let w = saved_entry(entry, base_url, api_key, name, model)->Ok_0;
    let e = entry.entries()->0;
    let c = connected(e, base_url, api_key);
    let l = lookup(c, key("models"@))->0;
    let items = l.elements()->0;
    let new_items = relisted(items, name, model);
    let l2 = l.retagged(YamlView::List(new_items));
    let e2 = put(c, key("models"@), l2);
    yaml::lemma_retagged(entry, YamlView::Mapping(e2));
    yaml::lemma_retagged(l, YamlView::List(new_items));
    lemma_put_lookup(c, key("models"@), l2, key("models"@));
    lemma_put_lookup(pm, key(provider), w, key(provider));
    lemma_connected_field(e, base_url, api_key, key("models"@));
    assert(w.entries() == Some(e2));
    let keep = |i: YamlView|
        !(i.entries() is Some && string_field(i.entries()->0, "id"@) == Some(name));
    assert((|i: YamlView| !has_id(i, name)) =~= keep);
    if found is Some {
        if field != "baseUrl"@ && field != "apiKey"@ && field != "models"@ {
            lemma_connected_field(e, base_url, api_key, key(field));
            lemma_put_lookup(c, key("models"@), l2, key(field));
        }
    } else {
        lemma_fresh_models(provider, base_url, api_key);
    }
    if lookup(e, key("models"@)) is None || found is None {
        assert(items =~= Seq::<YamlView>::empty());
        reveal(Seq::filter);
        assert(new_items =~= seq![model_item(name, model)]);
    }
}

proof fn lemma_fresh_models(provider: Seq<char>, base_url: Seq<char>, api_key: Seq<char>)
    ensures
        lookup(new_entry(provider, base_url, api_key), key("models"@)) == Some(
            YamlView::List(Seq::empty()),
        ),
{
    lemma_key_names();
    reveal_strlit("models");
    reveal_strlit("name");
    reveal_strlit("api");
    reveal_strlit("auth");
    assert("api"@.len() == 3 && "auth"@.len() == 4 && "models"@.len() == 6 && "name"@.len() == 4);
    let a = new_entry(provider, base_url, api_key);
    reveal_with_fuel(lookup, 7);
    let b = a.drop_first();
    let c = b.drop_first();
    let d = c.drop_first();
    let f = d.drop_first();
    let g = f.drop_first();
    assert(b[0] == a[1] && c[0] == a[2] && d[0] == a[3] && f[0] == a[4] && g[0] == a[5]);
}

/// Saving a model leaves everything of the document that is not about providers as it was.
pub proof fn law_save_keeps_the_rest_of_the_document(
    root: YamlView,
    input: InputView,
    base_url: Seq<char>,
    other: YamlView,
)
    requires
        saved_document(root, input, base_url) is Ok,
        other != key("providers"@),
        root.entries() is Some,
    ensures
        saved_document(root, input, base_url)->Ok_0.entries() is Some,
        lookup(saved_document(root, input, base_url)->Ok_0.entries()->0, other) == lookup(
            root.entries()->0,
            other,
        ),
{
    let pv = providers_value(root);
    let pm = pv.entries()->0;
    let provider = saved_provider(input);
    let found = lookup(pm, key(provider));
    let api_key = saved_key(input, found)->0;
    let entry = value_or(found, YamlView::Mapping(new_entry(provider, base_url, api_key)));
    let name = trim(input.name);
    let w = saved_entry(
        entry,
        base_url,
        api_key,
        name,
        value_or(nonblank(input.model), name),
    )->Ok_0;
    let inner = YamlView::Mapping(put(pm, key(provider), w));
    let entries = root_entries(root);
    let all = put(entries, key("providers"@), pv.retagged(inner));
    yaml::lemma_retagged(root, YamlView::Mapping(all));
    lemma_put_lookup(entries, key("providers"@), pv.retagged(inner), other);
    lemma_put_lookup(
        root.entries()->0,
        key("providers"@),
        YamlView::Mapping(Seq::empty()),
        other,
    );
}

/// A model can be saved whenever a key is given and the document has the expected form where it has
/// anything: mappings of providers and of their settings, and a list of models.
pub proof fn law_model_can_be_saved(root: YamlView, input: InputView, base_url: Seq<char>)
    requires
        trim(input.api_key).len() > 0,
        trim(input.api_key) != API_KEY_MASK@,
        root.entries() is Some && lookup(root.entries()->0, key("providers"@)) is Some ==> ({
            let p = lookup(root.entries()->0, key("providers"@))->0;
            &&& p.entries() is Some
            &&& lookup(p.entries()->0, key(saved_provider(input))) is Some ==> ({
                let e = lookup(p.entries()->0, key(saved_provider(input)))->0;
                &&& e.entries() is Some
                &&& lookup(e.entries()->0, key("models"@)) is Some ==> lookup(
                    e.entries()->0,
                    key("models"@),
                )->0.elements() is Some
            })
        }),
    ensures
        saved_document(root, input, base_url) is Ok,
{
    let rm = root_mapping(root).entries()->0;
    lemma_put_lookup(
        rm,
        key("providers"@),
        YamlView::Mapping(Seq::empty()),
        key("providers"@),
    );
    lemma_key_names();
    let pm = providers_value(root).entries()->0;
    let provider = saved_provider(input);
    let found = lookup(pm, key(provider));
    let api_key = trim(input.api_key);
    assert(saved_key(input, found) == Some(api_key));
    let entry = value_or(found, YamlView::Mapping(new_entry(provider, base_url, api_key)));
    assert(entry.entries() is Some);
    let e = entry.entries()->0;
    lemma_fresh_models(provider, base_url, api_key);
    lemma_connected_field(e, base_url, api_key, key("models"@));
}

/// The base URL that is saved is the given one without surrounding white space; where none is given,
/// it is that of the endpoint of the provider, without the path of the chat operation and without
/// slashes at the end.
pub proof fn law_base_url_is_given_or_known(
    input: InputView,
    base: Seq<char>,
    endpoint: Option<Seq<char>>,
)
    requires
        base.len() > 0,
        base.last() != '/',
        !"/chat/completions"@.is_suffix_of(base),
    ensures
        input.base_url is Some && trim(input.base_url->0).len() > 0 ==> saved_base_url(
            input,
            endpoint,
        ) == Some(trim(input.base_url->0)),
        input.base_url is None && endpoint is None ==> saved_base_url(input, endpoint) is None,
        input.base_url is None ==> saved_base_url(input, Some(base)) == Some(base),
        input.base_url is None ==> saved_base_url(input, Some(base + seq!['/'])) == Some(base),
        input.base_url is None ==> saved_base_url(input, Some(base + "/chat/completions"@)) == Some(
            base,
        ),
{
    reveal_strlit("/chat/completions");
    let p = "/chat/completions"@;
    assert(strip_trailing(base, '/') == base);
    let a = base + seq!['/'];
    assert(a.drop_last() =~= base);
    assert(strip_trailing(a, '/') == base);
    let b = base + p;
    assert(b.last() == 's');
    assert(strip_trailing(b, '/') == b);
    assert(p =~= b.subrange(b.len() - p.len(), b.len() as int));
    assert(b.take(b.len() - p.len()) =~= base);
}

/// Every item with an identifier in the list of a provider is read as a model: under the identifier,
/// with the provider, its display name and base URL, and its own name. Lists and providers are read
/// one after the other.
pub proof fn law_every_configured_model_is_read(
    id: Seq<char>,
    entry: Seq<(YamlView, YamlView)>,
    a: Seq<YamlView>,
    b: Seq<YamlView>,
    item: YamlView,
    x: Seq<(YamlView, YamlView)>,
    y: Seq<(YamlView, YamlView)>,
)
    ensures
        listed_models(id, entry, a + b) == listed_models(id, entry, a) + listed_models(
            id,
            entry,
            b,
        ),
        all_models(x + y) == all_models(x) + all_models(y),
        item.entries() is Some && string_field(item.entries()->0, "id"@) is Some ==> listed_models(
            id,
            entry,
            seq![item],
        ) == seq![
            ModelView {
                name: string_field(item.entries()->0, "id"@)->0,
                provider: Some(id),
                provider_name: Some(
                    if string_field(entry, "name"@) is Some {
                        string_field(entry, "name"@)->0
                    } else {
                        id
                    },
                ),
                base_url: if string_field(entry, "baseUrl"@) is Some {
                    string_field(entry, "baseUrl"@)
                } else {
                    string_field(entry, "base_url"@)
                },
                api_key: API_KEY_MASK@,
                model: string_field(item.entries()->0, "name"@),
            },
        ],
        item.entries() is None || string_field(item.entries()->0, "id"@) is None ==> listed_models(
            id,
            entry,
            seq![item],
        ).len() == 0,
    decreases b.len() + y.len(),
{
    if b.len() == 0 {
        assert(a + b =~= a);
        assert(listed_models(id, entry, a) + listed_models(id, entry, b) =~= listed_models(
            id,
            entry,
            a,
        ));
    } else {
        assert((a + b).drop_last() =~= a + b.drop_last());
        law_every_configured_model_is_read(id, entry, a, b.drop_last(), item, x, y);
        assert(listed_models(id, entry, a + b) =~= listed_models(id, entry, a) + listed_models(
            id,
            entry,
            b,
        ));
    }
    if y.len() == 0 {
        assert(x + y =~= x);
        assert(all_models(x) + all_models(y) =~= all_models(x));
    } else {
        assert((x + y).drop_last() =~= x + y.drop_last());
        law_every_configured_model_is_read(id, entry, a, b, item, x, y.drop_last());
        assert(all_models(x + y) =~= all_models(x) + all_models(y));
    }
    let one = seq![item];
    assert(one.drop_last() =~= Seq::<YamlView>::empty());
    assert(listed_models(id, entry, one.drop_last()) =~= Seq::<ModelView>::empty());
    if let Some(m) = listed_model(id, entry, item) {
        assert(listed_models(id, entry, one) =~= seq![m]);
    }
}

/// A model is saved under the provider that was given, without surrounding white space, or under
/// `custom` where none was. It can be saved exactly where it has a name and a base URL.
pub proof fn law_saved_provider_is_the_given_one(input: InputView, endpoint: Option<Seq<char>>)
    ensures
        saved_provider(input) == if input.provider is Some && trim(input.provider->0).len() > 0 {
            trim(input.provider->0)
        } else {
            "custom"@
        },
        input_fault(input, endpoint) is None <==> trim(input.name).len() > 0 && ((
        input.base_url is Some && trim(input.base_url->0).len() > 0) || endpoint is Some),
        trim(input.api_key).len() == 0 && trim(input.api_key) != API_KEY_MASK@ ==> saved_key(
            input,
            None,
        ) is None,
{
}

/// A model belongs to the group of its provider, or to `custom` where it has none. The key of a provider
/// is read under its name, or else under the older one.
pub proof fn law_groups_and_keys_are_read(m: ModelView, v: YamlView)
    ensures
        m.provider is Some ==> group_of(m) == m.provider->0,
        m.provider is None ==> group_of(m) == "custom"@,
        v.entries() is Some ==> stored_key(Some(v)) == if string_field(
            v.entries()->0,
            "apiKey"@,
        ) is Some {
            string_field(v.entries()->0, "apiKey"@)
        } else {
            string_field(v.entries()->0, "api_key"@)
        },
        stored_key(None) is None,
{
}

/// A provider that was not there before gets its own name, the base URL and the key.
pub proof fn law_new_provider_has_its_settings(
    provider: Seq<char>,
    base_url: Seq<char>,
    api_key: Seq<char>,
)
    ensures
        string_field(new_entry(provider, base_url, api_key), "name"@) == Some(provider),
        string_field(new_entry(provider, base_url, api_key), "baseUrl"@) == Some(base_url),
        string_field(new_entry(provider, base_url, api_key), "apiKey"@) == Some(api_key),
{
    lemma_key_names();
    reveal_strlit("name");
    reveal_strlit("baseUrl");
    reveal_strlit("apiKey");
    assert("name"@.len() == 4 && "baseUrl"@.len() == 7 && "apiKey"@.len() == 6);
    let a = new_entry(provider, base_url, api_key);
    reveal_with_fuel(lookup, 4);
    let b = a.drop_first();
    let c = b.drop_first();
    assert(b[0] == a[1] && c[0] == a[2]);
}

} // verus!

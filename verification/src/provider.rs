//! The provider of models: which models there are, what they can do, and how
//! the provider follows the server and the settings.
use crate::effort;
use crate::glm::GLM_API_URL;
use crate::models;
use crate::models::{Model, ModelEntry, ModelEvent};
use crate::request;
use crate::request::LiveCapabilities;
use crate::text;
use crate::text::{copy_str, decimal_of_i64, str_eq, str_le};
use crate::text_map;
use crate::text_map::TextMap;
use vstd::prelude::*;

verus! {

/// Id of the provider.
pub const PROVIDER_ID: &'static str = "zagent.glm";

/// Name of the provider.
pub const PROVIDER_NAME: &'static str = "Zagent-GLM";

/// How long to wait before the event stream is opened again, in seconds.
pub const MODEL_EVENT_RECONNECT_SECS: u64 = 5;

/// Context size of a model that tells none.
pub const ASSUMED_UNLOADED_CONTEXT: u64 = 131_072;

// ---- settings ---------------------------------------------------------------------------

/// A model that the user configured.
#[derive(Clone, Debug, PartialEq)]
pub struct AvailableModel {
    pub name: String,
    pub display_name: Option<String>,
    pub max_tokens: u64,
    pub supports_tools: Option<bool>,
    pub supports_images: Option<bool>,
    pub supports_thinking: Option<bool>,
}

/// A configured model by its contents.
pub struct AvailableView {
    pub name: Seq<char>,
    pub display_name: Option<Seq<char>>,
    pub max_tokens: u64,
    pub supports_tools: Option<bool>,
    pub supports_images: Option<bool>,
    pub supports_thinking: Option<bool>,
}

impl View for AvailableModel {
    type V = AvailableView;

    open spec fn view(&self) -> AvailableView {
        AvailableView {
            name: self.name@,
            display_name: text::opt_view(self.display_name),
            max_tokens: self.max_tokens,
            supports_tools: self.supports_tools,
            supports_images: self.supports_images,
            supports_thinking: self.supports_thinking,
        }
    }
}

/// The settings of the provider.
#[derive(Clone, Debug, Default, PartialEq)]
pub struct GLMSettings {
    pub api_url: String,
    pub auto_discover: bool,
    pub available_models: Vec<AvailableModel>,
    pub context_window: Option<u64>,
    pub custom_headers: Vec<(String, String)>,
}

/// Configured models by their contents.
pub open spec fn available_views(models: Seq<AvailableModel>) -> Seq<AvailableView> {
    models.map_values(|m: AvailableModel| m@)
}

/// Headers by their contents.
pub open spec fn header_views(headers: Seq<(String, String)>) -> Seq<(Seq<char>, Seq<char>)> {
    headers.map_values(|h: (String, String)| (h.0@, h.1@))
}

/// The settings by their contents.
pub struct SettingsView {
    pub api_url: Seq<char>,
    pub auto_discover: bool,
    pub available_models: Seq<AvailableView>,
    pub context_window: Option<u64>,
    pub custom_headers: Seq<(Seq<char>, Seq<char>)>,
}

impl View for GLMSettings {
    type V = SettingsView;

    open spec fn view(&self) -> SettingsView {
        SettingsView {
            api_url: self.api_url@,
            auto_discover: self.auto_discover,
            available_models: available_views(self.available_models@),
            context_window: self.context_window,
            custom_headers: header_views(self.custom_headers@),
        }
    }
}

fn same_option(a: &Option<String>, b: &Option<String>) -> (r: bool)
    ensures
        r == (text::opt_view(*a) == text::opt_view(*b)),
{
    match (a, b) {
        (Some(x), Some(y)) => str_eq(x.as_str(), y.as_str()),
        (None, None) => true,
        _ => false,
    }
}

fn same_flag(a: Option<bool>, b: Option<bool>) -> (r: bool)
    ensures
        r == (a == b),
{
    match (a, b) {
        (Some(x), Some(y)) => x == y,
        (None, None) => true,
        _ => false,
    }
}

fn same_number(a: Option<u64>, b: Option<u64>) -> (r: bool)
    ensures
        r == (a == b),
{
    match (a, b) {
        (Some(x), Some(y)) => x == y,
        (None, None) => true,
        _ => false,
    }
}

fn same_available(a: &AvailableModel, b: &AvailableModel) -> (r: bool)
    ensures
        r == (a@ == b@),
{
    str_eq(a.name.as_str(), b.name.as_str()) && same_option(&a.display_name, &b.display_name)
        && a.max_tokens == b.max_tokens && same_flag(a.supports_tools, b.supports_tools)
        && same_flag(a.supports_images, b.supports_images) && same_flag(
        a.supports_thinking,
        b.supports_thinking,
    )
}

fn same_available_models(a: &Vec<AvailableModel>, b: &Vec<AvailableModel>) -> (r: bool)
    ensures
        r == (available_views(a@) == available_views(b@)),
{
    if a.len() != b.len() {
        assert(available_views(a@).len() != available_views(b@).len());
        return false;
    }
    let mut i: usize = 0;
    while i < a.len()
        invariant
            i <= a@.len(),
            a@.len() == b@.len(),
            forall|k: int| 0 <= k < i ==> available_views(a@)[k] == available_views(b@)[k],
        decreases a@.len() - i,
    {
        if !same_available(&a[i], &b[i]) {
            assert(available_views(a@)[i as int] != available_views(b@)[i as int]);
            return false;
        }
        i = i + 1;
    }
    assert(available_views(a@) =~= available_views(b@));
    true
}

fn same_headers(a: &Vec<(String, String)>, b: &Vec<(String, String)>) -> (r: bool)
    ensures
        r == (header_views(a@) == header_views(b@)),
{
    if a.len() != b.len() {
        assert(header_views(a@).len() != header_views(b@).len());
        return false;
    }
    let mut i: usize = 0;
    while i < a.len()
        invariant
            i <= a@.len(),
            a@.len() == b@.len(),
            forall|k: int| 0 <= k < i ==> header_views(a@)[k] == header_views(b@)[k],
        decreases a@.len() - i,
    {
        if !str_eq(a[i].0.as_str(), b[i].0.as_str()) || !str_eq(a[i].1.as_str(), b[i].1.as_str()) {
            assert(header_views(a@)[i as int] != header_views(b@)[i as int]);
            return false;
        }
        i = i + 1;
    }
    assert(header_views(a@) =~= header_views(b@));
    true
}

/// Whether two settings say the same.
pub fn same_settings(a: &GLMSettings, b: &GLMSettings) -> (r: bool)
    ensures
        r == (a@ == b@),
{
    str_eq(a.api_url.as_str(), b.api_url.as_str()) && a.auto_discover == b.auto_discover
        && same_available_models(&a.available_models, &b.available_models) && same_number(
        a.context_window,
        b.context_window,
    ) && same_headers(&a.custom_headers, &b.custom_headers)
}

/// The address of the gateway under the given settings.
pub open spec fn configured_url(settings: SettingsView) -> Seq<char> {
    if settings.api_url.len() == 0 {
        GLM_API_URL@
    } else {
        settings.api_url
    }
}

impl GLMSettings {
    /// The address of the gateway: the configured one, else the default one.
    pub fn api_url(&self) -> (r: String)
        ensures
            r@ == configured_url(self@),
    {
        if self.api_url.as_str().is_empty() {
            copy_str(GLM_API_URL)
        } else {
            copy_str(self.api_url.as_str())
        }
    }

    /// Whether another address than the default one is configured.
    pub fn has_custom_url(&self) -> (r: bool)
        ensures
            r == (configured_url(self@) != GLM_API_URL@),
    {
        !self.api_url.as_str().is_empty() && !str_eq(self.api_url.as_str(), GLM_API_URL)
    }
}

// ---- names ------------------------------------------------------------------------------

/// The place behind the last path separator among the first `i` characters.
pub open spec fn base_start(id: Seq<char>, i: int) -> int
    decreases i,
{
    if i <= 0 || i > id.len() {
        0
    } else if id[i - 1] == '/' || id[i - 1] == '\\' {
        i
    } else {
        base_start(id, i - 1)
    }
}

/// The last component of a path.
pub open spec fn base_name(id: Seq<char>) -> Seq<char> {
    id.skip(base_start(id, id.len() as int))
}

/// `s` without a final `suffix`.
pub open spec fn without_suffix(s: Seq<char>, suffix: Seq<char>) -> Seq<char> {
    let n = s.len() - suffix.len();
    if text::matches_at(s, suffix, n) {
        s.take(n)
    } else {
        s
    }
}

/// The name under which a model is shown: the last component of its id,
/// without the extension of a model file.
pub open spec fn name_from_id(id: Seq<char>) -> Seq<char> {
    without_suffix(base_name(id), ".gguf"@)
}

/// The name under which the model with the given id is shown.
pub fn display_name_for(id: &str) -> (r: String)
    ensures
        r@ == name_from_id(id@),
{
    let cs: Vec<char> = text::chars_of(id);
    let suffix: Vec<char> = text::chars_of(".gguf");
    let n: usize = cs.len();
    let mut start: usize = n;
    while start > 0 && cs[start - 1] != '/' && cs[start - 1] != '\\'
        invariant
            start <= n,
            n == cs@.len(),
            cs@ == id@,
            base_start(id@, start as int) == base_start(id@, n as int),
        decreases start,
    {
        start = start - 1;
    }
    assert(start == base_start(id@, n as int));
    let len: usize = n - start;
    proof {
        reveal_strlit(".gguf");
    }
    if len >= 5 && text::is_match_at(&cs, &suffix, n - 5) {
        proof {
            let base = base_name(id@);
            assert(base.subrange(len - 5, len as int) =~= id@.subrange(n - 5, n as int));
            assert(text::matches_at(base, ".gguf"@, len - 5));
        }
        let out = text::string_of_range(&cs, start, n - 5);
        assert(out@ =~= name_from_id(id@));
        out
    } else {
        proof {
            let base = base_name(id@);
            if len >= 5 {
                assert(base.subrange(len - 5, len as int) =~= id@.subrange(n - 5, n as int));
            }
            assert(!text::matches_at(base, ".gguf"@, base.len() - 5));
        }
        let out = text::string_of_range(&cs, start, n);
        assert(out@ =~= name_from_id(id@));
        out
    }
}

/// The id of a model in telemetry.
pub fn telemetry_id_for(id: &str) -> (r: String)
    ensures
        r@ == PROVIDER_ID@ + "/"@ + name_from_id(id@),
{
    let mut out = copy_str(PROVIDER_ID);
    out.append("/");
    let name = display_name_for(id);
    out.append(name.as_str());
    out
}

/// A shown name holds no path separator.
pub proof fn law_shown_name_has_no_path(id: Seq<char>, k: int)
    requires
        0 <= k < name_from_id(id).len(),
    ensures
        name_from_id(id)[k] != '/',
        name_from_id(id)[k] != '\\',
{
    lemma_base(id, id.len() as int);
    let start = base_start(id, id.len() as int);
    assert(name_from_id(id)[k] == id[start + k]);
}

proof fn lemma_base(id: Seq<char>, i: int)
    requires
        0 <= i <= id.len(),
    ensures
        0 <= base_start(id, i) <= i,
        forall|k: int| base_start(id, i) <= k < i ==> #[trigger] id[k] != '/' && id[k] != '\\',
    decreases i,
{
    if i > 0 && id[i - 1] != '/' && id[i - 1] != '\\' {
        lemma_base(id, i - 1);
    }
}

// ---- models -----------------------------------------------------------------------------

/// The context size that an entry tells: that of a slot, else the one of the
/// training, else an assumed one.
pub open spec fn entry_context(entry: ModelEntry) -> u64 {
    match entry.meta {
        Some(meta) => match meta.n_ctx {
            Some(n) => n,
            None => match meta.n_ctx_train {
                Some(n) => n,
                None => ASSUMED_UNLOADED_CONTEXT,
            },
        },
        None => ASSUMED_UNLOADED_CONTEXT,
    }
}

/// The model that an entry tells of.
pub open spec fn entry_model(entry: ModelEntry) -> models::ModelView {
    models::ModelView {
        name: entry.id@,
        display_name: Some(name_from_id(entry.id@)),
        max_tokens: entry_context(entry),
        supports_tools: !models::has_status(entry, "loaded"@),
        supports_images: models::hints_images(entry),
        supports_thinking: false,
    }
}

/// The model that an entry tells of.
pub fn model_from_entry(entry: &ModelEntry) -> (m: Model)
    ensures
        m@ == entry_model(*entry),
{
    let max_tokens: u64 = match &entry.meta {
        Some(meta) => match meta.n_ctx {
            Some(n) => n,
            None => match meta.n_ctx_train {
                Some(n) => n,
                None => ASSUMED_UNLOADED_CONTEXT,
            },
        },
        None => ASSUMED_UNLOADED_CONTEXT,
    };
    let name = display_name_for(entry.id.as_str());
    Model::new(
        entry.id.as_str(),
        Some(name.as_str()),
        Some(max_tokens),
        !entry.is_loaded(),
        entry.supports_images_hint(),
        false,
    )
}

/// Models by their contents.
pub open spec fn model_views(m: Map<Seq<char>, Model>) -> Map<Seq<char>, models::ModelView> {
    m.map_values(|x: Model| x@)
}

/// Models of a list by their contents.
pub open spec fn list_views(l: Seq<Model>) -> Seq<models::ModelView> {
    l.map_values(|x: Model| x@)
}

/// A model with the configured context size, if one is configured.
pub open spec fn with_window(m: models::ModelView, window: Option<u64>) -> models::ModelView {
    match window {
        Some(n) => models::ModelView { max_tokens: n, ..m },
        None => m,
    }
}

/// The models that the server told of, by name; a later one wins.
pub open spec fn discovered(fetched: Seq<models::ModelView>, window: Option<u64>) -> Map<
    Seq<char>,
    models::ModelView,
>
    decreases fetched.len(),
{
    if fetched.len() == 0 {
        Map::empty()
    } else {
        discovered(fetched.drop_last(), window).insert(
            fetched.last().name,
            with_window(fetched.last(), window),
        )
    }
}

/// A built-in model.
pub open spec fn default_model(name: Seq<char>, display_name: Seq<char>) -> models::ModelView {
    models::ModelView {
        name,
        display_name: Some(display_name),
        max_tokens: 131_072,
        supports_tools: true,
        supports_images: false,
        supports_thinking: true,
    }
}

/// The models with one more, unless there is one of that name.
pub open spec fn or_default(
    m: Map<Seq<char>, models::ModelView>,
    d: models::ModelView,
) -> Map<Seq<char>, models::ModelView> {
    if m.contains_key(d.name) {
        m
    } else {
        m.insert(d.name, d)
    }
}

/// The models with the built-in ones.
pub open spec fn with_defaults(m: Map<Seq<char>, models::ModelView>) -> Map<
    Seq<char>,
    models::ModelView,
> {
    let a = or_default(m, default_model("glm-5.3-flash"@, "GLM-5.3 Flash"@));
    let b = or_default(a, default_model("glm-5.3"@, "GLM-5.3"@));
    or_default(b, default_model("glm-5.2"@, "GLM-5.2"@))
}

/// `flag`, or else `other`.
pub open spec fn flag_or(flag: Option<bool>, other: bool) -> bool {
    match flag {
        Some(b) => b,
        None => other,
    }
}

/// A model as the user configured it. What is not configured stays; the
/// configured context size wins over that of the configured model.
pub open spec fn configured(
    m: models::ModelView,
    s: AvailableView,
    window: Option<u64>,
) -> models::ModelView {
    models::ModelView {
        name: m.name,
        display_name: match s.display_name {
            Some(n) => Some(n),
            None => m.display_name,
        },
        max_tokens: match window {
            Some(_) => m.max_tokens,
            None => s.max_tokens,
        },
        supports_tools: flag_or(s.supports_tools, m.supports_tools),
        supports_images: flag_or(s.supports_images, m.supports_images),
        supports_thinking: flag_or(s.supports_thinking, m.supports_thinking),
    }
}

/// A model that is known only because the user configured it.
pub open spec fn configured_alone(s: AvailableView, window: Option<u64>) -> models::ModelView {
    models::ModelView {
        name: s.name,
        display_name: s.display_name,
        max_tokens: match window {
            Some(n) => n,
            None => s.max_tokens,
        },
        supports_tools: flag_or(s.supports_tools, false),
        supports_images: flag_or(s.supports_images, false),
        supports_thinking: flag_or(s.supports_thinking, false),
    }
}

/// The models with one that the user configured.
pub open spec fn with_setting(
    m: Map<Seq<char>, models::ModelView>,
    s: AvailableView,
    window: Option<u64>,
) -> Map<Seq<char>, models::ModelView> {
    if m.contains_key(s.name) {
        m.insert(s.name, configured(m[s.name], s, window))
    } else {
        m.insert(s.name, configured_alone(s, window))
    }
}

/// The models with those that the user configured.
pub open spec fn with_settings(
    m: Map<Seq<char>, models::ModelView>,
    available: Seq<AvailableView>,
    window: Option<u64>,
) -> Map<Seq<char>, models::ModelView>
    decreases available.len(),
{
    if available.len() == 0 {
        m
    } else {
        with_setting(with_settings(m, available.drop_last(), window), available.last(), window)
    }
}

/// The models that there are: those that the server told of where they are to
/// be discovered, the built-in ones, and the configured ones.
pub open spec fn effective(fetched: Seq<models::ModelView>, s: SettingsView) -> Map<
    Seq<char>,
    models::ModelView,
> {
    let found = if s.auto_discover {
        discovered(fetched, s.context_window)
    } else {
        Map::empty()
    };
    with_settings(with_defaults(found), s.available_models, s.context_window)
}

proof fn lemma_views_insert(m: Map<Seq<char>, Model>, k: Seq<char>, v: Model)
    ensures
        model_views(m.insert(k, v)) == model_views(m).insert(k, v@),
{
    assert(model_views(m.insert(k, v)) =~= model_views(m).insert(k, v@));
}

/// Adds a built-in model unless there is one of that name.
fn add_default(models: &mut TextMap<Model>, name: &str, display_name: &str)
    requires
        old(models).wf(),
    ensures
        final(models).wf(),
        model_views(final(models)@) == or_default(
            model_views(old(models)@),
            default_model(name@, display_name@),
        ),
{
    if models.get(name).is_none() {
        let m = Model::new(name, Some(display_name), Some(131_072), true, false, true);
        proof {
            lemma_views_insert(models@, name@, m);
            assert(m@ == default_model(name@, display_name@));
        }
        models.insert(copy_str(name), m);
    }
}

/// Merges what the user configured into the models.
pub fn merge_settings_into_models(
    models: &mut TextMap<Model>,
    available_models: &Vec<AvailableModel>,
    context_window: Option<u64>,
)
    requires
        old(models).wf(),
    ensures
        final(models).wf(),
        model_views(final(models)@) == with_settings(
            model_views(old(models)@),
            available_views(available_models@),
            context_window,
        ),
{
    let ghost start = model_views(models@);
    let ghost all = available_views(available_models@);
    let mut i: usize = 0;
    while i < available_models.len()
        invariant
            i <= available_models@.len(),
            all == available_views(available_models@),
            models.wf(),
            model_views(models@) == with_settings(start, all.take(i as int), context_window),
        decreases available_models@.len() - i,
    {
        let s = &available_models[i];
        let ghost before = models@;
        proof {
            assert(all.take(i + 1).drop_last() =~= all.take(i as int));
            assert(all.take(i + 1).last() == s@);
        }
        match models.remove(s.name.as_str()) {
            Some(m) => {
                let mut m = m;
                let ghost was = m@;
                if context_window.is_none() {
                    m.max_tokens = s.max_tokens;
                }
                if let Some(n) = &s.display_name {
                    m.display_name = Some(copy_str(n.as_str()));
                }
                if let Some(b) = s.supports_tools {
                    m.supports_tools = b;
                }
                if let Some(b) = s.supports_images {
                    m.supports_images = b;
                }
                if let Some(b) = s.supports_thinking {
                    m.supports_thinking = b;
                }
                proof {
                    assert(m@ == configured(was, s@, context_window));
                    assert(before.remove(s.name@).insert(s.name@, m) =~= before.insert(s.name@, m));
                    lemma_views_insert(before, s.name@, m);
                }
                models.insert(copy_str(s.name.as_str()), m);
            },
            None => {
                let m = Model {
                    name: copy_str(s.name.as_str()),
                    display_name: match &s.display_name {
                        Some(n) => Some(copy_str(n.as_str())),
                        None => None,
                    },
                    max_tokens: match context_window {
                        Some(n) => n,
                        None => s.max_tokens,
                    },
                    supports_tools: s.supports_tools.unwrap_or(false),
                    supports_images: s.supports_images.unwrap_or(false),
                    supports_thinking: s.supports_thinking.unwrap_or(false),
                };
                proof {
                    assert(m@ == configured_alone(s@, context_window));
                    assert(before.remove(s.name@) =~= before);
                    lemma_views_insert(before, s.name@, m);
                }
                models.insert(copy_str(s.name.as_str()), m);
            },
        }
        i = i + 1;
    }
    assert(all.take(all.len() as int) =~= all);
}

/// The models that there are.
pub fn compute_effective_models(fetched_models: &Vec<Model>, settings: &GLMSettings) -> (r: TextMap<
    Model,
>)
    ensures
        r.wf(),
        model_views(r@) == effective(list_views(fetched_models@), settings@),
{
    let mut models: TextMap<Model> = TextMap::new();
    let ghost all = list_views(fetched_models@);
    assert(model_views(models@) =~= Map::empty());
    if settings.auto_discover {
        let mut i: usize = 0;
        while i < fetched_models.len()
            invariant
                i <= fetched_models@.len(),
                all == list_views(fetched_models@),
                models.wf(),
                model_views(models@) == discovered(all.take(i as int), settings.context_window),
            decreases fetched_models@.len() - i,
        {
            let mut m = fetched_models[i].duplicate();
            if let Some(n) = settings.context_window {
                m.max_tokens = n;
            }
            let key = copy_str(m.name.as_str());
            proof {
                assert(all.take(i + 1).drop_last() =~= all.take(i as int));
                assert(all.take(i + 1).last() == fetched_models@[i as int]@);
                assert(m@ == with_window(all[i as int], settings.context_window));
                lemma_views_insert(models@, m.name@, m);
            }
            models.insert(key, m);
            i = i + 1;
        }
        assert(all.take(all.len() as int) =~= all);
    }
    add_default(&mut models, "glm-5.3-flash", "GLM-5.3 Flash");
    add_default(&mut models, "glm-5.3", "GLM-5.3");
    add_default(&mut models, "glm-5.2", "GLM-5.2");
    merge_settings_into_models(&mut models, &settings.available_models, settings.context_window);
    models
}

// ---- capabilities -----------------------------------------------------------------------

/// What a model can do.
pub open spec fn live(m: models::ModelView) -> LiveCapabilities {
    LiveCapabilities {
        max_tokens: m.max_tokens,
        supports_tools: m.supports_tools,
        supports_thinking: m.supports_thinking,
    }
}

impl LiveCapabilities {
    /// What a model can do.
    pub fn of(model: &Model) -> (c: LiveCapabilities)
        ensures
            c == live(model@),
    {
        LiveCapabilities {
            max_tokens: model.max_tokens,
            supports_tools: model.supports_tools,
            supports_thinking: model.supports_thinking,
        }
    }
}

/// A model of the list has the name.
pub open spec fn names_model(
    effective: Map<Seq<char>, models::ModelView>,
    name: Seq<char>,
) -> bool {
    exists|k: Seq<char>| #[trigger] effective.contains_key(k) && effective[k].name == name
}

/// The cell tells what a model of that name can do.
pub open spec fn tells_of(
    effective: Map<Seq<char>, models::ModelView>,
    name: Seq<char>,
    cell: LiveCapabilities,
) -> bool {
    exists|k: Seq<char>| #[trigger]
        effective.contains_key(k) && effective[k].name == name && cell == live(effective[k])
}

/// The capabilities of all models were written to the cells, under the name
/// of each. A cell of a model that is no more keeps what it held. Where two
/// models have one name, either may have been written last.
pub open spec fn synced(
    before: Map<Seq<char>, LiveCapabilities>,
    after: Map<Seq<char>, LiveCapabilities>,
    effective: Map<Seq<char>, models::ModelView>,
) -> bool {
    &&& forall|n: Seq<char>| #[trigger]
        after.contains_key(n) <==> before.contains_key(n) || names_model(effective, n)
    &&& forall|n: Seq<char>|
        names_model(effective, n) ==> tells_of(effective, n, #[trigger] after[n])
    &&& forall|n: Seq<char>|
        before.contains_key(n) && !names_model(effective, n) ==> #[trigger] after[n] == before[n]
}

/// Writes the capabilities of all models to the cells.
pub fn sync_capability_cells(cells: &mut TextMap<LiveCapabilities>, effective: &TextMap<Model>)
    requires
        old(cells).wf(),
        effective.wf(),
    ensures
        final(cells).wf(),
        synced(old(cells)@, final(cells)@, model_views(effective@)),
{
    let ghost start = cells@;
    let ghost entries = effective.entry_seq();
    proof {
        effective.lemma_entries();
        assert(entries.take(0) =~= Seq::empty());
        assert(synced(start, start, model_views(Map::empty())));
    }
    let mut i: usize = 0;
    while i < effective.len()
        invariant
            i <= entries.len(),
            entries == effective.entry_seq(),
            text_map::keys_distinct(entries),
            effective.wf(),
            cells.wf(),
            synced(
                start,
                cells@,
                model_views(text_map::entries_map(entries.take(i as int))),
            ),
        decreases entries.len() - i,
    {
        let (key, model) = effective.entry(i);
        let ghost part = text_map::entries_map(entries.take(i as int));
        let ghost mid = cells@;
        cells.insert(copy_str(model.name.as_str()), LiveCapabilities::of(model));
        proof {
            assert(entries.take(i + 1).drop_last() =~= entries.take(i as int));
            lemma_fresh_key(entries, i as int);
            lemma_views_insert(part, key@, *model);
            lemma_synced_step(start, mid, model_views(part), key@, model@);
        }
        i = i + 1;
    }
    assert(entries.take(entries.len() as int) =~= entries);
}

proof fn lemma_synced_step(
    start: Map<Seq<char>, LiveCapabilities>,
    mid: Map<Seq<char>, LiveCapabilities>,
    m: Map<Seq<char>, models::ModelView>,
    key: Seq<char>,
    v: models::ModelView,
)
    requires
        synced(start, mid, m),
        !m.contains_key(key),
    ensures
        synced(start, mid.insert(v.name, live(v)), m.insert(key, v)),
{
    let now = mid.insert(v.name, live(v));
    let all = m.insert(key, v);
    assert(all.contains_key(key));
    assert forall|n: Seq<char>| #[trigger] names_model(all, n) <==> names_model(m, n) || n
        == v.name by {
        if names_model(m, n) {
            let k = choose|k: Seq<char>| #[trigger] m.contains_key(k) && m[k].name == n;
            assert(all.contains_key(k) && all[k] == m[k]);
        }
        if names_model(all, n) && n != v.name {
            let k = choose|k: Seq<char>| #[trigger] all.contains_key(k) && all[k].name == n;
            assert(m.contains_key(k) && m[k] == all[k]);
        }
    }
    assert forall|n: Seq<char>| #[trigger] now.contains_key(n) <==> start.contains_key(n)
        || names_model(all, n) by {
        assert(mid.contains_key(n) <==> start.contains_key(n) || names_model(m, n));
    }
    assert forall|n: Seq<char>| names_model(all, n) implies tells_of(all, n, #[trigger] now[n]) by {
        if n != v.name {
            assert(tells_of(m, n, mid[n]));
            let k = choose|k: Seq<char>| #[trigger]
                m.contains_key(k) && m[k].name == n && mid[n] == live(m[k]);
            assert(all.contains_key(k) && all[k] == m[k]);
        }
    }
    assert forall|n: Seq<char>|
        start.contains_key(n) && !names_model(all, n) implies #[trigger] now[n] == start[n] by {
        assert(!names_model(m, n));
        assert(mid[n] == start[n]);
    }
}

/// The cells after the capabilities of models that stand under their own names
/// were written to them.
pub open spec fn with_capabilities(
    cells: Map<Seq<char>, LiveCapabilities>,
    effective: Map<Seq<char>, models::ModelView>,
) -> Map<Seq<char>, LiveCapabilities> {
    cells.union_prefer_right(effective.map_values(|m: models::ModelView| live(m)))
}

/// Where every model stands under its own name, what is written to the cells
/// is settled.
pub proof fn law_named_models_settle_the_cells(
    before: Map<Seq<char>, LiveCapabilities>,
    after: Map<Seq<char>, LiveCapabilities>,
    effective: Map<Seq<char>, models::ModelView>,
)
    requires
        named(effective),
        synced(before, after, effective),
    ensures
        after == with_capabilities(before, effective),
{
    let settled = with_capabilities(before, effective);
    assert forall|n: Seq<char>| #[trigger] names_model(effective, n) <==> effective.contains_key(
        n,
    ) by {
        if effective.contains_key(n) {
            assert(effective[n].name == n);
        }
    }
    assert forall|n: Seq<char>| #[trigger] after.contains_key(n) <==> settled.contains_key(n) by {
        assert(names_model(effective, n) <==> effective.contains_key(n));
    }
    assert forall|n: Seq<char>| #[trigger] after.contains_key(n) implies after[n] == settled[n] by {
        assert(names_model(effective, n) <==> effective.contains_key(n));
        if effective.contains_key(n) {
            assert(tells_of(effective, n, after[n]));
        } else {
            assert(after[n] == before[n]);
        }
    }
    assert(after =~= settled);
}

/// A model of the provider.
#[derive(Debug)]
pub struct GLMLanguageModel {
    pub id: String,
    pub name: String,
    pub display_name: String,
    /// What the model could do when it was listed.
    pub fallback_capabilities: LiveCapabilities,
    pub supports_images: bool,
}

/// A model of the provider by its contents.
pub struct CardView {
    pub id: Seq<char>,
    pub name: Seq<char>,
    pub display_name: Seq<char>,
    pub fallback: LiveCapabilities,
    pub images: bool,
}

impl View for GLMLanguageModel {
    type V = CardView;

    open spec fn view(&self) -> CardView {
        CardView {
            id: self.id@,
            name: self.name@,
            display_name: self.display_name@,
            fallback: self.fallback_capabilities,
            images: self.supports_images,
        }
    }
}

/// The model of the provider that a model is.
pub open spec fn card(m: models::ModelView) -> CardView {
    CardView {
        id: m.name,
        name: m.name,
        display_name: models::shown_name(m),
        fallback: live(m),
        images: m.supports_images,
    }
}

/// What a model can do now: what its cell holds, else what it could do when it
/// was listed.
pub open spec fn current(
    cells: Map<Seq<char>, LiveCapabilities>,
    c: CardView,
) -> LiveCapabilities {
    if cells.contains_key(c.name) {
        cells[c.name]
    } else {
        c.fallback
    }
}

/// The label of a model that is being loaded.
pub open spec fn label(progress: Map<Seq<char>, String>, name: Seq<char>) -> Option<Seq<char>> {
    if progress.contains_key(name) {
        Some(progress[name]@)
    } else {
        None
    }
}

/// The name of a model in the list: the name under which it is shown and,
/// while it is being loaded, how far that has come.
pub open spec fn listed_name(progress: Map<Seq<char>, String>, c: CardView) -> Seq<char> {
    match label(progress, c.name) {
        Some(l) => c.display_name + " · "@ + l,
        None => c.display_name,
    }
}

impl GLMLanguageModel {
    /// The model of the provider that a model is.
    pub fn of(model: &Model) -> (c: GLMLanguageModel)
        ensures
            c@ == card(model@),
    {
        GLMLanguageModel {
            id: copy_str(model.name.as_str()),
            name: copy_str(model.name.as_str()),
            display_name: copy_str(model.display_name()),
            fallback_capabilities: LiveCapabilities::of(model),
            supports_images: model.supports_images,
        }
    }

    /// What the model can do now.
    pub fn capabilities(&self, cells: &TextMap<LiveCapabilities>) -> (c: LiveCapabilities)
        requires
            cells.wf(),
        ensures
            c == current(cells@, self@),
    {
        match cells.get(self.name.as_str()) {
            Some(c) => *c,
            None => self.fallback_capabilities,
        }
    }

    /// The label of the model, while it is being loaded.
    pub fn loading_label(&self, progress: &TextMap<String>) -> (r: Option<String>)
        requires
            progress.wf(),
        ensures
            text::opt_view(r) == label(progress@, self.name@),
    {
        match progress.get(self.name.as_str()) {
            Some(l) => Some(copy_str(l.as_str())),
            None => None,
        }
    }

    /// The name of the model in the list.
    pub fn name(&self, progress: &TextMap<String>) -> (r: String)
        requires
            progress.wf(),
        ensures
            r@ == listed_name(progress@, self@),
    {
        let mut out = copy_str(self.display_name.as_str());
        if let Some(l) = self.loading_label(progress) {
            out.append(" · ");
            out.append(l.as_str());
        }
        out
    }

    /// Whether the model calls tools.
    pub fn supports_tools(&self, cells: &TextMap<LiveCapabilities>) -> (r: bool)
        requires
            cells.wf(),
        ensures
            r == current(cells@, self@).supports_tools,
    {
        self.capabilities(cells).supports_tools
    }

    /// Whether the model takes a choice of tools: any choice, where it calls tools.
    pub fn supports_tool_choice(
        &self,
        cells: &TextMap<LiveCapabilities>,
        choice: request::LanguageModelToolChoice,
    ) -> (r: bool)
        requires
            cells.wf(),
        ensures
            r == current(cells@, self@).supports_tools,
    {
        self.supports_tools(cells) && match choice {
            request::LanguageModelToolChoice::Auto => true,
            request::LanguageModelToolChoice::Any => true,
            request::LanguageModelToolChoice::Never => true,
        }
    }

    /// Whether the model thinks.
    pub fn supports_thinking(&self, cells: &TextMap<LiveCapabilities>) -> (r: bool)
        requires
            cells.wf(),
        ensures
            r == (current(cells@, self@).supports_thinking || effort::effort_of(
                text::lowercase(self.name@),
            ) is Some),
    {
        let thinks = self.capabilities(cells).supports_thinking;
        thinks || effort::model_supports_reasoning_effort(self.name.as_str())
    }

    /// The context size of the model.
    pub fn max_token_count(&self, cells: &TextMap<LiveCapabilities>) -> (r: u64)
        requires
            cells.wf(),
        ensures
            r == current(cells@, self@).max_tokens,
    {
        self.capabilities(cells).max_tokens
    }

    /// What is sent for a conversation with the model.
    pub fn to_glm_request(
        &self,
        cells: &TextMap<LiveCapabilities>,
        conversation: request::LanguageModelRequest,
    ) -> (r: Result<crate::chat::ChatCompletionRequest, request::RequestError>)
        requires
            cells.wf(),
        ensures
            request::built_view(r) == request::built(
                self.name@,
                self.supports_images,
                current(cells@, self@),
                effort::effort_of(text::lowercase(self.name@)),
                conversation,
            ),
    {
        request::build_glm_request(
            self.name.as_str(),
            self.supports_images,
            self.capabilities(cells),
            conversation,
        )
    }
}

// ---- the provider's state -----------------------------------------------------------------

/// What the provider knows and does.
#[derive(Debug)]
pub struct State {
    pub fetched_models: Vec<Model>,
    /// A task lists the models.
    pub fetching: bool,
    /// A task follows the events of the server.
    pub following: bool,
    pub capability_cells: TextMap<LiveCapabilities>,
    pub loading_progress: TextMap<String>,
}

/// What is to become of the task that follows the events of the server.
#[derive(Clone, Copy, Debug, PartialEq, Eq, Structural)]
pub enum FollowOrder {
    Start,
    Keep,
    Stop,
}

/// How an authentication goes on.
#[derive(Clone, Copy, Debug, PartialEq, Eq, Structural)]
pub enum AuthenticateStep {
    /// It is done.
    Ready,
    /// The key is to be loaded and the models are to be listed.
    Fetch,
}

/// Why the models could not be listed: the error, and of each of its causes
/// whether it is a refused connection.
#[derive(Debug)]
pub struct FetchFailure {
    pub error: String,
    pub refused_causes: Vec<bool>,
}

/// Why an authentication failed.
#[derive(Debug)]
pub enum AuthenticateError {
    ConnectionRefused,
    Other(String),
}

/// What an event of the server asks for.
#[derive(Clone, Copy, Debug, PartialEq, Eq, Structural)]
pub enum EventStep {
    /// Nothing.
    Continue,
    /// To show the progress.
    Notify,
    /// To list the models again.
    Refetch,
}

/// What came of following the events of the server.
#[derive(Clone, Copy, Debug, PartialEq, Eq, Structural)]
pub enum FeedEvent {
    /// The events are to be followed.
    Started,
    /// The stream was opened.
    Opened,
    /// The stream could not be opened.
    Unavailable,
    /// An event was taken in.
    TakenIn,
    /// An event could not be read.
    Unreadable,
    /// The stream has ended.
    Ended,
    /// The provider is no more.
    ProviderGone,
}

/// How the events of the server are followed on.
#[derive(Clone, Copy, Debug, PartialEq, Eq, Structural)]
pub enum FeedStep {
    /// The stream is to be opened after so many seconds, if the provider is
    /// still there.
    Open { after_seconds: u64 },
    /// The next event is to be awaited.
    AwaitEvent,
    /// They are followed no more.
    Stop,
}

/// Tells how the events of the server are followed on. A stream that ended or
/// could not be opened is opened again after a while, an event that could not
/// be read is passed over, and without the provider nothing is followed.
pub fn on_feed(event: FeedEvent) -> (step: FeedStep)
    ensures
        step == match event {
            FeedEvent::Started => FeedStep::Open { after_seconds: 0 },
            FeedEvent::Opened => FeedStep::AwaitEvent,
            FeedEvent::Unavailable => FeedStep::Open { after_seconds: MODEL_EVENT_RECONNECT_SECS },
            FeedEvent::TakenIn => FeedStep::AwaitEvent,
            FeedEvent::Unreadable => FeedStep::AwaitEvent,
            FeedEvent::Ended => FeedStep::Open { after_seconds: MODEL_EVENT_RECONNECT_SECS },
            FeedEvent::ProviderGone => FeedStep::Stop,
        },
{
    match event {
        FeedEvent::Started => FeedStep::Open { after_seconds: 0 },
        FeedEvent::Unavailable | FeedEvent::Ended => FeedStep::Open {
            after_seconds: MODEL_EVENT_RECONNECT_SECS,
        },
        FeedEvent::Opened | FeedEvent::TakenIn | FeedEvent::Unreadable => FeedStep::AwaitEvent,
        FeedEvent::ProviderGone => FeedStep::Stop,
    }
}

/// What a change of the settings asks for.
#[derive(Clone, Copy, Debug, PartialEq, Eq, Structural)]
pub enum SettingsStep {
    /// Nothing: they say the same.
    Unchanged,
    /// To show the models anew.
    Refresh,
    /// To change over to the key of the new address, to authenticate as told,
    /// and to show the models anew.
    Rekey(AuthenticateStep),
}

/// The ids of the entries that are being loaded.
pub open spec fn loading_ids(entries: Seq<ModelEntry>) -> Set<Seq<char>> {
    Set::new(
        |id: Seq<char>|
            exists|i: int|
                0 <= i < entries.len() && (#[trigger] entries[i]).id@ == id && models::has_status(
                    entries[i],
                    "loading"@,
                ),
    )
}

/// An entry came from a server in router mode.
pub open spec fn any_router(entries: Seq<ModelEntry>) -> bool {
    exists|i: int| 0 <= i < entries.len() && (#[trigger] entries[i]).status is Some
}

/// The models that entries tell of.
pub open spec fn entry_models(entries: Seq<ModelEntry>) -> Seq<models::ModelView> {
    entries.map_values(|e: ModelEntry| entry_model(e))
}

fn loading_list(entries: &Vec<ModelEntry>) -> (ids: Vec<String>)
    ensures
        text::views(ids@).to_set() == loading_ids(entries@),
{
    let mut ids: Vec<String> = Vec::new();
    let mut i: usize = 0;
    while i < entries.len()
        invariant
            i <= entries@.len(),
            forall|k: int|
                0 <= k < i && models::has_status(entries@[k], "loading"@) ==> text::views(
                    ids@,
                ).contains((#[trigger] entries@[k]).id@),
            forall|j: int|
                0 <= j < ids@.len() ==> loading_ids(entries@).contains(
                    #[trigger] text::views(ids@)[j],
                ),
        decreases entries@.len() - i,
    {
        let ghost before = ids@;
        if entries[i].is_loading() {
            ids.push(copy_str(entries[i].id.as_str()));
            proof {
                let id = entries@[i as int].id@;
                assert(text::views(ids@) =~= text::views(before).push(id));
                assert(loading_ids(entries@).contains(id));
                assert(text::views(ids@)[before.len() as int] == id);
                assert forall|k: int|
                    0 <= k < i && models::has_status(entries@[k], "loading"@) implies text::views(
                    ids@,
                ).contains((#[trigger] entries@[k]).id@) by {
                    let j = text::views(before).index_of(entries@[k].id@);
                    assert(text::views(before).contains(entries@[k].id@));
                    assert(text::views(ids@)[j] == entries@[k].id@);
                }
            }
        }
        i = i + 1;
    }
    proof {
        let s = text::views(ids@).to_set();
        let t = loading_ids(entries@);
        assert forall|id: Seq<char>| #[trigger] s.contains(id) <==> t.contains(id) by {
            if s.contains(id) {
                let j = text::views(ids@).index_of(id);
                assert(text::views(ids@)[j] == id);
            }
            if t.contains(id) {
                let k = choose|k: int|
                    0 <= k < entries@.len() && (#[trigger] entries@[k]).id@ == id
                        && models::has_status(entries@[k], "loading"@);
                assert(text::views(ids@).contains(entries@[k].id@));
            }
        }
        assert(s =~= t);
    }
    ids
}

fn is_router(entries: &Vec<ModelEntry>) -> (r: bool)
    ensures
        r == any_router(entries@),
{
    let mut i: usize = 0;
    while i < entries.len()
        invariant
            i <= entries@.len(),
            forall|k: int| 0 <= k < i ==> (#[trigger] entries@[k]).status is None,
        decreases entries@.len() - i,
    {
        if entries[i].is_router_entry() {
            return true;
        }
        i = i + 1;
    }
    false
}

fn models_from(entries: &Vec<ModelEntry>) -> (out: Vec<Model>)
    ensures
        list_views(out@) == entry_models(entries@),
{
    let mut out: Vec<Model> = Vec::new();
    let mut i: usize = 0;
    while i < entries.len()
        invariant
            i <= entries@.len(),
            list_views(out@) == entry_models(entries@.take(i as int)),
        decreases entries@.len() - i,
    {
        let m = model_from_entry(&entries[i]);
        let ghost before = out@;
        out.push(m);
        proof {
            assert(list_views(out@) =~= list_views(before).push(m@));
            assert(entry_models(entries@.take(i + 1)) =~= entry_models(entries@.take(i as int)).push(
                m@,
            ));
        }
        i = i + 1;
    }
    assert(entries@.take(entries@.len() as int) =~= entries@);
    out
}

impl State {
    /// The maps hold no key twice.
    pub open spec fn wf(&self) -> bool {
        self.capability_cells.wf() && self.loading_progress.wf()
    }

    /// A provider that knows nothing yet.
    pub fn new() -> (s: State)
        ensures
            s.wf(),
            s.fetched_models@.len() == 0,
            !s.fetching,
            !s.following,
            s.capability_cells@ == Map::<Seq<char>, LiveCapabilities>::empty(),
            s.loading_progress@ == Map::<Seq<char>, String>::empty(),
    {
        State {
            fetched_models: Vec::new(),
            fetching: false,
            following: false,
            capability_cells: TextMap::new(),
            loading_progress: TextMap::new(),
        }
    }

    /// Whether the server has told of a model.
    pub fn is_authenticated(&self) -> (r: bool)
        ensures
            r == (self.fetched_models@.len() > 0),
    {
        self.fetched_models.len() > 0
    }

    /// Forgets what was known under another key. The models are to be listed
    /// again once the key was stored.
    pub fn set_api_key(&mut self)
        requires
            old(self).wf(),
        ensures
            final(self).wf(),
            final(self).fetched_models@.len() == 0,
            !final(self).following,
            final(self).loading_progress@ == Map::<Seq<char>, String>::empty(),
            final(self).fetching == old(self).fetching,
            final(self).capability_cells@ == old(self).capability_cells@,
    {
        self.fetched_models.clear();
        self.following = false;
        self.loading_progress.clear();
    }

    /// How an authentication goes on.
    pub fn authenticate(&self) -> (step: AuthenticateStep)
        ensures
            step == if self.fetched_models@.len() > 0 {
                AuthenticateStep::Ready
            } else {
                AuthenticateStep::Fetch
            },
    {
        if self.is_authenticated() {
            AuthenticateStep::Ready
        } else {
            AuthenticateStep::Fetch
        }
    }

    /// A task now lists the models.
    pub fn restart_fetch_models_task(&mut self)
        requires
            old(self).wf(),
        ensures
            final(self).wf(),
            final(self).fetching,
            final(self).fetched_models == old(self).fetched_models,
            final(self).following == old(self).following,
            final(self).capability_cells == old(self).capability_cells,
            final(self).loading_progress == old(self).loading_progress,
    {
        self.fetching = true;
    }

    /// Takes in what the server answered when it was asked for its models,
    /// and tells what becomes of the task that follows its events. A router
    /// is followed, another server is not.
    pub fn fetch_models(
        &mut self,
        entries: Result<Vec<ModelEntry>, FetchFailure>,
        settings: &GLMSettings,
    ) -> (r: Result<FollowOrder, FetchFailure>)
        requires
            old(self).wf(),
        ensures
            final(self).wf(),
            final(self).fetching == old(self).fetching,
            match entries {
                Err(failure) => {
                    &&& r == Err::<FollowOrder, FetchFailure>(failure)
                    &&& final(self).fetched_models@.len() == 0
                    &&& final(self).following == old(self).following
                    &&& final(self).capability_cells@ == old(self).capability_cells@
                    &&& final(self).loading_progress@ == old(self).loading_progress@
                },
                Ok(list) => {
                    &&& r == Ok::<FollowOrder, FetchFailure>(
                        if !any_router(list@) {
                            FollowOrder::Stop
                        } else if old(self).following {
                            FollowOrder::Keep
                        } else {
                            FollowOrder::Start
                        },
                    )
                    &&& list_views(final(self).fetched_models@) == entry_models(list@)
                    &&& final(self).following == any_router(list@)
                    &&& final(self).capability_cells@ == with_capabilities(
                        old(self).capability_cells@,
                        effective(entry_models(list@), settings@),
                    )
                    &&& final(self).loading_progress@ == old(self).loading_progress@.restrict(
                        loading_ids(list@),
                    )
                },
            },
    {
        match entries {
            Err(failure) => {
                self.fetched_models.clear();
                Err(failure)
            },
            Ok(list) => {
                let router = is_router(&list);
                let ids = loading_list(&list);
                self.fetched_models = models_from(&list);
                let effective_models = compute_effective_models(&self.fetched_models, settings);
                let ghost cells = self.capability_cells@;
                sync_capability_cells(&mut self.capability_cells, &effective_models);
                proof {
                    let known = list_views(self.fetched_models@);
                    lemma_named(known, settings@);
                    law_named_models_settle_the_cells(
                        cells,
                        self.capability_cells@,
                        effective(known, settings@),
                    );
                }
                self.loading_progress.retain(&ids);
                let order = if !router {
                    FollowOrder::Stop
                } else if self.following {
                    FollowOrder::Keep
                } else {
                    FollowOrder::Start
                };
                self.following = router;
                Ok(order)
            },
        }
    }

    /// Takes in an event of the server, and tells what it asks for and, where
    /// a load failed, what is logged. Progress of a load is noted; where the
    /// models have changed, the progress is forgotten and they are listed
    /// again.
    pub fn on_model_event(&mut self, event: &ModelEvent) -> (r: (EventStep, Option<String>))
        requires
            old(self).wf(),
        ensures
            final(self).wf(),
            text::opt_view(r.1) == failure_log(*event),
            final(self).fetched_models == old(self).fetched_models,
            final(self).following == old(self).following,
            final(self).capability_cells == old(self).capability_cells,
            match models::reported_progress(*event) {
                Some(p) => {
                    &&& r.0 == EventStep::Notify
                    &&& final(self).fetching == old(self).fetching
                    &&& final(self).loading_progress@.dom() =~= old(
                        self,
                    ).loading_progress@.dom().insert(event.model@)
                    &&& final(self).loading_progress@[event.model@]@ == models::load_label(p)
                    &&& forall|k: Seq<char>|
                        k != event.model@ && old(self).loading_progress@.contains_key(k)
                            ==> #[trigger] final(self).loading_progress@[k]
                            == old(self).loading_progress@[k]
                },
                None => if models::changes_state(*event) {
                    &&& r.0 == EventStep::Refetch
                    &&& final(self).fetching
                    &&& final(self).loading_progress@ == old(self).loading_progress@.remove(
                        event.model@,
                    )
                } else {
                    &&& r.0 == EventStep::Continue
                    &&& final(self).fetching == old(self).fetching
                    &&& final(self).loading_progress@ == old(self).loading_progress@
                },
            },
    {
        let log = match event.load_failure() {
            Some(code) => {
                let mut out = copy_str("GLM model ");
                out.append(event.model.as_str());
                out.append(" failed to load (exit code ");
                let digits = decimal_of_i64(code as i64);
                out.append(digits.as_str());
                out.append(")");
                Some(out)
            },
            None => None,
        };
        if let Some(progress) = event.load_progress() {
            let shown = progress.progress_label();
            self.loading_progress.insert(copy_str(event.model.as_str()), shown);
            return (EventStep::Notify, log);
        }
        if !event.changes_model_state() {
            return (EventStep::Continue, log);
        }
        self.loading_progress.remove(event.model.as_str());
        self.restart_fetch_models_task();
        (EventStep::Refetch, log)
    }

    /// Takes in a change of the settings, and tells what it asks for. On any
    /// change the models that the server told of are forgotten; with another
    /// address, so is what was known of the server there.
    pub fn on_settings(&mut self, last: &GLMSettings, now: &GLMSettings) -> (step: SettingsStep)
        requires
            old(self).wf(),
        ensures
            final(self).wf(),
            final(self).capability_cells == old(self).capability_cells,
            if last@ == now@ {
                &&& step == SettingsStep::Unchanged
                &&& final(self).fetched_models == old(self).fetched_models
                &&& final(self).fetching == old(self).fetching
                &&& final(self).following == old(self).following
                &&& final(self).loading_progress == old(self).loading_progress
            } else {
                &&& final(self).fetched_models@.len() == 0
                &&& !final(self).fetching
                &&& if last.api_url@ == now.api_url@ {
                    &&& step == SettingsStep::Refresh
                    &&& final(self).following == old(self).following
                    &&& final(self).loading_progress == old(self).loading_progress
                } else {
                    &&& step == SettingsStep::Rekey(
                        if old(self).fetched_models@.len() > 0 {
                            AuthenticateStep::Ready
                        } else {
                            AuthenticateStep::Fetch
                        },
                    )
                    &&& !final(self).following
                    &&& final(self).loading_progress@ == Map::<Seq<char>, String>::empty()
                }
            },
    {
        if same_settings(last, now) {
            return SettingsStep::Unchanged;
        }
        let step = if str_eq(last.api_url.as_str(), now.api_url.as_str()) {
            SettingsStep::Refresh
        } else {
            self.following = false;
            self.loading_progress.clear();
            SettingsStep::Rekey(self.authenticate())
        };
        self.fetched_models.clear();
        self.fetching = false;
        step
    }

    /// The models of the provider, in the order of their names in the list.
    /// What they can do is written to the cells.
    pub fn provided_models(&mut self, settings: &GLMSettings) -> (out: Vec<GLMLanguageModel>)
        requires
            old(self).wf(),
        ensures
            final(self).wf(),
            final(self).fetched_models == old(self).fetched_models,
            final(self).fetching == old(self).fetching,
            final(self).following == old(self).following,
            final(self).loading_progress == old(self).loading_progress,
            final(self).capability_cells@ == with_capabilities(
                old(self).capability_cells@,
                effective(list_views(old(self).fetched_models@), settings@),
            ),
            lists_all(
                card_views(out@),
                effective(list_views(old(self).fetched_models@), settings@),
            ),
            in_order(card_views(out@), old(self).loading_progress@),
    {
        let effective_models = compute_effective_models(&self.fetched_models, settings);
        let ghost cells = self.capability_cells@;
        sync_capability_cells(&mut self.capability_cells, &effective_models);
        proof {
            let known = list_views(self.fetched_models@);
            lemma_named(known, settings@);
            law_named_models_settle_the_cells(
                cells,
                self.capability_cells@,
                effective(known, settings@),
            );
        }
        sorted_cards(effective_models, &self.loading_progress)
    }
}

/// What is logged of an event: a failed load.
pub open spec fn failure_log(event: ModelEvent) -> Option<Seq<char>> {
    match models::failed_load(event) {
        Some(code) => Some(
            "GLM model "@ + event.model@ + " failed to load (exit code "@ + text::decimal_int(
                code as int,
            ) + ")"@,
        ),
        None => None,
    }
}

/// Whether a failure has a refused connection among its causes.
pub open spec fn was_refused(failure: FetchFailure) -> bool {
    failure.refused_causes@.contains(true)
}

fn any_refused(failure: &FetchFailure) -> (r: bool)
    ensures
        r == was_refused(*failure),
{
    let mut i: usize = 0;
    while i < failure.refused_causes.len()
        invariant
            i <= failure.refused_causes@.len(),
            forall|k: int| 0 <= k < i ==> !#[trigger] failure.refused_causes@[k],
        decreases failure.refused_causes@.len() - i,
    {
        if failure.refused_causes[i] {
            assert(failure.refused_causes@[i as int]);
            return true;
        }
        i = i + 1;
    }
    false
}

/// What an authentication comes to, once the models were asked for.
pub fn authenticate_result(fetched: Result<(), FetchFailure>) -> (r: Result<(), AuthenticateError>)
    ensures
        match fetched {
            Ok(()) => r is Ok,
            Err(failure) => if was_refused(failure) {
                r matches Err(e) && e is ConnectionRefused
            } else {
                r matches Err(AuthenticateError::Other(e)) && e@ == failure.error@
            },
        },
{
    match fetched {
        Ok(()) => Ok(()),
        Err(failure) => {
            if any_refused(&failure) {
                Err(AuthenticateError::ConnectionRefused)
            } else {
                Err(AuthenticateError::Other(failure.error))
            }
        },
    }
}

// ---- the list of models ---------------------------------------------------------------

/// Models of the provider by their contents.
pub open spec fn card_views(cards: Seq<GLMLanguageModel>) -> Seq<CardView> {
    cards.map_values(|c: GLMLanguageModel| c@)
}

/// Each of the models is listed once, and nothing else.
pub open spec fn lists_all(cards: Seq<CardView>, m: Map<Seq<char>, models::ModelView>) -> bool {
    &&& forall|i: int|
        0 <= i < cards.len() ==> m.contains_key((#[trigger] cards[i]).id) && cards[i] == card(
            m[cards[i].id],
        )
    &&& forall|k: Seq<char>| #[trigger]
        m.contains_key(k) ==> exists|i: int| 0 <= i < cards.len() && (#[trigger] cards[i]).id == k
    &&& forall|i: int, j: int|
        0 <= i < j < cards.len() ==> (#[trigger] cards[i]).id != (#[trigger] cards[j]).id
}

/// The models stand in the order of their names in the list.
pub open spec fn in_order(cards: Seq<CardView>, progress: Map<Seq<char>, String>) -> bool {
    forall|i: int, j: int|
        0 <= i < j < cards.len() ==> text::text_le(
            listed_name(progress, #[trigger] cards[i]),
            listed_name(progress, #[trigger] cards[j]),
        )
}

/// Every model stands under its own name.
pub open spec fn named(m: Map<Seq<char>, models::ModelView>) -> bool {
    forall|k: Seq<char>| #[trigger] m.contains_key(k) ==> m[k].name == k
}

proof fn lemma_discovered_named(fetched: Seq<models::ModelView>, window: Option<u64>)
    ensures
        named(discovered(fetched, window)),
    decreases fetched.len(),
{
    if fetched.len() > 0 {
        lemma_discovered_named(fetched.drop_last(), window);
    }
}

proof fn lemma_settings_named(
    m: Map<Seq<char>, models::ModelView>,
    available: Seq<AvailableView>,
    window: Option<u64>,
)
    requires
        named(m),
    ensures
        named(with_settings(m, available, window)),
        forall|k: Seq<char>| #[trigger]
            m.contains_key(k) ==> with_settings(m, available, window).contains_key(k),
    decreases available.len(),
{
    if available.len() > 0 {
        lemma_settings_named(m, available.drop_last(), window);
    }
}

proof fn lemma_named(fetched: Seq<models::ModelView>, s: SettingsView)
    ensures
        named(effective(fetched, s)),
{
    lemma_discovered_named(fetched, s.context_window);
    let found = if s.auto_discover {
        discovered(fetched, s.context_window)
    } else {
        Map::empty()
    };
    lemma_settings_named(with_defaults(found), s.available_models, s.context_window);
}

/// Puts a model at its place in the order.
fn insert_card(
    cards: &mut Vec<GLMLanguageModel>,
    new: GLMLanguageModel,
    progress: &TextMap<String>,
) -> (at: usize)
    requires
        progress.wf(),
        in_order(card_views(old(cards)@), progress@),
    ensures
        at <= old(cards)@.len(),
        final(cards)@ == old(cards)@.insert(at as int, new),
        in_order(card_views(final(cards)@), progress@),
{
    let ghost before = card_views(cards@);
    let ghost all = cards@;
    let ghost v = new@;
    let key = new.name(progress);
    let mut at: usize = 0;
    let mut going = true;
    while at < cards.len() && going
        invariant
            at <= cards@.len(),
            cards@ == all,
            before == card_views(all),
            progress.wf(),
            key@ == listed_name(progress@, v),
            forall|k: int|
                0 <= k < at ==> text::text_le(listed_name(progress@, #[trigger] before[k]), key@),
            !going ==> at < cards@.len() && !text::text_le(
                listed_name(progress@, before[at as int]),
                key@,
            ),
        decreases cards@.len() - at, (if going { 1int } else { 0int }),
    {
        let other = cards[at].name(progress);
        assert(cards@[at as int]@ == before[at as int]);
        if str_le(other.as_str(), key.as_str()) {
            at = at + 1;
        } else {
            going = false;
        }
    }
    cards.insert(at, new);
    proof {
        let after = card_views(cards@);
        assert(after =~= before.insert(at as int, v));
        assert forall|i: int, j: int| 0 <= i < j < after.len() implies text::text_le(
            listed_name(progress@, #[trigger] after[i]),
            listed_name(progress@, #[trigger] after[j]),
        ) by {
            let i2 = if i < at { i } else { i - 1 };
            let j2 = if j < at { j } else { j - 1 };
            if i != at && j != at {
                assert(after[i] == before[i2] && after[j] == before[j2]);
            } else if j == at {
                assert(after[i] == before[i]);
            } else {
                let first = listed_name(progress@, before[at as int]);
                text::lemma_le_total(first, key@);
                assert(after[j] == before[j2]);
                if j2 > at {
                    assert(text::text_le(
                        listed_name(progress@, before[at as int]),
                        listed_name(progress@, before[j2]),
                    ));
                    text::lemma_le_transitive(key@, first, listed_name(progress@, before[j2]));
                }
            }
        }
    }
    at
}

proof fn lemma_lists_insert(
    cards: Seq<CardView>,
    m: Map<Seq<char>, models::ModelView>,
    at: int,
    key: Seq<char>,
    v: models::ModelView,
)
    requires
        lists_all(cards, m),
        0 <= at <= cards.len(),
        !m.contains_key(key),
        v.name == key,
    ensures
        lists_all(cards.insert(at, card(v)), m.insert(key, v)),
{
    let after = cards.insert(at, card(v));
    let n = m.insert(key, v);
    assert forall|i: int| 0 <= i < after.len() implies n.contains_key((#[trigger] after[i]).id)
        && after[i] == card(n[after[i].id]) by {
        if i != at {
            let i2 = if i < at { i } else { i - 1 };
            assert(after[i] == cards[i2]);
            assert(m.contains_key(cards[i2].id));
        }
    }
    assert forall|k: Seq<char>| #[trigger] n.contains_key(k) implies exists|i: int|
        0 <= i < after.len() && (#[trigger] after[i]).id == k by {
        if k == key {
            assert(after[at].id == k);
        } else {
            assert(m.contains_key(k));
            let i2 = choose|i2: int| 0 <= i2 < cards.len() && (#[trigger] cards[i2]).id == k;
            let i = if i2 < at { i2 } else { i2 + 1 };
            assert(after[i] == cards[i2]);
        }
    }
    assert forall|i: int, j: int| 0 <= i < j < after.len() implies (#[trigger] after[i]).id
        != (#[trigger] after[j]).id by {
        let i2 = if i < at { i } else { i - 1 };
        let j2 = if j < at { j } else { j - 1 };
        if i != at {
            assert(after[i] == cards[i2]);
            assert(m.contains_key(cards[i2].id));
        }
        if j != at {
            assert(after[j] == cards[j2]);
            assert(m.contains_key(cards[j2].id));
        }
    }
}

/// The models in the order of their names in the list.
fn sorted_cards(models: TextMap<Model>, progress: &TextMap<String>) -> (out: Vec<GLMLanguageModel>)
    requires
        models.wf(),
        progress.wf(),
        named(model_views(models@)),
    ensures
        lists_all(card_views(out@), model_views(models@)),
        in_order(card_views(out@), progress@),
{
    let ghost m = models@;
    let ghost entries = models.entry_seq();
    proof {
        models.lemma_entries();
    }
    let mut out: Vec<GLMLanguageModel> = Vec::new();
    let mut i: usize = 0;
    while i < models.len()
        invariant
            i <= entries.len(),
            entries == models.entry_seq(),
            models.wf(),
            progress.wf(),
            m == text_map::entries_map(entries),
            named(model_views(m)),
            text_map::keys_distinct(entries),
            in_order(card_views(out@), progress@),
            lists_all(
                card_views(out@),
                model_views(text_map::entries_map(entries.take(i as int))),
            ),
        decreases entries.len() - i,
    {
        let (name, model) = models.entry(i);
        let ghost before = card_views(out@);
        let ghost part = text_map::entries_map(entries.take(i as int));
        let new = GLMLanguageModel::of(model);
        proof {
            assert(entries.take(i + 1).drop_last() =~= entries.take(i as int));
            lemma_fresh_key(entries, i as int);
            text_map::lemma_entries_map(entries);
            assert(m.contains_key(entries[i as int].0@));
            assert(model_views(m).contains_key(name@) && model_views(m)[name@] == model@);
        }
        let at = insert_card(&mut out, new, progress);
        proof {
            assert(card_views(out@) =~= before.insert(at as int, new@));
            lemma_views_insert(part, name@, *model);
            lemma_lists_insert(before, model_views(part), at as int, name@, model@);
        }
        i = i + 1;
    }
    assert(entries.take(entries.len() as int) =~= entries);
    out
}

proof fn lemma_fresh_key(entries: Seq<(String, Model)>, i: int)
    requires
        text_map::keys_distinct(entries),
        0 <= i < entries.len(),
    ensures
        !model_views(text_map::entries_map(entries.take(i))).contains_key(entries[i].0@),
{
    let part = entries.take(i);
    assert(text_map::keys_distinct(part)) by {
        assert forall|a: int, b: int| 0 <= a < b < part.len() implies (#[trigger] part[a]).0@
            != (#[trigger] part[b]).0@ by {
            assert(part[a] == entries[a] && part[b] == entries[b]);
        }
    }
    text_map::lemma_entries_map(part);
    if text_map::entries_map(part).contains_key(entries[i].0@) {
        let k = choose|k: int| 0 <= k < part.len() && (#[trigger] part[k]).0@ == entries[i].0@;
        assert(entries[k].0@ != entries[i].0@);
    }
}

// ---- laws -------------------------------------------------------------------------------

/// The built-in models are always there, whatever the server tells and the
/// user configures.
pub proof fn law_built_in_models_are_there(fetched: Seq<models::ModelView>, s: SettingsView)
    ensures
        effective(fetched, s).contains_key("glm-5.3-flash"@),
        effective(fetched, s).contains_key("glm-5.3"@),
        effective(fetched, s).contains_key("glm-5.2"@),
{
    lemma_discovered_named(fetched, s.context_window);
    let found = if s.auto_discover {
        discovered(fetched, s.context_window)
    } else {
        Map::empty()
    };
    lemma_settings_named(with_defaults(found), s.available_models, s.context_window);
    assert(with_defaults(found).contains_key("glm-5.3-flash"@));
    assert(with_defaults(found).contains_key("glm-5.3"@));
    assert(with_defaults(found).contains_key("glm-5.2"@));
}

/// Every model stands under its own name.
pub proof fn law_models_stand_under_their_names(fetched: Seq<models::ModelView>, s: SettingsView)
    ensures
        named(effective(fetched, s)),
{
    lemma_named(fetched, s);
}

/// What the user configured last for a model holds, whatever the server tells
/// of it; its context size does unless one is configured for the provider.
pub proof fn law_configured_model_holds(
    fetched: Seq<models::ModelView>,
    s: SettingsView,
    a: AvailableView,
)
    requires
        s.available_models.len() > 0,
        s.available_models.last() == a,
    ensures
        effective(fetched, s).contains_key(a.name),
        a.display_name is Some ==> effective(fetched, s)[a.name].display_name == a.display_name,
        a.supports_tools is Some ==> effective(fetched, s)[a.name].supports_tools
            == a.supports_tools->0,
        a.supports_images is Some ==> effective(fetched, s)[a.name].supports_images
            == a.supports_images->0,
        a.supports_thinking is Some ==> effective(fetched, s)[a.name].supports_thinking
            == a.supports_thinking->0,
        s.context_window is None ==> effective(fetched, s)[a.name].max_tokens == a.max_tokens,
{
}

/// Without discovery, what the server tells changes nothing.
pub proof fn law_discovery_can_be_turned_off(
    one: Seq<models::ModelView>,
    other: Seq<models::ModelView>,
    s: SettingsView,
)
    requires
        !s.auto_discover,
    ensures
        effective(one, s) == effective(other, s),
{
}

/// A model that is listed can do what its cell, written when it was listed,
/// tells.
pub proof fn law_cells_follow_the_list(
    cells: Map<Seq<char>, LiveCapabilities>,
    m: Map<Seq<char>, models::ModelView>,
    k: Seq<char>,
)
    requires
        named(m),
        m.contains_key(k),
    ensures
        current(with_capabilities(cells, m), card(m[k])) == live(m[k]),
{
}

/// The address that is configured is used as it is, and the default one where
/// none is.
pub proof fn law_configured_address_is_used(s: SettingsView)
    ensures
        s.api_url.len() > 0 ==> configured_url(s) == s.api_url,
        s.api_url.len() == 0 ==> configured_url(s) == GLM_API_URL@,
{
}

proof fn lemma_base_after(dir: Seq<char>, sep: char, name: Seq<char>, i: int)
    requires
        sep == '/' || sep == '\\',
        !name.contains('/'),
        !name.contains('\\'),
        0 <= i <= name.len(),
    ensures
        base_start(dir.push(sep) + name, dir.len() + 1 + i) == dir.len() + 1,
        base_start(name, i) == 0,
    decreases i,
{
    if i > 0 {
        lemma_base_after(dir, sep, name, i - 1);
        assert((dir.push(sep) + name)[dir.len() + i] == name[i - 1]);
    } else {
        assert((dir.push(sep) + name)[dir.len() as int] == sep);
    }
}

/// A model is shown under the last component of its id, whatever directory
/// stands before it, without the extension of a model file: of a name with the
/// extension all that stands before it, and any other name whole.
pub proof fn law_last_component_is_shown(dir: Seq<char>, sep: char, name: Seq<char>)
    requires
        sep == '/' || sep == '\\',
        !name.contains('/'),
        !name.contains('\\'),
    ensures
        name_from_id(dir.push(sep) + name) == name_from_id(name),
        name_from_id(name + ".gguf"@) == name,
        !text::ends_with(name, ".gguf"@) ==> name_from_id(name) == name,
{
    reveal_strlit(".gguf");
    let n = name.len() as int;
    let full = name + ".gguf"@;
    lemma_base_after(dir, sep, name, n);
    assert((dir.push(sep) + name).skip(dir.len() as int + 1) =~= name);
    assert(name.skip(0) =~= name);
    assert(!full.contains('/')) by {
        if full.contains('/') {
            let i = full.index_of('/');
            assert(i < n ==> name[i] == '/');
        }
    }
    assert(!full.contains('\\')) by {
        if full.contains('\\') {
            let i = full.index_of('\\');
            assert(i < n ==> name[i] == '\\');
        }
    }
    lemma_base_after(dir, sep, full, full.len() as int);
    assert(full.skip(0) =~= full);
    assert(full.subrange(n, n + 5) =~= ".gguf"@);
    assert(full.take(n) =~= name);
}

/// An entry tells of the model with its id: the context size of a slot, else
/// that of the training, else an assumed one. A model that is not loaded is
/// taken to call tools, and none is taken to think.
pub proof fn law_entry_tells_of_its_model(entry: ModelEntry)
    ensures
        ({
            let m = entry_model(entry);
            &&& m.name == entry.id@
            &&& entry.meta matches Some(meta) ==> {
                &&& meta.n_ctx is Some ==> m.max_tokens == meta.n_ctx->0
                &&& meta.n_ctx is None && meta.n_ctx_train is Some ==> m.max_tokens
                    == meta.n_ctx_train->0
                &&& meta.n_ctx is None && meta.n_ctx_train is None ==> m.max_tokens == 131_072
            }
            &&& entry.meta is None ==> m.max_tokens == 131_072
            &&& m.supports_tools == (entry.status is None || entry.status->0.value@ != "loaded"@)
            &&& m.supports_images == models::hints_images(entry)
            &&& !m.supports_thinking
            &&& m.display_name == Some(name_from_id(entry.id@))
        }),
{
}

/// No model of the list has the name.
pub open spec fn none_named(l: Seq<models::ModelView>, name: Seq<char>) -> bool {
    forall|i: int| 0 <= i < l.len() ==> (#[trigger] l[i]).name != name
}

/// No model of that name is configured.
pub open spec fn none_configured(l: Seq<AvailableView>, name: Seq<char>) -> bool {
    forall|i: int| 0 <= i < l.len() ==> (#[trigger] l[i]).name != name
}

proof fn lemma_discovered(fetched: Seq<models::ModelView>, window: Option<u64>, name: Seq<char>)
    ensures
        none_named(fetched, name) ==> !discovered(fetched, window).contains_key(name),
        forall|k: int|
            0 <= k < fetched.len() && (#[trigger] fetched[k]).name == name && none_named(
                fetched.skip(k + 1),
                name,
            ) ==> discovered(fetched, window).contains_key(name) && discovered(
                fetched,
                window,
            )[name] == with_window(fetched[k], window),
    decreases fetched.len(),
{
    if fetched.len() > 0 {
        let rest = fetched.drop_last();
        let n = fetched.len() - 1;
        lemma_discovered(rest, window, name);
        if none_named(fetched, name) {
            assert forall|i: int| 0 <= i < rest.len() implies (#[trigger] rest[i]).name != name by {
                assert(rest[i] == fetched[i]);
            }
            assert(fetched[n].name != name);
        }
        assert forall|k: int|
            0 <= k < fetched.len() && (#[trigger] fetched[k]).name == name && none_named(
                fetched.skip(k + 1),
                name,
            ) implies discovered(fetched, window).contains_key(name) && discovered(
            fetched,
            window,
        )[name] == with_window(fetched[k], window) by {
            if k < n {
                let behind = fetched.skip(k + 1);
                assert(behind[n - k - 1] == fetched[n]);
                assert(rest[k] == fetched[k]);
                assert forall|i: int| 0 <= i < rest.skip(k + 1).len() implies (
                #[trigger] rest.skip(k + 1)[i]).name != name by {
                    assert(rest.skip(k + 1)[i] == behind[i]);
                }
            }
        }
    }
}

proof fn lemma_unconfigured_stays(
    m: Map<Seq<char>, models::ModelView>,
    available: Seq<AvailableView>,
    window: Option<u64>,
    name: Seq<char>,
)
    requires
        none_configured(available, name),
    ensures
        with_settings(m, available, window).contains_key(name) == m.contains_key(name),
        m.contains_key(name) ==> with_settings(m, available, window)[name] == m[name],
    decreases available.len(),
{
    if available.len() > 0 {
        let rest = available.drop_last();
        assert forall|i: int| 0 <= i < rest.len() implies (#[trigger] rest[i]).name != name by {
            assert(rest[i] == available[i]);
        }
        lemma_unconfigured_stays(m, rest, window, name);
        assert(available[available.len() - 1].name != name);
    }
}

/// A model that the server tells of is there as it was told of, where it is to
/// be discovered and nothing is configured for it; its context size is that of
/// the provider, where one is configured. Of two of one name the later one is.
pub proof fn law_discovered_model_is_there(
    fetched: Seq<models::ModelView>,
    s: SettingsView,
    k: int,
)
    requires
        s.auto_discover,
        0 <= k < fetched.len(),
        none_named(fetched.skip(k + 1), fetched[k].name),
        none_configured(s.available_models, fetched[k].name),
    ensures
        effective(fetched, s).contains_key(fetched[k].name),
        ({
            let m = effective(fetched, s)[fetched[k].name];
            &&& m.name == fetched[k].name
            &&& m.display_name == fetched[k].display_name
            &&& s.context_window is None ==> m.max_tokens == fetched[k].max_tokens
            &&& s.context_window is Some ==> m.max_tokens == s.context_window->0
            &&& m.supports_tools == fetched[k].supports_tools
            &&& m.supports_images == fetched[k].supports_images
            &&& m.supports_thinking == fetched[k].supports_thinking
        }),
{
    let name = fetched[k].name;
    lemma_discovered(fetched, s.context_window, name);
    let found = discovered(fetched, s.context_window);
    lemma_unconfigured_stays(with_defaults(found), s.available_models, s.context_window, name);
}

/// The name of a built-in model, and how it is shown.
pub open spec fn is_built_in(name: Seq<char>, shown: Seq<char>) -> bool {
    ||| name == "glm-5.3-flash"@ && shown == "GLM-5.3 Flash"@
    ||| name == "glm-5.3"@ && shown == "GLM-5.3"@
    ||| name == "glm-5.2"@ && shown == "GLM-5.2"@
}

/// A built-in model that neither the server tells of nor the user configures
/// calls tools, thinks, takes no images and has a context of 131072 tokens.
pub proof fn law_built_in_model_is_as_it_was_made(
    fetched: Seq<models::ModelView>,
    s: SettingsView,
    name: Seq<char>,
    shown: Seq<char>,
)
    requires
        is_built_in(name, shown),
        !s.auto_discover || none_named(fetched, name),
        none_configured(s.available_models, name),
    ensures
        effective(fetched, s).contains_key(name),
        ({
            let m = effective(fetched, s)[name];
            &&& m.name == name
            &&& m.display_name == Some(shown)
            &&& m.max_tokens == 131_072
            &&& m.supports_tools
            &&& !m.supports_images
            &&& m.supports_thinking
        }),
{
    reveal_strlit("glm-5.3-flash");
    reveal_strlit("glm-5.3");
    reveal_strlit("glm-5.2");
    assert("glm-5.3-flash"@.len() == 13 && "glm-5.3"@.len() == 7 && "glm-5.2"@.len() == 7);
    assert("glm-5.3"@[6] != "glm-5.2"@[6]);
    lemma_discovered(fetched, s.context_window, name);
    let found = if s.auto_discover {
        discovered(fetched, s.context_window)
    } else {
        Map::empty()
    };
    assert(!found.contains_key(name));
    lemma_unconfigured_stays(with_defaults(found), s.available_models, s.context_window, name);
}

/// Nothing is there but what the server tells of, the built-in models and what
/// the user configured.
pub proof fn law_no_other_model_is_there(
    fetched: Seq<models::ModelView>,
    s: SettingsView,
    name: Seq<char>,
)
    requires
        none_named(fetched, name),
        none_configured(s.available_models, name),
        forall|shown: Seq<char>| !#[trigger] is_built_in(name, shown),
    ensures
        !effective(fetched, s).contains_key(name),
{
    assert(!is_built_in(name, "GLM-5.3 Flash"@));
    assert(!is_built_in(name, "GLM-5.3"@));
    assert(!is_built_in(name, "GLM-5.2"@));
    lemma_discovered(fetched, s.context_window, name);
    let found = if s.auto_discover {
        discovered(fetched, s.context_window)
    } else {
        Map::empty()
    };
    lemma_unconfigured_stays(with_defaults(found), s.available_models, s.context_window, name);
}

proof fn lemma_configured_once(
    m: Map<Seq<char>, models::ModelView>,
    available: Seq<AvailableView>,
    window: Option<u64>,
    k: int,
)
    requires
        0 <= k < available.len(),
        none_configured(available.take(k), available[k].name),
        none_configured(available.skip(k + 1), available[k].name),
    ensures
        with_settings(m, available, window).contains_key(available[k].name),
        with_settings(m, available, window)[available[k].name] == with_setting(
            m,
            available[k],
            window,
        )[available[k].name],
    decreases available.len(),
{
    let rest = available.drop_last();
    let n = available.len() - 1;
    let name = available[k].name;
    if k == n {
        assert(available.take(k) =~= rest);
        lemma_unconfigured_stays(m, rest, window, name);
    } else {
        assert(available.skip(k + 1)[n - k - 1] == available[n]);
        assert(rest.take(k) =~= available.take(k));
        assert forall|i: int| 0 <= i < rest.skip(k + 1).len() implies (#[trigger] rest.skip(
            k + 1,
        )[i]).name != name by {
            assert(rest.skip(k + 1)[i] == available.skip(k + 1)[i]);
        }
        lemma_configured_once(m, rest, window, k);
    }
}

/// A model that the user configures takes what is configured for it, and keeps
/// all else that it had without that; what it had not, it does not do. Its
/// context size is the configured one, or that of the provider where there is
/// one: a model that was told of or built in then keeps the one it had.
pub proof fn law_configuring_changes_what_is_configured(
    fetched: Seq<models::ModelView>,
    s: SettingsView,
    k: int,
)
    requires
        0 <= k < s.available_models.len(),
        none_configured(s.available_models.take(k), s.available_models[k].name),
        none_configured(s.available_models.skip(k + 1), s.available_models[k].name),
    ensures
        ({
            let a = s.available_models[k];
            let without = SettingsView { available_models: Seq::empty(), ..s };
            let known = effective(fetched, without).contains_key(a.name);
            let was = effective(fetched, without)[a.name];
            let m = effective(fetched, s)[a.name];
            &&& effective(fetched, s).contains_key(a.name)
            &&& m.name == a.name
            &&& a.display_name is Some ==> m.display_name == a.display_name
            &&& a.display_name is None && known ==> m.display_name == was.display_name
            &&& a.display_name is None && !known ==> m.display_name is None
            &&& s.context_window is None ==> m.max_tokens == a.max_tokens
            &&& s.context_window is Some && known ==> m.max_tokens == was.max_tokens
            &&& s.context_window is Some && !known ==> m.max_tokens == s.context_window->0
            &&& a.supports_tools is Some ==> m.supports_tools == a.supports_tools->0
            &&& a.supports_tools is None ==> m.supports_tools == (known && was.supports_tools)
            &&& a.supports_images is Some ==> m.supports_images == a.supports_images->0
            &&& a.supports_images is None ==> m.supports_images == (known && was.supports_images)
            &&& a.supports_thinking is Some ==> m.supports_thinking == a.supports_thinking->0
            &&& a.supports_thinking is None ==> m.supports_thinking == (known
                && was.supports_thinking)
        }),
{
    let found = if s.auto_discover {
        discovered(fetched, s.context_window)
    } else {
        Map::empty()
    };
    lemma_named(fetched, s);
    lemma_configured_once(with_defaults(found), s.available_models, s.context_window, k);
}

/// A listed model is the one it was made of: under its name, shown as that
/// model is, with its context size and what it can do.
pub proof fn law_card_is_that_of_its_model(m: models::ModelView)
    ensures
        card(m).id == m.name,
        card(m).name == m.name,
        m.display_name is Some ==> card(m).display_name == m.display_name->0,
        m.display_name is None ==> card(m).display_name == m.name,
        card(m).images == m.supports_images,
        card(m).fallback.max_tokens == m.max_tokens,
        card(m).fallback.supports_tools == m.supports_tools,
        card(m).fallback.supports_thinking == m.supports_thinking,
{
}

/// What a model can do is what was written to its cell last; without a cell it
/// is what it could do when it was listed. Writing the cells of some models
/// changes those of no others.
pub proof fn law_cells_are_those_of_their_models(
    cells: Map<Seq<char>, LiveCapabilities>,
    m: Map<Seq<char>, models::ModelView>,
    c: CardView,
)
    ensures
        ({
            let now = current(with_capabilities(cells, m), c);
            &&& m.contains_key(c.name) ==> {
                &&& now.max_tokens == m[c.name].max_tokens
                &&& now.supports_tools == m[c.name].supports_tools
                &&& now.supports_thinking == m[c.name].supports_thinking
            }
            &&& !m.contains_key(c.name) && cells.contains_key(c.name) ==> now == cells[c.name]
            &&& !m.contains_key(c.name) && !cells.contains_key(c.name) ==> now == c.fallback
        }),
{
}

/// The list shows each model by its name alone, and with the label of its load
/// behind it while it is being loaded. The labels of others do not matter.
pub proof fn law_list_shows_the_load(
    progress: Map<Seq<char>, String>,
    c: CardView,
    other: Seq<char>,
    l: String,
)
    ensures
        listed_name(progress.remove(c.name), c) == c.display_name,
        listed_name(progress.insert(c.name, l), c) == c.display_name + " · "@ + l@,
        other != c.name ==> listed_name(progress.insert(other, l), c) == listed_name(progress, c),
{
}

/// A model that is being loaded is found by its id wherever it stands, and no
/// other is; a single entry with a status tells that the server is a router.
pub proof fn law_loading_models_are_found(entries: Seq<ModelEntry>, i: int, id: Seq<char>)
    ensures
        0 <= i < entries.len() && entries[i].status is Some ==> any_router(entries),
        (forall|k: int| 0 <= k < entries.len() ==> (#[trigger] entries[k]).status is None)
            ==> !any_router(entries),
        0 <= i < entries.len() && (entries[i].status matches Some(s) && s.value@ == "loading"@)
            ==> loading_ids(entries).contains(entries[i].id@),
        (forall|k: int|
            0 <= k < entries.len() && (#[trigger] entries[k]).id@ == id ==> entries[k].status
                is None || entries[k].status->0.value@ != "loading"@) ==> !loading_ids(
            entries,
        ).contains(id),
{
}

/// What is logged of a failed load names the model and its exit code; of any
/// other event nothing is.
pub proof fn law_failed_loads_are_logged(event: ModelEvent, code: i32)
    ensures
        models::failed_load(event) == Some(code) ==> failure_log(event) == Some(
            "GLM model "@ + event.model@ + " failed to load (exit code "@ + text::decimal_int(
                code as int,
            ) + ")"@,
        ),
        models::failed_load(event) is None ==> failure_log(event) is None,
{
}

/// A failure is that of a refused connection where one of its causes is,
/// whichever it is, and only there.
pub proof fn law_refused_cause_is_found(failure: FetchFailure, i: int)
    ensures
        0 <= i < failure.refused_causes@.len() && failure.refused_causes@[i] ==> was_refused(
            failure,
        ),
        (forall|k: int|
            0 <= k < failure.refused_causes@.len() ==> !#[trigger] failure.refused_causes@[k])
            ==> !was_refused(failure),
{
}

/// The events of the server are followed until the provider is gone, and no
/// longer. The stream is opened at once at first, and again after a while when
/// it has ended or could not be opened; any other event leads to the next.
pub proof fn law_feed_is_followed(event: FeedEvent, step: FeedStep)
    requires
        call_ensures(on_feed, (event,), step),
    ensures
        step is Stop <==> event is ProviderGone,
        event is Started ==> step == (FeedStep::Open { after_seconds: 0 }),
        event is Ended || event is Unavailable ==> step is Open && step->after_seconds == 5,
        step is Open ==> event is Started || event is Ended || event is Unavailable,
{
}

/// An authentication is done where a model is known, and fails only where the
/// models could not be listed, for the reason that was given or as a refused
/// connection.
pub proof fn law_authentication_tells_what_failed(
    s: State,
    step: AuthenticateStep,
    fetched: Result<(), FetchFailure>,
    r: Result<(), AuthenticateError>,
)
    requires
        call_ensures(State::authenticate, (&s,), step),
        call_ensures(authenticate_result, (fetched,), r),
    ensures
        step is Ready <==> s.fetched_models@.len() > 0,
        r is Ok <==> fetched is Ok,
        r matches Err(AuthenticateError::Other(e)) ==> e@ == fetched->Err_0.error@,
        r matches Err(e) ==> (e is ConnectionRefused <==> was_refused(fetched->Err_0)),
{
}

/// Settings are told apart by anything that they say.
pub proof fn law_settings_are_told_apart(a: &GLMSettings, b: &GLMSettings, same: bool)
    requires
        call_ensures(same_settings, (a, b), same),
    ensures
        same ==> {
            &&& a.api_url@ == b.api_url@
            &&& a.auto_discover == b.auto_discover
            &&& a.context_window == b.context_window
            &&& a.available_models@.len() == b.available_models@.len()
            &&& a.custom_headers@.len() == b.custom_headers@.len()
        },
        a@ == b@ ==> same,
        a.api_url@ != b.api_url@ || a.auto_discover != b.auto_discover || a.context_window
            != b.context_window ==> !same,
{
    if same {
        assert(available_views(a.available_models@).len() == a.available_models@.len());
        assert(available_views(b.available_models@).len() == b.available_models@.len());
        assert(header_views(a.custom_headers@).len() == a.custom_headers@.len());
        assert(header_views(b.custom_headers@).len() == b.custom_headers@.len());
    }
}

/// The address of the settings is used where there is one, and it counts as
/// another one unless it is the default.
pub proof fn law_address_of_the_settings(s: GLMSettings, url: String, custom: bool)
    requires
        call_ensures(GLMSettings::api_url, (&s,), url),
        call_ensures(GLMSettings::has_custom_url, (&s,), custom),
    ensures
        s.api_url@.len() > 0 ==> url@ == s.api_url@,
        s.api_url@.len() == 0 ==> url@ == GLM_API_URL@ && !custom,
        custom <==> url@ != GLM_API_URL@,
{
}

/// The name under which a model is shown is the last component of its id, and
/// telemetry tells it behind the name of the provider.
pub proof fn law_names_come_from_the_id(
    dir: Seq<char>,
    name: Seq<char>,
    id: &str,
    shown: String,
    told: String,
)
    requires
        !name.contains('/'),
        !name.contains('\\'),
        id@ == dir.push('/') + (name + ".gguf"@),
        call_ensures(display_name_for, (id,), shown),
        call_ensures(telemetry_id_for, (id,), told),
    ensures
        shown@ == name,
        told@ == "zagent.glm"@ + "/"@ + name,
{
    reveal_strlit(".gguf");
    let full = name + ".gguf"@;
    assert(!full.contains('/')) by {
        if full.contains('/') {
            let i = full.index_of('/');
            assert(i < name.len() ==> name[i] == '/');
        }
    }
    assert(!full.contains('\\')) by {
        if full.contains('\\') {
            let i = full.index_of('\\');
            assert(i < name.len() ==> name[i] == '\\');
        }
    }
    law_last_component_is_shown(dir, '/', full);
    law_last_component_is_shown(dir, '/', name);
}

/// What is computed from what the server told and from the settings are the
/// models that there are, and an entry gives the model that it tells of.
pub proof fn law_models_are_computed(
    fetched: &Vec<Model>,
    settings: &GLMSettings,
    r: TextMap<Model>,
    entry: &ModelEntry,
    m: Model,
)
    requires
        call_ensures(compute_effective_models, (fetched, settings), r),
        call_ensures(model_from_entry, (entry,), m),
    ensures
        model_views(r@) == effective(list_views(fetched@), settings@),
        m@ == entry_model(*entry),
{
}

/// A listed model is the one that it was made of, and tells what its cell holds
/// or, without one, what it could do when it was listed.
pub proof fn law_listed_model_tells_what_it_can_do(
    model: &Model,
    c: GLMLanguageModel,
    cells: &TextMap<LiveCapabilities>,
    choice: request::LanguageModelToolChoice,
    tools: bool,
    takes_choice: bool,
    thinks: bool,
    size: u64,
)
    requires
        call_ensures(GLMLanguageModel::of, (model,), c),
        call_ensures(GLMLanguageModel::supports_tools, (&c, cells), tools),
        call_ensures(GLMLanguageModel::supports_tool_choice, (&c, cells, choice), takes_choice),
        call_ensures(GLMLanguageModel::supports_thinking, (&c, cells), thinks),
        call_ensures(GLMLanguageModel::max_token_count, (&c, cells), size),
    ensures
        c.id@ == model.name@,
        c.name@ == model.name@,
        c.display_name@ == models::shown_name(model@),
        c.supports_images == model.supports_images,
        cells@.contains_key(model.name@) ==> {
            &&& tools == cells@[model.name@].supports_tools
            &&& size == cells@[model.name@].max_tokens
            &&& cells@[model.name@].supports_thinking ==> thinks
        },
        !cells@.contains_key(model.name@) ==> {
            &&& tools == model.supports_tools
            &&& size == model.max_tokens
            &&& model.supports_thinking ==> thinks
        },
        effort::effort_of(text::lowercase(model.name@)) is Some ==> thinks,
        takes_choice == tools,
{
}

/// The list shows a model by its display name, and with the label of its load
/// behind it exactly while there is one.
pub proof fn law_name_in_the_list(
    c: GLMLanguageModel,
    progress: &TextMap<String>,
    r: String,
    l: Option<String>,
)
    requires
        call_ensures(GLMLanguageModel::name, (&c, progress), r),
        call_ensures(GLMLanguageModel::loading_label, (&c, progress), l),
    ensures
        progress@.contains_key(c.name@) ==> l is Some && l->0@ == progress@[c.name@]@ && r@
            == c.display_name@ + " · "@ + progress@[c.name@]@,
        !progress@.contains_key(c.name@) ==> l is None && r@ == c.display_name@,
{
}

/// With another key nothing of the server is known any more, but for what the
/// cells hold, and its events are not followed.
pub proof fn law_new_key_forgets(s: &mut State, step: AuthenticateStep)
    requires
        call_ensures(State::set_api_key, (s,), ()),
        call_ensures(State::authenticate, (&*final(s),), step),
    ensures
        step is Fetch,
        !final(s).following,
        final(s).loading_progress@.dom().is_empty(),
        final(s).capability_cells@ == old(s).capability_cells@,
{
    assert(final(s).loading_progress@.dom() =~= Set::empty());
}

/// What the server answers becomes what is known of it: the model of each
/// entry, in order. It is followed exactly where it is a router. A failure is
/// handed back, and no model is known then.
pub proof fn law_answer_becomes_what_is_known(
    s: &mut State,
    list: Vec<ModelEntry>,
    settings: &GLMSettings,
    r: Result<FollowOrder, FetchFailure>,
    i: int,
)
    requires
        call_ensures(State::fetch_models, (s, Ok(list), settings), r),
    ensures
        final(s).fetched_models@.len() == list@.len(),
        0 <= i < list@.len() ==> final(s).fetched_models@[i]@ == entry_model(list@[i]),
        final(s).following <==> exists|k: int|
            0 <= k < list@.len() && (#[trigger] list@[k]).status is Some,
        r is Ok,
        r->Ok_0 is Stop <==> !final(s).following,
        r->Ok_0 is Keep <==> final(s).following && old(s).following,
        forall|k: Seq<char>|
            final(s).loading_progress@.contains_key(k) ==> old(s).loading_progress@.contains_key(k)
                && #[trigger] final(s).loading_progress@[k] == old(s).loading_progress@[k],
        forall|k: Seq<char>| #[trigger]
            final(s).loading_progress@.contains_key(k) <==> old(s).loading_progress@.contains_key(k)
                && loading_ids(list@).contains(k),
{
    let known = list_views(final(s).fetched_models@);
    assert(known.len() == final(s).fetched_models@.len());
    assert(entry_models(list@).len() == list@.len());
    if 0 <= i < list@.len() {
        assert(known[i] == final(s).fetched_models@[i]@);
        assert(entry_models(list@)[i] == entry_model(list@[i]));
    }
}

/// A failure to list the models is handed back, and no model is known then; the
/// cells and the progress of loads stay.
pub proof fn law_failed_listing_is_handed_back(
    s: &mut State,
    failure: FetchFailure,
    settings: &GLMSettings,
    r: Result<FollowOrder, FetchFailure>,
)
    requires
        call_ensures(State::fetch_models, (s, Err(failure), settings), r),
    ensures
        r == Err::<FollowOrder, FetchFailure>(failure),
        final(s).fetched_models@.len() == 0,
        final(s).following == old(s).following,
        final(s).capability_cells@ == old(s).capability_cells@,
        final(s).loading_progress@ == old(s).loading_progress@,
{
}

/// An event that tells of the progress of a load is noted under its model, and
/// under no other; one that changes the models has them listed again and that
/// model's progress forgotten; any other changes nothing.
pub proof fn law_event_is_taken_in(
    s: &mut State,
    event: &ModelEvent,
    r: (EventStep, Option<String>),
    other: Seq<char>,
)
    requires
        call_ensures(State::on_model_event, (s, event), r),
        other != event.model@,
    ensures
        final(s).loading_progress@.contains_key(other) == old(s).loading_progress@.contains_key(
            other,
        ),
        old(s).loading_progress@.contains_key(other) ==> final(s).loading_progress@[other]
            == old(s).loading_progress@[other],
        r.0 is Notify <==> models::reported_progress(*event) is Some,
        r.0 is Notify ==> final(s).loading_progress@.contains_key(event.model@)
            && final(s).loading_progress@[event.model@]@ == models::load_label(
            models::reported_progress(*event)->0,
        ),
        r.0 is Refetch ==> final(s).fetching && !final(s).loading_progress@.contains_key(
            event.model@,
        ),
        r.0 is Refetch <==> models::reported_progress(*event) is None && models::changes_state(
            *event,
        ),
        r.0 is Continue ==> final(s).loading_progress@ == old(s).loading_progress@
            && final(s).fetching == old(s).fetching,
        text::opt_view(r.1) == failure_log(*event),
        final(s).fetched_models == old(s).fetched_models,
        final(s).following == old(s).following,
{
}

/// Settings that say the same change nothing. On any change the models are
/// forgotten; with another address, what was known of the server there is too,
/// and its events are followed no more.
pub proof fn law_settings_that_change(
    s: &mut State,
    last: &GLMSettings,
    now: &GLMSettings,
    step: SettingsStep,
)
    requires
        call_ensures(State::on_settings, (s, last, now), step),
    ensures
        step is Unchanged <==> last@ == now@,
        last@ == now@ ==> *final(s) == *old(s),
        last@ != now@ ==> final(s).fetched_models@.len() == 0 && !final(s).fetching,
        last@ != now@ && last.api_url@ == now.api_url@ ==> step is Refresh && final(s).following
            == old(s).following && final(s).loading_progress == old(s).loading_progress,
        last.api_url@ != now.api_url@ ==> step is Rekey && !final(s).following
            && final(s).loading_progress@ == Map::<Seq<char>, String>::empty(),
{
}

/// All models that there are are listed, each once, in the order of the names
/// that the list shows.
pub proof fn law_all_models_are_listed(
    s: &mut State,
    settings: &GLMSettings,
    out: Vec<GLMLanguageModel>,
    k: Seq<char>,
    i: int,
    j: int,
)
    requires
        call_ensures(State::provided_models, (s, settings), out),
    ensures
        ({
            let m = effective(list_views(old(s).fetched_models@), settings@);
            &&& m.contains_key(k) ==> exists|n: int|
                0 <= n < out@.len() && (#[trigger] out@[n])@ == card(m[k])
            &&& 0 <= i < out@.len() ==> m.contains_key(out@[i].id@)
            &&& 0 <= i < j < out@.len() ==> out@[i].id@ != out@[j].id@ && text::text_le(
                listed_name(old(s).loading_progress@, out@[i]@),
                listed_name(old(s).loading_progress@, out@[j]@),
            )
        }),
        final(s).fetched_models == old(s).fetched_models,
        final(s).loading_progress == old(s).loading_progress,
{
    let m = effective(list_views(old(s).fetched_models@), settings@);
    let cards = card_views(out@);
    assert(cards.len() == out@.len());
    if m.contains_key(k) {
        let n = choose|n: int| 0 <= n < cards.len() && (#[trigger] cards[n]).id == k;
        assert(cards[n] == out@[n]@);
        assert(cards[n] == card(m[k]));
    }
    if 0 <= i < out@.len() {
        assert(cards[i] == out@[i]@);
    }
    if 0 <= j < out@.len() {
        assert(cards[j] == out@[j]@);
    }
}

} // verus!

//! The models that the gateway serves, and the events that tell of them.
use crate::glm::DEFAULT_CONTEXT_LENGTH;
use crate::text;
use crate::text::{copy_str, decimal_of, str_eq};
use vstd::prelude::*;

verus! {

/// A model, after what the server tells of it was merged with what the user
/// configured.
#[derive(Clone, Debug, Default, PartialEq)]
pub struct Model {
    pub name: String,
    pub display_name: Option<String>,
    pub max_tokens: u64,
    pub supports_tools: bool,
    pub supports_images: bool,
    pub supports_thinking: bool,
}

/// A model by its contents.
pub struct ModelView {
    pub name: Seq<char>,
    pub display_name: Option<Seq<char>>,
    pub max_tokens: u64,
    pub supports_tools: bool,
    pub supports_images: bool,
    pub supports_thinking: bool,
}

impl View for Model {
    type V = ModelView;

    open spec fn view(&self) -> ModelView {
        ModelView {
            name: self.name@,
            display_name: text::opt_view(self.display_name),
            max_tokens: self.max_tokens,
            supports_tools: self.supports_tools,
            supports_images: self.supports_images,
            supports_thinking: self.supports_thinking,
        }
    }
}

/// The name under which a model is shown.
pub open spec fn shown_name(m: ModelView) -> Seq<char> {
    match m.display_name {
        Some(n) => n,
        None => m.name,
    }
}

impl Model {
    /// A model with the given name and capabilities.
    pub fn new(
        name: &str,
        display_name: Option<&str>,
        max_tokens: Option<u64>,
        supports_tools: bool,
        supports_images: bool,
        supports_thinking: bool,
    ) -> (m: Model)
        ensures
            m.name@ == name@,
            match display_name {
                Some(n) => m.display_name matches Some(s) && s@ == n@,
                None => m.display_name is None,
            },
            m.max_tokens == (match max_tokens {
                Some(n) => n,
                None => DEFAULT_CONTEXT_LENGTH,
            }),
            m.supports_tools == supports_tools,
            m.supports_images == supports_images,
            m.supports_thinking == supports_thinking,
    {
        Model {
            name: copy_str(name),
            display_name: match display_name {
                Some(n) => Some(copy_str(n)),
                None => None,
            },
            max_tokens: match max_tokens {
                Some(n) => n,
                None => DEFAULT_CONTEXT_LENGTH,
            },
            supports_tools,
            supports_images,
            supports_thinking,
        }
    }

    /// The name under which the model is shown.
    pub fn display_name(&self) -> (r: &str)
        ensures
            r@ == shown_name(self@),
    {
        match &self.display_name {
            Some(n) => n.as_str(),
            None => self.name.as_str(),
        }
    }

    /// The same model once more.
    pub fn duplicate(&self) -> (m: Model)
        ensures
            m@ == self@,
    {
        Model {
            name: copy_str(self.name.as_str()),
            display_name: match &self.display_name {
                Some(n) => Some(copy_str(n.as_str())),
                None => None,
            },
            max_tokens: self.max_tokens,
            supports_tools: self.supports_tools,
            supports_images: self.supports_images,
            supports_thinking: self.supports_thinking,
        }
    }
}

/// The list of models that the server serves: one entry where it serves a
/// single model, every model that it knows where it is a router.
#[derive(Debug)]
pub struct ListModelsResponse {
    pub data: Vec<ModelEntry>,
}

/// What the server tells of a model.
#[derive(Clone, Debug, PartialEq)]
pub struct ModelEntry {
    pub id: String,
    /// Present where the server serves a single model.
    pub meta: Option<ModelMeta>,
    /// Present in router mode: the modalities that the model accepts.
    pub architecture: Option<Architecture>,
    /// Present in router mode: whether the model is loaded.
    pub status: Option<ModelStatus>,
    /// Capability flags, as the sidecar reports them.
    pub capabilities: Option<ModelCapabilities>,
}

/// Context sizes of a model.
#[derive(Clone, Debug, Default, PartialEq)]
pub struct ModelMeta {
    /// The size of a slot at run time.
    pub n_ctx: Option<u64>,
    /// The size that the model was trained with.
    pub n_ctx_train: Option<u64>,
}

/// The modalities that a model accepts.
#[derive(Clone, Debug, Default, PartialEq)]
pub struct Architecture {
    pub input_modalities: Vec<String>,
}

/// Capability flags of a model.
#[derive(Clone, Debug, PartialEq)]
pub struct ModelCapabilities {
    /// Whether the model accepts images.
    pub vision: Option<bool>,
}

/// Whether a model is loaded.
#[derive(Clone, Debug, PartialEq)]
pub struct ModelStatus {
    /// One of `loaded`, `loading`, `unloaded`, `downloading`, `downloaded`,
    /// `sleeping`.
    pub value: String,
}

/// The status of an entry is `value`.
pub open spec fn has_status(entry: ModelEntry, value: Seq<char>) -> bool {
    entry.status matches Some(s) && s.value@ == value
}

/// The entry tells that the model accepts images.
pub open spec fn hints_images(entry: ModelEntry) -> bool {
    ||| (entry.architecture matches Some(a) && text::views(a.input_modalities@).contains("image"@))
    ||| (entry.capabilities matches Some(c) && c.vision == Some(true))
}

impl ModelEntry {
    /// Whether this entry came from a server in router mode.
    pub fn is_router_entry(&self) -> (r: bool)
        ensures
            r == (self.status is Some),
    {
        self.status.is_some()
    }

    /// Whether the entry's status is `value`.
    fn status_is(&self, value: &str) -> (r: bool)
        ensures
            r == has_status(*self, value@),
    {
        match &self.status {
            Some(status) => str_eq(status.value.as_str(), value),
            None => false,
        }
    }

    /// Whether the model is loaded, so that its capabilities can be asked for
    /// without loading it.
    pub fn is_loaded(&self) -> (r: bool)
        ensures
            r == has_status(*self, "loaded"@),
    {
        self.status_is("loaded")
    }

    /// Whether the model is being loaded.
    pub fn is_loading(&self) -> (r: bool)
        ensures
            r == has_status(*self, "loading"@),
    {
        self.status_is("loading")
    }

    /// Whether the entry tells, by its modalities or by its capability flags,
    /// that the model accepts images.
    pub fn supports_images_hint(&self) -> (r: bool)
        ensures
            r == hints_images(*self),
    {
        if let Some(architecture) = &self.architecture {
            if contains_text(&architecture.input_modalities, "image") {
                return true;
            }
        }
        match &self.capabilities {
            Some(capabilities) => match capabilities.vision {
                Some(vision) => vision,
                None => false,
            },
            None => false,
        }
    }
}

/// Whether `list` holds `s`.
pub(crate) fn contains_text(list: &Vec<String>, s: &str) -> (r: bool)
    ensures
        r == text::views(list@).contains(s@),
{
    let mut i: usize = 0;
    while i < list.len()
        invariant
            i <= list@.len(),
            forall|k: int| 0 <= k < i ==> text::views(list@)[k] != s@,
        decreases list@.len() - i,
    {
        if str_eq(list[i].as_str(), s) {
            assert(text::views(list@)[i as int] == s@);
            return true;
        }
        i = i + 1;
    }
    false
}

/// An event of the router's feed. `model` is `*` where the event is not about
/// a single model.
#[derive(Clone, Debug, PartialEq)]
pub struct ModelEvent {
    pub model: String,
    pub event: String,
    pub data: Option<ModelEventData>,
}

/// What an event tells of a model.
#[derive(Clone, Debug, Default, PartialEq)]
pub struct ModelEventData {
    pub status: Option<String>,
    /// Comes with the status `unloaded`; not zero where the load failed.
    pub exit_code: Option<i32>,
    /// Comes with the status `loading`.
    pub progress: Option<LoadProgress>,
}

/// How far the load of a model has come. A model loads its stages one after
/// the other.
#[derive(Clone, Debug, Default, PartialEq)]
pub struct LoadProgress {
    pub stages: Vec<String>,
    pub current: String,
    /// How much of the current stage is done, as a rounded percentage.
    pub percent: u32,
}

/// The label of a stage.
pub open spec fn label_of(stage: Seq<char>) -> Seq<char> {
    if stage == "text_model"@ {
        "Loading weights"@
    } else if stage == "spec_model"@ {
        "Loading draft"@
    } else if stage == "mmproj_model"@ {
        "Loading projector"@
    } else {
        "Loading"@
    }
}

/// The label of a load: the stage and its own percentage.
pub open spec fn load_label(progress: LoadProgress) -> Seq<char> {
    label_of(progress.current@) + " "@ + text::decimal(progress.percent as nat) + "%"@
}

impl LoadProgress {
    /// The label of the stage that is being loaded.
    pub fn stage_label(&self) -> (r: &'static str)
        ensures
            r@ == label_of(self.current@),
    {
        let stage = self.current.as_str();
        if str_eq(stage, "text_model") {
            "Loading weights"
        } else if str_eq(stage, "spec_model") {
            "Loading draft"
        } else if str_eq(stage, "mmproj_model") {
            "Loading projector"
        } else {
            "Loading"
        }
    }

    /// The label of the load, such as `Loading weights 42%`.
    pub fn progress_label(&self) -> (r: String)
        ensures
            r@ == load_label(*self),
    {
        let mut out = copy_str(self.stage_label());
        out.append(" ");
        let percent = decimal_of(self.percent as u64);
        out.append(percent.as_str());
        out.append("%");
        out
    }
}

/// The status that an event reports.
pub open spec fn event_status(e: ModelEvent) -> Option<Seq<char>> {
    match e.data {
        Some(data) => text::opt_view(data.status),
        None => None,
    }
}

/// The event changes the list of models, or ends a load or an unload.
pub open spec fn changes_state(e: ModelEvent) -> bool {
    ||| e.event@ == "models_reload"@
    ||| e.event@ == "model_remove"@
    ||| event_status(e) == Some("loaded"@)
    ||| event_status(e) == Some("unloaded"@)
}

/// The exit code of a failed load.
pub open spec fn failed_load(e: ModelEvent) -> Option<i32> {
    match e.data {
        Some(data) if event_status(e) == Some("unloaded"@) && data.exit_code is Some
            && data.exit_code->0 != 0 => data.exit_code,
        _ => None,
    }
}

/// The progress of a load, where the event reports a stage of it.
pub open spec fn reported_progress(e: ModelEvent) -> Option<LoadProgress> {
    match e.data {
        Some(data) if event_status(e) == Some("loading"@) => match data.progress {
            Some(progress) if progress.stages@.len() > 0 && progress.current@.len() > 0 => Some(
                progress,
            ),
            _ => None,
        },
        _ => None,
    }
}

impl ModelEvent {
    /// Whether the event reports the status `value`.
    fn status_is(&self, value: &str) -> (r: bool)
        ensures
            r == (event_status(*self) == Some(value@)),
    {
        match &self.data {
            Some(data) => match &data.status {
                Some(status) => str_eq(status.as_str(), value),
                None => false,
            },
            None => false,
        }
    }

    /// Whether the list of models or what is loaded has changed, so that the
    /// models are to be listed again. Steps of a load change nothing.
    pub fn changes_model_state(&self) -> (r: bool)
        ensures
            r == changes_state(*self),
    {
        str_eq(self.event.as_str(), "models_reload") || str_eq(self.event.as_str(), "model_remove")
            || self.status_is("loaded") || self.status_is("unloaded")
    }

    /// The exit code of a failed load, if the event reports one.
    pub fn load_failure(&self) -> (r: Option<i32>)
        ensures
            r == failed_load(*self),
    {
        if !self.status_is("unloaded") {
            return None;
        }
        match &self.data {
            Some(data) => match data.exit_code {
                Some(code) => {
                    if code != 0 {
                        Some(code)
                    } else {
                        None
                    }
                },
                None => None,
            },
            None => None,
        }
    }

    /// The progress of a load, if the event reports a stage of it. An event
    /// that only marks the passage to a stage reports none.
    pub fn load_progress(&self) -> (r: Option<&LoadProgress>)
        ensures
            match r {
                Some(p) => reported_progress(*self) == Some(*p),
                None => reported_progress(*self) is None,
            },
    {
        if !self.status_is("loading") {
            return None;
        }
        match &self.data {
            Some(data) => match &data.progress {
                Some(progress) => {
                    if progress.stages.len() == 0 || progress.current.as_str().is_empty() {
                        None
                    } else {
                        Some(progress)
                    }
                },
                None => None,
            },
            None => None,
        }
    }
}

/// An event that reports the progress of a load neither changes what is
/// loaded nor reports a failure, unless it also changes the list of models.
pub proof fn law_progress_changes_nothing(e: ModelEvent)
    requires
        reported_progress(e) is Some,
        e.event@ != "models_reload"@,
        e.event@ != "model_remove"@,
    ensures
        !changes_state(e),
        failed_load(e) is None,
{
    reveal_strlit("loading");
    reveal_strlit("loaded");
    reveal_strlit("unloaded");
    assert("loading"@.len() == 7 && "loaded"@.len() == 6 && "unloaded"@.len() == 8);
}

/// A failed load changes what is loaded.
pub proof fn law_failure_changes_state(e: ModelEvent)
    requires
        failed_load(e) is Some,
    ensures
        changes_state(e),
{
}

/// A model is shown under its display name, as it was given, and under its
/// name where it has none.
pub proof fn law_model_is_shown_by_its_name(m: ModelView, n: Seq<char>)
    ensures
        m.display_name == Some(n) ==> shown_name(m) == n,
        m.display_name is None ==> shown_name(m) == m.name,
{
}

/// A model accepts images where "image" stands among its modalities, at
/// whatever place, or where its flags say so, and in no other case.
pub proof fn law_images_are_hinted(entry: ModelEntry, i: int)
    ensures
        entry.architecture matches Some(a) ==> (0 <= i < a.input_modalities@.len()
            && a.input_modalities@[i]@ == "image"@ ==> hints_images(entry)),
        entry.capabilities matches Some(c) ==> (c.vision == Some(true) ==> hints_images(entry)),
        hints_images(entry) ==> {
            ||| entry.capabilities is Some && entry.capabilities->0.vision == Some(true)
            ||| entry.architecture is Some && exists|k: int|
                0 <= k < entry.architecture->0.input_modalities@.len()
                    && (#[trigger] entry.architecture->0.input_modalities@[k])@ == "image"@
        },
{
    if let Some(a) = entry.architecture {
        let list = text::views(a.input_modalities@);
        if 0 <= i < list.len() {
            assert(list[i] == a.input_modalities@[i]@);
        }
        if list.contains("image"@) {
            let k = list.index_of("image"@);
            assert(a.input_modalities@[k]@ == list[k]);
        }
    }
}

/// The status of a model is the one that its entry tells, and a model without
/// one has none.
pub proof fn law_status_is_the_one_told(entry: ModelEntry, value: Seq<char>)
    ensures
        entry.status matches Some(s) ==> has_status(entry, s.value@),
        entry.status matches Some(s) ==> (s.value@ != value ==> !has_status(entry, value)),
        entry.status is None ==> !has_status(entry, value),
{
}

/// The label of a load names its stage and ends with its percentage: weights,
/// draft and projector by name, any other stage without one.
pub proof fn law_label_tells_the_stage(p: LoadProgress)
    ensures
        ({
            let percent = text::decimal(p.percent as nat) + "%"@;
            let stage = p.current@;
            let shown = load_label(p);
            &&& stage == "text_model"@ ==> shown == "Loading weights "@ + percent
            &&& stage == "spec_model"@ ==> shown == "Loading draft "@ + percent
            &&& stage == "mmproj_model"@ ==> shown == "Loading projector "@ + percent
            &&& stage != "text_model"@ && stage != "spec_model"@ && stage != "mmproj_model"@
                ==> shown == "Loading "@ + percent
        }),
{
    reveal_strlit("text_model");
    reveal_strlit("spec_model");
    reveal_strlit("mmproj_model");
    assert("text_model"@[0] == 't' && "spec_model"@[0] == 's' && "mmproj_model"@[0] == 'm');
    reveal_strlit("Loading weights");
    reveal_strlit("Loading weights ");
    reveal_strlit("Loading draft");
    reveal_strlit("Loading draft ");
    reveal_strlit("Loading projector");
    reveal_strlit("Loading projector ");
    reveal_strlit("Loading");
    reveal_strlit("Loading ");
    reveal_strlit(" ");
    assert("Loading weights"@ + " "@ =~= "Loading weights "@);
    assert("Loading draft"@ + " "@ =~= "Loading draft "@);
    assert("Loading projector"@ + " "@ =~= "Loading projector "@);
    assert("Loading"@ + " "@ =~= "Loading "@);
    let percent = text::decimal(p.percent as nat) + "%"@;
    assert(load_label(p) =~= label_of(p.current@) + " "@ + percent);
}

/// The models are to be listed again when a model is loaded or unloaded, when
/// one is removed and when they are all read again, and at no other event.
pub proof fn law_events_that_change_the_models(e: ModelEvent, data: ModelEventData, status: String)
    ensures
        e.event@ == "models_reload"@ || e.event@ == "model_remove"@ ==> changes_state(e),
        e.data == Some(data) && data.status == Some(status) ==> {
            &&& status@ == "loaded"@ || status@ == "unloaded"@ ==> changes_state(e)
            &&& status@ != "loaded"@ && status@ != "unloaded"@ && e.event@ != "models_reload"@
                && e.event@ != "model_remove"@ ==> !changes_state(e)
        },
        (e.data is None || e.data == Some(data) && data.status is None) && e.event@
            != "models_reload"@ && e.event@ != "model_remove"@ ==> !changes_state(e),
{
}

/// A load has failed where the model was unloaded with an exit code other than
/// zero, and that code is reported, negative ones too.
pub proof fn law_exit_codes_tell_of_failures(
    e: ModelEvent,
    data: ModelEventData,
    status: String,
    code: i32,
)
    requires
        e.data == Some(data),
        data.status == Some(status),
        data.exit_code == Some(code),
    ensures
        status@ == "unloaded"@ && code != 0 ==> failed_load(e) == Some(code),
        status@ == "unloaded"@ && code == 0 ==> failed_load(e) is None,
        status@ != "unloaded"@ ==> failed_load(e) is None,
{
}

/// An event tells of the progress of a load where it says that a model is
/// loading and names the stage. What it tells is handed on unchanged.
pub proof fn law_progress_is_handed_on(
    e: ModelEvent,
    data: ModelEventData,
    status: String,
    p: LoadProgress,
)
    requires
        e.data == Some(data),
        data.status == Some(status),
        data.progress == Some(p),
    ensures
        status@ == "loading"@ && p.stages@.len() > 0 && p.current@.len() > 0 ==> reported_progress(
            e,
        ) == Some(p),
        status@ != "loading"@ ==> reported_progress(e) is None,
        p.stages@.len() == 0 || p.current@.len() == 0 ==> reported_progress(e) is None,
{
}

// ---- what callers see -----------------------------------------------------------------------

/// A model is made as it is said to be, with an assumed context size where none
/// is said; a copy of it says the same.
pub proof fn law_model_is_made_as_said(
    name: &str,
    shown: &str,
    size: u64,
    tools: bool,
    images: bool,
    thinks: bool,
    m: Model,
    plain: Model,
    copy: Model,
    label: &str,
)
    requires
        call_ensures(Model::new, (name, Some(shown), Some(size), tools, images, thinks), m),
        call_ensures(Model::new, (name, None, None, tools, images, thinks), plain),
        call_ensures(Model::duplicate, (&m,), copy),
        call_ensures(Model::display_name, (&copy,), label),
    ensures
        m.name@ == name@,
        m.max_tokens == size,
        m.supports_tools == tools,
        m.supports_images == images,
        m.supports_thinking == thinks,
        label@ == shown@,
        copy@ == m@,
        plain.max_tokens == 4096,
        shown_name(plain@) == name@,
{
}

/// A model is loaded or being loaded exactly where its entry says so, and an
/// entry with a status came from a router.
pub proof fn law_entry_tells_its_status(
    entry: ModelEntry,
    router: bool,
    loaded: bool,
    loading: bool,
    images: bool,
)
    requires
        call_ensures(ModelEntry::is_router_entry, (&entry,), router),
        call_ensures(ModelEntry::is_loaded, (&entry,), loaded),
        call_ensures(ModelEntry::is_loading, (&entry,), loading),
        call_ensures(ModelEntry::supports_images_hint, (&entry,), images),
    ensures
        router <==> entry.status is Some,
        loaded <==> entry.status is Some && entry.status->0.value@ == "loaded"@,
        loading <==> entry.status is Some && entry.status->0.value@ == "loading"@,
        images == hints_images(entry),
{
}

/// What an event tells of a load: its failure, its progress, and whether the
/// models are to be listed again.
pub proof fn law_event_tells_of_the_load(
    e: ModelEvent,
    changes: bool,
    failure: Option<i32>,
    p: LoadProgress,
    shown: String,
)
    requires
        call_ensures(ModelEvent::changes_model_state, (&e,), changes),
        call_ensures(ModelEvent::load_failure, (&e,), failure),
        call_ensures(ModelEvent::load_progress, (&e,), Some(&p)),
        call_ensures(LoadProgress::progress_label, (&p,), shown),
    ensures
        changes == changes_state(e),
        failure == failed_load(e),
        reported_progress(e) == Some(p),
        shown@ == load_label(p),
{
}

} // verus!

use zagent::glm::GLM_API_URL;
use zagent::models::{
    LoadProgress, Model, ModelEntry, ModelEvent, ModelEventData, ModelMeta, ModelStatus,
};
use zagent::provider::{
    authenticate_result, compute_effective_models, display_name_for, merge_settings_into_models,
    model_from_entry, on_feed, same_settings, sync_capability_cells, telemetry_id_for, AuthenticateError,
    AuthenticateStep, AvailableModel, EventStep, FeedEvent, FeedStep, FetchFailure, FollowOrder, GLMSettings,
    SettingsStep, State,
};
use zagent::request::{LanguageModelRequest, LanguageModelToolChoice, LiveCapabilities};
use zagent::text_map::TextMap;

fn settings() -> GLMSettings {
    GLMSettings {
        api_url: String::new(),
        auto_discover: true,
        available_models: vec![],
        context_window: None,
        custom_headers: vec![],
    }
}

fn available(name: &str, max_tokens: u64) -> AvailableModel {
    AvailableModel {
        name: name.to_string(),
        display_name: None,
        max_tokens,
        supports_tools: None,
        supports_images: None,
        supports_thinking: None,
    }
}

fn entry(id: &str, status: Option<&str>) -> ModelEntry {
    ModelEntry {
        id: id.to_string(),
        meta: None,
        architecture: None,
        status: status.map(|s| ModelStatus { value: s.to_string() }),
        capabilities: None,
    }
}

#[test]
fn text_map_operations() {
    let mut m: TextMap<u32> = TextMap::new();
    m.insert("a".to_string(), 1);
    m.insert("b".to_string(), 2);
    m.insert("a".to_string(), 3);
    assert_eq!(m.len(), 2);
    assert_eq!(m.get("a"), Some(&3));
    assert_eq!(m.get("c"), None);
    m.insert("c".to_string(), 4);
    m.retain(&vec!["c".to_string(), "a".to_string(), "x".to_string()]);
    assert_eq!(m.get("b"), None);
    assert_eq!(m.remove("c"), Some(4));
    assert_eq!(m.remove("c"), None);
    assert_eq!(m.entry(0), (&"a".to_string(), &3));
    assert_eq!(m.len(), 1);
}

#[test]
fn shown_names() {
    assert_eq!(display_name_for("org/repo\\model.gguf"), "model");
    assert_eq!(display_name_for("glm-5.3"), "glm-5.3");
    assert_eq!(display_name_for("a/"), "");
    assert_eq!(display_name_for(".gguf"), "");
    assert_eq!(display_name_for("x/gguf"), "gguf");
    assert_eq!(telemetry_id_for("a/b.gguf"), "zagent.glm/b");
}

#[test]
fn models_from_entries() {
    let m = model_from_entry(&entry("dir/m.gguf", Some("loaded")));
    assert_eq!(m.name, "dir/m.gguf");
    assert_eq!(m.display_name(), "m");
    assert_eq!(m.max_tokens, 131_072);
    assert!(!m.supports_tools && !m.supports_images && !m.supports_thinking);
    let mut e = entry("m", None);
    e.meta = Some(ModelMeta { n_ctx: None, n_ctx_train: Some(9) });
    assert_eq!(model_from_entry(&e).max_tokens, 9);
    assert!(model_from_entry(&e).supports_tools);
    e.meta = Some(ModelMeta { n_ctx: Some(5), n_ctx_train: Some(9) });
    assert_eq!(model_from_entry(&e).max_tokens, 5);
}

#[test]
fn built_in_models() {
    let models = compute_effective_models(&vec![], &settings());
    assert_eq!(models.len(), 3);
    let flash = models.get("glm-5.3-flash").unwrap();
    assert_eq!(flash.display_name(), "GLM-5.3 Flash");
    assert_eq!(flash.max_tokens, 131_072);
    assert!(flash.supports_tools && flash.supports_thinking && !flash.supports_images);
    assert_eq!(models.get("glm-5.3").unwrap().display_name(), "GLM-5.3");
    assert_eq!(models.get("glm-5.2").unwrap().display_name(), "GLM-5.2");
}

#[test]
fn discovered_models_win_over_built_in_ones() {
    let fetched = vec![
        Model::new("glm-5.2", Some("old"), Some(1), false, false, false),
        Model::new("glm-5.2", Some("mine"), Some(2), false, true, false),
        Model::new("other", None, Some(3), true, true, true),
    ];
    let mut s = settings();
    let models = compute_effective_models(&fetched, &s);
    assert_eq!(models.len(), 4);
    assert_eq!(models.get("glm-5.2").unwrap().display_name(), "mine");
    assert_eq!(models.get("other").unwrap().max_tokens, 3);
    s.context_window = Some(50);
    let models = compute_effective_models(&fetched, &s);
    assert_eq!(models.get("other").unwrap().max_tokens, 50);
    assert_eq!(models.get("glm-5.3").unwrap().max_tokens, 131_072);
    s.auto_discover = false;
    assert_eq!(compute_effective_models(&fetched, &s).len(), 3);
}

#[test]
fn configured_models_win() {
    let mut s = settings();
    let mut mine = available("glm-5.2", 77);
    mine.display_name = Some("Mine".to_string());
    mine.supports_tools = Some(false);
    mine.supports_images = Some(true);
    mine.supports_thinking = Some(false);
    s.available_models = vec![mine, available("new", 8)];
    let models = compute_effective_models(&vec![], &s);
    let m = models.get("glm-5.2").unwrap();
    assert_eq!((m.display_name(), m.max_tokens), ("Mine", 77));
    assert!(!m.supports_tools && m.supports_images && !m.supports_thinking);
    let n = models.get("new").unwrap();
    assert_eq!((n.display_name(), n.max_tokens), ("new", 8));
    assert!(!n.supports_tools && !n.supports_images && !n.supports_thinking);
    let mut map = TextMap::new();
    merge_settings_into_models(&mut map, &vec![available("w", 5)], Some(9));
    merge_settings_into_models(&mut map, &vec![available("w", 6)], Some(10));
    assert_eq!(map.get("w").unwrap().max_tokens, 9);
}

#[test]
fn urls() {
    let mut s = settings();
    assert_eq!(s.api_url(), GLM_API_URL);
    assert!(!s.has_custom_url());
    s.api_url = GLM_API_URL.to_string();
    assert!(!s.has_custom_url());
    s.api_url = "http://x".to_string();
    assert_eq!(s.api_url(), "http://x");
    assert!(s.has_custom_url());
}

#[test]
fn settings_are_told_apart() {
    assert!(same_settings(&settings(), &settings()));
    let mut s = settings();
    s.custom_headers.push(("a".to_string(), "b".to_string()));
    assert!(!same_settings(&settings(), &s));
    let mut s = settings();
    s.available_models.push(available("m", 1));
    let mut t = settings();
    t.available_models.push(available("m", 2));
    assert!(!same_settings(&s, &t));
    t.available_models[0].max_tokens = 1;
    assert!(same_settings(&s, &t));
    t.context_window = Some(1);
    assert!(!same_settings(&s, &t));
}

#[test]
fn fetching_models() {
    let mut state = State::new();
    assert!(!state.is_authenticated());
    assert_eq!(state.authenticate(), AuthenticateStep::Fetch);
    state.loading_progress.insert("a".to_string(), "x".to_string());
    state.loading_progress.insert("b".to_string(), "y".to_string());
    let entries = vec![entry("a", Some("loading")), entry("b", Some("loaded"))];
    let order = state.fetch_models(Ok(entries), &settings()).unwrap();
    assert_eq!(order, FollowOrder::Start);
    assert!(state.following && state.is_authenticated());
    assert_eq!(state.authenticate(), AuthenticateStep::Ready);
    assert_eq!(state.loading_progress.get("a"), Some(&"x".to_string()));
    assert_eq!(state.loading_progress.get("b"), None);
    assert!(!state.capability_cells.get("b").unwrap().supports_tools);
    assert!(state.capability_cells.get("glm-5.2").unwrap().supports_tools);
    let order = state.fetch_models(Ok(vec![entry("a", Some("x"))]), &settings()).unwrap();
    assert_eq!(order, FollowOrder::Keep);
    let order = state.fetch_models(Ok(vec![entry("a", None)]), &settings()).unwrap();
    assert_eq!(order, FollowOrder::Stop);
    assert!(!state.following);
    let failure = FetchFailure { error: "down".to_string(), refused_causes: vec![false, true] };
    let e = state.fetch_models(Err(failure), &settings()).unwrap_err();
    assert_eq!(e.error, "down");
    assert!(!state.is_authenticated());
    assert!(matches!(authenticate_result(Err(e)), Err(AuthenticateError::ConnectionRefused)));
    let other = FetchFailure { error: "odd".to_string(), refused_causes: vec![false] };
    assert!(
        matches!(authenticate_result(Err(other)), Err(AuthenticateError::Other(t)) if t == "odd")
    );
    assert!(authenticate_result(Ok(())).is_ok());
}

fn event(kind: &str, status: Option<&str>, progress: Option<LoadProgress>) -> ModelEvent {
    ModelEvent {
        model: "m".to_string(),
        event: kind.to_string(),
        data: Some(ModelEventData {
            status: status.map(|s| s.to_string()),
            exit_code: Some(-3),
            progress,
        }),
    }
}

#[test]
fn following_events() {
    let mut state = State::new();
    let progress = LoadProgress {
        stages: vec!["text_model".to_string()],
        current: "text_model".to_string(),
        percent: 42,
    };
    let (step, log) = state.on_model_event(&event("status", Some("loading"), Some(progress)));
    assert_eq!((step, log), (EventStep::Notify, None));
    assert_eq!(
        state.loading_progress.get("m"),
        Some(&"Loading weights 42%".to_string())
    );
    let (step, _) = state.on_model_event(&event("status", Some("loading"), None));
    assert_eq!(step, EventStep::Continue);
    assert!(!state.fetching);
    let (step, log) = state.on_model_event(&event("status", Some("unloaded"), None));
    assert_eq!(step, EventStep::Refetch);
    assert_eq!(log, Some("GLM model m failed to load (exit code -3)".to_string()));
    assert!(state.fetching);
    assert_eq!(state.loading_progress.get("m"), None);
}

#[test]
fn changed_settings() {
    let mut state = State::new();
    state.fetch_models(Ok(vec![entry("a", Some("x"))]), &settings()).unwrap();
    state.restart_fetch_models_task();
    assert_eq!(state.on_settings(&settings(), &settings()), SettingsStep::Unchanged);
    assert!(state.is_authenticated() && state.fetching);
    let mut now = settings();
    now.context_window = Some(5);
    assert_eq!(state.on_settings(&settings(), &now), SettingsStep::Refresh);
    assert!(!state.is_authenticated() && !state.fetching && state.following);
    now.api_url = "http://x".to_string();
    assert_eq!(
        state.on_settings(&settings(), &now),
        SettingsStep::Rekey(AuthenticateStep::Fetch)
    );
    assert!(!state.following);
    state.fetch_models(Ok(vec![entry("a", None)]), &now).unwrap();
    state.loading_progress.insert("a".to_string(), "x".to_string());
    assert_eq!(
        state.on_settings(&now, &settings()),
        SettingsStep::Rekey(AuthenticateStep::Ready)
    );
    assert!(!state.is_authenticated());
    assert_eq!(state.loading_progress.len(), 0);
    state.fetch_models(Ok(vec![entry("a", Some("x"))]), &now).unwrap();
    state.set_api_key();
    assert!(!state.is_authenticated() && !state.following);
}

#[test]
fn listed_models_are_sorted() {
    let mut state = State::new();
    let fetched = vec![entry("z/Alpha", Some("loaded")), entry("b", Some("loading"))];
    state.fetch_models(Ok(fetched), &settings()).unwrap();
    state.loading_progress.insert("b".to_string(), "Loading 3%".to_string());
    let cards = state.provided_models(&settings());
    let listed: Vec<String> = cards.iter().map(|c| c.name(&state.loading_progress)).collect();
    assert_eq!(
        listed,
        vec!["Alpha", "GLM-5.2", "GLM-5.3", "GLM-5.3 Flash", "b · Loading 3%"]
    );
    assert_eq!(cards[0].id, "z/Alpha");
    let cells = &state.capability_cells;
    assert!(!cards[0].supports_tools(cells));
    assert!(!cards[0].supports_thinking(cells));
    assert!(cards[1].supports_thinking(cells));
    assert_eq!(cards[1].max_token_count(cells), 131_072);
    assert_eq!(cards[4].loading_label(&state.loading_progress), Some("Loading 3%".to_string()));
    let empty = LanguageModelRequest {
        messages: vec![],
        tools: vec![],
        tool_choice: None,
        stop: vec![],
        temperature: None,
        thinking_allowed: true,
        thinking_effort: None,
        contains_custom_tool_input: false,
    };
    let request = cards[1].to_glm_request(cells, empty).unwrap();
    assert_eq!(request.model, "glm-5.2");
    assert_eq!(request.reasoning_effort, Some("high".to_string()));
}

#[test]
fn capabilities_follow_the_cells() {
    let model = Model::new("m", None, Some(5), true, false, false);
    let card = zagent::provider::GLMLanguageModel::of(&model);
    let mut cells: TextMap<LiveCapabilities> = TextMap::new();
    assert_eq!(card.capabilities(&cells), LiveCapabilities::of(&model));
    assert!(card.supports_tool_choice(&cells, LanguageModelToolChoice::Auto));
    assert!(card.supports_tool_choice(&cells, LanguageModelToolChoice::Never));
    let mut map = TextMap::new();
    map.insert("m".to_string(), Model::new("m", None, Some(6), false, false, true));
    sync_capability_cells(&mut cells, &map);
    assert_eq!(card.max_token_count(&cells), 6);
    assert!(!card.supports_tools(&cells));
    assert!(!card.supports_tool_choice(&cells, LanguageModelToolChoice::Any));
    assert!(card.supports_thinking(&cells));
}

#[test]
fn cells_are_written_under_the_names_of_models() {
    let mut cells: TextMap<LiveCapabilities> = TextMap::new();
    let old = Model::new("old", None, Some(1), true, false, false);
    cells.insert("old".to_string(), LiveCapabilities::of(&old));
    let mut map = TextMap::new();
    map.insert("key".to_string(), Model::new("name", None, Some(7), true, false, false));
    sync_capability_cells(&mut cells, &map);
    assert_eq!(cells.get("name").unwrap().max_tokens, 7);
    assert!(cells.get("key").is_none());
    assert_eq!(cells.get("old").unwrap().max_tokens, 1);
}

#[test]
fn the_feed_is_followed() {
    assert_eq!(on_feed(FeedEvent::Started), FeedStep::Open { after_seconds: 0 });
    for event in [FeedEvent::Opened, FeedEvent::TakenIn, FeedEvent::Unreadable] {
        assert_eq!(on_feed(event), FeedStep::AwaitEvent);
    }
    for event in [FeedEvent::Unavailable, FeedEvent::Ended] {
        assert_eq!(on_feed(event), FeedStep::Open { after_seconds: 5 });
    }
    assert_eq!(on_feed(FeedEvent::ProviderGone), FeedStep::Stop);
}

#[test]
fn values_are_cloned_and_compared() {
    let model = Model { name: "glm".to_string(), ..Model::default() };
    assert_eq!(model.clone(), model);
    assert_ne!(model, Model::default());
    assert_eq!(Model::default().max_tokens, 0);
    assert_eq!(ModelEventData::default(), ModelEventData::default().clone());
    assert_eq!(LoadProgress::default().stages.len(), 0);
    assert_eq!(ModelMeta::default(), ModelMeta::default());
    let mut other = settings();
    assert_eq!(other.clone(), settings());
    other.available_models.push(available("a", 1));
    assert_ne!(other, settings());
    assert!(!GLMSettings::default().auto_discover);
}

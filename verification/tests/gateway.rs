use zagent::chat::{
    stream_result, GLMError, ImageUrl, MessageContent, MessagePart, ResponseStreamEvent,
    ResponseStreamResult,
};
use zagent::glm::{
    authorization, cached_token_if_valid, chat_line, chat_uri, connect_error, gateway_token,
    has_runtime_credentials, invalidate_gateway_token, login_body, login_refresh, login_uri,
    models_uri, new_gateway_state, on_answer, runtime_login_email, set_runtime_base_url,
    set_runtime_login, set_runtime_token, worker_base_url, AnswerStep, CachedToken, GatewayEnvironment,
    GatewayError, GatewayState, LoginResponse, TokenPlan, GLM_API_URL,
};
use zagent::models::{
    Architecture, LoadProgress, Model, ModelCapabilities, ModelEntry, ModelEvent, ModelEventData,
    ModelStatus,
};

fn text(s: &str) -> Option<String> {
    Some(s.to_string())
}

fn no_environment() -> GatewayEnvironment {
    GatewayEnvironment { email: None, password: None, api_key: None }
}

fn cached(minted_at: u64) -> GatewayState {
    let mut state = new_gateway_state();
    state.cached = Some(CachedToken { token: "jwt".to_string(), minted_at });
    state
}

fn entry(id: &str) -> ModelEntry {
    ModelEntry {
        id: id.to_string(),
        meta: None,
        architecture: None,
        status: None,
        capabilities: None,
    }
}

#[test]
fn runtime_credentials() {
    let mut state = cached(5);
    assert!(!has_runtime_credentials(&state));
    set_runtime_token(&mut state, text("abc"));
    assert!(state.cached.is_none());
    assert_eq!(state.token, text("abc"));
    assert!(has_runtime_credentials(&state));
    set_runtime_token(&mut state, text(""));
    assert_eq!(state.token, None);
    set_runtime_login(&mut state, text("me@x"), text("pw"));
    assert_eq!(runtime_login_email(&state), text("me@x"));
    assert!(has_runtime_credentials(&state));
    set_runtime_login(&mut state, text("me@x"), text(""));
    assert_eq!(runtime_login_email(&state), None);
    set_runtime_login(&mut state, None, text("pw"));
    assert!(!has_runtime_credentials(&state));
}

#[test]
fn base_url_order() {
    let mut state = new_gateway_state();
    assert_eq!(worker_base_url(&state, None), GLM_API_URL);
    assert_eq!(worker_base_url(&state, text("")), GLM_API_URL);
    assert_eq!(worker_base_url(&state, text("http://env")), "http://env");
    set_runtime_base_url(&mut state, text("http://set"));
    assert_eq!(worker_base_url(&state, text("http://env")), "http://set");
    set_runtime_base_url(&mut state, text(""));
    assert_eq!(worker_base_url(&state, None), GLM_API_URL);
}

#[test]
fn token_validity() {
    let state = cached(1000);
    assert_eq!(cached_token_if_valid(&state, 1000), text("jwt"));
    assert_eq!(cached_token_if_valid(&state, 10), text("jwt"));
    assert_eq!(cached_token_if_valid(&state, 1000 + 85799), text("jwt"));
    assert_eq!(cached_token_if_valid(&state, 1000 + 85800), None);
    assert_eq!(cached_token_if_valid(&new_gateway_state(), 0), None);
}

#[test]
fn token_order() {
    let env = || GatewayEnvironment {
        email: text("env@x"),
        password: text("envpw"),
        api_key: text("key"),
    };
    assert!(matches!(gateway_token(&cached(0), env(), 5), TokenPlan::Use(t) if t == "jwt"));
    let mut state = new_gateway_state();
    assert!(
        matches!(gateway_token(&state, env(), 5), TokenPlan::Login { email, password } if email == "env@x" && password == "envpw")
    );
    set_runtime_token(&mut state, text("tok"));
    assert!(matches!(gateway_token(&state, env(), 5), TokenPlan::Use(t) if t == "tok"));
    set_runtime_login(&mut state, text("a@x"), text("pw"));
    assert!(
        matches!(gateway_token(&state, env(), 5), TokenPlan::Login { email, .. } if email == "a@x")
    );
    let partial = GatewayEnvironment { email: text("e"), password: text(""), api_key: text("key") };
    assert!(
        matches!(gateway_token(&new_gateway_state(), partial, 5), TokenPlan::Use(t) if t == "key")
    );
    assert!(
        matches!(gateway_token(&new_gateway_state(), no_environment(), 5), TokenPlan::Use(t) if t.is_empty())
    );
}

#[test]
fn login() {
    assert_eq!(login_uri("http://g"), "http://g/auth/login");
    let body: serde_json::Value = serde_json::from_str(&login_body("a\"b", "p")).unwrap();
    assert_eq!(body["email"].as_str(), Some("a\"b"));
    assert_eq!(body["password"].as_str(), Some("p"));
    let mut state = new_gateway_state();
    let ok = login_refresh(
        &mut state,
        77,
        200,
        "",
        Ok(LoginResponse { token: "new".to_string() }),
    );
    assert_eq!(ok.unwrap(), "new");
    let held = state.cached.as_ref().unwrap();
    assert_eq!((held.token.as_str(), held.minted_at), ("new", 77));
    let bad = login_refresh(&mut state, 78, 403, "nope", Err("x".to_string())).unwrap_err();
    assert_eq!(bad.message, "gateway login failed: 403 Forbidden nope");
    assert_eq!(bad.cause, None);
    let unread = login_refresh(&mut state, 79, 200, "?", Err("eof".to_string())).unwrap_err();
    assert_eq!(unread.message, "parse login response");
    assert_eq!(unread.cause, text("eof"));
    assert_eq!(state.cached.unwrap().minted_at, 77);
}

#[test]
fn answers_are_retried_once() {
    let mut state = cached(3);
    assert_eq!(on_answer(&mut state, 0, 200), AnswerStep::Accept);
    assert!(state.cached.is_some());
    assert_eq!(on_answer(&mut state, 0, 401), AnswerStep::Retry);
    assert!(state.cached.is_none());
    assert_eq!(on_answer(&mut state, 1, 401), AnswerStep::Reject);
    assert_eq!(on_answer(&mut state, 1, 204), AnswerStep::Accept);
    assert_eq!(on_answer(&mut state, 0, 500), AnswerStep::Reject);
    assert_eq!(
        connect_error(599, "b"),
        "Failed to connect to GLM API: 599 <unknown status code> b"
    );
    assert_eq!(connect_error(404, ""), "Failed to connect to GLM API: 404 Not Found ");
    invalidate_gateway_token(&mut state);
    assert!(state.cached.is_none());
}

#[test]
fn request_addresses() {
    assert_eq!(chat_uri("http://g"), "http://g/v1/chat/completions");
    assert_eq!(models_uri("http://g"), "http://g/v1/models");
    assert_eq!(authorization(Ok("t".to_string())), "Bearer t");
    let failed = GatewayError { message: "m".to_string(), cause: None };
    assert_eq!(authorization(Err(failed)), "Bearer ");
}

#[test]
fn chat_lines() {
    assert_eq!(chat_line("data: {\"a\":1}"), text("{\"a\":1}"));
    assert_eq!(chat_line("data: [DONE]"), None);
    assert_eq!(chat_line(": ping"), None);
    assert_eq!(chat_line("data: "), text(""));
}

#[test]
fn stream_results() {
    let event = ResponseStreamEvent {
        model: "m".to_string(),
        object: "o".to_string(),
        choices: vec![],
        usage: None,
    };
    assert_eq!(
        stream_result(Ok(ResponseStreamResult::Event(event))).unwrap().model,
        "m"
    );
    let failure = ResponseStreamResult::Failure {
        error: GLMError { message: "quota".to_string() },
    };
    assert_eq!(stream_result(Ok(failure)).unwrap_err(), "quota");
    assert_eq!(stream_result(Err("bad json".to_string())).unwrap_err(), "bad json");
}

fn text_part(s: &str) -> MessagePart {
    MessagePart::Text { text: s.to_string() }
}

fn image_part(s: &str) -> MessagePart {
    MessagePart::Image { image_url: ImageUrl { url: s.to_string(), detail: None } }
}

#[test]
fn content_from_parts() {
    assert!(
        matches!(MessageContent::from(vec![text_part("a")]), MessageContent::Plain(t) if t == "a")
    );
    assert!(
        matches!(MessageContent::from(vec![image_part("u")]), MessageContent::Multipart(p) if p.len() == 1)
    );
    assert!(
        matches!(MessageContent::from(vec![]), MessageContent::Multipart(p) if p.is_empty())
    );
}

#[test]
fn content_grows() {
    let mut content = MessageContent::Multipart(vec![]);
    content.push_part(text_part("a"));
    assert!(matches!(&content, MessageContent::Plain(t) if t == "a"));
    content.push_part(text_part("b"));
    content.push_part(image_part("u"));
    match content {
        MessageContent::Multipart(parts) => {
            assert_eq!(parts.len(), 3);
            assert!(matches!(&parts[0], MessagePart::Text { text } if text == "a"));
            assert!(matches!(&parts[2], MessagePart::Image { image_url } if image_url.url == "u"));
        }
        _ => panic!("plain"),
    }
    let mut content = MessageContent::Multipart(vec![]);
    content.push_part(image_part("u"));
    assert!(matches!(content, MessageContent::Multipart(p) if p.len() == 1));
}

#[test]
fn model_names() {
    let m = Model::new("id", None, None, true, false, true);
    assert_eq!((m.display_name(), m.max_tokens), ("id", 4096));
    let m = Model::new("id", Some("Shown"), Some(7), false, true, false);
    assert_eq!((m.display_name(), m.max_tokens), ("Shown", 7));
    assert!(m.supports_images && !m.supports_tools && !m.supports_thinking);
}

#[test]
fn entry_status() {
    let mut e = entry("m");
    assert!(!e.is_router_entry() && !e.is_loaded() && !e.is_loading());
    e.status = Some(ModelStatus { value: "loaded".to_string() });
    assert!(e.is_router_entry() && e.is_loaded() && !e.is_loading());
    e.status = Some(ModelStatus { value: "loading".to_string() });
    assert!(!e.is_loaded() && e.is_loading());
}

#[test]
fn image_hints() {
    let mut e = entry("m");
    assert!(!e.supports_images_hint());
    e.capabilities = Some(ModelCapabilities { vision: Some(false) });
    assert!(!e.supports_images_hint());
    e.architecture = Some(Architecture {
        input_modalities: vec!["text".to_string(), "image".to_string()],
    });
    assert!(e.supports_images_hint());
    e.architecture = None;
    e.capabilities = Some(ModelCapabilities { vision: Some(true) });
    assert!(e.supports_images_hint());
}

fn event(kind: &str, status: Option<&str>, exit_code: Option<i32>) -> ModelEvent {
    ModelEvent {
        model: "m".to_string(),
        event: kind.to_string(),
        data: Some(ModelEventData {
            status: status.map(|s| s.to_string()),
            exit_code,
            progress: None,
        }),
    }
}

#[test]
fn model_events() {
    assert!(event("models_reload", None, None).changes_model_state());
    assert!(event("model_remove", None, None).changes_model_state());
    assert!(event("x", Some("loaded"), None).changes_model_state());
    assert!(event("x", Some("unloaded"), None).changes_model_state());
    assert!(!event("x", Some("loading"), None).changes_model_state());
    assert_eq!(event("x", Some("unloaded"), Some(-9)).load_failure(), Some(-9));
    assert_eq!(event("x", Some("unloaded"), Some(0)).load_failure(), None);
    assert_eq!(event("x", Some("loaded"), Some(3)).load_failure(), None);
    let bare = ModelEvent { model: "*".to_string(), event: "e".to_string(), data: None };
    assert!(!bare.changes_model_state());
    assert!(bare.load_progress().is_none());
}

#[test]
fn load_progress_labels() {
    let progress = |current: &str, percent: u32| LoadProgress {
        stages: vec!["text_model".to_string()],
        current: current.to_string(),
        percent,
    };
    assert_eq!(progress("text_model", 42).progress_label(), "Loading weights 42%");
    assert_eq!(progress("spec_model", 0).progress_label(), "Loading draft 0%");
    assert_eq!(progress("mmproj_model", 100).progress_label(), "Loading projector 100%");
    assert_eq!(progress("other", 7).stage_label(), "Loading");
    let mut e = event("status", Some("loading"), None);
    assert!(e.load_progress().is_none());
    e.data.as_mut().unwrap().progress = Some(progress("text_model", 5));
    assert_eq!(e.load_progress().unwrap().percent, 5);
    e.data.as_mut().unwrap().progress.as_mut().unwrap().stages.clear();
    assert!(e.load_progress().is_none());
    e.data.as_mut().unwrap().progress = Some(progress("", 5));
    assert!(e.load_progress().is_none());
}

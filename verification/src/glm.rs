//! The model gateway: its wire types, the credentials and tokens used with
//! it, and what is made of its answers.
use crate::deck_stream::bearer;
use crate::json;
use crate::json::{json_object, json_string, write_json};
use crate::text;
use crate::text::{copy_str, str_eq, str_strip_prefix};
use vstd::prelude::*;

verus! {

/// Address of the gateway worker unless another one is configured.
pub const GLM_API_URL: &'static str = "https://zai-proxy-worker.tranlequybaotk12.workers.dev";

/// Context size of a model that reports none.
pub const DEFAULT_CONTEXT_LENGTH: u64 = 4096;

// ---- gateway credentials ------------------------------------------------------------

/// How long a token stays valid after it was minted.
pub const TOKEN_TTL_SECS: u64 = 86400;

/// How long before its end a token counts as spent.
pub const TOKEN_REFRESH_SKEW_SECS: u64 = 600;

/// The answer of a login.
#[derive(Clone, Debug)]
pub struct LoginResponse {
    pub token: String,
}

/// A token that a login gave.
#[derive(Clone, Debug)]
pub struct CachedToken {
    pub token: String,
    /// Unix-epoch seconds at which the token was minted.
    pub minted_at: u64,
}

/// The credentials entered through the settings, the base URL that overrides
/// the default one, and the token of the last login.
#[derive(Debug)]
pub struct GatewayState {
    pub cached: Option<CachedToken>,
    pub token: Option<String>,
    pub login: Option<(String, String)>,
    pub base_url: Option<String>,
}

/// An email and a password by their characters.
pub open spec fn login_view(login: Option<(String, String)>) -> Option<(Seq<char>, Seq<char>)> {
    match login {
        Some((email, password)) => Some((email@, password@)),
        None => None,
    }
}

/// A text, unless it is empty.
pub open spec fn unless_empty(s: Option<Seq<char>>) -> Option<Seq<char>> {
    match s {
        Some(t) if t.len() > 0 => Some(t),
        _ => None,
    }
}

/// An email and a password, unless one of them is missing or empty.
pub open spec fn full_login(email: Option<Seq<char>>, password: Option<Seq<char>>) -> Option<
    (Seq<char>, Seq<char>),
> {
    match (unless_empty(email), unless_empty(password)) {
        (Some(e), Some(p)) => Some((e, p)),
        _ => None,
    }
}

/// What is known of the gateway before anything is set.
pub fn new_gateway_state() -> (state: GatewayState)
    ensures
        state.cached is None,
        state.token is None,
        state.login is None,
        state.base_url is None,
{
    GatewayState { cached: None, token: None, login: None, base_url: None }
}

/// The text, unless it is empty.
fn nonempty(s: Option<String>) -> (r: Option<String>)
    ensures
        text::opt_view(r) == unless_empty(text::opt_view(s)),
{
    match s {
        Some(t) => {
            if t.as_str().is_empty() {
                None
            } else {
                Some(t)
            }
        },
        None => None,
    }
}

/// An email and a password, unless one of them is missing or empty.
fn complete_login(email: Option<String>, password: Option<String>) -> (r: Option<(String, String)>)
    ensures
        login_view(r) == full_login(text::opt_view(email), text::opt_view(password)),
{
    match (nonempty(email), nonempty(password)) {
        (Some(e), Some(p)) => Some((e, p)),
        _ => None,
    }
}

/// Forces the next request for a token to log in again.
pub fn invalidate_gateway_token(state: &mut GatewayState)
    ensures
        final(state).cached is None,
        final(state).token == old(state).token,
        final(state).login == old(state).login,
        final(state).base_url == old(state).base_url,
{
    state.cached = None;
}

/// Installs a pre-issued gateway token. `None` or an empty one clears it. The
/// token of the last login is forgotten.
pub fn set_runtime_token(state: &mut GatewayState, token: Option<String>)
    ensures
        text::opt_view(final(state).token) == unless_empty(text::opt_view(token)),
        final(state).cached is None,
        final(state).login == old(state).login,
        final(state).base_url == old(state).base_url,
{
    state.token = nonempty(token);
    invalidate_gateway_token(state);
}

/// Installs an account's email and password. Where either is missing or
/// empty, they are cleared. The token of the last login is forgotten.
pub fn set_runtime_login(
    state: &mut GatewayState,
    email: Option<String>,
    password: Option<String>,
)
    ensures
        login_view(final(state).login) == full_login(
            text::opt_view(email),
            text::opt_view(password),
        ),
        final(state).cached is None,
        final(state).token == old(state).token,
        final(state).base_url == old(state).base_url,
{
    state.login = complete_login(email, password);
    invalidate_gateway_token(state);
}

/// Overrides the base URL of the gateway. `None` or an empty one clears it.
pub fn set_runtime_base_url(state: &mut GatewayState, url: Option<String>)
    ensures
        text::opt_view(final(state).base_url) == unless_empty(text::opt_view(url)),
        final(state).cached == old(state).cached,
        final(state).token == old(state).token,
        final(state).login == old(state).login,
{
    state.base_url = nonempty(url);
}

/// The email of the account that was installed, if any.
pub fn runtime_login_email(state: &GatewayState) -> (r: Option<String>)
    ensures
        text::opt_view(r) == (match login_view(state.login) {
            Some((email, _)) => Some(email),
            None => None,
        }),
{
    match &state.login {
        Some(login) => Some(copy_str(login.0.as_str())),
        None => None,
    }
}

/// Whether a token or an account is installed.
pub fn has_runtime_credentials(state: &GatewayState) -> (r: bool)
    ensures
        r == (state.token is Some || state.login is Some),
{
    state.token.is_some() || state.login.is_some()
}

/// The base URL of the gateway: the override, else the one of the
/// environment unless it is empty, else the default one.
pub open spec fn base_url_of(configured: Option<Seq<char>>, environment: Option<Seq<char>>) -> Seq<
    char,
> {
    match configured {
        Some(url) => url,
        None => match unless_empty(environment) {
            Some(url) => url,
            None => GLM_API_URL@,
        },
    }
}

/// The base URL of the gateway, given what the environment says.
pub fn worker_base_url(state: &GatewayState, environment: Option<String>) -> (r: String)
    ensures
        r@ == base_url_of(text::opt_view(state.base_url), text::opt_view(environment)),
{
    match &state.base_url {
        Some(url) => copy_str(url.as_str()),
        None => match nonempty(environment) {
            Some(url) => url,
            None => copy_str(GLM_API_URL),
        },
    }
}

/// How old a token is; one minted later than now is new.
pub open spec fn token_age(minted_at: u64, now: u64) -> int {
    if now < minted_at {
        0
    } else {
        now - minted_at
    }
}

/// The age of the cached token can be told from the clock.
pub open spec fn age_fits(cached: Option<CachedToken>, now: u64) -> bool {
    cached matches Some(c) ==> token_age(c.minted_at, now) + TOKEN_REFRESH_SKEW_SECS <= u64::MAX
}

/// The cached token, while it is neither spent nor about to be.
pub open spec fn valid_token(cached: Option<CachedToken>, now: u64) -> Option<Seq<char>> {
    match cached {
        Some(c) if token_age(c.minted_at, now) + TOKEN_REFRESH_SKEW_SECS < TOKEN_TTL_SECS => Some(
            c.token@,
        ),
        _ => None,
    }
}

/// The cached token, while it is neither spent nor about to be.
pub fn cached_token_if_valid(state: &GatewayState, now: u64) -> (r: Option<String>)
    requires
        age_fits(state.cached, now),
    ensures
        text::opt_view(r) == valid_token(state.cached, now),
{
    match &state.cached {
        Some(cached) => {
            let age: u64 = now.saturating_sub(cached.minted_at);
            if age + TOKEN_REFRESH_SKEW_SECS < TOKEN_TTL_SECS {
                Some(copy_str(cached.token.as_str()))
            } else {
                None
            }
        },
        None => None,
    }
}

/// The credentials that the environment holds.
#[derive(Debug)]
pub struct GatewayEnvironment {
    pub email: Option<String>,
    pub password: Option<String>,
    pub api_key: Option<String>,
}

/// How a token is to be had.
#[derive(Debug)]
pub enum TokenPlan {
    /// This is the token.
    Use(String),
    /// A login with this account gives it.
    Login { email: String, password: String },
}

/// How a token is to be had, by its contents.
pub enum PlanView {
    Use(Seq<char>),
    Login(Seq<char>, Seq<char>),
}

impl View for TokenPlan {
    type V = PlanView;

    open spec fn view(&self) -> PlanView {
        match *self {
            TokenPlan::Use(token) => PlanView::Use(token@),
            TokenPlan::Login { email, password } => PlanView::Login(email@, password@),
        }
    }
}

/// The order of the credentials: a valid cached token, the installed account,
/// the installed token, the account of the environment, the key of the
/// environment, and the empty token.
pub open spec fn token_plan(state: GatewayState, env: GatewayEnvironment, now: u64) -> PlanView {
    match valid_token(state.cached, now) {
        Some(token) => PlanView::Use(token),
        None => match login_view(state.login) {
            Some((email, password)) => PlanView::Login(email, password),
            None => match text::opt_view(state.token) {
                Some(token) => PlanView::Use(token),
                None => match full_login(text::opt_view(env.email), text::opt_view(env.password)) {
                    Some((email, password)) => PlanView::Login(email, password),
                    None => match text::opt_view(env.api_key) {
                        Some(key) => PlanView::Use(key),
                        None => PlanView::Use(Seq::empty()),
                    },
                },
            },
        },
    }
}

/// How the token for the gateway is to be had.
pub fn gateway_token(state: &GatewayState, env: GatewayEnvironment, now: u64) -> (plan: TokenPlan)
    requires
        age_fits(state.cached, now),
    ensures
        plan@ == token_plan(*state, env, now),
{
    if let Some(token) = cached_token_if_valid(state, now) {
        return TokenPlan::Use(token);
    }
    if let Some(login) = &state.login {
        return TokenPlan::Login {
            email: copy_str(login.0.as_str()),
            password: copy_str(login.1.as_str()),
        };
    }
    if let Some(token) = &state.token {
        return TokenPlan::Use(copy_str(token.as_str()));
    }
    if let Some((email, password)) = complete_login(env.email, env.password) {
        return TokenPlan::Login { email, password };
    }
    match env.api_key {
        Some(key) => TokenPlan::Use(key),
        None => TokenPlan::Use(String::new()),
    }
}

/// The address of the login endpoint.
pub fn login_uri(base: &str) -> (out: String)
    ensures
        out@ == base@ + "/auth/login"@,
{
    let mut out = copy_str(base);
    out.append("/auth/login");
    out
}

/// The body of a login request.
pub open spec fn login_request(email: Seq<char>, password: Seq<char>) -> json::Json {
    json::Json::Object(
        map![
            "email"@ => json::Json::Text(email),
            "password"@ => json::Json::Text(password),
        ],
    )
}

/// The text of the body of a login request.
pub fn login_body(email: &str, password: &str) -> (out: String)
    ensures
        out@ == json::json_text(login_request(email@, password@)),
{
    let mut fields: Vec<(String, serde_json::Value)> = Vec::new();
    fields.push((copy_str("email"), json_string(email)));
    fields.push((copy_str("password"), json_string(password)));
    proof {
        reveal_with_fuel(json::members, 3);
        assert(fields@.drop_last().drop_last() =~= Seq::empty());
        assert(fields@.drop_last().last() == fields@[0]);
        assert(json::members(fields@) =~= login_request(email@, password@)->Object_0);
    }
    write_json(&json_object(fields))
}

// ---- answers ------------------------------------------------------------------------

/// What `http::StatusCode` shows for a status code: the code and its reason.
pub uninterp spec fn status_line(code: u16) -> Seq<char>;

/// Calls `http::StatusCode::from_u16` and shows the status. A code from 100
/// to 999 is one that the crate accepts.
#[verifier::external_body]
pub(crate) fn status_text(code: u16) -> (r: String)
    requires
        100 <= code < 1000,
    ensures
        r@ == status_line(code),
{
    http::StatusCode::from_u16(code).map(|s| s.to_string()).unwrap_or_default()
}

/// Whether a status code tells of success.
pub open spec fn is_success(code: u16) -> bool {
    200 <= code < 300
}

/// An error: what it says and, where there is one, what caused it.
#[derive(Debug)]
pub struct GatewayError {
    pub message: String,
    pub cause: Option<String>,
}

/// `head`, the status and the body of an answer.
pub open spec fn answer_text(head: Seq<char>, status: u16, body: Seq<char>) -> Seq<char> {
    head + status_line(status) + " "@ + body
}

/// `head`, the status and the body of an answer.
pub(crate) fn describe_answer(head: &str, status: u16, body: &str) -> (out: String)
    requires
        100 <= status < 1000,
    ensures
        out@ == answer_text(head@, status, body@),
{
    let mut out = copy_str(head);
    let line = status_text(status);
    out.append(line.as_str());
    out.append(" ");
    out.append(body);
    out
}

/// What a login gives: the token of a successful answer that could be read.
pub open spec fn login_outcome(
    status: u16,
    body: Seq<char>,
    parsed: Result<LoginResponse, String>,
) -> Result<Seq<char>, (Seq<char>, Option<Seq<char>>)> {
    if !is_success(status) {
        Err((answer_text("gateway login failed: "@, status, body), None))
    } else {
        match parsed {
            Ok(answer) => Ok(answer.token@),
            Err(cause) => Err(("parse login response"@, Some(cause@))),
        }
    }
}

/// A result by its contents.
pub open spec fn result_view(r: Result<String, GatewayError>) -> Result<
    Seq<char>,
    (Seq<char>, Option<Seq<char>>),
> {
    match r {
        Ok(s) => Ok(s@),
        Err(e) => Err((e.message@, text::opt_view(e.cause))),
    }
}

/// Takes in the answer of a login, and what its body was read as: the token
/// is kept, minted now.
pub fn login_refresh(
    state: &mut GatewayState,
    now: u64,
    status: u16,
    body: &str,
    parsed: Result<LoginResponse, String>,
) -> (r: Result<String, GatewayError>)
    requires
        100 <= status < 1000,
    ensures
        result_view(r) == login_outcome(status, body@, parsed),
        match login_outcome(status, body@, parsed) {
            Ok(token) => final(state).cached matches Some(c) && c.token@ == token && c.minted_at
                == now,
            Err(_) => final(state).cached == old(state).cached,
        },
        final(state).token == old(state).token,
        final(state).login == old(state).login,
        final(state).base_url == old(state).base_url,
{
    if !(200 <= status && status < 300) {
        return Err(
            GatewayError {
                message: describe_answer("gateway login failed: ", status, body),
                cause: None,
            },
        );
    }
    match parsed {
        Ok(answer) => {
            let token = copy_str(answer.token.as_str());
            state.cached = Some(CachedToken { token: answer.token, minted_at: now });
            Ok(token)
        },
        Err(cause) => Err(
            GatewayError { message: copy_str("parse login response"), cause: Some(cause) },
        ),
    }
}

/// A token that a login has just given is used, until ten minutes before the
/// day that it is valid for is over, and then no more.
pub proof fn law_fresh_token_is_used(state: GatewayState, env: GatewayEnvironment, now: u64)
    requires
        state.cached is Some,
    ensures
        token_age(state.cached->0.minted_at, now) < 86400 - 600 ==> token_plan(state, env, now)
            == PlanView::Use(state.cached->0.token@),
        token_age(state.cached->0.minted_at, now) >= 86400 - 600 ==> valid_token(state.cached, now)
            is None,
{
}

/// After the cached token was forgotten, an installed account always logs in
/// again, whatever else is known.
pub proof fn law_forgotten_token_logs_in(
    state: GatewayState,
    env: GatewayEnvironment,
    now: u64,
    email: Seq<char>,
    password: Seq<char>,
)
    requires
        state.cached is None,
        login_view(state.login) == Some((email, password)),
    ensures
        token_plan(state, env, now) == PlanView::Login(email, password),
{
}

/// What was entered in the settings wins over the environment.
pub proof fn law_settings_win(
    state: GatewayState,
    env: GatewayEnvironment,
    other: GatewayEnvironment,
    now: u64,
)
    requires
        state.token is Some || state.login is Some,
    ensures
        token_plan(state, env, now) == token_plan(state, other, now),
{
}

// ---- requests -------------------------------------------------------------------------

/// What to do with an answer of the gateway.
#[derive(Clone, Copy, Debug, PartialEq, Eq, Structural)]
pub enum AnswerStep {
    /// Ask once more, with a new token.
    Retry,
    /// Read the answer.
    Accept,
    /// Report the answer.
    Reject,
}

/// The first answer with status 401 is not taken; any other is read where it
/// tells of success and reported where not.
pub open spec fn answer_step(attempt: u8, status: u16) -> AnswerStep {
    if status == 401 && attempt == 0 {
        AnswerStep::Retry
    } else if is_success(status) {
        AnswerStep::Accept
    } else {
        AnswerStep::Reject
    }
}

/// What to do with an answer of the gateway; before the request is made once
/// more, the token is forgotten.
pub fn on_answer(state: &mut GatewayState, attempt: u8, status: u16) -> (step: AnswerStep)
    ensures
        step == answer_step(attempt, status),
        step == AnswerStep::Retry ==> final(state).cached is None,
        step != AnswerStep::Retry ==> final(state).cached == old(state).cached,
        final(state).token == old(state).token,
        final(state).login == old(state).login,
        final(state).base_url == old(state).base_url,
{
    if status == 401 && attempt == 0 {
        invalidate_gateway_token(state);
        AnswerStep::Retry
    } else if 200 <= status && status < 300 {
        AnswerStep::Accept
    } else {
        AnswerStep::Reject
    }
}

/// A request is made twice at most: the second answer is always taken.
pub proof fn law_one_retry(attempt: u8, status: u16)
    ensures
        attempt > 0 ==> answer_step(attempt, status) != AnswerStep::Retry,
        answer_step(attempt, status) == AnswerStep::Retry ==> status == 401,
{
}

/// What an answer that is not taken is reported as.
pub fn connect_error(status: u16, body: &str) -> (out: String)
    requires
        100 <= status < 1000,
    ensures
        out@ == answer_text("Failed to connect to GLM API: "@, status, body@),
{
    describe_answer("Failed to connect to GLM API: ", status, body)
}

/// The address of the chat endpoint.
pub fn chat_uri(api_url: &str) -> (out: String)
    ensures
        out@ == api_url@ + "/v1/chat/completions"@,
{
    let mut out = copy_str(api_url);
    out.append("/v1/chat/completions");
    out
}

/// The address of the model list.
pub fn models_uri(api_url: &str) -> (out: String)
    ensures
        out@ == api_url@ + "/v1/models"@,
{
    let mut out = copy_str(api_url);
    out.append("/v1/models");
    out
}

/// The authorization header for a token; an empty one where it could not be
/// had.
pub fn authorization(token: Result<String, GatewayError>) -> (out: String)
    ensures
        out@ == "Bearer "@ + (match token {
            Ok(t) => t@,
            Err(_) => Seq::empty(),
        }),
{
    match token {
        Ok(t) => bearer(t.as_str()),
        Err(_) => {
            proof {
                reveal_strlit("");
                assert(""@ =~= Seq::<char>::empty());
            }
            bearer("")
        },
    }
}

/// What a line of a chat stream carries: the data after "data: ", unless it is
/// "[DONE]".
pub open spec fn chat_payload(line: Seq<char>) -> Option<Seq<char>> {
    match text::strip_prefix(line, "data: "@) {
        Some(payload) if payload != "[DONE]"@ => Some(payload),
        _ => None,
    }
}

/// What a line of a chat stream carries.
pub fn chat_line(line: &str) -> (r: Option<String>)
    ensures
        text::opt_view(r) == chat_payload(line@),
{
    match str_strip_prefix(line, "data: ") {
        Some(payload) => {
            if str_eq(payload.as_str(), "[DONE]") {
                None
            } else {
                Some(payload)
            }
        },
        None => None,
    }
}

// ---- laws -----------------------------------------------------------------------------

/// A token is used from when it was minted until ten minutes before its day is
/// over, and then no more. One minted in the future is new.
pub proof fn law_token_lasts_a_day(c: CachedToken, now: u64)
    ensures
        now < c.minted_at + 85_800 ==> valid_token(Some(c), now) == Some(c.token@),
        now >= c.minted_at + 85_800 ==> valid_token(Some(c), now) is None,
        valid_token(None, now) is None,
{
}

/// Without a token that is still valid, an installed account logs in. Without
/// an account, the installed token is used as it is; without either, the
/// account of the environment logs in where it is complete, and else the key of
/// the environment is used, or an empty one.
pub proof fn law_credentials_have_their_order(
    state: GatewayState,
    env: GatewayEnvironment,
    now: u64,
)
    requires
        state.cached matches Some(c) ==> now >= c.minted_at + 85_800,
    ensures
        ({
            let plan = token_plan(state, env, now);
            let complete = env.email is Some && env.password is Some && env.email->0@.len() > 0
                && env.password->0@.len() > 0;
            &&& state.login matches Some((email, password)) ==> plan == PlanView::Login(
                email@,
                password@,
            )
            &&& state.login is None && state.token is Some ==> plan == PlanView::Use(
                state.token->0@,
            )
            &&& state.login is None && state.token is None && complete ==> plan == PlanView::Login(
                env.email->0@,
                env.password->0@,
            )
            &&& state.login is None && state.token is None && !complete ==> plan == PlanView::Use(
                if env.api_key is Some {
                    env.api_key->0@
                } else {
                    Seq::empty()
                },
            )
        }),
{
}

/// A credential counts unless it is empty, and an account only with both of its
/// parts; what counts is kept as it was entered.
pub proof fn law_credentials_are_kept_as_entered(a: Seq<char>, b: Seq<char>)
    ensures
        a.len() > 0 ==> unless_empty(Some(a)) == Some(a),
        a.len() == 0 ==> unless_empty(Some(a)) is None,
        unless_empty(None) is None,
        a.len() > 0 && b.len() > 0 ==> full_login(Some(a), Some(b)) == Some((a, b)),
        a.len() == 0 || b.len() == 0 ==> full_login(Some(a), Some(b)) is None,
        full_login(None, Some(b)) is None,
        full_login(Some(a), None) is None,
{
}

/// The address that was configured is used as it is, whatever the environment
/// says; without it, that of the environment unless it is empty.
pub proof fn law_configured_address_wins(
    url: Seq<char>,
    environment: Option<Seq<char>>,
    other: Seq<char>,
)
    ensures
        base_url_of(Some(url), environment) == url,
        other.len() > 0 ==> base_url_of(None, Some(other)) == other,
        other.len() == 0 ==> base_url_of(None, Some(other)) == base_url_of(None, None),
        base_url_of(None, None) == GLM_API_URL@,
{
}

/// A login request tells the email and the password, and nothing else.
pub proof fn law_login_tells_the_account(email: Seq<char>, password: Seq<char>, key: Seq<char>)
    ensures
        json::text_of(json::member(login_request(email, password), "email"@)) == Some(email),
        json::text_of(json::member(login_request(email, password), "password"@)) == Some(password),
        key != "email"@ && key != "password"@ ==> json::member(login_request(email, password), key)
            is Null,
{
    reveal_strlit("email");
    reveal_strlit("password");
    assert("email"@.len() == 5 && "password"@.len() == 8);
}

/// A login gives the token of the answer where its status is from 200 to 299
/// and it could be read, and fails on any other. A failure tells the status and
/// the body of the answer, or why it could not be read.
pub proof fn law_login_gives_the_token(
    status: u16,
    body: Seq<char>,
    answer: LoginResponse,
    cause: String,
    parsed: Result<LoginResponse, String>,
)
    ensures
        200 <= status <= 299 ==> login_outcome(status, body, Ok(answer)) == Ok::<
            Seq<char>,
            (Seq<char>, Option<Seq<char>>),
        >(answer.token@),
        200 <= status <= 299 ==> login_outcome(status, body, Err(cause)) == Err::<
            Seq<char>,
            (Seq<char>, Option<Seq<char>>),
        >(("parse login response"@, Some(cause@))),
        status < 200 || status > 299 ==> login_outcome(status, body, parsed) == Err::<
            Seq<char>,
            (Seq<char>, Option<Seq<char>>),
        >(("gateway login failed: "@ + status_line(status) + " "@ + body, None)),
{
}

/// An answer with a status from 200 to 299 is read, at whatever attempt. One
/// with status 401 is asked for again at the first attempt alone. Any other is
/// reported.
pub proof fn law_answers_are_taken_by_their_status(attempt: u8, status: u16)
    ensures
        200 <= status <= 299 <==> answer_step(attempt, status) == AnswerStep::Accept,
        status == 401 && attempt == 0 <==> answer_step(attempt, status) == AnswerStep::Retry,
{
}

/// A line of a chat stream carries what stands behind "data: ", whole, unless
/// that is the mark of the end. Any other line carries nothing.
pub proof fn law_lines_carry_their_data(payload: Seq<char>, line: Seq<char>)
    ensures
        payload != "[DONE]"@ ==> chat_payload("data: "@ + payload) == Some(payload),
        chat_payload("data: "@ + "[DONE]"@) is None,
        !text::starts_with(line, "data: "@) ==> chat_payload(line) is None,
{
    let head = "data: "@;
    let n = head.len() as int;
    assert((head + payload).subrange(0, n) =~= head);
    assert((head + payload).skip(n) =~= payload);
    assert((head + "[DONE]"@).subrange(0, n) =~= head);
    assert((head + "[DONE]"@).skip(n) =~= "[DONE]"@);
}

// ---- what callers see -----------------------------------------------------------------

/// A token that was just installed is there as it was entered, and an empty one
/// clears it. The account and the address stay, and the token of the last login
/// is forgotten.
pub proof fn law_installed_token_is_there(s: &mut GatewayState, token: String)
    requires
        call_ensures(set_runtime_token, (s, Some(token)), ()),
    ensures
        token@.len() > 0 ==> final(s).token is Some && final(s).token->0@ == token@,
        token@.len() == 0 ==> final(s).token is None,
        final(s).cached is None,
        final(s).login == old(s).login,
        final(s).base_url == old(s).base_url,
{
}

/// An account that was just installed is there as it was entered, its email is
/// told, and, with no token of an earlier login left, it logs in. The installed
/// token and the address stay.
pub proof fn law_installed_account_logs_in(
    s: &mut GatewayState,
    email: String,
    password: String,
    told: Option<String>,
    known: bool,
    env: GatewayEnvironment,
    now: u64,
    plan: TokenPlan,
)
    requires
        email@.len() > 0,
        password@.len() > 0,
        call_ensures(set_runtime_login, (s, Some(email), Some(password)), ()),
        call_ensures(runtime_login_email, (&*final(s),), told),
        call_ensures(has_runtime_credentials, (&*final(s),), known),
        call_ensures(gateway_token, (&*final(s), env, now), plan),
    ensures
        told is Some && told->0@ == email@,
        known,
        plan@ == PlanView::Login(email@, password@),
        final(s).token == old(s).token,
        final(s).base_url == old(s).base_url,
{
}

/// An address that was just configured is the one that is used, whatever the
/// environment says, and nothing else changes.
pub proof fn law_configured_address_is_the_one_used(
    s: &mut GatewayState,
    url: String,
    environment: Option<String>,
    used: String,
)
    requires
        url@.len() > 0,
        call_ensures(set_runtime_base_url, (s, Some(url)), ()),
        call_ensures(worker_base_url, (&*final(s), environment), used),
    ensures
        used@ == url@,
        final(s).cached == old(s).cached,
        final(s).token == old(s).token,
        final(s).login == old(s).login,
{
}

/// The token that a login gives is used from then on, for a day less ten
/// minutes, whatever credentials there are.
pub proof fn law_login_token_is_used(
    s: &mut GatewayState,
    now: u64,
    status: u16,
    body: &str,
    answer: LoginResponse,
    r: Result<String, GatewayError>,
    env: GatewayEnvironment,
    later: u64,
    plan: TokenPlan,
)
    requires
        200 <= status <= 299,
        call_ensures(login_refresh, (s, now, status, body, Ok(answer)), r),
        call_ensures(gateway_token, (&*final(s), env, later), plan),
        later < now + 85_800,
    ensures
        r is Ok && r->Ok_0@ == answer.token@,
        plan@ == PlanView::Use(answer.token@),
{
    law_token_lasts_a_day(final(s).cached->0, later);
}

/// A login that failed changes nothing and gives no token.
pub proof fn law_failed_login_changes_nothing(
    s: &mut GatewayState,
    now: u64,
    status: u16,
    body: &str,
    parsed: Result<LoginResponse, String>,
    r: Result<String, GatewayError>,
)
    requires
        status < 200 || status > 299 || parsed is Err,
        call_ensures(login_refresh, (s, now, status, body, parsed), r),
    ensures
        r is Err,
        *final(s) == *old(s),
        status < 200 || status > 299 ==> r->Err_0.message@ == "gateway login failed: "@
            + status_line(status) + " "@ + body@,
        200 <= status <= 299 ==> r->Err_0.message@ == "parse login response"@ && r->Err_0.cause
            is Some && r->Err_0.cause->0@ == parsed->Err_0@,
{
}

/// A request is made once more exactly after a first answer with status 401,
/// and then without the token; any other answer leaves all as it was.
pub proof fn law_refused_token_is_forgotten(
    s: &mut GatewayState,
    attempt: u8,
    status: u16,
    step: AnswerStep,
)
    requires
        call_ensures(on_answer, (s, attempt, status), step),
    ensures
        step == AnswerStep::Retry <==> attempt == 0 && status == 401,
        step == AnswerStep::Accept <==> 200 <= status <= 299,
        step == AnswerStep::Retry ==> final(s).cached is None,
        step != AnswerStep::Retry ==> *final(s) == *old(s),
        final(s).token == old(s).token,
        final(s).login == old(s).login,
        final(s).base_url == old(s).base_url,
{
}

/// The addresses of the gateway begin with its base, and a request is
/// authorized by the token, or by an empty one where none could be had.
pub proof fn law_requests_are_addressed(
    base: &str,
    login: String,
    chat: String,
    models: String,
    token: Result<String, GatewayError>,
    header: String,
    status: u16,
    body: &str,
    error: String,
)
    requires
        call_ensures(login_uri, (base,), login),
        call_ensures(chat_uri, (base,), chat),
        call_ensures(models_uri, (base,), models),
        call_ensures(authorization, (token,), header),
        call_ensures(connect_error, (status, body), error),
    ensures
        login@ == base@ + "/auth/login"@,
        chat@ == base@ + "/v1/chat/completions"@,
        models@ == base@ + "/v1/models"@,
        token is Ok ==> header@ == "Bearer "@ + token->Ok_0@,
        token is Err ==> header@ == "Bearer "@,
        error@ == "Failed to connect to GLM API: "@ + status_line(status) + " "@ + body@,
{
    assert("Bearer "@ + Seq::<char>::empty() =~= "Bearer "@);
}

/// A line of a chat stream is read as the data behind "data: ", whole.
pub proof fn law_data_is_read_from_its_line(payload: Seq<char>, line: &str, r: Option<String>)
    requires
        line@ == "data: "@ + payload,
        call_ensures(chat_line, (line,), r),
    ensures
        payload != "[DONE]"@ ==> r is Some && r->0@ == payload,
        payload == "[DONE]"@ ==> r is None,
{
    law_lines_carry_their_data(payload, line@);
}

/// The age of a token can be told wherever the clock is not past ten minutes
/// before its end.
pub proof fn law_age_can_be_told(c: CachedToken, now: u64)
    ensures
        now <= u64::MAX - 600 ==> age_fits(Some(c), now),
        age_fits(None, now),
{
}

} // verus!

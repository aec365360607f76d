//! Requesting a deck: the request, the event stream that answers it, and the
//! jobs that turn the deck into files.
use crate::glm;
use crate::glm::status_text;
use crate::json;
use crate::json::{json_array_of, json_bool, json_object, json_string, write_json};
use crate::pptx;
use crate::slides;
use crate::slides::{
    enhance_topic, html_to_pptx_slides, render_preview_html, GenerateSlides, SlideDeckEvent,
};
use crate::text;
use crate::text::{
    copy_str, decimal_of_u128, decimal_of_usize, str_eq, str_strip_prefix, str_trim,
};
use vstd::prelude::*;

verus! {

/// Base URL of the local sidecar.
pub const SIDECAR_BASE_URL: &'static str = "http://127.0.0.1:3001";

/// Password of the local sidecar.
pub const PROXY_PASSWORD: &'static str = "Waguri";

/// Base URL of the hosted gateway.
pub const SLIDES_BASE_URL: &'static str = "https://zai-proxy-worker.tranlequybaotk12.workers.dev";

/// Path of the slides endpoint.
pub const SLIDES_PATH: &'static str = "/v1/slides";

// ---- the request ------------------------------------------------------------------

/// The body of a deck request: the model, the conversation named after the
/// time in milliseconds, and the topic as the only message.
pub open spec fn deck_request(topic: Seq<char>, millis: u128) -> json::Json {
    json::Json::Object(
        map![
            "model"@ => json::Json::Text("glm-5.3-flash"@),
            "stream"@ => json::Json::Bool(true),
            "conversation_id"@ => json::Json::Text("zagent-slides-"@ + text::decimal(millis as nat)),
            "messages"@ => json::Json::Array(seq![
                json::Json::Object(
                    map![
                        "role"@ => json::Json::Text("user"@),
                        "content"@ => json::Json::Text(topic),
                    ],
                ),
            ]),
        ],
    )
}

/// The text of the body of a deck request.
pub fn deck_request_body(topic: &str, millis: u128) -> (out: String)
    ensures
        out@ == json::json_text(deck_request(topic@, millis)),
{
    let mut message: Vec<(String, serde_json::Value)> = Vec::new();
    message.push((copy_str("role"), json_string("user")));
    message.push((copy_str("content"), json_string(topic)));
    proof {
        reveal_with_fuel(json::members, 3);
        assert(message@.drop_last().drop_last() =~= Seq::empty());
        assert(message@.drop_last().last() == message@[0]);
        assert(json::members(message@) =~= map![
            "role"@ => json::Json::Text("user"@),
            "content"@ => json::Json::Text(topic@),
        ]);
    }
    let mut id = copy_str("zagent-slides-");
    let stamp = decimal_of_u128(millis);
    id.append(stamp.as_str());
    let mut fields: Vec<(String, serde_json::Value)> = Vec::new();
    fields.push((copy_str("model"), json_string("glm-5.3-flash")));
    fields.push((copy_str("stream"), json_bool(true)));
    fields.push((copy_str("conversation_id"), json_string(id.as_str())));
    fields.push((copy_str("messages"), json_array_of(json_object(message))));
    proof {
        reveal_with_fuel(json::members, 5);
        let f3 = fields@.drop_last();
        let f2 = f3.drop_last();
        let f1 = f2.drop_last();
        assert(f1.drop_last() =~= Seq::empty());
        assert(f1.last() == fields@[0] && f2.last() == fields@[1] && f3.last() == fields@[2]);
        assert(json::Json::Object(json::members(fields@)) =~= deck_request(topic@, millis)) by {
            assert(json::members(fields@) =~= deck_request(topic@, millis)->Object_0);
        }
    }
    write_json(&json_object(fields))
}

/// The address of the slides endpoint under a base URL.
pub fn slides_uri(base: &str) -> (out: String)
    ensures
        out@ == base@ + SLIDES_PATH@,
{
    let mut out = copy_str(base);
    out.append(SLIDES_PATH);
    out
}

/// The authorization header for a token.
pub fn bearer(token: &str) -> (out: String)
    ensures
        out@ == "Bearer "@ + token@,
{
    let mut out = copy_str("Bearer ");
    out.append(token);
    out
}

/// Whether the answer to a request for a deck is followed: it is on success,
/// and else its status is told.
pub fn deck_answer(status: u16) -> (r: Result<(), String>)
    requires
        100 <= status < 1000,
    ensures
        r is Ok <==> glm::is_success(status),
        r matches Err(e) ==> e@ == "slides endpoint returned "@ + glm::status_line(status),
{
    if 200 <= status && status < 300 {
        return Ok(());
    }
    let mut out = copy_str("slides endpoint returned ");
    let line = status_text(status);
    out.append(line.as_str());
    Err(out)
}

// ---- the event stream ---------------------------------------------------------------

/// What a line of an event stream is.
pub enum StreamLine {
    /// Not a data line.
    Skip,
    /// The end of the stream.
    Done,
    /// A data line, with what it carries.
    Payload(String),
}

/// A line of an event stream carries data after "data: "; the data "[DONE]"
/// ends the stream.
pub fn read_stream_line(line: &str) -> (out: StreamLine)
    ensures
        match text::strip_prefix(line@, "data: "@) {
            None => out is Skip,
            Some(payload) => if payload == "[DONE]"@ {
                out is Done
            } else {
                out matches StreamLine::Payload(p) && p@ == payload
            },
        },
{
    match str_strip_prefix(line, "data: ") {
        None => StreamLine::Skip,
        Some(payload) => {
            if str_eq(payload.as_str(), "[DONE]") {
                StreamLine::Done
            } else {
                StreamLine::Payload(payload)
            }
        },
    }
}

/// An event of a deck stream.
pub enum SlidesEvent {
    Progress { chars: Option<usize> },
    Op { tool: Option<String>, position: Option<usize> },
    OpError { error: String },
    Error { error: String },
    Deck(SlideDeckEvent),
}

/// What follows from an event of a deck stream.
pub enum DeckStep {
    /// The stream goes on; the title of the stage, where the event gives one.
    Continue { title: Option<String> },
    /// The deck has come.
    Deck(SlideDeckEvent),
    /// The stream is given up.
    Failed { error: String },
}

/// The title of the stage that an operation on the deck is.
pub open spec fn op_title(tool: Option<Seq<char>>, position: Option<usize>) -> Seq<char> {
    if tool == Some("insert_page"@) && position is Some {
        "Adding slide "@ + text::decimal(position->0 as nat) + "…"@
    } else if tool == Some("update_page"@) && position is Some {
        "Updating slide "@ + text::decimal(position->0 as nat) + "…"@
    } else if tool == Some("remove_slides"@) {
        "Trimming slides…"@
    } else {
        "Styling the deck…"@
    }
}

/// The title of the stage that an event shows.
pub open spec fn stage_title(event: SlidesEvent) -> Option<Seq<char>> {
    match event {
        SlidesEvent::Progress { chars: Some(n) } => Some(
            "Authoring deck… "@ + text::decimal(n as nat) + " chars"@,
        ),
        SlidesEvent::Op { tool, position } => Some(op_title(text::opt_view(tool), position)),
        _ => None,
    }
}

/// `head`, a number and `tail`.
fn numbered(head: &str, n: usize, tail: &str) -> (out: String)
    ensures
        out@ == head@ + text::decimal(n as nat) + tail@,
{
    let mut out = copy_str(head);
    let digits = decimal_of_usize(n);
    out.append(digits.as_str());
    out.append(tail);
    out
}

/// The title of the stage that an operation on the deck is.
pub fn op_stage(tool: &Option<String>, position: Option<usize>) -> (out: String)
    ensures
        out@ == op_title(text::opt_view(*tool), position),
{
    if let Some(name) = tool {
        if let Some(n) = position {
            if str_eq(name.as_str(), "insert_page") {
                return numbered("Adding slide ", n, "…");
            }
            if str_eq(name.as_str(), "update_page") {
                return numbered("Updating slide ", n, "…");
            }
        }
        if str_eq(name.as_str(), "remove_slides") {
            proof {
                reveal_strlit("insert_page");
                reveal_strlit("update_page");
                reveal_strlit("remove_slides");
                assert("remove_slides"@.len() == 13);
            }
            return copy_str("Trimming slides…");
        }
    }
    copy_str("Styling the deck…")
}

/// Follows a deck stream.
pub struct DeckCollector {
    /// Whether an error event ends the stream.
    pub stops_at_error: bool,
    /// The last error event that came.
    pub last_error: Option<String>,
}

/// The error of a stream that ended without a deck.
pub open spec fn deck_failure(last_error: Option<Seq<char>>) -> Seq<char> {
    match last_error {
        Some(e) => e,
        None => "no deck event received"@,
    }
}

/// What a stream of events gives, each one `None` where it could not be
/// read: the first deck, or an error. With `stop` the first error event ends
/// the stream; without it, it is kept until the end.
pub open spec fn collected(
    events: Seq<Option<SlidesEvent>>,
    stop: bool,
    last_error: Option<Seq<char>>,
) -> Result<SlideDeckEvent, Seq<char>>
    decreases events.len(),
{
    if events.len() == 0 {
        Err(deck_failure(last_error))
    } else {
        match events[0] {
            Some(SlidesEvent::Deck(deck)) => Ok(deck),
            Some(SlidesEvent::Error { error }) => if stop {
                Err(error@)
            } else {
                collected(events.skip(1), stop, Some(error@))
            },
            _ => collected(events.skip(1), stop, last_error),
        }
    }
}

impl DeckCollector {
    /// A collector that has seen no event.
    pub fn new(stops_at_error: bool) -> (r: DeckCollector)
        ensures
            r.stops_at_error == stops_at_error,
            r.last_error is None,
    {
        DeckCollector { stops_at_error, last_error: None }
    }

    /// Takes in the next event, `None` where it could not be read.
    pub fn on_event(&mut self, event: Option<SlidesEvent>) -> (step: DeckStep)
        ensures
            final(self).stops_at_error == old(self).stops_at_error,
            match event {
                Some(SlidesEvent::Deck(deck)) => step == DeckStep::Deck(deck),
                Some(SlidesEvent::Error { error }) => if old(self).stops_at_error {
                    step matches DeckStep::Failed { error: e } && e@ == error@
                } else {
                    step matches DeckStep::Continue { title } && title is None
                },
                Some(other) => step matches DeckStep::Continue { title } && text::opt_view(title)
                    == stage_title(other),
                None => step matches DeckStep::Continue { title } && title is None,
            },
            match event {
                Some(SlidesEvent::Error { error }) if !old(self).stops_at_error => text::opt_view(
                    final(self).last_error,
                ) == Some(error@),
                _ => final(self).last_error == old(self).last_error,
            },
            forall|rest: Seq<Option<SlidesEvent>>| #[trigger]
                collected(
                    seq![event] + rest,
                    old(self).stops_at_error,
                    text::opt_view(old(self).last_error),
                ) == (match step {
                    DeckStep::Deck(deck) => Ok(deck),
                    DeckStep::Failed { error } => Err(error@),
                    DeckStep::Continue { .. } => collected(
                        rest,
                        final(self).stops_at_error,
                        text::opt_view(final(self).last_error),
                    ),
                }),
    {
        proof {
            assert forall|rest: Seq<Option<SlidesEvent>>| (#[trigger] (seq![event] + rest)).skip(1)
                =~= rest && (seq![event] + rest)[0] == event by {}
        }
        match event {
            Some(SlidesEvent::Deck(deck)) => DeckStep::Deck(deck),
            Some(SlidesEvent::Error { error }) => {
                if self.stops_at_error {
                    DeckStep::Failed { error }
                } else {
                    self.last_error = Some(error);
                    DeckStep::Continue { title: None }
                }
            },
            Some(SlidesEvent::Progress { chars }) => match chars {
                Some(n) => DeckStep::Continue {
                    title: Some(numbered("Authoring deck… ", n, " chars")),
                },
                None => DeckStep::Continue { title: None },
            },
            Some(SlidesEvent::Op { tool, position }) => DeckStep::Continue {
                title: Some(op_stage(&tool, position)),
            },
            Some(SlidesEvent::OpError { .. }) => DeckStep::Continue { title: None },
            None => DeckStep::Continue { title: None },
        }
    }

    /// The error of a stream that ended without a deck.
    pub fn finish(self) -> (error: String)
        ensures
            error@ == deck_failure(text::opt_view(self.last_error)),
            Err::<SlideDeckEvent, Seq<char>>(error@) == collected(
                Seq::empty(),
                self.stops_at_error,
                text::opt_view(self.last_error),
            ),
    {
        match self.last_error {
            Some(e) => e,
            None => copy_str("no deck event received"),
        }
    }
}

/// The error event at position `i`, if there is one.
pub open spec fn error_at(events: Seq<Option<SlidesEvent>>, i: int) -> Option<Seq<char>> {
    match events[i] {
        Some(SlidesEvent::Error { error }) => Some(error@),
        _ => None,
    }
}

/// Whether the event at position `i` is a deck.
pub open spec fn is_deck_at(events: Seq<Option<SlidesEvent>>, i: int) -> bool {
    events[i] matches Some(SlidesEvent::Deck(_))
}

/// The first deck of a stream is its result, whatever came before it; only a
/// collector that stops at errors may have given up before.
pub proof fn law_first_deck_wins(
    events: Seq<Option<SlidesEvent>>,
    stop: bool,
    last_error: Option<Seq<char>>,
    deck: SlideDeckEvent,
    k: int,
)
    requires
        0 <= k < events.len(),
        events[k] == Some(SlidesEvent::Deck(deck)),
        forall|i: int| 0 <= i < k ==> !#[trigger] is_deck_at(events, i),
        stop ==> forall|i: int| 0 <= i < k ==> #[trigger] error_at(events, i) is None,
    ensures
        collected(events, stop, last_error) == Ok::<SlideDeckEvent, Seq<char>>(deck),
    decreases events.len(),
{
    if k > 0 {
        let rest = events.skip(1);
        assert(!is_deck_at(events, 0));
        assert(stop ==> error_at(events, 0) is None);
        assert forall|i: int| 0 <= i < k - 1 implies !#[trigger] is_deck_at(rest, i) by {
            assert(!is_deck_at(events, i + 1));
        }
        if stop {
            assert forall|i: int| 0 <= i < k - 1 implies #[trigger] error_at(rest, i) is None by {
                assert(error_at(events, i + 1) is None);
            }
        }
        law_first_deck_wins(
            rest,
            stop,
            match error_at(events, 0) {
                Some(e) => Some(e),
                None => last_error,
            },
            deck,
            k - 1,
        );
    }
}

/// A stream without a deck fails with the error event that came last, or says
/// that no deck came.
pub proof fn law_no_deck_reports_last_error(
    events: Seq<Option<SlidesEvent>>,
    last_error: Option<Seq<char>>,
)
    requires
        forall|i: int| 0 <= i < events.len() ==> !#[trigger] is_deck_at(events, i),
    ensures
        (forall|i: int| 0 <= i < events.len() ==> #[trigger] error_at(events, i) is None)
            ==> collected(events, false, last_error) == Err::<SlideDeckEvent, Seq<char>>(
            deck_failure(last_error),
        ),
        forall|k: int|
            0 <= k < events.len() && #[trigger] error_at(events, k) is Some && (forall|i: int|
                k < i < events.len() ==> #[trigger] error_at(events, i) is None) ==> collected(
                events,
                false,
                last_error,
            ) == Err::<SlideDeckEvent, Seq<char>>(error_at(events, k)->0),
    decreases events.len(),
{
    if events.len() > 0 {
        let rest = events.skip(1);
        assert(!is_deck_at(events, 0));
        assert forall|i: int| 0 <= i < rest.len() implies !#[trigger] is_deck_at(rest, i) by {
            assert(!is_deck_at(events, i + 1));
        }
        let next = match error_at(events, 0) {
            Some(e) => Some(e),
            None => last_error,
        };
        law_no_deck_reports_last_error(rest, next);
        assert(collected(events, false, last_error) == collected(rest, false, next));
        assert(forall|i: int| 0 <= i < rest.len() ==> #[trigger] error_at(rest, i) == error_at(
            events,
            i + 1,
        ));
        if forall|i: int| 0 <= i < events.len() ==> #[trigger] error_at(events, i) is None {
            assert(error_at(events, 0) is None);
            assert forall|i: int| 0 <= i < rest.len() implies #[trigger] error_at(
                rest,
                i,
            ) is None by {
                assert(error_at(events, i + 1) is None);
            }
        }
        assert forall|k: int|
            0 <= k < events.len() && #[trigger] error_at(events, k) is Some && (forall|i: int|
                k < i < events.len() ==> #[trigger] error_at(events, i) is None) implies collected(
            events,
            false,
            last_error,
        ) == Err::<SlideDeckEvent, Seq<char>>(error_at(events, k)->0) by {
            assert forall|i: int| k - 1 < i < rest.len() implies #[trigger] error_at(
                rest,
                i,
            ) is None by {
                assert(error_at(events, i + 1) is None);
            }
            if k > 0 {
                assert(error_at(rest, k - 1) == error_at(events, k));
            }
        }
    }
}

// ---- the topic --------------------------------------------------------------------

/// What is shown where there is no topic.
pub const NO_TOPIC: &'static str = "No topic: switch the composer to the Slides profile and type a request, or copy the text describing the deck and run Generate Slides again.";

/// The topic of a request: that of the action, trimmed, or the clipboard
/// text, trimmed, where the action has none or a blank one.
pub open spec fn chosen_topic(topic: Option<Seq<char>>, clipboard: Option<Seq<char>>) -> Seq<char> {
    match topic {
        Some(t) if text::trim(t).len() > 0 => text::trim(t),
        _ => match clipboard {
            Some(c) => text::trim(c),
            None => Seq::empty(),
        },
    }
}

/// The clipboard text, trimmed; empty where the clipboard holds no text.
pub fn current_topic(clipboard: Option<String>) -> (out: String)
    ensures
        out@ == chosen_topic(None, text::opt_view(clipboard)),
{
    match clipboard {
        Some(c) => str_trim(c.as_str()),
        None => String::new(),
    }
}

/// The topic of a request for slides.
pub fn pick_topic(action: &GenerateSlides, clipboard: Option<String>) -> (out: String)
    ensures
        out@ == chosen_topic(text::opt_view(action.topic), text::opt_view(clipboard)),
{
    if let Some(t) = &action.topic {
        let trimmed = str_trim(t.as_str());
        if !trimmed.as_str().is_empty() {
            return trimmed;
        }
    }
    current_topic(clipboard)
}

// ---- the job ------------------------------------------------------------------------

/// Name of the preview file.
pub const PREVIEW_FILE: &'static str = "slides-preview.html";

/// Name of the presentation file.
pub const PPTX_FILE: &'static str = "slides.pptx";

/// Title of the presentation.
pub const DECK_TITLE: &'static str = "presentation";

/// Who a deck is made for: the workspace action or the agent tool. They show
/// different texts.
#[derive(Clone, Copy)]
pub enum JobKind {
    Action,
    Tool,
}

/// What a job waits for.
pub enum JobStage {
    /// The deck.
    Deck,
    /// The output directory.
    Directory { deck: SlideDeckEvent },
    /// The preview file.
    Preview { deck: SlideDeckEvent },
    /// The presentation file.
    Pptx { count: usize },
    /// Nothing.
    Finished,
}

/// What has happened.
pub enum JobEvent {
    /// The deck stream has ended.
    Deck(Result<SlideDeckEvent, String>),
    /// The directory was made, or the file written.
    Written(Result<(), String>),
}

/// What is to be done next.
#[allow(inconsistent_fields)]
pub enum JobAction {
    MakeDirectory { status: String },
    WritePreview { html: String },
    WritePptx { status: Option<String>, bytes: Vec<u8> },
    Succeed { count: usize },
    Fail { error: String },
    /// The deck has more slides than a presentation file can hold.
    TooLarge,
    /// The event is not what the job waits for.
    Wait,
}

/// A job's next step, by its contents.
pub enum ActionView {
    MakeDirectory(Seq<char>),
    WritePreview(Seq<char>),
    WritePptx(Option<Seq<char>>, Seq<u8>),
    Succeed(usize),
    Fail(Seq<char>),
    TooLarge,
    Wait,
}

impl View for JobAction {
    type V = ActionView;

    open spec fn view(&self) -> ActionView {
        match *self {
            JobAction::MakeDirectory { status } => ActionView::MakeDirectory(status@),
            JobAction::WritePreview { html } => ActionView::WritePreview(html@),
            JobAction::WritePptx { status, bytes } => ActionView::WritePptx(
                text::opt_view(status),
                bytes@,
            ),
            JobAction::Succeed { count } => ActionView::Succeed(count),
            JobAction::Fail { error } => ActionView::Fail(error@),
            JobAction::TooLarge => ActionView::TooLarge,
            JobAction::Wait => ActionView::Wait,
        }
    }
}

/// Whether a presentation file can hold the deck.
pub open spec fn fits_package(deck: SlideDeckEvent) -> bool {
    11 + 2 * deck.slides@.len() <= 0xFFFF
}

/// The presentation file of a deck.
pub open spec fn deck_package(deck: SlideDeckEvent) -> Seq<u8> {
    crate::archive::archive_of(
        pptx::package_entries(
            deck.slides@.map_values(|s: slides::Slide| slides::page_text(s)),
            DECK_TITLE@,
        ),
    )
}

/// What is shown when the deck has come.
pub open spec fn ready_text(kind: JobKind, count: nat) -> Seq<char> {
    match kind {
        JobKind::Action => "Deck ready: "@ + text::decimal(count) + " slides. Packaging PPTX…"@,
        JobKind::Tool => "Deck ready: "@ + text::decimal(count) + " slides — writing files…"@,
    }
}

/// What is shown when a job has failed: before or after the deck came.
pub open spec fn failure_text(kind: JobKind, deck_came: bool, error: Seq<char>) -> Seq<char> {
    match kind {
        JobKind::Action => "Slides failed: "@ + error,
        JobKind::Tool => if deck_came {
            error
        } else {
            "slides pipeline failed: "@ + error
        },
    }
}

/// The stage after an event.
pub open spec fn next_stage(stage: JobStage, event: JobEvent) -> JobStage {
    match (stage, event) {
        (JobStage::Deck, JobEvent::Deck(Ok(deck))) => JobStage::Directory { deck },
        (JobStage::Directory { deck }, JobEvent::Written(Ok(_))) => JobStage::Preview { deck },
        (JobStage::Preview { deck }, JobEvent::Written(Ok(_))) => if fits_package(deck) {
            JobStage::Pptx { count: deck.slides@.len() as usize }
        } else {
            JobStage::Finished
        },
        (JobStage::Pptx { .. }, JobEvent::Written(Ok(_))) => JobStage::Finished,
        (JobStage::Deck, JobEvent::Deck(Err(_))) => JobStage::Finished,
        (JobStage::Directory { .. }, JobEvent::Written(Err(_))) => JobStage::Finished,
        (JobStage::Preview { .. }, JobEvent::Written(Err(_))) => JobStage::Finished,
        (JobStage::Pptx { .. }, JobEvent::Written(Err(_))) => JobStage::Finished,
        _ => stage,
    }
}

/// What an event makes a job do.
pub open spec fn next_action(kind: JobKind, stage: JobStage, event: JobEvent) -> ActionView {
    match (stage, event) {
        (JobStage::Deck, JobEvent::Deck(Ok(deck))) => ActionView::MakeDirectory(
            ready_text(kind, deck.slides@.len()),
        ),
        (JobStage::Directory { deck }, JobEvent::Written(Ok(_))) => ActionView::WritePreview(
            slides::preview(deck),
        ),
        (JobStage::Preview { deck }, JobEvent::Written(Ok(_))) => if fits_package(deck) {
            ActionView::WritePptx(
                match kind {
                    JobKind::Action => None,
                    JobKind::Tool => Some("Packaging editable PPTX…"@),
                },
                deck_package(deck),
            )
        } else {
            ActionView::TooLarge
        },
        (JobStage::Pptx { count }, JobEvent::Written(Ok(_))) => ActionView::Succeed(count),
        (JobStage::Deck, JobEvent::Deck(Err(e))) => ActionView::Fail(failure_text(kind, false, e@)),
        (JobStage::Directory { .. }, JobEvent::Written(Err(e))) => ActionView::Fail(
            failure_text(kind, true, e@),
        ),
        (JobStage::Preview { .. }, JobEvent::Written(Err(e))) => ActionView::Fail(
            failure_text(kind, true, e@),
        ),
        (JobStage::Pptx { .. }, JobEvent::Written(Err(e))) => ActionView::Fail(
            failure_text(kind, true, e@),
        ),
        _ => ActionView::Wait,
    }
}

/// What is shown when a job has failed.
fn failure(kind: JobKind, deck_came: bool, error: String) -> (out: String)
    ensures
        out@ == failure_text(kind, deck_came, error@),
{
    let mut out = match kind {
        JobKind::Action => copy_str("Slides failed: "),
        JobKind::Tool => {
            if deck_came {
                return error;
            }
            copy_str("slides pipeline failed: ")
        },
    };
    out.append(error.as_str());
    out
}

/// Takes a job one event further.
pub fn advance(kind: JobKind, stage: JobStage, event: JobEvent) -> (r: (JobStage, JobAction))
    ensures
        r.0 == next_stage(stage, event),
        r.1@ == next_action(kind, stage, event),
{
    match (stage, event) {
        (JobStage::Deck, JobEvent::Deck(Ok(deck))) => {
            let tail: &str = match kind {
                JobKind::Action => " slides. Packaging PPTX…",
                JobKind::Tool => " slides — writing files…",
            };
            let status = numbered("Deck ready: ", deck.slides.len(), tail);
            (JobStage::Directory { deck }, JobAction::MakeDirectory { status })
        },
        (JobStage::Deck, JobEvent::Deck(Err(e))) => (
            JobStage::Finished,
            JobAction::Fail { error: failure(kind, false, e) },
        ),
        (JobStage::Directory { deck }, JobEvent::Written(Ok(_))) => {
            let html = render_preview_html(&deck);
            (JobStage::Preview { deck }, JobAction::WritePreview { html })
        },
        (JobStage::Preview { deck }, JobEvent::Written(Ok(_))) => {
            let count: usize = deck.slides.len();
            if count > 32762 {
                return (JobStage::Finished, JobAction::TooLarge);
            }
            let pages = html_to_pptx_slides(&deck);
            proof {
                assert(pptx::slide_texts(pages@).len() == pages@.len());
            }
            let bytes = pptx::build(&pages, DECK_TITLE);
            let status = match kind {
                JobKind::Action => None,
                JobKind::Tool => Some(copy_str("Packaging editable PPTX…")),
            };
            (JobStage::Pptx { count }, JobAction::WritePptx { status, bytes })
        },
        (JobStage::Pptx { count }, JobEvent::Written(Ok(_))) => (
            JobStage::Finished,
            JobAction::Succeed { count },
        ),
        (JobStage::Directory { deck: _ }, JobEvent::Written(Err(e))) => (
            JobStage::Finished,
            JobAction::Fail { error: failure(kind, true, e) },
        ),
        (JobStage::Preview { deck: _ }, JobEvent::Written(Err(e))) => (
            JobStage::Finished,
            JobAction::Fail { error: failure(kind, true, e) },
        ),
        (JobStage::Pptx { count: _ }, JobEvent::Written(Err(e))) => (
            JobStage::Finished,
            JobAction::Fail { error: failure(kind, true, e) },
        ),
        (stage, _) => (stage, JobAction::Wait),
    }
}

/// What is shown while the deck is awaited.
pub const REQUESTING: &'static str = "Requesting deck from the model…";

/// How a request for slides begins.
pub enum SlidesStart {
    /// There is no topic; the message says so.
    NoTopic { message: String },
    /// The deck is to be requested for the topic, while the status is shown.
    Request { status: String, topic: String },
}

/// Begins a request for slides: the topic comes from the action or, failing
/// that, from the clipboard, and is completed before it is sent.
pub fn generate_slides(action: &GenerateSlides, clipboard: Option<String>) -> (start: SlidesStart)
    ensures
        ({
            let topic = chosen_topic(text::opt_view(action.topic), text::opt_view(clipboard));
            if topic.len() == 0 {
                start matches SlidesStart::NoTopic { message } && message@ == NO_TOPIC@
            } else {
                start matches SlidesStart::Request { status, topic: t } && status@ == REQUESTING@
                    && slides::is_enhanced(topic, t@)
            }
        }),
{
    let topic = pick_topic(action, clipboard);
    if topic.as_str().is_empty() {
        return SlidesStart::NoTopic { message: copy_str(NO_TOPIC) };
    }
    SlidesStart::Request { status: copy_str(REQUESTING), topic: enhance_topic(topic) }
}

/// What tells that the slides were generated.
pub open spec fn summary_text(
    count: nat,
    html_label: Seq<char>,
    html_path: Seq<char>,
    pptx_path: Seq<char>,
) -> Seq<char> {
    "Generated "@ + text::decimal(count) + " slides.\n"@ + html_label + html_path + "\nPPTX: "@
        + pptx_path
}

/// What tells that the slides were generated.
pub(crate) fn summary(
    count: usize,
    html_label: &str,
    html_path: &str,
    pptx_path: &str,
) -> (out: String)
    ensures
        out@ == summary_text(count as nat, html_label@, html_path@, pptx_path@),
{
    let mut out = numbered("Generated ", count, " slides.\n");
    out.append(html_label);
    out.append(html_path);
    out.append("\nPPTX: ");
    out.append(pptx_path);
    out
}

/// What the workspace shows when the slides were generated.
pub fn action_summary(count: usize, html_path: &str, pptx_path: &str) -> (out: String)
    ensures
        out@ == summary_text(count as nat, "Preview: "@, html_path@, pptx_path@),
{
    summary(count, "Preview: ", html_path, pptx_path)
}

/// A job whose deck comes and whose writes succeed makes the directory,
/// writes the preview of that deck, writes the presentation of that deck, and
/// ends with the number of its slides.
pub proof fn law_job_succeeds(kind: JobKind, deck: SlideDeckEvent)
    requires
        fits_package(deck),
    ensures
        ({
            let came = JobEvent::Deck(Ok(deck));
            let written = JobEvent::Written(Ok(()));
            let s1 = next_stage(JobStage::Deck, came);
            let s2 = next_stage(s1, written);
            let s3 = next_stage(s2, written);
            let s4 = next_stage(s3, written);
            &&& next_action(kind, JobStage::Deck, came) is MakeDirectory
            &&& next_action(kind, s1, written) == ActionView::WritePreview(slides::preview(deck))
            &&& next_action(kind, s2, written) matches ActionView::WritePptx(_, bytes) && bytes
                == deck_package(deck)
            &&& next_action(kind, s3, written) == ActionView::Succeed(deck.slides@.len() as usize)
            &&& s4 == JobStage::Finished
        }),
{
}

/// A job that has ended does nothing more, and one that waits for a deck does
/// not take a write for it.
pub proof fn law_job_ends(kind: JobKind, event: JobEvent)
    ensures
        next_stage(JobStage::Finished, event) == JobStage::Finished,
        next_action(kind, JobStage::Finished, event) == ActionView::Wait,
        event is Written ==> next_stage(JobStage::Deck, event) == JobStage::Deck,
{
}

/// A collector that stops at errors fails with the first error, where no deck
/// came before it.
pub proof fn law_first_error_stops(
    events: Seq<Option<SlidesEvent>>,
    last_error: Option<Seq<char>>,
    k: int,
)
    requires
        0 <= k < events.len(),
        error_at(events, k) is Some,
        forall|i: int| 0 <= i < k ==> !#[trigger] is_deck_at(events, i),
        forall|i: int| 0 <= i < k ==> #[trigger] error_at(events, i) is None,
    ensures
        collected(events, true, last_error) == Err::<SlideDeckEvent, Seq<char>>(
            error_at(events, k)->0,
        ),
    decreases events.len(),
{
    if k > 0 {
        let rest = events.skip(1);
        assert(!is_deck_at(events, 0));
        assert(error_at(events, 0) is None);
        assert(error_at(rest, k - 1) == error_at(events, k));
        assert forall|i: int| 0 <= i < k - 1 implies !#[trigger] is_deck_at(rest, i) by {
            assert(!is_deck_at(events, i + 1));
        }
        assert forall|i: int| 0 <= i < k - 1 implies #[trigger] error_at(rest, i) is None by {
            assert(error_at(events, i + 1) is None);
        }
        law_first_error_stops(rest, last_error, k - 1);
    }
}

/// The stage that is shown names the slide that is added or updated, and the
/// number of characters that were written.
pub proof fn law_stages_tell_their_numbers(tool: Option<Seq<char>>, n: usize)
    ensures
        tool == Some("insert_page"@) ==> op_title(tool, Some(n)) == "Adding slide "@ + text::decimal(
            n as nat,
        ) + "…"@,
        tool == Some("update_page"@) ==> op_title(tool, Some(n)) == "Updating slide "@
            + text::decimal(n as nat) + "…"@,
        stage_title(SlidesEvent::Progress { chars: Some(n) }) == Some(
            "Authoring deck… "@ + text::decimal(n as nat) + " chars"@,
        ),
        stage_title(SlidesEvent::Progress { chars: None }) is None,
{
    reveal_strlit("insert_page");
    reveal_strlit("update_page");
    assert("insert_page"@[0] != "update_page"@[0]);
}

/// The topic is that of the action, without the white space at its ends, where
/// it says anything; else the text of the clipboard.
pub proof fn law_topic_is_the_one_given(
    topic: Option<Seq<char>>,
    clipboard: Option<Seq<char>>,
    i: int,
)
    ensures
        topic matches Some(t) ==> (0 <= i < t.len() && !text::whitespace(t[i]) ==> chosen_topic(
            topic,
            clipboard,
        ) == text::trim(t) && text::trim(t).len() > 0),
        topic is None || (forall|j: int|
            0 <= j < topic->0.len() ==> text::whitespace(#[trigger] topic->0[j])) ==> chosen_topic(
            topic,
            clipboard,
        ) == match clipboard {
            Some(c) => text::trim(c),
            None => Seq::empty(),
        },
{
    if let Some(t) = topic {
        let cut = text::law_trim_cuts_white_space(t);
        if cut.0 < cut.1 {
            assert(text::trim(t)[0] == t[cut.0]);
        }
    }
}

/// A deck comes to its files whole: the preview of all its slides, and a
/// presentation whose file of slide `i`, counted from zero, is the markup of
/// that slide's title and bullets.
pub proof fn law_presentation_holds_every_slide(deck: SlideDeckEvent, i: int)
    requires
        0 <= i < deck.slides@.len(),
        crate::archive::fits_format(
            pptx::package_entries(
                deck.slides@.map_values(|s: slides::Slide| slides::page_text(s)),
                DECK_TITLE@,
            ),
        ),
    ensures
        crate::archive::read_archive(deck_package(deck)) matches Some(files) && {
            &&& files.len() == 11 + 2 * deck.slides@.len()
            &&& files[11 + 2 * i] == pptx::part_entry(
                pptx::part(
                    "ppt/slides/slide"@ + text::decimal((i + 1) as nat) + ".xml"@,
                    pptx::slide_markup(
                        pptx::SlideText {
                            title: slides::stripped(deck.slides@[i].title@),
                            bullets: slides::bullets_of(deck.slides@[i].html@),
                        },
                    ),
                ),
            )
        },
{
    let pages = deck.slides@.map_values(|s: slides::Slide| slides::page_text(s));
    pptx::law_package_reads_back(pages, DECK_TITLE@);
    assert(pages[i] == slides::page_text(deck.slides@[i]));
}

/// A deck request asks the model for a stream on the topic, whole and as the
/// only message, in a conversation of its own time.
pub proof fn law_request_asks_for_the_topic(topic: Seq<char>, millis: u128, other: u128)
    ensures
        ({
            let j = deck_request(topic, millis);
            let messages = json::member(j, "messages"@);
            &&& json::text_of(json::member(j, "model"@)) == Some("glm-5.3-flash"@)
            &&& json::member(j, "stream"@) == json::Json::Bool(true)
            &&& json::text_of(json::member(json::item(messages, 0), "role"@)) == Some("user"@)
            &&& json::text_of(json::member(json::item(messages, 0), "content"@)) == Some(topic)
            &&& json::item(messages, 1) is Null
            &&& json::member(j, "conversation_id"@) == json::member(
                deck_request(topic, other),
                "conversation_id"@,
            ) ==> millis == other
        }),
{
    reveal_strlit("model");
    reveal_strlit("stream");
    reveal_strlit("conversation_id");
    reveal_strlit("messages");
    reveal_strlit("role");
    reveal_strlit("content");
    assert("model"@.len() == 5 && "stream"@.len() == 6 && "conversation_id"@.len() == 15
        && "messages"@.len() == 8 && "role"@.len() == 4 && "content"@.len() == 7);
    let head = "zagent-slides-"@;
    let a = text::decimal(millis as nat);
    let b = text::decimal(other as nat);
    text::lemma_decimal(millis as nat);
    text::lemma_decimal(other as nat);
    if head + a == head + b {
        assert((head + a).skip(head.len() as int) =~= a);
        assert((head + b).skip(head.len() as int) =~= b);
    }
}

/// A stage is shown for every operation on the deck: trimming for the removal
/// of slides, and styling for any that has no slide of its own to name. Other
/// events show none.
pub proof fn law_other_stages(tool: Option<Seq<char>>, position: Option<usize>, e: SlidesEvent)
    ensures
        tool == Some("remove_slides"@) ==> op_title(tool, position) == "Trimming slides…"@,
        tool != Some("remove_slides"@) && position is None ==> op_title(tool, position)
            == "Styling the deck…"@,
        tool != Some("insert_page"@) && tool != Some("update_page"@) && tool != Some(
            "remove_slides"@,
        ) ==> op_title(tool, position) == "Styling the deck…"@,
        e matches SlidesEvent::Op { tool: t, position: p } ==> stage_title(e) == Some(
            op_title(text::opt_view(t), p),
        ),
        e is Deck || e is Error ==> stage_title(e) is None,
{
    reveal_strlit("insert_page");
    reveal_strlit("update_page");
    reveal_strlit("remove_slides");
    assert("insert_page"@.len() == 11 && "update_page"@.len() == 11 && "remove_slides"@.len() == 13);
}

/// A stream that brings neither a deck nor an error is said to have brought no
/// deck.
pub proof fn law_silent_stream_fails(events: Seq<Option<SlidesEvent>>, stop: bool)
    requires
        forall|i: int| 0 <= i < events.len() ==> !#[trigger] is_deck_at(events, i),
        forall|i: int| 0 <= i < events.len() ==> #[trigger] error_at(events, i) is None,
    ensures
        collected(events, stop, None) == Err::<SlideDeckEvent, Seq<char>>(
            "no deck event received"@,
        ),
    decreases events.len(),
{
    if events.len() > 0 {
        let rest = events.skip(1);
        assert(!is_deck_at(events, 0));
        assert(error_at(events, 0) is None);
        assert forall|i: int| 0 <= i < rest.len() implies !#[trigger] is_deck_at(rest, i) by {
            assert(!is_deck_at(events, i + 1));
        }
        assert forall|i: int| 0 <= i < rest.len() implies #[trigger] error_at(rest, i) is None by {
            assert(error_at(events, i + 1) is None);
        }
        law_silent_stream_fails(rest, stop);
    }
}

/// A job fails with the error of the step that failed, whichever it is, and is
/// then over. What is shown tells the error whole.
pub proof fn law_failures_end_the_job(
    kind: JobKind,
    deck: SlideDeckEvent,
    count: usize,
    e: String,
)
    ensures
        ({
            let failed = JobEvent::Written(Err(e));
            let none = JobEvent::Deck(Err(e));
            let after = ActionView::Fail(
                if kind is Action {
                    "Slides failed: "@ + e@
                } else {
                    e@
                },
            );
            &&& next_stage(JobStage::Deck, none) == JobStage::Finished
            &&& next_action(kind, JobStage::Deck, none) == ActionView::Fail(
                if kind is Action {
                    "Slides failed: "@ + e@
                } else {
                    "slides pipeline failed: "@ + e@
                },
            )
            &&& next_stage(JobStage::Directory { deck }, failed) == JobStage::Finished
            &&& next_action(kind, JobStage::Directory { deck }, failed) == after
            &&& next_stage(JobStage::Preview { deck }, failed) == JobStage::Finished
            &&& next_action(kind, JobStage::Preview { deck }, failed) == after
            &&& next_stage(JobStage::Pptx { count }, failed) == JobStage::Finished
            &&& next_action(kind, JobStage::Pptx { count }, failed) == after
        }),
{
}

/// When a deck comes, the number of its slides is shown. One with more than
/// 32762 of them has its preview written and no presentation.
pub proof fn law_deck_is_counted(kind: JobKind, deck: SlideDeckEvent)
    ensures
        next_action(kind, JobStage::Deck, JobEvent::Deck(Ok(deck))) == ActionView::MakeDirectory(
            "Deck ready: "@ + text::decimal(deck.slides@.len()) + (if kind is Action {
                " slides. Packaging PPTX…"@
            } else {
                " slides — writing files…"@
            }),
        ),
        deck.slides@.len() > 32762 <==> next_action(
            kind,
            JobStage::Preview { deck },
            JobEvent::Written(Ok(())),
        ) is TooLarge,
        deck.slides@.len() <= 32762 <==> next_action(
            kind,
            JobStage::Preview { deck },
            JobEvent::Written(Ok(())),
        ) is WritePptx,
{
}

/// What tells that slides were generated tells how many, where the preview is
/// and where the presentation is, in this order.
pub proof fn law_summary_tells_the_files(
    count: nat,
    label: Seq<char>,
    html: Seq<char>,
    pptx: Seq<char>,
) -> (at: Seq<int>)
    ensures
        text::in_order(
            summary_text(count, label, html, pptx),
            seq!["Generated "@ + text::decimal(count) + " slides."@, label + html, "PPTX: "@ + pptx],
            at,
        ),
{
    reveal_strlit(" slides.\n");
    reveal_strlit(" slides.");
    reveal_strlit("\nPPTX: ");
    reveal_strlit("PPTX: ");
    let t = summary_text(count, label, html, pptx);
    let first = "Generated "@ + text::decimal(count) + " slides."@;
    let n = first.len() as int;
    let p = n + 1;
    let q = p + label.len() + html.len() + 1;
    assert(t.subrange(0, n) =~= first);
    assert(t.subrange(p, p + (label + html).len()) =~= label + html);
    assert(t.subrange(q, q + ("PPTX: "@ + pptx).len()) =~= "PPTX: "@ + pptx);
    seq![0, p, q]
}

// ---- what callers see ---------------------------------------------------------------

/// The deck is asked for below the base address, and a request is authorized by
/// the token as it is.
pub proof fn law_deck_request_is_addressed(base: &str, uri: String, token: &str, header: String)
    requires
        call_ensures(slides_uri, (base,), uri),
        call_ensures(bearer, (token,), header),
    ensures
        uri@ == base@ + "/v1/slides"@,
        header@ == "Bearer "@ + token@,
{
}

/// The answer to a request for a deck is followed exactly where its status is
/// from 200 to 299, and else the status is told.
pub proof fn law_deck_answer_is_followed(status: u16, r: Result<(), String>)
    requires
        call_ensures(deck_answer, (status,), r),
    ensures
        r is Ok <==> 200 <= status <= 299,
        r matches Err(e) ==> e@ == "slides endpoint returned "@ + glm::status_line(status),
{
}

/// What stands behind "data: " in a line of a stream is handed on whole, unless
/// it is the mark of the end; other lines are passed over.
pub proof fn law_stream_lines_are_read(payload: Seq<char>, line: &str, out: StreamLine)
    requires
        call_ensures(read_stream_line, (line,), out),
    ensures
        line@ == "data: "@ + payload && payload != "[DONE]"@ ==> out is Payload && out->Payload_0@
            == payload,
        line@ == "data: "@ + "[DONE]"@ ==> out is Done,
        !text::starts_with(line@, "data: "@) ==> out is Skip,
{
    text::law_prefix_is_taken_off("data: "@, payload, line@);
    text::law_prefix_is_taken_off("data: "@, "[DONE]"@, line@);
}

/// A collector tells at once of a deck, and of an error where it stops at
/// errors; else it goes on, and keeps the error that came last.
pub proof fn law_collector_takes_events_in(
    c: &mut DeckCollector,
    event: Option<SlidesEvent>,
    step: DeckStep,
)
    requires
        call_ensures(DeckCollector::on_event, (c, event), step),
    ensures
        step is Deck <==> event is Some && event->0 is Deck,
        event matches Some(SlidesEvent::Deck(deck)) ==> step == DeckStep::Deck(deck),
        step is Failed <==> event is Some && event->0 is Error && old(c).stops_at_error,
        event matches Some(SlidesEvent::Error { error }) ==> {
            &&& old(c).stops_at_error ==> step is Failed && step->error@ == error@
            &&& !old(c).stops_at_error ==> final(c).last_error is Some && final(c).last_error->0@
                == error@
        },
        event is None || !(event->0 is Error) ==> final(c).last_error == old(c).last_error,
        final(c).stops_at_error == old(c).stops_at_error,
{
}

/// The request for slides that an action begins is on its topic, or on that of
/// the clipboard, without the white space at the ends; without a topic there is
/// none.
pub proof fn law_slides_are_requested(
    action: &GenerateSlides,
    clipboard: Option<String>,
    start: SlidesStart,
)
    requires
        call_ensures(generate_slides, (action, clipboard), start),
    ensures
        action.topic matches Some(t) ==> (text::trim(t@).len() > 0 ==> start is Request
            && slides::is_enhanced(text::trim(t@), start->topic@)),
        action.topic is None && clipboard is Some && text::trim(clipboard->0@).len() > 0 ==> start
            is Request && slides::is_enhanced(text::trim(clipboard->0@), start->topic@),
        action.topic is None && clipboard is None ==> start is NoTopic,
{
}

/// A job goes on by the steps that its stages and events give.
pub proof fn law_job_goes_on(
    kind: JobKind,
    stage: JobStage,
    event: JobEvent,
    r: (JobStage, JobAction),
)
    requires
        call_ensures(advance, (kind, stage, event), r),
    ensures
        r.0 == next_stage(stage, event),
        r.1@ == next_action(kind, stage, event),
{
}

} // verus!

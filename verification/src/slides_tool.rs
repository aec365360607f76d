//! The agent tool that generates a slide deck.
use crate::deck_stream;
use crate::deck_stream::{summary, REQUESTING};
use crate::slides;
use crate::slides::enhance_topic;
use crate::text::{chars_of, copy_str, string_of_range};
use vstd::prelude::*;

verus! {

/// Generate a slide deck from a text topic. The deck is authored by the model
/// and packaged locally into a PPTX whose text boxes stay editable.
#[derive(Debug)]
pub struct GenerateSlidesToolInput {
    /// The topic describing the deck to generate. A complete deck is
    /// requested unless the topic already dictates a slide count.
    pub prompt: String,
}

/// The files of a generated deck.
#[derive(Debug)]
pub struct GeneratedDeck {
    pub slide_count: usize,
    pub html_path: String,
    pub pptx_path: String,
}

/// What the tool gives back.
#[derive(Debug)]
pub enum GenerateSlidesToolOutput {
    Success(GeneratedDeck),
    Error { error: String },
}

/// Name of the tool.
pub const GENERATE_SLIDES: &'static str = "generate_slides";

/// Title of the tool before it runs.
pub const GENERATE_SLIDES_TITLE: &'static str = "Generating slide deck";

/// The first `n` characters of `s`.
pub(crate) fn first_chars(s: &str, n: usize) -> (out: String)
    ensures
        out@ == slides::first_n(s@, n as nat),
{
    let cs: Vec<char> = chars_of(s);
    let end: usize = if cs.len() <= n {
        cs.len()
    } else {
        n
    };
    let out = string_of_range(&cs, 0, end);
    assert(out@ =~= slides::first_n(s@, n as nat));
    out
}

impl GenerateSlidesToolInput {
    /// What the user is asked to authorize: the topic, cut after 80
    /// characters.
    pub fn authorization(&self) -> (out: String)
        ensures
            out@ == "Generate a slide deck: "@ + slides::first_n(self.prompt@, 80),
    {
        let mut out = copy_str("Generate a slide deck: ");
        let shown = first_chars(self.prompt.as_str(), 80);
        out.append(shown.as_str());
        out
    }

    /// What is shown while the deck is awaited, and the topic to send.
    pub fn request(self) -> (r: (String, String))
        ensures
            r.0@ == REQUESTING@,
            slides::is_enhanced(self.prompt@, r.1@),
    {
        (copy_str(REQUESTING), enhance_topic(self.prompt))
    }
}

impl GenerateSlidesToolOutput {
    /// The text of the tool result.
    pub fn content(self) -> (out: String)
        ensures
            out@ == match self {
                GenerateSlidesToolOutput::Success(deck) => deck_stream::summary_text(
                    deck.slide_count as nat,
                    "HTML preview: "@,
                    deck.html_path@,
                    deck.pptx_path@,
                ),
                GenerateSlidesToolOutput::Error { error } => error@,
            },
    {
        match self {
            GenerateSlidesToolOutput::Success(deck) => summary(
                deck.slide_count,
                "HTML preview: ",
                deck.html_path.as_str(),
                deck.pptx_path.as_str(),
            ),
            GenerateSlidesToolOutput::Error { error } => error,
        }
    }
}

/// What the user is asked to authorize shows the topic, and no more than its
/// first 80 characters. The topic that is sent is the one that was given, made
/// complete.
pub proof fn law_topic_is_asked_for_and_sent(
    input: GenerateSlidesToolInput,
    asked: String,
    r: (String, String),
)
    requires
        call_ensures(GenerateSlidesToolInput::authorization, (&input,), asked),
        call_ensures(GenerateSlidesToolInput::request, (input,), r),
    ensures
        input.prompt@.len() <= 80 ==> asked@ == "Generate a slide deck: "@ + input.prompt@,
        input.prompt@.len() > 80 ==> asked@ == "Generate a slide deck: "@ + input.prompt@.take(80),
        slides::is_enhanced(input.prompt@, r.1@),
{
}

/// What the tool gives back tells of the files, or the error as it is.
pub proof fn law_slides_tool_tells(
    deck: GeneratedDeck,
    error: String,
    told: String,
    failed: String,
)
    requires
        call_ensures(
            GenerateSlidesToolOutput::content,
            (GenerateSlidesToolOutput::Success(deck),),
            told,
        ),
        call_ensures(
            GenerateSlidesToolOutput::content,
            ((GenerateSlidesToolOutput::Error { error }),),
            failed,
        ),
    ensures
        told@ == deck_stream::summary_text(
            deck.slide_count as nat,
            "HTML preview: "@,
            deck.html_path@,
            deck.pptx_path@,
        ),
        failed@ == error@,
{
}

} // verus!

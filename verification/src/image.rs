//! The agent tool that generates an image.
use crate::glm;
use crate::glm::{describe_answer, status_text};
use crate::json;
use crate::json::{
    json_as_str, json_integer, json_item, json_member, json_object, json_string, parse_json,
    write_json,
};
use crate::text;
use crate::text::{copy_str, decimal_of_u128};
use vstd::prelude::*;

verus! {

/// Address of the image endpoint.
pub const IMAGES_URI: &'static str = "https://zai-proxy-worker.tranlequybaotk12.workers.dev/v1/images/generations";

/// Name of the tool.
pub const GENERATE_IMAGE: &'static str = "generate_image";

/// Directory that images are saved in.
pub const IMAGES_DIR: &'static str = "zagent-images";

/// Generate an image from a text description.
#[derive(Debug)]
pub struct GenerateImageToolInput {
    /// Detailed description of the image to generate.
    pub prompt: String,
    /// Optional image size: "1024x1024" (square), "1792x1024" (landscape),
    /// or "1024x1792" (portrait). Defaults to a square image.
    pub size: Option<String>,
}

/// An image that was generated and saved.
#[derive(Debug)]
pub struct GeneratedImage {
    /// URL of the generated image.
    pub url: String,
    /// Local copy in the project's image directory.
    pub local_path: String,
    pub ratio: String,
    pub resolution: String,
}

/// What the tool gives back.
#[derive(Debug)]
pub enum GenerateImageToolOutput {
    Success(GeneratedImage),
    Error { error: String },
}

/// The text of a result.
pub open spec fn generated_text(image: GeneratedImage) -> Seq<char> {
    "Generated image ("@ + image.ratio@ + " "@ + image.resolution@ + ").\nSaved to: "@
        + image.local_path@ + "\nURL: "@ + image.url@
}

impl GenerateImageToolOutput {
    /// The text of the tool result.
    pub fn content(self) -> (out: String)
        ensures
            out@ == match self {
                GenerateImageToolOutput::Success(image) => generated_text(image),
                GenerateImageToolOutput::Error { error } => error@,
            },
    {
        match self {
            GenerateImageToolOutput::Success(image) => {
                let mut out = copy_str("Generated image (");
                out.append(image.ratio.as_str());
                out.append(" ");
                out.append(image.resolution.as_str());
                out.append(").\nSaved to: ");
                out.append(image.local_path.as_str());
                out.append("\nURL: ");
                out.append(image.url.as_str());
                out
            },
            GenerateImageToolOutput::Error { error } => error,
        }
    }
}

/// What the user is asked to authorize, given the prompt as inline code.
pub fn image_authorization(prompt_code: &str) -> (out: String)
    ensures
        out@ == "Generate an image for "@ + prompt_code@,
{
    let mut out = copy_str("Generate an image for ");
    out.append(prompt_code);
    out
}

// ---- the request --------------------------------------------------------------------------

/// The body of an image request: one image, square unless told otherwise.
pub open spec fn image_request(prompt: Seq<char>, size: Option<Seq<char>>) -> json::Json {
    json::Json::Object(
        map![
            "prompt"@ => json::Json::Text(prompt),
            "size"@ => json::Json::Text(match size {
                Some(s) => s,
                None => "1024x1024"@,
            }),
            "n"@ => json::Json::Number(text::decimal(1)),
        ],
    )
}

/// The text of the body of an image request.
pub fn image_request_body(input: &GenerateImageToolInput) -> (out: String)
    ensures
        out@ == json::json_text(image_request(input.prompt@, text::opt_view(input.size))),
{
    let size = match &input.size {
        Some(s) => json_string(s.as_str()),
        None => json_string("1024x1024"),
    };
    let mut fields: Vec<(String, serde_json::Value)> = Vec::new();
    fields.push((copy_str("prompt"), json_string(input.prompt.as_str())));
    fields.push((copy_str("size"), size));
    fields.push((copy_str("n"), json_integer(1)));
    proof {
        reveal_with_fuel(json::members, 4);
        let f2 = fields@.drop_last();
        let f1 = f2.drop_last();
        assert(f1.drop_last() =~= Seq::empty());
        assert(f1.last() == fields@[0] && f2.last() == fields@[1]);
        assert(json::members(fields@) =~= image_request(
            input.prompt@,
            text::opt_view(input.size),
        )->Object_0);
    }
    write_json(&json_object(fields))
}

// ---- the answer ---------------------------------------------------------------------------

/// What the gateway tells of an image.
#[derive(Debug)]
pub struct ImageAnswer {
    pub url: String,
    pub ratio: String,
    pub resolution: String,
}

/// What the gateway tells of an image, by its contents.
pub struct ImageView {
    pub url: Seq<char>,
    pub ratio: Seq<char>,
    pub resolution: Seq<char>,
}

impl View for ImageAnswer {
    type V = ImageView;

    open spec fn view(&self) -> ImageView {
        ImageView { url: self.url@, ratio: self.ratio@, resolution: self.resolution@ }
    }
}

/// A text, or the empty one.
pub open spec fn or_empty(s: Option<Seq<char>>) -> Seq<char> {
    match s {
        Some(t) => t,
        None => Seq::empty(),
    }
}

/// What an answer tells of its first image, given what its text was read as.
pub open spec fn answered_image(
    parsed: Result<json::Json, Seq<char>>,
    body: Seq<char>,
) -> Result<ImageView, Seq<char>> {
    match parsed {
        Err(e) => Err("bad image response: "@ + e),
        Ok(j) => {
            let first = json::item(json::member(j, "data"@), 0);
            match json::text_of(json::member(first, "url"@)) {
                None => Err("no image url in response: "@ + body),
                Some(url) => Ok(
                    ImageView {
                        url,
                        ratio: or_empty(json::text_of(json::member(first, "ratio"@))),
                        resolution: or_empty(json::text_of(json::member(first, "resolution"@))),
                    },
                ),
            }
        },
    }
}

/// A result by its contents.
pub open spec fn image_result(r: Result<ImageAnswer, String>) -> Result<ImageView, Seq<char>> {
    match r {
        Ok(image) => Ok(image@),
        Err(e) => Err(e@),
    }
}

/// The text of a JSON string, or the empty one.
fn text_or_empty(v: &serde_json::Value) -> (out: String)
    ensures
        out@ == or_empty(json::text_of(json::json_of(*v))),
{
    match json_as_str(v) {
        Some(s) => copy_str(s),
        None => String::new(),
    }
}

/// What an answer tells of its first image, given what its text was read as.
pub fn image_of(parsed: Result<serde_json::Value, String>, body: &str) -> (r: Result<
    ImageAnswer,
    String,
>)
    ensures
        image_result(r) == answered_image(json::parse_view(parsed), body@),
{
    match parsed {
        Err(e) => {
            let mut out = copy_str("bad image response: ");
            out.append(e.as_str());
            Err(out)
        },
        Ok(value) => {
            let first = json_item(json_member(&value, "data"), 0);
            match json_as_str(json_member(first, "url")) {
                None => {
                    let mut out = copy_str("no image url in response: ");
                    out.append(body);
                    Err(out)
                },
                Some(url) => Ok(
                    ImageAnswer {
                        url: copy_str(url),
                        ratio: text_or_empty(json_member(first, "ratio")),
                        resolution: text_or_empty(json_member(first, "resolution")),
                    },
                ),
            }
        },
    }
}

/// What an answer tells of its first image.
pub fn read_image_answer(body: &str) -> (r: Result<ImageAnswer, String>)
    ensures
        image_result(r) == answered_image(json::json_parsed(body@), body@),
{
    image_of(parse_json(body), body)
}

// ---- the image ----------------------------------------------------------------------------

/// The format of an image.
#[derive(Clone, Copy, Debug, PartialEq, Eq, Structural)]
pub enum ImageFormat {
    Png,
    Jpeg,
}

/// The bytes begin with the mark of a JPEG image.
pub open spec fn has_jpeg_mark(bytes: Seq<u8>) -> bool {
    bytes.len() >= 3 && bytes[0] == 0xff && bytes[1] == 0xd8 && bytes[2] == 0xff
}

/// The format of an image, by its first bytes. What is not marked as JPEG
/// counts as PNG.
pub open spec fn format_of(bytes: Seq<u8>) -> ImageFormat {
    if has_jpeg_mark(bytes) {
        ImageFormat::Jpeg
    } else {
        ImageFormat::Png
    }
}

/// The format of an image, by its first bytes.
pub fn detect_format(bytes: &[u8]) -> (f: ImageFormat)
    ensures
        f == format_of(bytes@),
{
    if bytes.len() >= 3 && bytes[0] == 0xff && bytes[1] == 0xd8 && bytes[2] == 0xff {
        ImageFormat::Jpeg
    } else {
        ImageFormat::Png
    }
}

impl ImageFormat {
    /// The media type of the format.
    pub fn mime(self) -> (r: &'static str)
        ensures
            r@ == match self {
                ImageFormat::Png => "image/png"@,
                ImageFormat::Jpeg => "image/jpeg"@,
            },
    {
        match self {
            ImageFormat::Png => "image/png",
            ImageFormat::Jpeg => "image/jpeg",
        }
    }
}

/// The name of the file for an image made at the given time.
pub open spec fn image_name(millis: u128) -> Seq<char> {
    "image-"@ + text::decimal(millis as nat) + ".png"@
}

/// The name of the file for an image made at the given time.
pub fn image_file_name(millis: u128) -> (out: String)
    ensures
        out@ == image_name(millis),
{
    let mut out = copy_str("image-");
    let digits = decimal_of_u128(millis);
    out.append(digits.as_str());
    out.append(".png");
    out
}

// ---- the run ------------------------------------------------------------------------------

/// What a run of the tool waits for.
#[derive(Debug)]
pub enum ImageStage {
    /// The user's permission.
    Authorizing { input: GenerateImageToolInput },
    /// The answer of the gateway.
    Answering,
    /// The image directory.
    Preparing { image: ImageAnswer },
    /// The time.
    Stamping { image: ImageAnswer },
    /// The image.
    Downloading { image: ImageAnswer, file: String },
    /// The file.
    Writing { image: ImageAnswer, format: ImageFormat },
    /// Nothing.
    Finished,
}

/// What has come back for a request.
#[derive(Debug)]
pub enum Reply<T> {
    Cancelled,
    Failed(String),
    Got { status: u16, body: T },
}

/// What has happened.
#[derive(Debug)]
pub enum ImageEvent {
    Authorized(Result<(), String>),
    Answered(Reply<String>),
    DirectoryMade(Result<(), String>),
    Stamped(Result<u128, String>),
    Downloaded(Reply<Vec<u8>>),
    /// The file was written; the path is shown to the user.
    Written(Result<String, String>),
}

/// What is to be done next.
#[derive(Debug)]
pub enum ImageAction {
    Post { title: String, uri: String, body: String },
    MakeDirectory { title: String, name: String },
    TakeTime,
    Download { url: String, file: String },
    Write { file: String, bytes: Vec<u8> },
    /// The image is shown, and the run ends.
    Finish { format: ImageFormat, title: String, image: GeneratedImage },
    Fail { error: String },
    /// The event is not what the run waits for.
    Wait,
}

/// A stage by its contents.
pub enum ImageStageView {
    Authorizing { prompt: Seq<char>, size: Option<Seq<char>> },
    Answering,
    Preparing { image: ImageView },
    Stamping { image: ImageView },
    Downloading { image: ImageView, file: Seq<char> },
    Writing { image: ImageView, format: ImageFormat },
    Finished,
}

impl View for ImageStage {
    type V = ImageStageView;

    open spec fn view(&self) -> ImageStageView {
        match *self {
            ImageStage::Authorizing { input } => ImageStageView::Authorizing {
                prompt: input.prompt@,
                size: text::opt_view(input.size),
            },
            ImageStage::Answering => ImageStageView::Answering,
            ImageStage::Preparing { image } => ImageStageView::Preparing { image: image@ },
            ImageStage::Stamping { image } => ImageStageView::Stamping { image: image@ },
            ImageStage::Downloading { image, file } => ImageStageView::Downloading {
                image: image@,
                file: file@,
            },
            ImageStage::Writing { image, format } => ImageStageView::Writing {
                image: image@,
                format,
            },
            ImageStage::Finished => ImageStageView::Finished,
        }
    }
}

/// A next step by its contents.
pub enum ImageActionView {
    Post { title: Seq<char>, uri: Seq<char>, body: Seq<char> },
    MakeDirectory { title: Seq<char>, name: Seq<char> },
    TakeTime,
    Download { url: Seq<char>, file: Seq<char> },
    Write { file: Seq<char>, bytes: Seq<u8> },
    Finish { format: ImageFormat, title: Seq<char>, image: ImageView, path: Seq<char> },
    Fail(Seq<char>),
    Wait,
}

impl View for ImageAction {
    type V = ImageActionView;

    open spec fn view(&self) -> ImageActionView {
        match *self {
            ImageAction::Post { title, uri, body } => ImageActionView::Post {
                title: title@,
                uri: uri@,
                body: body@,
            },
            ImageAction::MakeDirectory { title, name } => ImageActionView::MakeDirectory {
                title: title@,
                name: name@,
            },
            ImageAction::TakeTime => ImageActionView::TakeTime,
            ImageAction::Download { url, file } => ImageActionView::Download {
                url: url@,
                file: file@,
            },
            ImageAction::Write { file, bytes } => ImageActionView::Write {
                file: file@,
                bytes: bytes@,
            },
            ImageAction::Finish { format, title, image } => ImageActionView::Finish {
                format,
                title: title@,
                image: ImageView {
                    url: image.url@,
                    ratio: image.ratio@,
                    resolution: image.resolution@,
                },
                path: image.local_path@,
            },
            ImageAction::Fail { error } => ImageActionView::Fail(error@),
            ImageAction::Wait => ImageActionView::Wait,
        }
    }
}

/// The status of a reply is one that can come back.
pub open spec fn reply_fits<T>(r: Reply<T>) -> bool {
    r matches Reply::Got { status, .. } ==> 100 <= status < 1000
}

/// The status of an event is one that can come back.
pub open spec fn event_fits(e: ImageEvent) -> bool {
    match e {
        ImageEvent::Answered(r) => reply_fits(r),
        ImageEvent::Downloaded(r) => reply_fits(r),
        _ => true,
    }
}

/// The image that the answer to a request tells of, given what its text is
/// read as, or why there is none.
pub open spec fn reply_image(r: Reply<String>, parsed: Result<json::Json, Seq<char>>) -> Result<
    ImageView,
    Seq<char>,
> {
    match r {
        Reply::Cancelled => Err("Image generation cancelled by user"@),
        Reply::Failed(e) => Err(e@),
        Reply::Got { status, body } => if !glm::is_success(status) {
            Err(glm::answer_text("image generation failed: "@, status, body@))
        } else {
            answered_image(parsed, body@)
        },
    }
}

/// What the text of a reply is read as.
pub open spec fn reply_json(r: Reply<String>) -> Result<json::Json, Seq<char>> {
    match r {
        Reply::Got { body, .. } => json::json_parsed(body@),
        _ => Err(Seq::empty()),
    }
}

/// The bytes that a download gives, or why there are none.
pub open spec fn reply_bytes(r: Reply<Vec<u8>>) -> Result<Seq<u8>, Seq<char>> {
    match r {
        Reply::Cancelled => Err("Image download cancelled by user"@),
        Reply::Failed(e) => Err(e@),
        Reply::Got { status, body } => if !glm::is_success(status) {
            Err("downloading the generated image failed: "@ + glm::status_line(status))
        } else {
            Ok(body@)
        },
    }
}

/// The stage after an event and what is to be done next.
pub open spec fn next_step(stage: ImageStageView, event: ImageEvent) -> (
    ImageStageView,
    ImageActionView,
) {
    match (stage, event) {
        (ImageStageView::Authorizing { prompt, size }, ImageEvent::Authorized(r)) => match r {
            Ok(_) => (
                ImageStageView::Answering,
                ImageActionView::Post {
                    title: "Generating image…"@,
                    uri: IMAGES_URI@,
                    body: json::json_text(image_request(prompt, size)),
                },
            ),
            Err(e) => (ImageStageView::Finished, ImageActionView::Fail(e@)),
        },
        (ImageStageView::Answering, ImageEvent::Answered(r)) => match reply_image(r, reply_json(r)) {
            Ok(image) => (
                ImageStageView::Preparing { image },
                ImageActionView::MakeDirectory { title: "Saving image…"@, name: IMAGES_DIR@ },
            ),
            Err(e) => (ImageStageView::Finished, ImageActionView::Fail(e)),
        },
        (ImageStageView::Preparing { image }, ImageEvent::DirectoryMade(r)) => match r {
            Ok(_) => (ImageStageView::Stamping { image }, ImageActionView::TakeTime),
            Err(e) => (ImageStageView::Finished, ImageActionView::Fail(e@)),
        },
        (ImageStageView::Stamping { image }, ImageEvent::Stamped(r)) => match r {
            Ok(millis) => (
                ImageStageView::Downloading { image, file: image_name(millis) },
                ImageActionView::Download { url: image.url, file: image_name(millis) },
            ),
            Err(e) => (ImageStageView::Finished, ImageActionView::Fail(e@)),
        },
        (ImageStageView::Downloading { image, file }, ImageEvent::Downloaded(r)) => match reply_bytes(
            r,
        ) {
            Ok(bytes) => (
                ImageStageView::Writing { image, format: format_of(bytes) },
                ImageActionView::Write { file, bytes },
            ),
            Err(e) => (ImageStageView::Finished, ImageActionView::Fail(e)),
        },
        (ImageStageView::Writing { image, format }, ImageEvent::Written(r)) => match r {
            Ok(path) => (
                ImageStageView::Finished,
                ImageActionView::Finish { format, title: "Image generated"@, image, path: path@ },
            ),
            Err(e) => (ImageStageView::Finished, ImageActionView::Fail(e@)),
        },
        (stage, _) => (stage, ImageActionView::Wait),
    }
}

fn fail(error: String) -> (r: (ImageStage, ImageAction))
    ensures
        r.0@ == ImageStageView::Finished,
        r.1@ == ImageActionView::Fail(error@),
{
    (ImageStage::Finished, ImageAction::Fail { error })
}

/// The image that the answer to a request tells of.
fn take_answer(r: Reply<String>) -> (image: Result<ImageAnswer, String>)
    requires
        reply_fits(r),
    ensures
        image_result(image) == reply_image(r, reply_json(r)),
{
    match r {
        Reply::Cancelled => Err(copy_str("Image generation cancelled by user")),
        Reply::Failed(e) => Err(e),
        Reply::Got { status, body } => {
            if !(200 <= status && status < 300) {
                return Err(describe_answer("image generation failed: ", status, body.as_str()));
            }
            read_image_answer(body.as_str())
        },
    }
}

/// The bytes that a download gives.
fn take_bytes(r: Reply<Vec<u8>>) -> (bytes: Result<Vec<u8>, String>)
    requires
        reply_fits(r),
    ensures
        match bytes {
            Ok(b) => reply_bytes(r) == Ok::<Seq<u8>, Seq<char>>(b@),
            Err(e) => reply_bytes(r) == Err::<Seq<u8>, Seq<char>>(e@),
        },
{
    match r {
        Reply::Cancelled => Err(copy_str("Image download cancelled by user")),
        Reply::Failed(e) => Err(e),
        Reply::Got { status, body } => {
            if !(200 <= status && status < 300) {
                let mut out = copy_str("downloading the generated image failed: ");
                let line = status_text(status);
                out.append(line.as_str());
                return Err(out);
            }
            Ok(body)
        },
    }
}

/// Takes a run of the tool one event further.
pub fn advance(stage: ImageStage, event: ImageEvent) -> (r: (ImageStage, ImageAction))
    requires
        event_fits(event),
    ensures
        (r.0@, r.1@) == next_step(stage@, event),
{
    match (stage, event) {
        (ImageStage::Authorizing { input }, ImageEvent::Authorized(r)) => match r {
            Ok(_) => (
                ImageStage::Answering,
                ImageAction::Post {
                    title: copy_str("Generating image…"),
                    uri: copy_str(IMAGES_URI),
                    body: image_request_body(&input),
                },
            ),
            Err(e) => fail(e),
        },
        (ImageStage::Answering, ImageEvent::Answered(r)) => match take_answer(r) {
            Ok(image) => (
                ImageStage::Preparing { image },
                ImageAction::MakeDirectory {
                    title: copy_str("Saving image…"),
                    name: copy_str(IMAGES_DIR),
                },
            ),
            Err(e) => fail(e),
        },
        (ImageStage::Preparing { image }, ImageEvent::DirectoryMade(r)) => match r {
            Ok(_) => (ImageStage::Stamping { image }, ImageAction::TakeTime),
            Err(e) => fail(e),
        },
        (ImageStage::Stamping { image }, ImageEvent::Stamped(r)) => match r {
            Ok(millis) => {
                let url = copy_str(image.url.as_str());
                (
                    ImageStage::Downloading { image, file: image_file_name(millis) },
                    ImageAction::Download { url, file: image_file_name(millis) },
                )
            },
            Err(e) => fail(e),
        },
        (ImageStage::Downloading { image, file }, ImageEvent::Downloaded(r)) => match take_bytes(
            r,
        ) {
            Ok(bytes) => {
                let format = detect_format(bytes.as_slice());
                (ImageStage::Writing { image, format }, ImageAction::Write { file, bytes })
            },
            Err(e) => fail(e),
        },
        (ImageStage::Writing { image, format }, ImageEvent::Written(r)) => match r {
            Ok(path) => (
                ImageStage::Finished,
                ImageAction::Finish {
                    format,
                    title: copy_str("Image generated"),
                    image: GeneratedImage {
                        url: image.url,
                        local_path: path,
                        ratio: image.ratio,
                        resolution: image.resolution,
                    },
                },
            ),
            Err(e) => fail(e),
        },
        (stage, _) => (stage, ImageAction::Wait),
    }
}

/// A run whose steps all succeed saves the bytes that were downloaded from the
/// address that the gateway gave, under a name made of the time, and ends with
/// that address and the path of the file.
pub proof fn law_image_is_saved(
    image: ImageView,
    millis: u128,
    bytes: Vec<u8>,
    status: u16,
    path: String,
)
    requires
        glm::is_success(status),
    ensures
        ({
            let got = ImageEvent::Downloaded(Reply::Got { status, body: bytes });
            let s0 = ImageStageView::Preparing { image };
            let (s1, a1) = next_step(s0, ImageEvent::DirectoryMade(Ok(())));
            let (s2, a2) = next_step(s1, ImageEvent::Stamped(Ok(millis)));
            let (s3, a3) = next_step(s2, got);
            let (s4, a4) = next_step(s3, ImageEvent::Written(Ok(path)));
            &&& a2 == ImageActionView::Download { url: image.url, file: image_name(millis) }
            &&& a3 == ImageActionView::Write { file: image_name(millis), bytes: bytes@ }
            &&& a4 matches ImageActionView::Finish { format, image: shown, path: p, .. } && format
                == format_of(bytes@) && shown == image && p == path@
            &&& s4 == ImageStageView::Finished
        }),
{
}

/// A run that has ended does nothing more.
pub proof fn law_image_run_ends(event: ImageEvent)
    ensures
        next_step(ImageStageView::Finished, event) == (
            ImageStageView::Finished,
            ImageActionView::Wait,
        ),
{
}

/// A request asks for one image of the prompt, in the size that was given or
/// else a square one.
pub proof fn law_request_asks_for_the_prompt(
    prompt: Seq<char>,
    size: Option<Seq<char>>,
    key: Seq<char>,
)
    ensures
        ({
            let j = image_request(prompt, size);
            &&& json::member(j, "prompt"@) == json::Json::Text(prompt)
            &&& size is Some ==> json::member(j, "size"@) == json::Json::Text(size->0)
            &&& size is None ==> json::member(j, "size"@) == json::Json::Text("1024x1024"@)
            &&& json::member(j, "n"@) == json::Json::Number("1"@)
            &&& key != "prompt"@ && key != "size"@ && key != "n"@ ==> json::member(j, key) is Null
        }),
{
    reveal_strlit("prompt");
    reveal_strlit("size");
    reveal_strlit("n");
    reveal_strlit("1");
    assert("prompt"@.len() == 6 && "size"@.len() == 4 && "n"@.len() == 1);
    assert(text::decimal(1) =~= "1"@);
}

/// An answer tells of its first image: the address and, where they are there,
/// ratio and resolution, as they were written. An answer without an address is
/// reported whole, and so is why one could not be read.
pub proof fn law_first_image_is_taken(
    answer: Map<Seq<char>, json::Json>,
    items: Seq<json::Json>,
    image: Map<Seq<char>, json::Json>,
    body: Seq<char>,
    e: Seq<char>,
)
    requires
        answer.contains_key("data"@),
        answer["data"@] == json::Json::Array(items),
        items.len() > 0,
        items[0] == json::Json::Object(image),
    ensures
        ({
            let r = answered_image(Ok(json::Json::Object(answer)), body);
            &&& image.contains_key("url"@) && image["url"@] is Text ==> {
                &&& r is Ok
                &&& r->Ok_0.url == image["url"@]->Text_0
                &&& image.contains_key("ratio"@) && image["ratio"@] is Text ==> r->Ok_0.ratio
                    == image["ratio"@]->Text_0
                &&& !image.contains_key("ratio"@) ==> r->Ok_0.ratio.len() == 0
                &&& image.contains_key("resolution"@) && image["resolution"@] is Text
                    ==> r->Ok_0.resolution == image["resolution"@]->Text_0
                &&& !image.contains_key("resolution"@) ==> r->Ok_0.resolution.len() == 0
            }
            &&& !image.contains_key("url"@) ==> r == Err::<ImageView, Seq<char>>(
                "no image url in response: "@ + body,
            )
        }),
        answered_image(Err(e), body) == Err::<ImageView, Seq<char>>("bad image response: "@ + e),
{
}

/// An image is taken for JPEG where it begins with the three bytes of that
/// format, whatever follows them, and for PNG where it does not.
pub proof fn law_format_is_told_by_the_mark(rest: Seq<u8>, bytes: Seq<u8>)
    ensures
        format_of(seq![0xffu8, 0xd8u8, 0xffu8] + rest) == ImageFormat::Jpeg,
        bytes.len() < 3 || bytes.take(3) != seq![0xffu8, 0xd8u8, 0xffu8] ==> format_of(bytes)
            == ImageFormat::Png,
{
    if format_of(bytes) == ImageFormat::Jpeg {
        assert(bytes.take(3) =~= seq![0xffu8, 0xd8u8, 0xffu8]);
    }
}

/// Images that were made at different times are saved in different files.
pub proof fn law_images_have_their_own_files(a: u128, b: u128)
    ensures
        image_name(a) == image_name(b) ==> a == b,
        text::starts_with(image_name(a), "image-"@ + text::decimal(a as nat)),
        text::ends_with(image_name(a), ".png"@),
{
    let head = "image-"@;
    let tail = ".png"@;
    let d = text::decimal(a as nat);
    let n = image_name(a).len() as int;
    assert(image_name(a).subrange(0, (head + d).len() as int) =~= head + d);
    assert(image_name(a).subrange(n - tail.len(), n) =~= tail);
    if image_name(a) == image_name(b) {
        let e = text::decimal(b as nat);
        let from = head.len() as int;
        text::lemma_decimal(a as nat);
        text::lemma_decimal(b as nat);
        assert(d.len() == e.len());
        assert(image_name(a).subrange(from, from + d.len()) =~= d);
        assert(image_name(b).subrange(from, from + e.len()) =~= e);
    }
}

/// The text of a result tells the ratio and the resolution, the path of the
/// file and the address of the image, in this order.
pub proof fn law_result_tells_of_the_image(image: GeneratedImage) -> (at: Seq<int>)
    ensures
        text::in_order(
            generated_text(image),
            seq![
                image.ratio@,
                image.resolution@,
                "Saved to: "@ + image.local_path@,
                "URL: "@ + image.url@,
            ],
            at,
        ),
{
    reveal_strlit(").\nSaved to: ");
    reveal_strlit("Saved to: ");
    reveal_strlit("\nURL: ");
    reveal_strlit("URL: ");
    let t = generated_text(image);
    let p0 = "Generated image ("@.len() as int;
    let p1 = p0 + image.ratio@.len() + " "@.len();
    let p2 = p1 + image.resolution@.len() + 3;
    let p3 = p2 + 10 + image.local_path@.len() + 1;
    assert(t.subrange(p0, p0 + image.ratio@.len()) =~= image.ratio@);
    assert(t.subrange(p1, p1 + image.resolution@.len()) =~= image.resolution@);
    assert(t.subrange(p2, p2 + 10 + image.local_path@.len()) =~= "Saved to: "@
        + image.local_path@);
    assert(t.subrange(p3, p3 + 5 + image.url@.len()) =~= "URL: "@ + image.url@);
    seq![p0, p1, p2, p3]
}

/// Once the user has agreed, the request for the image is sent. An answer with
/// a status from 200 to 299 that tells of an image leads on to its download.
pub proof fn law_agreed_request_is_sent(
    prompt: Seq<char>,
    size: Option<Seq<char>>,
    status: u16,
    body: String,
    image: ImageView,
)
    requires
        200 <= status <= 299,
        answered_image(json::json_parsed(body@), body@) == Ok::<ImageView, Seq<char>>(image),
    ensures
        ({
            let (s1, a1) = next_step(
                ImageStageView::Authorizing { prompt, size },
                ImageEvent::Authorized(Ok(())),
            );
            let (s2, a2) = next_step(s1, ImageEvent::Answered(Reply::Got { status, body }));
            &&& a1 is Post
            &&& a1->Post_body == json::json_text(image_request(prompt, size))
            &&& a1->uri == IMAGES_URI@
            &&& a2 is MakeDirectory
            &&& a2->name == "zagent-images"@
            &&& s2 == ImageStageView::Preparing { image }
        }),
{
}

/// A run fails with the error of the step that failed, whichever it is, and is
/// then over. Answers with another status than one from 200 to 299 are such
/// errors, and they tell the status.
pub proof fn law_failures_end_the_run(
    prompt: Seq<char>,
    size: Option<Seq<char>>,
    image: ImageView,
    file: Seq<char>,
    format: ImageFormat,
    e: String,
    status: u16,
    body: String,
    bytes: Vec<u8>,
)
    requires
        status < 200 || status > 299,
    ensures
        ({
            let failed = (ImageStageView::Finished, ImageActionView::Fail(e@));
            let downloading = ImageStageView::Downloading { image, file };
            &&& next_step(
                ImageStageView::Authorizing { prompt, size },
                ImageEvent::Authorized(Err(e)),
            ) == failed
            &&& next_step(ImageStageView::Answering, ImageEvent::Answered(Reply::Failed(e)))
                == failed
            &&& next_step(
                ImageStageView::Preparing { image },
                ImageEvent::DirectoryMade(Err(e)),
            ) == failed
            &&& next_step(ImageStageView::Stamping { image }, ImageEvent::Stamped(Err(e)))
                == failed
            &&& next_step(downloading, ImageEvent::Downloaded(Reply::Failed(e))) == failed
            &&& next_step(ImageStageView::Writing { image, format }, ImageEvent::Written(Err(e)))
                == failed
            &&& next_step(
                ImageStageView::Answering,
                ImageEvent::Answered(Reply::Got { status, body }),
            ) == (
                ImageStageView::Finished,
                ImageActionView::Fail(
                    "image generation failed: "@ + glm::status_line(status) + " "@ + body@,
                ),
            )
            &&& next_step(downloading, ImageEvent::Downloaded(Reply::Got { status, body: bytes }))
                == (
                ImageStageView::Finished,
                ImageActionView::Fail(
                    "downloading the generated image failed: "@ + glm::status_line(status),
                ),
            )
            &&& next_step(ImageStageView::Answering, ImageEvent::Answered(Reply::Cancelled)) == (
                ImageStageView::Finished,
                ImageActionView::Fail("Image generation cancelled by user"@),
            )
            &&& next_step(downloading, ImageEvent::Downloaded(Reply::Cancelled)) == (
                ImageStageView::Finished,
                ImageActionView::Fail("Image download cancelled by user"@),
            )
        }),
{
}

// ---- what callers see ---------------------------------------------------------------------

/// A run goes on by the steps that its stages and events give.
pub proof fn law_run_goes_on(stage: ImageStage, event: ImageEvent, r: (ImageStage, ImageAction))
    requires
        call_ensures(advance, (stage, event), r),
    ensures
        r.0@ == next_step(stage@, event).0,
        r.1@ == next_step(stage@, event).1,
{
}

/// An image that begins with the mark of JPEG is shown as such, any other as
/// PNG.
pub proof fn law_image_is_shown_by_its_format(
    bytes: &[u8],
    f: ImageFormat,
    mime: &'static str,
    millis: u128,
    name: String,
)
    requires
        call_ensures(detect_format, (bytes,), f),
        call_ensures(ImageFormat::mime, (f,), mime),
        call_ensures(image_file_name, (millis,), name),
    ensures
        bytes@.len() >= 3 && bytes@.take(3) == seq![0xffu8, 0xd8u8, 0xffu8] ==> mime@
            == "image/jpeg"@,
        bytes@.len() < 3 || bytes@.take(3) != seq![0xffu8, 0xd8u8, 0xffu8] ==> mime@
            == "image/png"@,
        name@ == "image-"@ + text::decimal(millis as nat) + ".png"@,
{
    law_format_is_told_by_the_mark(bytes@.skip(3), bytes@);
    if bytes@.len() >= 3 && bytes@.take(3) == seq![0xffu8, 0xd8u8, 0xffu8] {
        assert(bytes@ =~= seq![0xffu8, 0xd8u8, 0xffu8] + bytes@.skip(3));
    }
}

/// What the tool gives back tells of the image, or the error as it is; what the
/// user is asked shows the prompt.
pub proof fn law_image_tool_tells(
    image: GeneratedImage,
    error: String,
    told: String,
    failed: String,
    prompt: &str,
    asked: String,
)
    requires
        call_ensures(
            GenerateImageToolOutput::content,
            (GenerateImageToolOutput::Success(image),),
            told,
        ),
        call_ensures(
            GenerateImageToolOutput::content,
            (GenerateImageToolOutput::Error { error },),
            failed,
        ),
        call_ensures(image_authorization, (prompt,), asked),
    ensures
        told@ == generated_text(image),
        failed@ == error@,
        asked@ == "Generate an image for "@ + prompt@,
{
}

/// The answer of the gateway is read for its first image.
pub proof fn law_answer_is_read(
    input: &GenerateImageToolInput,
    sent: String,
    body: &str,
    r: Result<ImageAnswer, String>,
)
    requires
        call_ensures(image_request_body, (input,), sent),
        call_ensures(read_image_answer, (body,), r),
    ensures
        sent@ == json::json_text(image_request(input.prompt@, text::opt_view(input.size))),
        image_result(r) == answered_image(json::json_parsed(body@), body@),
{
}

} // verus!

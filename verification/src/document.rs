//! Word documents and PDF text: what is read from them, and what is written.
use crate::entities;
use crate::text;
use crate::text::{
    chars_of, copy_str, decimal_of_usize, find, join_strings, split_str, str_replace,
    str_strip_prefix, str_trim, string_of, string_of_range,
};
use vstd::prelude::*;

verus! {

// ---- capping ------------------------------------------------------------------------------

/// How many bytes of text a tool hands on.
pub const MAX_TEXT_BYTES: usize = 120_000;

/// What follows a text that was cut.
pub const TRUNCATED: &'static str = "\n\n[document truncated — ask again with a narrower target or split the file]";

/// The number of bytes of a character in UTF-8.
pub open spec fn char_bytes(c: char) -> nat {
    if (c as int) < 0x80 {
        1
    } else if (c as int) < 0x800 {
        2
    } else if (c as int) < 0x10000 {
        3
    } else {
        4
    }
}

/// The number of bytes of a text in UTF-8.
pub open spec fn text_bytes(s: Seq<char>) -> nat
    decreases s.len(),
{
    if s.len() == 0 {
        0
    } else {
        text_bytes(s.drop_last()) + char_bytes(s.last())
    }
}

/// The result of capping a text: itself where it is short enough, else as many
/// whole characters as fit, and a note.
pub open spec fn is_capped(s: Seq<char>, out: Seq<char>) -> bool {
    if text_bytes(s) <= MAX_TEXT_BYTES {
        out == s
    } else {
        exists|k: int|
            {
                &&& 0 <= k < s.len()
                &&& text_bytes(#[trigger] s.take(k)) <= MAX_TEXT_BYTES
                &&& text_bytes(s.take(k + 1)) > MAX_TEXT_BYTES
                &&& out == s.take(k) + TRUNCATED@
            }
    }
}

fn bytes_of(c: char) -> (n: usize)
    ensures
        n == char_bytes(c),
{
    let code: u32 = c as u32;
    if code < 0x80 {
        1
    } else if code < 0x800 {
        2
    } else if code < 0x10000 {
        3
    } else {
        4
    }
}

proof fn lemma_bytes_grow(s: Seq<char>, k: int)
    requires
        0 <= k <= s.len(),
    ensures
        text_bytes(s.take(k)) <= text_bytes(s),
    decreases s.len(),
{
    if k < s.len() {
        lemma_bytes_grow(s.drop_last(), k);
        assert(s.drop_last().take(k) =~= s.take(k));
    } else {
        assert(s.take(k) =~= s);
    }
}

/// Caps a text, at a character's end.
pub fn cap_chars(text: String) -> (out: String)
    ensures
        is_capped(text@, out@),
{
    let cs: Vec<char> = chars_of(text.as_str());
    let mut used: usize = 0;
    let mut i: usize = 0;
    assert(text@.take(0) =~= Seq::empty());
    while i < cs.len()
        invariant
            i <= cs@.len(),
            cs@ == text@,
            used == text_bytes(text@.take(i as int)),
            used <= MAX_TEXT_BYTES,
        decreases cs@.len() - i,
    {
        let c = cs[i];
        let n = bytes_of(c);
        proof {
            assert(text@.take(i + 1).drop_last() =~= text@.take(i as int));
            assert(text@.take(i + 1).last() == c);
        }
        if used + n > MAX_TEXT_BYTES {
            let mut out = string_of_range(&cs, 0, i);
            assert(out@ =~= text@.take(i as int));
            out.append(TRUNCATED);
            proof {
                lemma_bytes_grow(text@, i + 1);
                assert(text_bytes(text@.take(i as int)) <= MAX_TEXT_BYTES);
            }
            return out;
        }
        used = used + n;
        i = i + 1;
    }
    assert(text@.take(text@.len() as int) =~= text@);
    text
}

/// Capping leaves a text whole or cuts it within the limit; either way what
/// comes out has at most the limit's bytes and those of the note.
pub proof fn law_capped_is_bounded(s: Seq<char>, out: Seq<char>)
    requires
        is_capped(s, out),
    ensures
        text_bytes(out) <= MAX_TEXT_BYTES + text_bytes(TRUNCATED@),
{
    if text_bytes(s) > MAX_TEXT_BYTES {
        let k = choose|k: int|
            {
                &&& 0 <= k < s.len()
                &&& text_bytes(#[trigger] s.take(k)) <= MAX_TEXT_BYTES
                &&& text_bytes(s.take(k + 1)) > MAX_TEXT_BYTES
                &&& out == s.take(k) + TRUNCATED@
            };
        lemma_bytes_add(s.take(k), TRUNCATED@);
    }
}

proof fn lemma_bytes_add(a: Seq<char>, b: Seq<char>)
    ensures
        text_bytes(a + b) == text_bytes(a) + text_bytes(b),
    decreases b.len(),
{
    if b.len() == 0 {
        assert(a + b =~= a);
    } else {
        lemma_bytes_add(a, b.drop_last());
        assert((a + b).drop_last() =~= a + b.drop_last());
    }
}

// ---- reading Word documents ----------------------------------------------------------------

/// Read the text content of a Word document.
#[derive(Clone, Debug)]
pub struct ReadDocxToolInput {
    /// Path to the .docx file. Relative paths resolve inside the project.
    pub path: String,
}

/// What the reading tool gives back.
#[derive(Debug)]
pub enum ReadDocxToolOutput {
    Success { paragraphs: usize, text: String },
    Error { error: String },
}

impl ReadDocxToolOutput {
    /// The text of the tool result.
    pub fn content(self) -> (out: String)
        ensures
            out@ == match self {
                ReadDocxToolOutput::Success { paragraphs, text } => text::decimal(
                    paragraphs as nat,
                ) + " non-empty paragraphs:\n\n"@ + text@,
                ReadDocxToolOutput::Error { error } => error@,
            },
    {
        match self {
            ReadDocxToolOutput::Success { paragraphs, text } => {
                let mut out = decimal_of_usize(paragraphs);
                out.append(" non-empty paragraphs:\n\n");
                out.append(text.as_str());
                out
            },
            ReadDocxToolOutput::Error { error } => error,
        }
    }
}

/// A text with its XML entities replaced, one kind after the other.
pub open spec fn xml_unescaped(s: Seq<char>) -> Seq<char> {
    let a = text::replace(s, "&amp;"@, "&"@);
    let b = text::replace(a, "&lt;"@, "<"@);
    let c = text::replace(b, "&gt;"@, ">"@);
    let d = text::replace(c, "&quot;"@, "\""@);
    let e = text::replace(d, "&apos;"@, "'"@);
    text::replace(e, "&#39;"@, "'"@)
}

/// `text` with its XML entities replaced.
pub fn unescape_xml_entities(text: String) -> (out: String)
    ensures
        out@ == xml_unescaped(text@),
{
    proof {
        reveal_strlit("&amp;");
        reveal_strlit("&lt;");
        reveal_strlit("&gt;");
        reveal_strlit("&quot;");
        reveal_strlit("&apos;");
        reveal_strlit("&#39;");
    }
    let a = str_replace(text.as_str(), "&amp;", "&");
    let b = str_replace(a.as_str(), "&lt;", "<");
    let c = str_replace(b.as_str(), "&gt;", ">");
    let d = str_replace(c.as_str(), "&quot;", "\"");
    let e = str_replace(d.as_str(), "&apos;", "'");
    str_replace(e.as_str(), "&#39;", "'")
}

/// The text of the runs of `s` from position `i` on, put together: what
/// stands between a tag that begins with `<w:t` and the next `</w:t>`.
pub open spec fn run_text(s: Seq<char>, i: int) -> Seq<char>
    decreases s.len() - i,
{
    match text::find_from(s, "<w:t"@, i) {
        Some(start) if i <= start => match text::find_from(s, ">"@, start) {
            Some(gt) if start <= gt => match text::find_from(s, "</w:t>"@, gt + 1) {
                Some(end) if gt < end && end + 6 <= s.len() => s.subrange(gt + 1, end) + run_text(
                    s,
                    end + 6,
                ),
                _ => Seq::empty(),
            },
            _ => Seq::empty(),
        },
        _ => Seq::empty(),
    }
}

/// The raw texts of the paragraphs of a document: one for each piece that
/// ends a paragraph, and one for what follows the last.
pub open spec fn raw_paragraphs(xml: Seq<char>) -> Seq<Seq<char>> {
    text::split_from(xml, "</w:p>"@, 0).map_values(|chunk: Seq<char>| run_text(chunk, 0))
}

/// A raw text as it is shown.
pub open spec fn shown_paragraph(raw: Seq<char>) -> Seq<char> {
    xml_unescaped(text::trim(raw))
}

/// The paragraphs that are not empty, as they are shown.
pub open spec fn shown_paragraphs(raw: Seq<Seq<char>>) -> Seq<Seq<char>>
    decreases raw.len(),
{
    if raw.len() == 0 {
        Seq::empty()
    } else {
        let before = shown_paragraphs(raw.drop_last());
        let p = shown_paragraph(raw.last());
        if p.len() > 0 {
            before.push(p)
        } else {
            before
        }
    }
}

/// The text of the runs of `s`.
fn runs(s: &str) -> (out: String)
    ensures
        out@ == run_text(s@, 0),
{
    let cs: Vec<char> = chars_of(s);
    let open: Vec<char> = chars_of("<w:t");
    let close: Vec<char> = chars_of(">");
    let end_tag: Vec<char> = chars_of("</w:t>");
    proof {
        reveal_strlit("<w:t");
        reveal_strlit(">");
        reveal_strlit("</w:t>");
    }
    let mut out: Vec<char> = Vec::new();
    let count: usize = cs.len();
    let mut i: usize = 0;
    let mut more = true;
    assert(out@ + run_text(s@, 0) =~= run_text(s@, 0));
    while more
        invariant
            i <= count,
            count == cs@.len(),
            cs@ == s@,
            open@ == "<w:t"@,
            close@ == ">"@,
            end_tag@ == "</w:t>"@,
            open@.len() == 4,
            close@.len() == 1,
            end_tag@.len() == 6,
            more ==> out@ + run_text(s@, i as int) == run_text(s@, 0),
            !more ==> out@ == run_text(s@, 0),
        decreases count - i, (if more {
            1int
        } else {
            0int
        }),
    {
        let ghost before = out@;
        proof {
            text::lemma_find(s@, "<w:t"@, i as int);
            assert(before + Seq::<char>::empty() =~= before);
        }
        match find(&cs, &open, i) {
            None => {
                more = false;
            },
            Some(start) => {
                proof {
                    text::lemma_find(s@, ">"@, start as int);
                }
                match find(&cs, &close, start) {
                    None => {
                        more = false;
                    },
                    Some(gt) => {
                        proof {
                            text::lemma_find(s@, "</w:t>"@, gt + 1);
                        }
                        match find(&cs, &end_tag, gt + 1) {
                            None => {
                                more = false;
                            },
                            Some(end) => {
                                let mut k: usize = gt + 1;
                                while k < end
                                    invariant
                                        gt + 1 <= k <= end,
                                        end <= cs@.len(),
                                        cs@ == s@,
                                        out@ == before + s@.subrange(gt + 1, k as int),
                                    decreases end - k,
                                {
                                    out.push(cs[k]);
                                    k = k + 1;
                                    assert(out@ =~= before + s@.subrange(gt + 1, k as int));
                                }
                                proof {
                                    let piece = s@.subrange(gt + 1, end as int);
                                    let rest = run_text(s@, end + 6);
                                    assert(before + (piece + rest) =~= (before + piece) + rest);
                                }
                                i = end + 6;
                            },
                        }
                    },
                }
            },
        }
    }
    string_of(&out)
}

/// What is shown of the paragraphs of a document: their number and, capped,
/// their texts, one below the other.
pub fn document_text(xml: &str) -> (r: (usize, String))
    ensures
        r.0 == shown_paragraphs(raw_paragraphs(xml@)).len(),
        is_capped(text::join(shown_paragraphs(raw_paragraphs(xml@)), "\n"@), r.1@),
{
    proof {
        reveal_strlit("</w:p>");
    }
    let chunks: Vec<String> = split_str(xml, "</w:p>");
    let ghost raw = raw_paragraphs(xml@);
    let mut paragraphs: Vec<String> = Vec::new();
    let mut i: usize = 0;
    assert(text::views(paragraphs@) =~= Seq::empty());
    while i < chunks.len()
        invariant
            i <= chunks@.len(),
            raw.len() == chunks@.len(),
            forall|k: int| 0 <= k < raw.len() ==> #[trigger] raw[k] == run_text(chunks@[k]@, 0),
            text::views(paragraphs@) == shown_paragraphs(raw.take(i as int)),
        decreases chunks@.len() - i,
    {
        let ghost before = text::views(paragraphs@);
        let found = runs(chunks[i].as_str());
        let trimmed = str_trim(found.as_str());
        let shown = unescape_xml_entities(trimmed);
        proof {
            assert(raw.take(i + 1).drop_last() =~= raw.take(i as int));
            assert(raw.take(i + 1).last() == raw[i as int]);
        }
        if !shown.as_str().is_empty() {
            paragraphs.push(shown);
            assert(text::views(paragraphs@) =~= before.push(shown@));
        }
        i = i + 1;
    }
    assert(raw.take(raw.len() as int) =~= raw);
    let count: usize = paragraphs.len();
    let joined = join_strings(&paragraphs, "\n");
    (count, cap_chars(joined))
}

/// Why a member of an archive could not be read, with the error in words.
#[derive(Debug)]
pub enum MemberError {
    NotAnArchive(String),
    NotFound(String),
    Unreadable(String),
}

/// Why a member of an archive could not be read, by its contents.
pub enum MemberErrorView {
    NotAnArchive(Seq<char>),
    NotFound(Seq<char>),
    Unreadable(Seq<char>),
}

/// What was read of a member, by its contents.
pub open spec fn member_view(r: Result<String, MemberError>) -> Result<Seq<char>, MemberErrorView> {
    match r {
        Ok(s) => Ok(s@),
        Err(MemberError::NotAnArchive(e)) => Err(MemberErrorView::NotAnArchive(e@)),
        Err(MemberError::NotFound(e)) => Err(MemberErrorView::NotFound(e@)),
        Err(MemberError::Unreadable(e)) => Err(MemberErrorView::Unreadable(e@)),
    }
}

/// What the `zip` crate reads as the text of the member `name` of the archive
/// that the bytes are.
pub uninterp spec fn archive_member(bytes: Seq<u8>, name: Seq<char>) -> Result<
    Seq<char>,
    MemberErrorView,
>;

/// Opens the bytes with `zip::ZipArchive::new`, looks the member up with
/// `ZipArchive::by_name` and reads it with `read_to_string`. What comes out
/// depends on the bytes and the name alone; each error is given by its message
/// and those of its causes.
#[verifier::external_body]
pub(crate) fn read_member(bytes: &[u8], name: &str) -> (r: Result<String, MemberError>)
    ensures
        member_view(r) == archive_member(bytes@, name@),
{
    let mut archive = zip::ZipArchive::new(std::io::Cursor::new(bytes)).map_err(
        |e| MemberError::NotAnArchive(format!("{:#}", anyhow::Error::new(e))),
    )?;
    let mut file = archive.by_name(name).map_err(
        |e| MemberError::NotFound(format!("{:#}", anyhow::Error::new(e))),
    )?;
    let mut text = String::new();
    std::io::Read::read_to_string(&mut file, &mut text).map_err(
        |e| MemberError::Unreadable(format!("{:#}", anyhow::Error::new(e))),
    )?;
    Ok(text)
}

/// The member of a Word document that holds its text.
pub const DOCUMENT_MEMBER: &'static str = "word/document.xml";

/// Why a Word document could not be read, in words.
pub open spec fn docx_error(e: MemberErrorView) -> Seq<char> {
    match e {
        MemberErrorView::NotAnArchive(m) => "read as zip archive: "@ + m,
        MemberErrorView::NotFound(m) => {
            "word/document.xml not found — is this a real .docx file?: "@ + m
        },
        MemberErrorView::Unreadable(m) => m,
    }
}

/// `head` and a message.
fn explain(head: &str, message: String) -> (out: String)
    ensures
        out@ == head@ + message@,
{
    let mut out = copy_str(head);
    out.append(message.as_str());
    out
}

/// The result of reading a Word document, given what its text member was read
/// as.
pub open spec fn is_docx_output(
    member: Result<Seq<char>, MemberErrorView>,
    out: ReadDocxToolOutput,
) -> bool {
    match member {
        Ok(xml) => out matches ReadDocxToolOutput::Success { paragraphs, text: t } && paragraphs
            == shown_paragraphs(raw_paragraphs(xml)).len() && is_capped(
            text::join(shown_paragraphs(raw_paragraphs(xml)), "\n"@),
            t@,
        ),
        Err(e) => out matches ReadDocxToolOutput::Error { error } && error@ == docx_error(e),
    }
}

/// The result of reading a Word document, given what its text member was read
/// as.
pub fn docx_output(member: Result<String, MemberError>) -> (out: ReadDocxToolOutput)
    ensures
        is_docx_output(member_view(member), out),
{
    match member {
        Ok(xml) => {
            let (paragraphs, text) = document_text(xml.as_str());
            ReadDocxToolOutput::Success { paragraphs, text }
        },
        Err(MemberError::NotAnArchive(e)) => ReadDocxToolOutput::Error {
            error: explain("read as zip archive: ", e),
        },
        Err(MemberError::NotFound(e)) => ReadDocxToolOutput::Error {
            error: explain("word/document.xml not found — is this a real .docx file?: ", e),
        },
        Err(MemberError::Unreadable(e)) => ReadDocxToolOutput::Error { error: e },
    }
}

/// Reads the text of a Word document from the bytes of its file.
pub fn read_docx(bytes: &[u8]) -> (out: ReadDocxToolOutput)
    ensures
        is_docx_output(archive_member(bytes@, DOCUMENT_MEMBER@), out),
{
    docx_output(read_member(bytes, DOCUMENT_MEMBER))
}

// ---- writing Word documents ----------------------------------------------------------------

/// Create a Word document from plain paragraphs. A paragraph starting with
/// "# " or "## " is styled as Heading 1 or Heading 2.
#[derive(Clone, Debug)]
pub struct WriteDocxToolInput {
    /// Path for the new .docx file (".docx" is appended when missing).
    /// Relative paths resolve inside the project.
    pub path: String,
    /// Optional document title, styled as Heading 1.
    pub title: Option<String>,
    /// Paragraphs to write, in order.
    pub paragraphs: Vec<String>,
}

/// What the writing tool gives back.
#[derive(Debug)]
pub enum WriteDocxToolOutput {
    Success { path: String, paragraphs: usize },
    Error { error: String },
}

impl WriteDocxToolOutput {
    /// The text of the tool result.
    pub fn content(self) -> (out: String)
        ensures
            out@ == match self {
                WriteDocxToolOutput::Success { path, paragraphs } => "Wrote "@ + text::decimal(
                    paragraphs as nat,
                ) + " paragraphs to "@ + path@,
                WriteDocxToolOutput::Error { error } => error@,
            },
    {
        match self {
            WriteDocxToolOutput::Success { path, paragraphs } => {
                let mut out = copy_str("Wrote ");
                let count = decimal_of_usize(paragraphs);
                out.append(count.as_str());
                out.append(" paragraphs to ");
                out.append(path.as_str());
                out
            },
            WriteDocxToolOutput::Error { error } => error,
        }
    }
}

/// `s` ends with `suffix`.
pub open spec fn ends_with(s: Seq<char>, suffix: Seq<char>) -> bool {
    text::matches_at(s, suffix, s.len() - suffix.len())
}

/// A path with ".docx" appended where it is missing.
pub open spec fn with_docx(path: Seq<char>) -> Seq<char> {
    if ends_with(path, ".docx"@) {
        path
    } else {
        path + ".docx"@
    }
}

/// The path that a document is written to.
pub fn docx_path(path: &str) -> (out: String)
    ensures
        out@ == with_docx(path@),
{
    let cs: Vec<char> = chars_of(path);
    let suffix: Vec<char> = chars_of(".docx");
    let mut out = copy_str(path);
    let there = cs.len() >= suffix.len() && text::is_match_at(
        &cs,
        &suffix,
        cs.len() - suffix.len(),
    );
    if !there {
        out.append(".docx");
    }
    out
}

/// The style and the text of a paragraph.
pub struct Paragraph {
    pub style: Option<Seq<char>>,
    pub text: Seq<char>,
}

/// A text without line feeds and carriage returns.
pub open spec fn without_breaks(s: Seq<char>) -> Seq<char>
    decreases s.len(),
{
    if s.len() == 0 {
        Seq::empty()
    } else if s.last() == '\n' || s.last() == '\r' {
        without_breaks(s.drop_last())
    } else {
        without_breaks(s.drop_last()).push(s.last())
    }
}

/// A character as the text of a document holds it.
pub open spec fn written_char(c: char) -> Seq<char> {
    if c == '&' {
        "&amp;"@
    } else if c == '<' {
        "&lt;"@
    } else if c == '>' {
        "&gt;"@
    } else if c == '"' {
        "&quot;"@
    } else if c == '\'' {
        "&apos;"@
    } else {
        seq![c]
    }
}

/// A text as the text of a document holds it.
pub open spec fn written_text(s: Seq<char>) -> Seq<char>
    decreases s.len(),
{
    if s.len() == 0 {
        Seq::empty()
    } else {
        written_text(s.drop_last()) + written_char(s.last())
    }
}

/// A paragraph with the given style and text.
pub open spec fn paragraph(style: Option<Seq<char>>, t: Seq<char>) -> Paragraph {
    Paragraph { style, text: without_breaks(t) }
}

#[verifier::external_type_specification]
#[verifier::external_body]
pub struct ExDocx(docx_rs::Docx);

/// The paragraphs of a document of the `docx-rs` crate: the style of each, and
/// the text of its run.
pub uninterp spec fn docx_paragraphs(d: docx_rs::Docx) -> Seq<Paragraph>;

/// A document of the `docx-rs` crate holds paragraphs of one run alone, as
/// `add_plain` and `add_styled` add them: no table, list, header or the like.
pub uninterp spec fn only_paragraphs(d: docx_rs::Docx) -> bool;

/// Calls `docx_rs::Docx::new`: a document without paragraphs.
#[verifier::external_body]
pub(crate) fn new_docx() -> (d: docx_rs::Docx)
    ensures
        docx_paragraphs(d) == Seq::<Paragraph>::empty(),
        only_paragraphs(d),
{
    docx_rs::Docx::new()
}

/// Calls `docx_rs::Docx::add_paragraph` with a paragraph of one run. The run
/// is made with `Run::add_text`, which leaves line feeds out and whose text
/// leaves carriage returns out.
#[verifier::external_body]
pub(crate) fn add_plain(d: docx_rs::Docx, t: &str) -> (r: docx_rs::Docx)
    ensures
        docx_paragraphs(r) == docx_paragraphs(d).push(paragraph(None, t@)),
        only_paragraphs(d) ==> only_paragraphs(r),
{
    let run = docx_rs::Run::new().add_text(t);
    d.add_paragraph(docx_rs::Paragraph::new().add_run(run))
}

/// The name of a style that is made of ASCII letters and digits.
pub open spec fn plain_style(style: Seq<char>) -> bool {
    forall|i: int|
        0 <= i < style.len() ==> {
            ||| 'A' <= #[trigger] style[i] && style[i] <= 'Z'
            ||| 'a' <= style[i] && style[i] <= 'z'
            ||| text::is_digit(style[i])
        }
}

/// Calls `docx_rs::Docx::add_paragraph` with a paragraph of one run that
/// `docx_rs::Paragraph::style` gave a style, whose name has nothing to escape.
/// The run is made with `Run::add_text`, which leaves line feeds out and whose
/// text leaves carriage returns out.
#[verifier::external_body]
pub(crate) fn add_styled(d: docx_rs::Docx, style: &str, t: &str) -> (r: docx_rs::Docx)
    requires
        plain_style(style@),
    ensures
        docx_paragraphs(r) == docx_paragraphs(d).push(paragraph(Some(style@), t@)),
        only_paragraphs(d) ==> only_paragraphs(r),
{
    let run = docx_rs::Run::new().add_text(t);
    d.add_paragraph(docx_rs::Paragraph::new().style(style).add_run(run))
}

/// The mark of a style in the markup of a paragraph.
pub open spec fn style_mark(style: Seq<char>) -> Seq<char> {
    "<w:pStyle w:val=\""@ + style + "\" />"@
}

/// The markup of a document holds the given paragraphs: their texts in order,
/// nothing after them, and the mark of each style in its paragraph. One
/// without a style holds no mark of any.
pub open spec fn holds_paragraphs(xml: Seq<char>, paragraphs: Seq<Paragraph>) -> bool {
    let chunks = text::split_from(xml, "</w:p>"@, 0);
    &&& chunks.len() == paragraphs.len() + 1
    &&& raw_paragraphs(xml) == paragraphs.map_values(|p: Paragraph| written_text(p.text)).push(
        Seq::empty(),
    )
    &&& forall|i: int|
        0 <= i < paragraphs.len() && (#[trigger] paragraphs[i]).style is Some ==> text::contains(
            chunks[i],
            style_mark(paragraphs[i].style->0),
        )
    &&& forall|i: int|
        0 <= i < paragraphs.len() && (#[trigger] paragraphs[i]).style is None ==> !text::contains(
            chunks[i],
            "<w:pStyle"@,
        )
}

/// The bytes are an archive whose text member holds the given paragraphs.
pub open spec fn is_document(bytes: Seq<u8>, paragraphs: Seq<Paragraph>) -> bool {
    archive_member(bytes, DOCUMENT_MEMBER@) matches Ok(xml) && holds_paragraphs(xml, paragraphs)
}

/// What packing a document has given.
pub open spec fn packed(r: Result<Vec<u8>, String>, paragraphs: Seq<Paragraph>) -> bool {
    r matches Ok(bytes) ==> is_document(bytes@, paragraphs)
}

/// The styles of the paragraphs are named by letters and digits.
pub open spec fn plain_styles(paragraphs: Seq<Paragraph>) -> bool {
    forall|i: int|
        0 <= i < paragraphs.len() && (#[trigger] paragraphs[i]).style is Some ==> plain_style(
            paragraphs[i].style->0,
        )
}

/// Calls `docx_rs::Docx::build` and `XMLDocx::pack` on a document that holds
/// paragraphs of one run alone. The bytes are a zip archive with an
/// uncompressed member `word/document.xml`, in which each paragraph is a `w:p`
/// element with its style, where it has one, in a `w:pStyle` element and its
/// text, escaped, in a `w:t` element. Nothing else writes a `w:pStyle` element
/// there. The identifiers of the paragraphs come from a counter of the thread,
/// so that nothing more is said of the bytes. The error is given by its message
/// and those of its causes.
#[verifier::external_body]
pub(crate) fn pack_docx(d: docx_rs::Docx) -> (r: Result<Vec<u8>, String>)
    requires
        only_paragraphs(d),
        plain_styles(docx_paragraphs(d)),
    ensures
        packed(r, docx_paragraphs(d)),
{
    let mut buffer = std::io::Cursor::new(Vec::new());
    d.build().pack(&mut buffer).map_err(|e| format!("{:#}", anyhow::Error::new(e)))?;
    Ok(buffer.into_inner())
}

/// The paragraph that a line of the input becomes: a heading where it is
/// marked as one.
pub open spec fn styled(line: Seq<char>) -> Paragraph {
    match text::strip_prefix(line, "## "@) {
        Some(rest) => paragraph(Some("Heading2"@), rest),
        None => match text::strip_prefix(line, "# "@) {
            Some(rest) => paragraph(Some("Heading1"@), rest),
            None => paragraph(None, line),
        },
    }
}

/// The paragraphs of a new document: the title, as a heading, and those of
/// the input.
pub open spec fn new_paragraphs(title: Option<Seq<char>>, lines: Seq<Seq<char>>) -> Seq<Paragraph> {
    let head = match title {
        Some(t) => seq![paragraph(Some("Heading1"@), t)],
        None => Seq::empty(),
    };
    head + lines.map_values(|line: Seq<char>| styled(line))
}

/// The two styles of headings are named by letters and digits.
proof fn lemma_heading_styles()
    ensures
        plain_style("Heading1"@),
        plain_style("Heading2"@),
{
    reveal_strlit("Heading1");
    reveal_strlit("Heading2");
}

fn add_line(d: docx_rs::Docx, line: &str) -> (r: docx_rs::Docx)
    ensures
        docx_paragraphs(r) == docx_paragraphs(d).push(styled(line@)),
        only_paragraphs(d) ==> only_paragraphs(r),
{
    proof {
        lemma_heading_styles();
    }
    match str_strip_prefix(line, "## ") {
        Some(rest) => add_styled(d, "Heading2", rest.as_str()),
        None => match str_strip_prefix(line, "# ") {
            Some(rest) => add_styled(d, "Heading1", rest.as_str()),
            None => add_plain(d, line),
        },
    }
}

/// The document that the input describes.
fn compose(input: &WriteDocxToolInput) -> (d: docx_rs::Docx)
    ensures
        docx_paragraphs(d) == new_paragraphs(
            text::opt_view(input.title),
            text::views(input.paragraphs@),
        ),
        only_paragraphs(d),
{
    let ghost lines = text::views(input.paragraphs@);
    let ghost title = text::opt_view(input.title);
    let mut d = new_docx();
    proof {
        lemma_heading_styles();
    }
    if let Some(t) = &input.title {
        d = add_styled(d, "Heading1", t.as_str());
    }
    proof {
        assert(docx_paragraphs(d) =~= new_paragraphs(title, lines.take(0)));
    }
    let mut i: usize = 0;
    while i < input.paragraphs.len()
        invariant
            i <= input.paragraphs@.len(),
            lines == text::views(input.paragraphs@),
            docx_paragraphs(d) == new_paragraphs(title, lines.take(i as int)),
            only_paragraphs(d),
        decreases input.paragraphs@.len() - i,
    {
        let ghost before = docx_paragraphs(d);
        d = add_line(d, input.paragraphs[i].as_str());
        proof {
            assert(lines.take(i + 1) =~= lines.take(i as int).push(lines[i as int]));
            assert(new_paragraphs(title, lines.take(i + 1)) =~= before.push(
                styled(lines[i as int]),
            ));
        }
        i = i + 1;
    }
    assert(lines.take(lines.len() as int) =~= lines);
    d
}

/// What writing a document gives: the bytes of its file, and the number of
/// its paragraphs.
pub open spec fn is_written(r: Result<(Vec<u8>, usize), String>, paragraphs: Seq<Paragraph>) -> bool {
    match r {
        Ok((bytes, count)) => is_document(bytes@, paragraphs) && count == paragraphs.len(),
        Err(e) => text::starts_with(e@, "serialize docx: "@),
    }
}

/// The bytes of the file for the document that the input describes, and the
/// number of its paragraphs. Whether it can be packed, the `docx-rs` crate
/// decides.
pub fn write_docx(input: &WriteDocxToolInput) -> (r: Result<(Vec<u8>, usize), String>)
    requires
        input.paragraphs@.len() < usize::MAX,
    ensures
        is_written(
            r,
            new_paragraphs(text::opt_view(input.title), text::views(input.paragraphs@)),
        ),
{
    let d = compose(input);
    proof {
        lemma_heading_styles();
    }
    let count: usize = if input.title.is_some() {
        input.paragraphs.len() + 1
    } else {
        input.paragraphs.len()
    };
    packed_output(pack_docx(d), count)
}

/// What writing a document gives, once it was packed.
pub open spec fn written_view(packed: Result<Vec<u8>, String>, count: usize) -> Result<
    (Seq<u8>, usize),
    Seq<char>,
> {
    match packed {
        Ok(bytes) => Ok((bytes@, count)),
        Err(e) => Err("serialize docx: "@ + e@),
    }
}

/// What writing a document gives, once it was packed.
pub fn packed_output(packed: Result<Vec<u8>, String>, count: usize) -> (r: Result<
    (Vec<u8>, usize),
    String,
>)
    ensures
        match r {
            Ok((bytes, n)) => written_view(packed, count) == Ok::<(Seq<u8>, usize), Seq<char>>(
                (bytes@, n),
            ),
            Err(e) => written_view(packed, count) == Err::<(Seq<u8>, usize), Seq<char>>(e@),
        },
        r matches Err(e) ==> text::starts_with(e@, "serialize docx: "@),
{
    match packed {
        Ok(bytes) => Ok((bytes, count)),
        Err(e) => {
            let out = explain("serialize docx: ", e);
            proof {
                let n = "serialize docx: "@.len();
                assert(out@.subrange(0, n as int) =~= "serialize docx: "@);
            }
            Err(out)
        },
    }
}

// ---- reading PDF ---------------------------------------------------------------------------

/// Extract the text content of a PDF file.
#[derive(Clone, Debug)]
pub struct ReadPdfToolInput {
    /// Path to the PDF file. Relative paths resolve inside the project.
    pub path: String,
}

/// What the PDF tool gives back.
#[derive(Debug)]
pub enum ReadPdfToolOutput {
    Success { text: String },
    Error { error: String },
}

impl ReadPdfToolOutput {
    /// The text of the tool result.
    pub fn content(self) -> (out: String)
        ensures
            out@ == match self {
                ReadPdfToolOutput::Success { text } => text@,
                ReadPdfToolOutput::Error { error } => error@,
            },
    {
        match self {
            ReadPdfToolOutput::Success { text } => text,
            ReadPdfToolOutput::Error { error } => error,
        }
    }
}

/// The result of the PDF tool, once the text was extracted.
pub fn pdf_output(extracted: Result<String, String>) -> (out: ReadPdfToolOutput)
    ensures
        match extracted {
            Ok(t) => out matches ReadPdfToolOutput::Success { text: shown } && is_capped(
                t@,
                shown@,
            ),
            Err(e) => out matches ReadPdfToolOutput::Error { error } && error@
                == "PDF extraction failed: "@ + e@,
        },
{
    match extracted {
        Ok(t) => ReadPdfToolOutput::Success { text: cap_chars(t) },
        Err(e) => ReadPdfToolOutput::Error { error: explain("PDF extraction failed: ", e) },
    }
}

// ---- what was written is read back ------------------------------------------------------------

proof fn lemma_written_front(s: Seq<char>)
    ensures
        written_text(s) == entities::staged(s, 0, 4),
    decreases s.len(),
{
    if s.len() == 1 {
        assert(s.drop_last() =~= Seq::empty());
        assert(s.skip(1) =~= Seq::empty());
        assert(written_text(s.drop_last()) =~= Seq::empty());
        assert(entities::staged(s.skip(1), 0, 4) =~= Seq::empty());
        assert(written_text(s) =~= entities::staged(s, 0, 4));
    } else if s.len() > 1 {
        lemma_written_front(s.drop_last());
        lemma_written_front(s.skip(1));
        lemma_written_front(s.drop_last().skip(1));
        assert(s.drop_last().skip(1) =~= s.skip(1).drop_last());
        assert(s.skip(1).last() == s.last());
        assert(written_text(s) =~= entities::staged(s, 0, 4));
    }
}

/// A text that holds none of the entities that are read as a character, but
/// for that of the ampersand.
pub open spec fn holds_no_entity(s: Seq<char>) -> bool {
    &&& !text::contains(s, "&lt;"@)
    &&& !text::contains(s, "&gt;"@)
    &&& !text::contains(s, "&quot;"@)
    &&& !text::contains(s, "&apos;"@)
    &&& !text::contains(s, "&#39;"@)
}

/// Reading undoes writing: the text of a paragraph as a document holds it is
/// read as that text, unless the text itself holds an entity.
pub proof fn law_written_text_reads_back(s: Seq<char>)
    requires
        holds_no_entity(s),
    ensures
        xml_unescaped(written_text(s)) == s,
{
    lemma_written_front(s);
    entities::lemma_stage(s, 0, 4);
    entities::lemma_stage(s, 1, 4);
    entities::lemma_stage(s, 2, 4);
    entities::lemma_stage(s, 3, 4);
    entities::lemma_stage(s, 4, 4);
    entities::lemma_staged_end(s, 4);
    reveal_strlit("&#39;");
    entities::lemma_nothing_replaced(s, "&#39;"@, "'"@);
}

/// The raw texts that are read from a document that was written are those of
/// its paragraphs, in order, with nothing after them: each one, its entities
/// replaced, is the text of its paragraph.
pub proof fn law_document_reads_back(bytes: Seq<u8>, paragraphs: Seq<Paragraph>, i: int)
    requires
        is_document(bytes, paragraphs),
        0 <= i < paragraphs.len(),
        holds_no_entity(paragraphs[i].text),
    ensures
        archive_member(bytes, DOCUMENT_MEMBER@) is Ok,
        ({
            let xml = archive_member(bytes, DOCUMENT_MEMBER@)->Ok_0;
            &&& raw_paragraphs(xml).len() == paragraphs.len() + 1
            &&& xml_unescaped(raw_paragraphs(xml)[i]) == paragraphs[i].text
            &&& raw_paragraphs(xml).last() == Seq::<char>::empty()
        }),
{
    law_written_text_reads_back(paragraphs[i].text);
}

/// The texts of the paragraphs without the white space at their ends, but for
/// those that are then empty.
pub open spec fn filled_texts(paragraphs: Seq<Paragraph>) -> Seq<Seq<char>>
    decreases paragraphs.len(),
{
    if paragraphs.len() == 0 {
        Seq::empty()
    } else {
        let before = filled_texts(paragraphs.drop_last());
        let t = text::trim(paragraphs.last().text);
        if t.len() > 0 {
            before.push(t)
        } else {
            before
        }
    }
}

proof fn lemma_trim_start_written(s: Seq<char>)
    ensures
        text::trim_start(written_text(s)) == written_text(text::trim_start(s)),
    decreases s.len(),
{
    if s.len() > 0 {
        entities::lemma_entities();
        lemma_written_front(s);
        let t = written_text(s);
        let head = entities::staged_char(s[0], 0, 4);
        assert(t == head + entities::staged(s.skip(1), 0, 4));
        assert(t[0] == head[0]);
        if text::whitespace(s[0]) {
            lemma_written_front(s.skip(1));
            assert(s.drop_first() =~= s.skip(1));
            assert(t.drop_first() =~= written_text(s.skip(1)));
            lemma_trim_start_written(s.skip(1));
        }
    }
}

proof fn lemma_trim_end_written(s: Seq<char>)
    ensures
        text::trim_end(written_text(s)) == written_text(text::trim_end(s)),
    decreases s.len(),
{
    if s.len() > 0 {
        entities::lemma_entities();
        let t = written_text(s);
        let tail = written_char(s.last());
        assert(t.last() == tail.last());
        if text::whitespace(s.last()) {
            assert(t.drop_last() =~= written_text(s.drop_last()));
            lemma_trim_end_written(s.drop_last());
        }
    }
}

proof fn lemma_trimmed_part(s: Seq<char>) -> (at: int)
    ensures
        0 <= at,
        at + text::trim(s).len() <= s.len(),
        text::trim(s) == s.subrange(at, at + text::trim(s).len()),
{
    lemma_trim_start_part(s);
    let rest = text::trim_start(s);
    lemma_trim_end_part(rest);
    let at = s.len() - rest.len();
    assert(text::trim(s) =~= s.subrange(at, at + text::trim(s).len()));
    at
}

proof fn lemma_trim_start_part(s: Seq<char>)
    ensures
        text::trim_start(s).len() <= s.len(),
        text::trim_start(s) == s.skip(s.len() - text::trim_start(s).len()),
    decreases s.len(),
{
    if s.len() > 0 && text::whitespace(s[0]) {
        lemma_trim_start_part(s.drop_first());
    }
    assert(text::trim_start(s) =~= s.skip(s.len() - text::trim_start(s).len()));
}

proof fn lemma_trim_end_part(s: Seq<char>)
    ensures
        text::trim_end(s).len() <= s.len(),
        text::trim_end(s) == s.take(text::trim_end(s).len() as int),
    decreases s.len(),
{
    if s.len() > 0 && text::whitespace(s.last()) {
        lemma_trim_end_part(s.drop_last());
    }
    assert(text::trim_end(s) =~= s.take(text::trim_end(s).len() as int));
}

proof fn lemma_trimmed_holds_no(s: Seq<char>, pat: Seq<char>)
    requires
        !text::contains(s, pat),
    ensures
        !text::contains(text::trim(s), pat),
{
    let t = text::trim(s);
    let at = lemma_trimmed_part(s);
    if text::contains(t, pat) {
        let i = choose|i: int| text::matches_at(t, pat, i);
        assert(s.subrange(at + i, at + i + pat.len()) =~= t.subrange(i, i + pat.len()));
        assert(text::matches_at(s, pat, at + i));
    }
}

/// A written text is shown without the white space at its ends, unless it
/// holds an entity.
pub proof fn law_written_text_is_shown(s: Seq<char>)
    requires
        holds_no_entity(s),
    ensures
        shown_paragraph(written_text(s)) == text::trim(s),
{
    lemma_trim_start_written(s);
    lemma_trim_end_written(text::trim_start(s));
    lemma_trimmed_holds_no(s, "&lt;"@);
    lemma_trimmed_holds_no(s, "&gt;"@);
    lemma_trimmed_holds_no(s, "&quot;"@);
    lemma_trimmed_holds_no(s, "&apos;"@);
    lemma_trimmed_holds_no(s, "&#39;"@);
    law_written_text_reads_back(text::trim(s));
}

proof fn lemma_shown_texts(paragraphs: Seq<Paragraph>)
    requires
        forall|i: int|
            0 <= i < paragraphs.len() ==> holds_no_entity((#[trigger] paragraphs[i]).text),
    ensures
        shown_paragraphs(paragraphs.map_values(|p: Paragraph| written_text(p.text)))
            == filled_texts(paragraphs),
    decreases paragraphs.len(),
{
    let written = |p: Paragraph| written_text(p.text);
    let raw = paragraphs.map_values(written);
    if paragraphs.len() > 0 {
        let rest = paragraphs.drop_last();
        let last = paragraphs[paragraphs.len() - 1];
        assert forall|i: int| 0 <= i < rest.len() implies holds_no_entity(
            (#[trigger] rest[i]).text,
        ) by {
            assert(rest[i] == paragraphs[i]);
        }
        lemma_shown_texts(rest);
        assert(raw.drop_last() =~= rest.map_values(written));
        assert(raw.last() == written_text(last.text));
        law_written_text_is_shown(last.text);
    }
}

/// A document that was written and is then read shows its paragraphs: the
/// title and the paragraphs that are not blank, in order, their number and
/// their texts without the white space at their ends, as far as the cap on the
/// text goes.
pub proof fn law_read_shows_what_was_written(
    bytes: Seq<u8>,
    paragraphs: Seq<Paragraph>,
    out: ReadDocxToolOutput,
)
    requires
        is_document(bytes, paragraphs),
        is_docx_output(archive_member(bytes, DOCUMENT_MEMBER@), out),
        forall|i: int|
            0 <= i < paragraphs.len() ==> holds_no_entity((#[trigger] paragraphs[i]).text),
    ensures
        out matches ReadDocxToolOutput::Success { paragraphs: n, text: t } && n == filled_texts(
            paragraphs,
        ).len() && is_capped(text::join(filled_texts(paragraphs), "\n"@), t@),
{
    let xml = archive_member(bytes, DOCUMENT_MEMBER@)->Ok_0;
    let raw = raw_paragraphs(xml);
    let written = paragraphs.map_values(|p: Paragraph| written_text(p.text));
    let none = Seq::<char>::empty();
    assert(raw.drop_last() =~= written);
    assert(raw.last() == none);
    assert(text::trim(none) =~= none);
    assert(xml_unescaped(none) =~= none);
    lemma_shown_texts(paragraphs);
}

// ---- what capping keeps -----------------------------------------------------------------------

proof fn lemma_char_width(c: char)
    ensures
        char_bytes(c) == vstd::utf8::encode_scalar(c as u32).len(),
{
}

proof fn lemma_bytes_are_those_of_utf8(s: Seq<char>)
    ensures
        text_bytes(s) == vstd::utf8::encode_utf8(s).len(),
    decreases s.len(),
{
    if s.len() > 0 {
        let head = seq![s[0]];
        let rest = s.drop_first();
        lemma_bytes_are_those_of_utf8(rest);
        lemma_bytes_add(head, rest);
        assert(head + rest =~= s);
        assert(head.drop_last() =~= Seq::empty());
        assert(text_bytes(head.drop_last()) == 0);
        lemma_char_width(s[0]);
    }
}

/// A text whose UTF-8 encoding has at most 120000 bytes is handed on whole. Of
/// a longer one the longest beginning that has no more is, followed by a note.
pub proof fn law_cap_counts_bytes(s: Seq<char>, out: Seq<char>) -> (k: int)
    requires
        is_capped(s, out),
    ensures
        vstd::utf8::encode_utf8(s).len() <= 120_000 ==> out == s,
        vstd::utf8::encode_utf8(s).len() > 120_000 ==> {
            &&& 0 <= k < s.len()
            &&& vstd::utf8::encode_utf8(s.take(k)).len() <= 120_000
            &&& vstd::utf8::encode_utf8(s.take(k + 1)).len() > 120_000
            &&& out == s.take(k)
                + "\n\n[document truncated — ask again with a narrower target or split the file]"@
        },
{
    lemma_bytes_are_those_of_utf8(s);
    let k = choose|k: int|
        {
            &&& 0 <= k < s.len()
            &&& text_bytes(#[trigger] s.take(k)) <= MAX_TEXT_BYTES
            &&& text_bytes(s.take(k + 1)) > MAX_TEXT_BYTES
            &&& out == s.take(k) + TRUNCATED@
        };
    lemma_bytes_are_those_of_utf8(s.take(k));
    lemma_bytes_are_those_of_utf8(s.take(k + 1));
    k
}

// ---- what reading finds -----------------------------------------------------------------------

proof fn lemma_run_shift(s: Seq<char>, i: int, j: int)
    requires
        0 <= i <= s.len(),
        0 <= j,
        i + j <= s.len(),
    ensures
        run_text(s, i + j) == run_text(s.skip(i), j),
    decreases s.len() - i - j,
{
    reveal_strlit("<w:t");
    reveal_strlit(">");
    reveal_strlit("</w:t>");
    let t = s.skip(i);
    text::lemma_found_further(s, "<w:t"@, i, j);
    text::lemma_find(t, "<w:t"@, j);
    if let Some(start) = text::find_from(t, "<w:t"@, j) {
        text::lemma_found_further(s, ">"@, i, start);
        text::lemma_find(t, ">"@, start);
        if let Some(gt) = text::find_from(t, ">"@, start) {
            text::lemma_found_further(s, "</w:t>"@, i, gt + 1);
            text::lemma_find(t, "</w:t>"@, gt + 1);
            if let Some(end) = text::find_from(t, "</w:t>"@, gt + 1) {
                lemma_run_shift(s, i, end + 6);
                assert(t.subrange(gt + 1, end) =~= s.subrange(i + gt + 1, i + end));
            }
        }
    }
}

proof fn lemma_chunk_shift(s: Seq<char>, sep: Seq<char>, i: int, j: int)
    requires
        0 <= i <= s.len(),
        0 <= j,
        i + j <= s.len(),
        sep.len() > 0,
    ensures
        text::split_from(s, sep, i + j) == text::split_from(s.skip(i), sep, j),
    decreases s.len() - i - j,
{
    let t = s.skip(i);
    text::lemma_found_further(s, sep, i, j);
    text::lemma_find(t, sep, j);
    if let Some(k) = text::find_from(t, sep, j) {
        lemma_chunk_shift(s, sep, i, k + sep.len());
        assert(t.subrange(j, k) =~= s.subrange(i + j, i + k));
    } else {
        assert(t.skip(j) =~= s.skip(i + j));
    }
}

/// A tag whose first character stands in it once is found where it stands
/// first.
proof fn lemma_tag_found(before: Seq<char>, tag: Seq<char>, after: Seq<char>)
    requires
        tag.len() > 0,
        !text::contains(before, tag),
        forall|d: int| 0 < d < tag.len() ==> #[trigger] tag[d] != tag[0],
    ensures
        text::find_from(before + tag + after, tag, 0) == Some(before.len() as int),
{
    let s = before + tag + after;
    let n = before.len() as int;
    assert(s.subrange(n, n + tag.len()) =~= tag);
    assert forall|j: int| 0 <= j < n implies !#[trigger] text::matches_at(s, tag, j) by {
        if text::matches_at(s, tag, j) {
            let window = s.subrange(j, j + tag.len());
            if j + tag.len() <= n {
                assert(before.subrange(j, j + tag.len()) =~= window);
                assert(text::matches_at(before, tag, j));
            } else {
                assert(window[n - j] == s[n]);
                assert(s[n] == tag[0]);
            }
        }
    }
    text::lemma_find_is(s, tag, 0, n);
}

/// The text of a run is read whole, whatever attributes its tag has, followed
/// by the texts of the runs behind it. Where no such tag stands, there is none.
pub proof fn law_runs_are_read(
    before: Seq<char>,
    attributes: Seq<char>,
    t: Seq<char>,
    after: Seq<char>,
)
    requires
        !text::contains(before, "<w:t"@),
        !attributes.contains('>'),
        !t.contains('<'),
    ensures
        run_text(before + "<w:t"@ + attributes + ">"@ + t + "</w:t>"@ + after, 0) == t + run_text(
            after,
            0,
        ),
        run_text(before, 0) == Seq::<char>::empty(),
{
    reveal_strlit("<w:t");
    reveal_strlit(">");
    reveal_strlit("</w:t>");
    let s = before + "<w:t"@ + attributes + ">"@ + t + "</w:t>"@ + after;
    let start = before.len() as int;
    let gt = start + 4 + attributes.len();
    let end = gt + 1 + t.len();
    lemma_tag_found(before, "<w:t"@, attributes + ">"@ + t + "</w:t>"@ + after);
    assert(s =~= before + "<w:t"@ + (attributes + ">"@ + t + "</w:t>"@ + after));
    assert(s.subrange(gt, gt + 1) =~= ">"@);
    assert forall|j: int| start <= j < gt implies !#[trigger] text::matches_at(s, ">"@, j) by {
        if text::matches_at(s, ">"@, j) {
            assert(s.subrange(j, j + 1)[0] == s[j]);
            if j < start + 4 {
                assert(s[j] == "<w:t"@[j - start]);
            } else {
                assert(s[j] == attributes[j - start - 4]);
            }
        }
    }
    text::lemma_find_is(s, ">"@, start, gt);
    assert(s.subrange(end, end + 6) =~= "</w:t>"@);
    assert forall|j: int| gt + 1 <= j < end implies !#[trigger] text::matches_at(
        s,
        "</w:t>"@,
        j,
    ) by {
        if text::matches_at(s, "</w:t>"@, j) {
            assert(s.subrange(j, j + 6)[0] == s[j]);
            assert(s[j] == t[j - gt - 1]);
        }
    }
    text::lemma_find_is(s, "</w:t>"@, gt + 1, end);
    assert(s.subrange(gt + 1, end) =~= t);
    lemma_run_shift(s, end + 6, 0);
    assert(s.skip(end + 6) =~= after);
    assert forall|j: int| 0 <= j implies !#[trigger] text::matches_at(before, "<w:t"@, j) by {}
    text::lemma_find_none(before, "<w:t"@, 0);
}

/// Each end of a paragraph parts what stands before it from what stands
/// behind it.
pub proof fn law_paragraphs_are_parted(a: Seq<char>, b: Seq<char>)
    requires
        !text::contains(a, "</w:p>"@),
    ensures
        raw_paragraphs(a + "</w:p>"@ + b) == seq![run_text(a, 0)] + raw_paragraphs(b),
        raw_paragraphs(a) == seq![run_text(a, 0)],
{
    reveal_strlit("</w:p>");
    let s = a + "</w:p>"@ + b;
    let n = a.len() as int;
    lemma_tag_found(a, "</w:p>"@, b);
    lemma_chunk_shift(s, "</w:p>"@, n + 6, 0);
    assert(s.skip(n + 6) =~= b);
    assert(s.subrange(0, n) =~= a);
    assert(raw_paragraphs(s) =~= seq![run_text(a, 0)] + raw_paragraphs(b));
    assert forall|j: int| 0 <= j implies !#[trigger] text::matches_at(a, "</w:p>"@, j) by {}
    text::lemma_find_none(a, "</w:p>"@, 0);
    assert(a.skip(0) =~= a);
    assert(raw_paragraphs(a) =~= seq![run_text(a, 0)]);
}

proof fn lemma_plain_is_shown(raw: Seq<char>)
    requires
        !raw.contains('&'),
    ensures
        shown_paragraph(raw) == text::trim(raw),
{
    entities::lemma_entities();
    reveal_strlit("&#39;");
    let t = text::trim(raw);
    let at = lemma_trimmed_part(raw);
    assert forall|pat: Seq<char>| pat.len() > 0 && pat[0] == '&' implies !#[trigger] text::contains(
        t,
        pat,
    ) by {
        if text::contains(t, pat) {
            let i = choose|i: int| text::matches_at(t, pat, i);
            assert(t.subrange(i, i + pat.len())[0] == t[i]);
            assert(raw[at + i] == '&');
        }
    }
    entities::lemma_nothing_replaced(t, "&amp;"@, "&"@);
    entities::lemma_nothing_replaced(t, "&lt;"@, "<"@);
    entities::lemma_nothing_replaced(t, "&gt;"@, ">"@);
    entities::lemma_nothing_replaced(t, "&quot;"@, "\""@);
    entities::lemma_nothing_replaced(t, "&apos;"@, "'"@);
    entities::lemma_nothing_replaced(t, "&#39;"@, "'"@);
}

/// Paragraphs are shown one behind the other, and none of them is left out but
/// for the blank ones: a text without entities is shown as it is, without the
/// white space at its ends.
pub proof fn law_filled_paragraphs_are_shown(before: Seq<Seq<char>>, raw: Seq<char>)
    requires
        !raw.contains('&'),
    ensures
        text::trim(raw).len() > 0 ==> shown_paragraphs(before.push(raw)) == shown_paragraphs(
            before,
        ).push(text::trim(raw)),
        text::trim(raw).len() == 0 ==> shown_paragraphs(before.push(raw)) == shown_paragraphs(
            before,
        ),
        shown_paragraphs(Seq::empty()) == Seq::<Seq<char>>::empty(),
{
    lemma_plain_is_shown(raw);
    assert(before.push(raw).drop_last() =~= before);
}

/// The markup of a document whose paragraphs have one run each.
pub open spec fn document_markup(texts: Seq<Seq<char>>) -> Seq<char>
    decreases texts.len(),
{
    if texts.len() == 0 {
        Seq::empty()
    } else {
        "<w:p><w:r><w:t>"@ + texts[0] + "</w:t></w:r></w:p>"@ + document_markup(texts.skip(1))
    }
}

/// The text needs no escaping, and neither begins nor ends with white space.
pub open spec fn is_plain_paragraph(t: Seq<char>) -> bool {
    t.len() > 0 && text::trim(t) == t && !t.contains('<') && !t.contains('&')
}

proof fn lemma_first_paragraph(t: Seq<char>, rest: Seq<char>)
    requires
        !t.contains('<'),
    ensures
        raw_paragraphs("<w:p><w:r><w:t>"@ + t + "</w:t></w:r></w:p>"@ + rest) == seq![t]
            + raw_paragraphs(rest),
{
    reveal_strlit("<w:p><w:r><w:t>");
    reveal_strlit("</w:t></w:r></w:p>");
    reveal_strlit("<w:p><w:r>");
    reveal_strlit("</w:r>");
    reveal_strlit("</w:p>");
    reveal_strlit("<w:t");
    reveal_strlit(">");
    reveal_strlit("</w:t>");
    let s = "<w:p><w:r><w:t>"@ + t + "</w:t></w:r></w:p>"@ + rest;
    let none = Seq::<char>::empty();
    let a = "<w:p><w:r><w:t>"@ + t + "</w:t></w:r>"@;
    reveal_strlit("</w:t></w:r>");
    let head = "<w:p><w:r>"@;
    assert(a =~= head + "<w:t"@ + none + ">"@ + t + "</w:t>"@ + "</w:r>"@);
    assert forall|j: int| !#[trigger] text::matches_at(head, "<w:t"@, j) by {
        if text::matches_at(head, "<w:t"@, j) {
            let window = head.subrange(j, j + 4);
            assert(window[0] == head[j] && window[3] == head[j + 3]);
        }
    }
    law_runs_are_read(head, none, t, "</w:r>"@);
    let tail = "</w:r>"@;
    assert forall|j: int| !#[trigger] text::matches_at(tail, "<w:t"@, j) by {
        if text::matches_at(tail, "<w:t"@, j) {
            let window = tail.subrange(j, j + 4);
            assert(window[0] == tail[j] && window[1] == tail[j + 1]);
        }
    }
    law_runs_are_read(tail, none, none, none);
    assert(run_text(a, 0) =~= t);
    assert forall|j: int| !#[trigger] text::matches_at(a, "</w:p>"@, j) by {
        if text::matches_at(a, "</w:p>"@, j) {
            let window = a.subrange(j, j + 6);
            assert(window[0] == a[j] && window[1] == a[j + 1] && window[4] == a[j + 4]);
            assert(window[3] == a[j + 3]);
            let n = t.len() as int;
            if 15 <= j < 15 + n {
                assert(a[j] == t[j - 15]);
            }
        }
    }
    law_paragraphs_are_parted(a, rest);
    assert(s =~= a + "</w:p>"@ + rest);
}

proof fn lemma_raw_texts(texts: Seq<Seq<char>>)
    requires
        forall|i: int| 0 <= i < texts.len() ==> is_plain_paragraph(#[trigger] texts[i]),
    ensures
        raw_paragraphs(document_markup(texts)) == texts.push(Seq::empty()),
    decreases texts.len(),
{
    let none = Seq::<char>::empty();
    if texts.len() == 0 {
        reveal_strlit("</w:p>");
        reveal_strlit("<w:t");
        law_runs_are_read(none, none, none, none);
        law_paragraphs_are_parted(none, none);
        assert(raw_paragraphs(none) =~= texts.push(none));
    } else {
        let rest = texts.skip(1);
        assert forall|i: int| 0 <= i < rest.len() implies is_plain_paragraph(#[trigger] rest[i]) by {
            assert(rest[i] == texts[i + 1]);
        }
        lemma_raw_texts(rest);
        assert(is_plain_paragraph(texts[0]));
        lemma_first_paragraph(texts[0], document_markup(rest));
        assert(seq![texts[0]] + rest.push(none) =~= texts.push(none));
    }
}

proof fn lemma_all_shown(texts: Seq<Seq<char>>)
    requires
        forall|i: int| 0 <= i < texts.len() ==> is_plain_paragraph(#[trigger] texts[i]),
    ensures
        shown_paragraphs(texts) == texts,
    decreases texts.len(),
{
    if texts.len() > 0 {
        let rest = texts.drop_last();
        assert forall|i: int| 0 <= i < rest.len() implies is_plain_paragraph(#[trigger] rest[i]) by {
            assert(rest[i] == texts[i]);
        }
        lemma_all_shown(rest);
        assert(is_plain_paragraph(texts[texts.len() - 1]));
        law_filled_paragraphs_are_shown(rest, texts.last());
        assert(rest.push(texts.last()) =~= texts);
    }
}

/// Every paragraph of a document is shown, whole and in order.
pub proof fn law_every_paragraph_is_shown(texts: Seq<Seq<char>>)
    requires
        forall|i: int| 0 <= i < texts.len() ==> is_plain_paragraph(#[trigger] texts[i]),
    ensures
        shown_paragraphs(raw_paragraphs(document_markup(texts))) == texts,
{
    let none = Seq::<char>::empty();
    lemma_raw_texts(texts);
    lemma_all_shown(texts);
    assert(text::trim(none) =~= none);
    law_filled_paragraphs_are_shown(texts, none);
}

// ---- what writing keeps -----------------------------------------------------------------------

proof fn lemma_breaks_are_filtered(s: Seq<char>)
    ensures
        without_breaks(s) == s.filter(|c: char| c != '\n' && c != '\r'),
    decreases s.len(),
{
    reveal(Seq::filter);
    if s.len() > 0 {
        lemma_breaks_are_filtered(s.drop_last());
    }
}

/// A paragraph of a new document for each line, in order, behind the title
/// where there is one: a line behind "# " becomes a first heading, one behind
/// "## " a second one, and any other is kept as it is. Of their characters only
/// line feeds and carriage returns are left out.
pub proof fn law_lines_become_paragraphs(
    title: Option<Seq<char>>,
    lines: Seq<Seq<char>>,
    i: int,
    rest: Seq<char>,
)
    requires
        0 <= i < lines.len(),
    ensures
        ({
            let all = new_paragraphs(title, lines);
            let head: int = if title is Some {
                1
            } else {
                0
            };
            let p = all[head + i];
            let no_breaks = |c: char| c != '\n' && c != '\r';
            &&& all.len() == head + lines.len()
            &&& title is Some ==> all[0].style == Some("Heading1"@) && all[0].text
                == title->0.filter(no_breaks)
            &&& lines[i] == "# "@ + rest ==> p.style == Some("Heading1"@) && p.text
                == rest.filter(no_breaks)
            &&& lines[i] == "## "@ + rest ==> p.style == Some("Heading2"@) && p.text
                == rest.filter(no_breaks)
            &&& !text::starts_with(lines[i], "# "@) && !text::starts_with(lines[i], "## "@) ==> {
                &&& p.style is None
                &&& p.text == lines[i].filter(no_breaks)
            }
        }),
{
    reveal_strlit("# ");
    reveal_strlit("## ");
    let line = lines[i];
    lemma_breaks_are_filtered(rest);
    lemma_breaks_are_filtered(line);
    if let Some(t) = title {
        lemma_breaks_are_filtered(t);
    }
    if line == "# "@ + rest {
        assert(line.subrange(0, 2) =~= "# "@);
        assert(line.skip(2) =~= rest);
        if text::starts_with(line, "## "@) {
            assert(line.subrange(0, 3)[1] == line[1]);
        }
    }
    if line == "## "@ + rest {
        assert(line.subrange(0, 3) =~= "## "@);
        assert(line.skip(3) =~= rest);
    }
}

/// A document is written to the path that was given, which gets the extension
/// where it has none.
pub proof fn law_documents_have_their_extension(path: Seq<char>, stem: Seq<char>)
    ensures
        path == stem + ".docx"@ ==> with_docx(path) == path,
        (forall|s: Seq<char>| path != #[trigger] (s + ".docx"@)) ==> with_docx(path) == path
            + ".docx"@,
{
    reveal_strlit(".docx");
    let n = path.len() - 5;
    if path == stem + ".docx"@ {
        assert(path.subrange(n, n + 5) =~= ".docx"@);
    }
    if ends_with(path, ".docx"@) {
        assert(path =~= path.take(n) + ".docx"@);
    }
}

/// An entity and the character that it stands for.
spec fn is_entity_of(pat: Seq<char>, with: Seq<char>) -> bool {
    ||| pat == "&amp;"@ && with == "&"@
    ||| pat == "&lt;"@ && with == "<"@
    ||| pat == "&gt;"@ && with == ">"@
    ||| pat == "&quot;"@ && with == "\""@
    ||| pat == "&apos;"@ && with == "'"@
    ||| pat == "&#39;"@ && with == "'"@
}

proof fn lemma_one_entity(a: Seq<char>, pat: Seq<char>, b: Seq<char>, with: Seq<char>)
    requires
        !a.contains('&'),
        !b.contains('&'),
        !b.contains(';'),
        is_entity_of(pat, with),
    ensures
        xml_unescaped(a + pat + b) == a + with + b,
{
    entities::lemma_entities();
    reveal_strlit("&#39;");
    entities::lemma_entity_replaced(a, pat, b, with);
    entities::lemma_kept_entity(a, pat, b, with, "&amp;"@, "&"@);
    entities::lemma_kept_entity(a, pat, b, with, "&lt;"@, "<"@);
    entities::lemma_kept_entity(a, pat, b, with, "&gt;"@, ">"@);
    entities::lemma_kept_entity(a, pat, b, with, "&quot;"@, "\""@);
    entities::lemma_kept_entity(a, pat, b, with, "&apos;"@, "'"@);
    entities::lemma_kept_entity(a, pat, b, with, "&#39;"@, "'"@);
}

/// An entity between two texts without one is read as the character that it
/// stands for, and the texts are kept whole.
pub proof fn law_entities_are_read(a: Seq<char>, b: Seq<char>)
    requires
        !a.contains('&'),
        !b.contains('&'),
        !b.contains(';'),
    ensures
        xml_unescaped(a + "&amp;"@ + b) == a + "&"@ + b,
        xml_unescaped(a + "&lt;"@ + b) == a + "<"@ + b,
        xml_unescaped(a + "&gt;"@ + b) == a + ">"@ + b,
        xml_unescaped(a + "&quot;"@ + b) == a + "\""@ + b,
        xml_unescaped(a + "&apos;"@ + b) == a + "'"@ + b,
        xml_unescaped(a + "&#39;"@ + b) == a + "'"@ + b,
{
    lemma_one_entity(a, "&amp;"@, b, "&"@);
    lemma_one_entity(a, "&lt;"@, b, "<"@);
    lemma_one_entity(a, "&gt;"@, b, ">"@);
    lemma_one_entity(a, "&quot;"@, b, "\""@);
    lemma_one_entity(a, "&apos;"@, b, "'"@);
    lemma_one_entity(a, "&#39;"@, b, "'"@);
}

// ---- what callers see -------------------------------------------------------------------------

/// The paragraphs of a document are counted, and their texts come one below the
/// other, as far as they are not cut.
pub proof fn law_document_is_shown(texts: Seq<Seq<char>>, xml: &str, r: (usize, String))
    requires
        forall|i: int| 0 <= i < texts.len() ==> is_plain_paragraph(#[trigger] texts[i]),
        xml@ == document_markup(texts),
        call_ensures(document_text, (xml,), r),
    ensures
        r.0 == texts.len(),
        vstd::utf8::encode_utf8(text::join(texts, "\n"@)).len() <= 120_000 ==> r.1@ == text::join(
            texts,
            "\n"@,
        ),
{
    law_every_paragraph_is_shown(texts);
    law_cap_counts_bytes(text::join(texts, "\n"@), r.1@);
}

/// What could not be read of a document is told: that it is no archive, that it
/// has no text, or why that could not be read.
pub proof fn law_unread_document_is_told(
    e: String,
    a: ReadDocxToolOutput,
    b: ReadDocxToolOutput,
    c: ReadDocxToolOutput,
)
    requires
        call_ensures(docx_output, (Err(MemberError::NotAnArchive(e)),), a),
        call_ensures(docx_output, (Err(MemberError::NotFound(e)),), b),
        call_ensures(docx_output, (Err(MemberError::Unreadable(e)),), c),
    ensures
        a is Error && a->error@ == "read as zip archive: "@ + e@,
        b is Error && b->error@
            == "word/document.xml not found — is this a real .docx file?: "@ + e@,
        c is Error && c->error@ == e@,
{
}

/// The tools give back what was read or written with its number of paragraphs,
/// and errors as they are.
pub proof fn law_document_tools_tell(
    n: usize,
    t: String,
    error: String,
    read: String,
    unread: String,
    written: String,
    unwritten: String,
    pdf: String,
    no_pdf: String,
)
    requires
        call_ensures(
            ReadDocxToolOutput::content,
            ((ReadDocxToolOutput::Success { paragraphs: n, text: t }),),
            read,
        ),
        call_ensures(ReadDocxToolOutput::content, ((ReadDocxToolOutput::Error { error }),), unread),
        call_ensures(
            WriteDocxToolOutput::content,
            ((WriteDocxToolOutput::Success { path: t, paragraphs: n }),),
            written,
        ),
        call_ensures(
            WriteDocxToolOutput::content,
            ((WriteDocxToolOutput::Error { error }),),
            unwritten,
        ),
        call_ensures(ReadPdfToolOutput::content, ((ReadPdfToolOutput::Success { text: t }),), pdf),
        call_ensures(ReadPdfToolOutput::content, ((ReadPdfToolOutput::Error { error }),), no_pdf),
    ensures
        read@ == text::decimal(n as nat) + " non-empty paragraphs:\n\n"@ + t@,
        written@ == "Wrote "@ + text::decimal(n as nat) + " paragraphs to "@ + t@,
        pdf@ == t@,
        unread@ == error@,
        unwritten@ == error@,
        no_pdf@ == error@,
{
}

/// The text of a PDF file is handed on whole, unless it is too long, and so is
/// why it could not be extracted.
pub proof fn law_pdf_text_is_handed_on(
    t: String,
    e: String,
    out: ReadPdfToolOutput,
    failed: ReadPdfToolOutput,
)
    requires
        call_ensures(pdf_output, (Ok(t),), out),
        call_ensures(pdf_output, (Err(e),), failed),
    ensures
        out is Success,
        vstd::utf8::encode_utf8(t@).len() <= 120_000 ==> out->text@ == t@,
        failed is Error && failed->error@ == "PDF extraction failed: "@ + e@,
{
    law_cap_counts_bytes(t@, out->text@);
}

/// A document that was written holds a paragraph for each line, and one for the
/// title where there is one, and that number is told.
pub proof fn law_written_document_is_counted(
    input: &WriteDocxToolInput,
    r: Result<(Vec<u8>, usize), String>,
    path: &str,
    file: String,
)
    requires
        call_ensures(write_docx, (input,), r),
        call_ensures(docx_path, (path,), file),
    ensures
        r matches Ok((bytes, count)) ==> {
            &&& count == input.paragraphs@.len() + (if input.title is Some {
                1int
            } else {
                0
            })
            &&& is_document(
                bytes@,
                new_paragraphs(text::opt_view(input.title), text::views(input.paragraphs@)),
            )
        },
        r matches Err(e) ==> text::starts_with(e@, "serialize docx: "@),
        file@ == path@ || file@ == path@ + ".docx"@,
        text::ends_with(file@, ".docx"@),
{
    reveal_strlit(".docx");
    let n = file@.len() - 5;
    if !ends_with(path@, ".docx"@) {
        assert(file@.subrange(n, n + 5) =~= ".docx"@);
    }
}

} // verus!

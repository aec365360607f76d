//! Minimal OOXML (.pptx) writer producing native, text-editable slides.
//!
//! The deck is packed as a ZIP archive of OOXML parts: one slide per page,
//! each with a title text box and a bulleted body text box.
use crate::archive;
use crate::archive::ZipWriter;
use crate::ooxml::{
    APP_PROPS, BULLET_HEAD, BULLET_TAIL, CONTENT_TYPES_HEAD, CONTENT_TYPES_TAIL, CORE_HEAD,
    CORE_TAIL, EMPTY_BODY, LAYOUT, LAYOUT_RELS, MASTER, MASTER_RELS, PRESENTATION_HEAD,
    PRESENTATION_RELS_HEAD, PRESENTATION_RELS_TAIL, PRESENTATION_RELS_THEME, PRESENTATION_TAIL,
    ROOT_RELS, SLIDE_HEAD, SLIDE_ID_HEAD, SLIDE_ID_MID, SLIDE_ID_TAIL, SLIDE_MID, SLIDE_RELS,
    SLIDE_REL_HEAD, SLIDE_REL_MID, SLIDE_REL_TAIL, SLIDE_TAIL, SLIDE_TYPE_HEAD, SLIDE_TYPE_TAIL,
    THEME,
};
use crate::text;
use crate::text::{copy_str, decimal_of_usize};
use vstd::prelude::*;

verus! {

/// One page of the presentation.
pub struct Slide {
    pub title: String,
    pub bullets: Vec<String>,
}

/// The texts of a page.
pub struct SlideText {
    pub title: Seq<char>,
    pub bullets: Seq<Seq<char>>,
}

impl View for Slide {
    type V = SlideText;

    open spec fn view(&self) -> SlideText {
        SlideText { title: self.title@, bullets: text::views(self.bullets@) }
    }
}

/// The texts of all pages.
pub open spec fn slide_texts(slides: Seq<Slide>) -> Seq<SlideText> {
    slides.map_values(|s: Slide| s@)
}

// ---- escaping ---------------------------------------------------------------

/// A control character that XML does not allow in text.
pub open spec fn is_forbidden(c: char) -> bool {
    c as u32 <= 8 || c as u32 == 0xb || c as u32 == 0xc || (0xe <= c as u32 && c as u32 <= 0x1f)
}

/// One character as XML text.
pub open spec fn xml_char(c: char) -> Seq<char> {
    if c == '&' {
        "&amp;"@
    } else if c == '<' {
        "&lt;"@
    } else if c == '>' {
        "&gt;"@
    } else if c == '"' {
        "&quot;"@
    } else if is_forbidden(c) {
        Seq::empty()
    } else {
        seq![c]
    }
}

/// A text as XML text: markup characters become entities and forbidden
/// control characters are left out.
pub open spec fn xml_text(s: Seq<char>) -> Seq<char>
    decreases s.len(),
{
    if s.len() == 0 {
        Seq::empty()
    } else {
        xml_text(s.drop_last()) + xml_char(s.last())
    }
}

/// `text` as XML text.
pub fn xml_escape(text: &str) -> (out: String)
    ensures
        out@ == xml_text(text@),
{
    let cs: Vec<char> = text::chars_of(text);
    let mut out = String::new();
    let mut i: usize = 0;
    while i < cs.len()
        invariant
            i <= cs@.len(),
            cs@ == text@,
            out@ == xml_text(text@.take(i as int)),
        decreases cs@.len() - i,
    {
        let c = cs[i];
        let ghost before = out@;
        if c == '&' {
            out.append("&amp;");
        } else if c == '<' {
            out.append("&lt;");
        } else if c == '>' {
            out.append("&gt;");
        } else if c == '"' {
            out.append("&quot;");
        } else {
            let code: u32 = c as u32;
            if code <= 8 || code == 0xb || code == 0xc || (0xe <= code && code <= 0x1f) {
            } else {
                out.push(c);
            }
        }
        proof {
            assert(out@ =~= before + xml_char(c));
            assert(text@.take(i + 1).drop_last() =~= text@.take(i as int));
        }
        i = i + 1;
    }
    assert(text@.take(text@.len() as int) =~= text@);
    out
}

// ---- parts --------------------------------------------------------------------

/// The content types of slides 1 to `n`.
pub open spec fn slide_types(n: nat) -> Seq<char>
    decreases n,
{
    if n == 0 {
        Seq::empty()
    } else {
        slide_types((n - 1) as nat) + SLIDE_TYPE_HEAD@ + text::decimal(n) + SLIDE_TYPE_TAIL@
    }
}

/// The slide list of slides 1 to `n`: ids from 256 on, relationships from 2 on.
pub open spec fn slide_ids(n: nat) -> Seq<char>
    decreases n,
{
    if n == 0 {
        Seq::empty()
    } else {
        slide_ids((n - 1) as nat) + SLIDE_ID_HEAD@ + text::decimal((255 + n) as nat) + SLIDE_ID_MID@
            + text::decimal(n + 1) + SLIDE_ID_TAIL@
    }
}

/// The relationships of slides 1 to `n`, numbered from 2 on.
pub open spec fn slide_rels(n: nat) -> Seq<char>
    decreases n,
{
    if n == 0 {
        Seq::empty()
    } else {
        slide_rels((n - 1) as nat) + SLIDE_REL_HEAD@ + text::decimal(n + 1) + SLIDE_REL_MID@
            + text::decimal(n) + SLIDE_REL_TAIL@
    }
}

/// The bullet paragraphs of a slide.
pub open spec fn bullet_paragraphs(bullets: Seq<Seq<char>>) -> Seq<char>
    decreases bullets.len(),
{
    if bullets.len() == 0 {
        Seq::empty()
    } else {
        bullet_paragraphs(bullets.drop_last()) + BULLET_HEAD@ + xml_text(bullets.last())
            + BULLET_TAIL@
    }
}

/// The body of a slide: its bullets, or an empty paragraph.
pub open spec fn slide_body(bullets: Seq<Seq<char>>) -> Seq<char> {
    if bullets.len() == 0 {
        EMPTY_BODY@
    } else {
        bullet_paragraphs(bullets)
    }
}

/// The markup of a slide.
pub open spec fn slide_markup(s: SlideText) -> Seq<char> {
    SLIDE_HEAD@ + xml_text(s.title) + SLIDE_MID@ + slide_body(s.bullets) + SLIDE_TAIL@
}

/// One part of the package: its name and its text.
pub struct Part {
    pub name: Seq<char>,
    pub content: Seq<char>,
}

/// The part with the given name and text.
pub open spec fn part(name: Seq<char>, content: Seq<char>) -> Part {
    Part { name, content }
}

/// The parts that a package of `n` slides has whatever is on them.
pub open spec fn frame_parts(n: nat, doc_title: Seq<char>) -> Seq<Part> {
    seq![
        part(
            "[Content_Types].xml"@,
            CONTENT_TYPES_HEAD@ + slide_types(n) + CONTENT_TYPES_TAIL@,
        ),
        part("_rels/.rels"@, ROOT_RELS@),
        part("docProps/core.xml"@, CORE_HEAD@ + xml_text(doc_title) + CORE_TAIL@),
        part("docProps/app.xml"@, APP_PROPS@),
        part("ppt/presentation.xml"@, PRESENTATION_HEAD@ + slide_ids(n) + PRESENTATION_TAIL@),
        part(
            "ppt/_rels/presentation.xml.rels"@,
            PRESENTATION_RELS_HEAD@ + slide_rels(n) + PRESENTATION_RELS_THEME@ + text::decimal(
                n + 2,
            ) + PRESENTATION_RELS_TAIL@,
        ),
        part("ppt/slideMasters/slideMaster1.xml"@, MASTER@),
        part("ppt/slideMasters/_rels/slideMaster1.xml.rels"@, MASTER_RELS@),
        part("ppt/slideLayouts/slideLayout1.xml"@, LAYOUT@),
        part("ppt/slideLayouts/_rels/slideLayout1.xml.rels"@, LAYOUT_RELS@),
        part("ppt/theme/theme1.xml"@, THEME@),
    ]
}

/// The name of the part that holds slide `n`.
pub open spec fn slide_name(n: nat) -> Seq<char> {
    "ppt/slides/slide"@ + text::decimal(n) + ".xml"@
}

/// The name of the part that holds the relationships of slide `n`.
pub open spec fn slide_rels_name(n: nat) -> Seq<char> {
    "ppt/slides/_rels/slide"@ + text::decimal(n) + ".xml.rels"@
}

/// The parts of the slides: markup and relationships of each, in order.
pub open spec fn slide_parts(slides: Seq<SlideText>) -> Seq<Part>
    decreases slides.len(),
{
    if slides.len() == 0 {
        Seq::empty()
    } else {
        slide_parts(slides.drop_last()).push(
            part(slide_name(slides.len()), slide_markup(slides.last())),
        ).push(part(slide_rels_name(slides.len()), SLIDE_RELS@))
    }
}

/// All parts of the package.
pub open spec fn package_parts(slides: Seq<SlideText>, doc_title: Seq<char>) -> Seq<Part> {
    frame_parts(slides.len(), doc_title) + slide_parts(slides)
}

/// A part as a file of the archive.
pub open spec fn part_entry(p: Part) -> archive::Entry {
    archive::file_entry(p.name, vstd::utf8::encode_utf8(p.content))
}

/// All files of the package.
pub open spec fn package_entries(slides: Seq<SlideText>, doc_title: Seq<char>) -> Seq<
    archive::Entry,
> {
    package_parts(slides, doc_title).map_values(|p: Part| part_entry(p))
}

/// The name and text of a part.
struct PartFile {
    name: String,
    content: String,
}

/// The parts that a list of part files stands for.
spec fn parts_of(files: Seq<PartFile>) -> Seq<Part> {
    files.map_values(|f: PartFile| part(f.name@, f.content@))
}

fn part_file(name: &str, content: String) -> (f: PartFile)
    ensures
        f.name@ == name@,
        f.content@ == content@,
{
    PartFile { name: copy_str(name), content }
}

/// Three texts after one another.
fn concat3(a: &str, b: &str, c: &str) -> (out: String)
    ensures
        out@ == a@ + b@ + c@,
{
    let mut out = copy_str(a);
    out.append(b);
    out.append(c);
    out
}

/// The theme part.
pub fn theme_xml() -> (out: String)
    ensures
        out@ == THEME@,
{
    copy_str(THEME)
}

/// The markup of a slide.
pub fn slide_xml(slide: &Slide) -> (out: String)
    ensures
        out@ == slide_markup(slide@),
{
    let mut body = String::new();
    let mut i: usize = 0;
    let ghost all = text::views(slide.bullets@);
    while i < slide.bullets.len()
        invariant
            i <= slide.bullets@.len(),
            all == text::views(slide.bullets@),
            body@ == bullet_paragraphs(all.take(i as int)),
        decreases slide.bullets@.len() - i,
    {
        let escaped = xml_escape(slide.bullets[i].as_str());
        body.append(BULLET_HEAD);
        body.append(escaped.as_str());
        body.append(BULLET_TAIL);
        proof {
            assert(all.take(i + 1).drop_last() =~= all.take(i as int));
            assert(all.take(i + 1).last() == slide.bullets@[i as int]@);
        }
        i = i + 1;
    }
    assert(all.take(all.len() as int) =~= all);
    if slide.bullets.len() == 0 {
        body.append(EMPTY_BODY);
        assert(body@ =~= EMPTY_BODY@);
    }
    let title = xml_escape(slide.title.as_str());
    let mut out = concat3(SLIDE_HEAD, title.as_str(), SLIDE_MID);
    out.append(body.as_str());
    out.append(SLIDE_TAIL);
    out
}

/// The content types part.
fn content_types_xml(n: usize) -> (out: String)
    ensures
        out@ == CONTENT_TYPES_HEAD@ + slide_types(n as nat) + CONTENT_TYPES_TAIL@,
{
    let mut ct = copy_str(CONTENT_TYPES_HEAD);
    let mut i: usize = 0;
    assert(ct@ =~= CONTENT_TYPES_HEAD@ + slide_types(0));
    while i < n
        invariant
            i <= n,
            ct@ == CONTENT_TYPES_HEAD@ + slide_types(i as nat),
        decreases n - i,
    {
        i = i + 1;
        let number = decimal_of_usize(i);
        ct.append(SLIDE_TYPE_HEAD);
        ct.append(number.as_str());
        ct.append(SLIDE_TYPE_TAIL);
        assert(ct@ =~= CONTENT_TYPES_HEAD@ + slide_types(i as nat));
    }
    ct.append(CONTENT_TYPES_TAIL);
    ct
}

/// The presentation part and its relationships.
fn presentation_xml(n: usize) -> (out: (String, String))
    requires
        n < 0xFFFF,
    ensures
        out.0@ == PRESENTATION_HEAD@ + slide_ids(n as nat) + PRESENTATION_TAIL@,
        out.1@ == PRESENTATION_RELS_HEAD@ + slide_rels(n as nat) + PRESENTATION_RELS_THEME@
            + text::decimal(n as nat + 2) + PRESENTATION_RELS_TAIL@,
{
    let mut ids = String::new();
    let mut rels = String::new();
    let mut idx: usize = 0;
    while idx < n
        invariant
            idx <= n < 0xFFFF,
            ids@ == slide_ids(idx as nat),
            rels@ == slide_rels(idx as nat),
        decreases n - idx,
    {
        let number = idx + 1;
        let id = decimal_of_usize(256 + idx);
        let rel = decimal_of_usize(number + 1);
        let own = decimal_of_usize(number);
        ids.append(SLIDE_ID_HEAD);
        ids.append(id.as_str());
        ids.append(SLIDE_ID_MID);
        ids.append(rel.as_str());
        ids.append(SLIDE_ID_TAIL);
        rels.append(SLIDE_REL_HEAD);
        rels.append(rel.as_str());
        rels.append(SLIDE_REL_MID);
        rels.append(own.as_str());
        rels.append(SLIDE_REL_TAIL);
        idx = idx + 1;
    }
    let presentation = concat3(PRESENTATION_HEAD, ids.as_str(), PRESENTATION_TAIL);
    let mut all_rels = concat3(PRESENTATION_RELS_HEAD, rels.as_str(), PRESENTATION_RELS_THEME);
    let theme = decimal_of_usize(n + 2);
    all_rels.append(theme.as_str());
    all_rels.append(PRESENTATION_RELS_TAIL);
    (presentation, all_rels)
}

/// The parts that do not depend on what is on the slides.
fn frame_files(n: usize, doc_title: &str) -> (files: Vec<PartFile>)
    requires
        n < 0xFFFF,
    ensures
        parts_of(files@) == frame_parts(n as nat, doc_title@),
{
    let mut files: Vec<PartFile> = Vec::new();
    files.push(part_file("[Content_Types].xml", content_types_xml(n)));
    files.push(part_file("_rels/.rels", copy_str(ROOT_RELS)));
    let title = xml_escape(doc_title);
    files.push(part_file("docProps/core.xml", concat3(CORE_HEAD, title.as_str(), CORE_TAIL)));
    files.push(part_file("docProps/app.xml", copy_str(APP_PROPS)));
    let (presentation, rels) = presentation_xml(n);
    files.push(part_file("ppt/presentation.xml", presentation));
    files.push(part_file("ppt/_rels/presentation.xml.rels", rels));
    files.push(part_file("ppt/slideMasters/slideMaster1.xml", copy_str(MASTER)));
    files.push(part_file("ppt/slideMasters/_rels/slideMaster1.xml.rels", copy_str(MASTER_RELS)));
    files.push(part_file("ppt/slideLayouts/slideLayout1.xml", copy_str(LAYOUT)));
    files.push(part_file("ppt/slideLayouts/_rels/slideLayout1.xml.rels", copy_str(LAYOUT_RELS)));
    files.push(part_file("ppt/theme/theme1.xml", theme_xml()));
    assert(parts_of(files@) =~= frame_parts(n as nat, doc_title@));
    files
}

/// The files with those of the slides behind them.
fn with_slide_files(files: Vec<PartFile>, slides: &[Slide]) -> (out: Vec<PartFile>)
    requires
        slides@.len() < usize::MAX,
    ensures
        parts_of(out@) == parts_of(files@) + slide_parts(slide_texts(slides@)),
{
    let ghost frame = parts_of(files@);
    let ghost texts = slide_texts(slides@);
    let mut files = files;
    let mut idx: usize = 0;
    assert(parts_of(files@) =~= frame + slide_parts(texts.take(0)));
    while idx < slides.len()
        invariant
            idx <= slides@.len() < usize::MAX,
            texts == slide_texts(slides@),
            parts_of(files@) == frame + slide_parts(texts.take(idx as int)),
        decreases slides@.len() - idx,
    {
        let number = decimal_of_usize(idx + 1);
        let name = concat3("ppt/slides/slide", number.as_str(), ".xml");
        let rels_name = concat3("ppt/slides/_rels/slide", number.as_str(), ".xml.rels");
        let ghost before = files@;
        files.push(part_file(name.as_str(), slide_xml(&slides[idx])));
        files.push(part_file(rels_name.as_str(), copy_str(SLIDE_RELS)));
        proof {
            let now = texts.take(idx + 1);
            assert(now.drop_last() =~= texts.take(idx as int));
            assert(now.last() == slides@[idx as int]@);
            assert(parts_of(files@) =~= parts_of(before).push(
                part(slide_name(now.len()), slide_markup(now.last())),
            ).push(part(slide_rels_name(now.len()), SLIDE_RELS@)));
            assert(parts_of(files@) =~= frame + slide_parts(now));
        }
        idx = idx + 1;
    }
    assert(texts.take(texts.len() as int) =~= texts);
    files
}

/// The archive of the files.
fn pack(files: &Vec<PartFile>) -> (out: Vec<u8>)
    requires
        files@.len() <= 0xFFFF,
    ensures
        out@ == archive::archive_of(parts_of(files@).map_values(|p: Part| part_entry(p))),
{
    let ghost parts = parts_of(files@);
    let mut zip = ZipWriter::new();
    let mut k: usize = 0;
    assert(zip@ =~= parts.take(0).map_values(|p: Part| part_entry(p)));
    while k < files.len()
        invariant
            k <= files@.len() <= 0xFFFF,
            zip.wf(),
            parts == parts_of(files@),
            zip@ == parts.take(k as int).map_values(|p: Part| part_entry(p)),
        decreases files@.len() - k,
    {
        zip.add(files[k].name.as_str(), files[k].content.as_str().as_bytes());
        assert(zip@ =~= parts.take(k + 1).map_values(|p: Part| part_entry(p)));
        k = k + 1;
    }
    assert(parts.take(parts.len() as int) =~= parts);
    zip.finish()
}

/// The bytes of a .pptx file with one page per slide.
pub fn build(slides: &[Slide], doc_title: &str) -> (out: Vec<u8>)
    requires
        11 + 2 * slides@.len() <= 0xFFFF,
    ensures
        out@ == archive::archive_of(package_entries(slide_texts(slides@), doc_title@)),
{
    let files: Vec<PartFile> = frame_files(slides.len(), doc_title);
    let files = with_slide_files(files, slides);
    proof {
        lemma_package_len(slide_texts(slides@), doc_title@);
        assert(parts_of(files@) == package_parts(slide_texts(slides@), doc_title@));
        assert(parts_of(files@).len() == files@.len());
    }
    pack(&files)
}

/// A slide takes two parts.
proof fn lemma_part_count(slides: Seq<SlideText>)
    ensures
        slide_parts(slides).len() == 2 * slides.len(),
    decreases slides.len(),
{
    if slides.len() > 0 {
        lemma_part_count(slides.drop_last());
    }
}

// ---- laws -----------------------------------------------------------------------

/// Slide `i` takes the parts 2i and 2i + 1 behind the frame.
proof fn lemma_slide_parts(slides: Seq<SlideText>, i: int)
    requires
        0 <= i < slides.len(),
    ensures
        slide_parts(slides).len() == 2 * slides.len(),
        slide_parts(slides)[2 * i] == part(slide_name((i + 1) as nat), slide_markup(slides[i])),
        slide_parts(slides)[2 * i + 1] == part(slide_rels_name((i + 1) as nat), SLIDE_RELS@),
    decreases slides.len(),
{
    lemma_part_count(slides);
    lemma_part_count(slides.drop_last());
    if i < slides.len() - 1 {
        lemma_slide_parts(slides.drop_last(), i);
    }
}

proof fn lemma_package_len(slides: Seq<SlideText>, doc_title: Seq<char>)
    ensures
        package_entries(slides, doc_title).len() == 11 + 2 * slides.len(),
{
    lemma_part_count(slides);
}

proof fn lemma_package_slide(slides: Seq<SlideText>, doc_title: Seq<char>, i: int)
    requires
        0 <= i < slides.len(),
    ensures
        package_entries(slides, doc_title)[11 + 2 * i] == part_entry(
            part(slide_name((i + 1) as nat), slide_markup(slides[i])),
        ),
        package_entries(slides, doc_title)[12 + 2 * i] == part_entry(
            part(slide_rels_name((i + 1) as nat), SLIDE_RELS@),
        ),
{
    lemma_part_count(slides);
    lemma_slide_parts(slides, i);
}

/// Reading a built package back gives exactly its parts; among them, behind
/// the eleven parts of the frame, stand the markup and the relationships of
/// each slide, in the order of the slides.
pub proof fn law_package_reads_back(slides: Seq<SlideText>, doc_title: Seq<char>)
    requires
        archive::fits_format(package_entries(slides, doc_title)),
    ensures
        archive::read_archive(archive::archive_of(package_entries(slides, doc_title))) == Some(
            package_entries(slides, doc_title),
        ),
        package_entries(slides, doc_title).len() == 11 + 2 * slides.len(),
        forall|i: int|
            0 <= i < slides.len() ==> {
                &&& package_entries(slides, doc_title)[11 + 2 * i] == part_entry(
                    part(slide_name((i + 1) as nat), slide_markup(#[trigger] slides[i])),
                )
                &&& package_entries(slides, doc_title)[12 + 2 * i] == part_entry(
                    part(slide_rels_name((i + 1) as nat), SLIDE_RELS@),
                )
            },
{
    assert forall|i: int| 0 <= i < slides.len() implies {
        &&& package_entries(slides, doc_title)[11 + 2 * i] == part_entry(
            part(slide_name((i + 1) as nat), slide_markup(#[trigger] slides[i])),
        )
        &&& package_entries(slides, doc_title)[12 + 2 * i] == part_entry(
            part(slide_rels_name((i + 1) as nat), SLIDE_RELS@),
        )
    } by {
        lemma_package_slide(slides, doc_title, i);
    }
    lemma_package_len(slides, doc_title);
    archive::law_archive_reads_back(package_entries(slides, doc_title));
}

/// XML text with its entities read back as the characters that they stand for.
pub open spec fn xml_read(s: Seq<char>) -> Seq<char>
    decreases s.len(),
{
    if s.len() == 0 {
        Seq::empty()
    } else if s.len() >= 5 && text::starts_with(s, seq!['&', 'a', 'm', 'p', ';']) {
        seq!['&'] + xml_read(s.skip(5))
    } else if s.len() >= 4 && text::starts_with(s, seq!['&', 'l', 't', ';']) {
        seq!['<'] + xml_read(s.skip(4))
    } else if s.len() >= 4 && text::starts_with(s, seq!['&', 'g', 't', ';']) {
        seq!['>'] + xml_read(s.skip(4))
    } else if s.len() >= 6 && text::starts_with(s, seq!['&', 'q', 'u', 'o', 't', ';']) {
        seq!['"'] + xml_read(s.skip(6))
    } else {
        seq![s[0]] + xml_read(s.skip(1))
    }
}

/// A text without the control characters that XML forbids.
pub open spec fn allowed_chars(s: Seq<char>) -> Seq<char>
    decreases s.len(),
{
    if s.len() == 0 {
        Seq::empty()
    } else if is_forbidden(s[0]) {
        allowed_chars(s.skip(1))
    } else {
        seq![s[0]] + allowed_chars(s.skip(1))
    }
}

/// XML text, taken apart from the front.
proof fn lemma_xml_text_front(s: Seq<char>)
    requires
        s.len() > 0,
    ensures
        xml_text(s) == xml_char(s[0]) + xml_text(s.skip(1)),
    decreases s.len(),
{
    if s.len() == 1 {
        assert(s.drop_last() =~= Seq::<char>::empty());
        assert(s.skip(1) =~= Seq::<char>::empty());
        assert(xml_text(Seq::<char>::empty()) =~= Seq::<char>::empty());
        assert(xml_text(s) =~= xml_char(s[0]) + xml_text(s.skip(1)));
    } else {
        lemma_xml_text_front(s.drop_last());
        assert(s.drop_last().skip(1) =~= s.skip(1).drop_last());
        assert(xml_text(s) =~= xml_char(s[0]) + xml_text(s.skip(1)));
    }
}

/// What is written as XML text reads back as the text without the control
/// characters that XML forbids.
#[verifier::rlimit(50)]
pub proof fn law_xml_text_reads_back(s: Seq<char>)
    ensures
        xml_read(xml_text(s)) == allowed_chars(s),
    decreases s.len(),
{
    reveal_strlit("&amp;");
    reveal_strlit("&lt;");
    reveal_strlit("&gt;");
    reveal_strlit("&quot;");
    if s.len() > 0 {
        let c = s[0];
        let rest = xml_text(s.skip(1));
        let t = xml_text(s);
        lemma_xml_text_front(s);
        law_xml_text_reads_back(s.skip(1));
        let w = xml_char(c);
        assert(t.skip(w.len() as int) =~= rest);
        if c == '&' {
            assert(t.subrange(0, 5) =~= seq!['&', 'a', 'm', 'p', ';']);
        } else if c == '<' {
            assert(t.subrange(0, 4) =~= seq!['&', 'l', 't', ';']);
            assert(t.len() >= 5 ==> t.subrange(0, 5)[1] == 'l');
        } else if c == '>' {
            assert(t.subrange(0, 4) =~= seq!['&', 'g', 't', ';']);
            assert(t.subrange(0, 4)[1] == 'g');
            assert(t.len() >= 5 ==> t.subrange(0, 5)[1] == 'g');
        } else if c == '"' {
            assert(t.subrange(0, 6) =~= seq!['&', 'q', 'u', 'o', 't', ';']);
            assert(t.subrange(0, 5)[1] == 'q');
            assert(t.subrange(0, 4)[1] == 'q');
        } else if is_forbidden(c) {
            assert(t =~= rest);
        } else {
            assert(t[0] == c);
            assert(t.len() >= 4 ==> t.subrange(0, 4)[0] == c);
            assert(t.len() >= 5 ==> t.subrange(0, 5)[0] == c);
            assert(t.len() >= 6 ==> t.subrange(0, 6)[0] == c);
        }
    }
}

/// XML text holds no markup character and no forbidden control character, so
/// nothing in it can open a tag or close an attribute.
pub proof fn law_xml_text_is_plain(s: Seq<char>, i: int)
    requires
        0 <= i < xml_text(s).len(),
    ensures
        xml_text(s)[i] != '<',
        xml_text(s)[i] != '>',
        xml_text(s)[i] != '"',
        !is_forbidden(xml_text(s)[i]),
    decreases s.len(),
{
    reveal_strlit("&amp;");
    reveal_strlit("&lt;");
    reveal_strlit("&gt;");
    reveal_strlit("&quot;");
    let before = xml_text(s.drop_last());
    if i < before.len() {
        law_xml_text_is_plain(s.drop_last(), i);
    } else {
        let w = xml_char(s.last());
        assert(xml_text(s)[i] == w[i - before.len()]);
    }
}

proof fn lemma_text_tags()
    ensures
        text::ends_with(SLIDE_HEAD@, "<a:t>"@),
        text::starts_with(SLIDE_MID@, "</a:t>"@),
        text::ends_with(BULLET_HEAD@, "<a:t>"@),
        text::starts_with(BULLET_TAIL@, "</a:t>"@),
        "<a:t>"@.len() == 5,
        "</a:t>"@.len() == 6,
{
    reveal_strlit("<a:t>");
    reveal_strlit("</a:t>");
    assert(text::ends_with(SLIDE_HEAD@, "<a:t>"@)) by {
        reveal_strlit("<?xml version=\"1.0\" encoding=\"UTF-8\" standalone=\"yes\"?>\n<p:sld xmlns:a=\"http://schemas.openxmlformats.org/drawingml/2006/main\" xmlns:r=\"http://schemas.openxmlformats.org/officeDocument/2006/relationships\" xmlns:p=\"http://schemas.openxmlformats.org/presentationml/2006/main\"><p:cSld><p:bg><p:bgPr><a:solidFill><a:srgbClr val=\"FFFFFF\"/></a:solidFill><a:effectLst/></p:bgPr></p:bg><p:spTree><p:nvGrpSpPr><p:cNvPr id=\"1\" name=\"\"/><p:cNvGrpSpPr/><p:nvPr/></p:nvGrpSpPr><p:grpSpPr><a:xfrm><a:off x=\"0\" y=\"0\"/><a:ext cx=\"0\" cy=\"0\"/><a:chOff x=\"0\" y=\"0\"/><a:chExt cx=\"0\" cy=\"0\"/></a:xfrm></p:grpSpPr><p:sp><p:nvSpPr><p:cNvPr id=\"2\" name=\"Title\"/><p:cNvSpPr txBox=\"1\"/><p:nvPr/></p:nvSpPr><p:spPr><a:xfrm><a:off x=\"838200\" y=\"548640\"/><a:ext cx=\"10515600\" cy=\"1219200\"/></a:xfrm><a:prstGeom prst=\"rect\"><a:avLst/></a:prstGeom></p:spPr><p:txBody><a:bodyPr wrap=\"square\"><a:normAutofit/></a:bodyPr><a:lstStyle/><a:p><a:r><a:rPr lang=\"en-US\" sz=\"4000\" b=\"1\"><a:solidFill><a:srgbClr val=\"1F2937\"/></a:solidFill></a:rPr><a:t>");
        let t = SLIDE_HEAD@;
        assert(t.subrange(t.len() - 5, t.len() as int) =~= "<a:t>"@);
    }
    assert(text::starts_with(SLIDE_MID@, "</a:t>"@)) by {
        reveal_strlit("</a:t></a:r></a:p></p:txBody></p:sp><p:sp><p:nvSpPr><p:cNvPr id=\"3\" name=\"Content\"/><p:cNvSpPr txBox=\"1\"/><p:nvPr/></p:nvSpPr><p:spPr><a:xfrm><a:off x=\"838200\" y=\"1981200\"/><a:ext cx=\"10515600\" cy=\"4343400\"/></a:xfrm><a:prstGeom prst=\"rect\"><a:avLst/></a:prstGeom></p:spPr><p:txBody><a:bodyPr wrap=\"square\"><a:normAutofit/></a:bodyPr><a:lstStyle/>");
        assert(SLIDE_MID@.subrange(0, 6) =~= "</a:t>"@);
    }
    assert(text::ends_with(BULLET_HEAD@, "<a:t>"@)) by {
        reveal_strlit("<a:p><a:pPr marL=\"285750\" indent=\"-285750\"><a:buClr><a:srgbClr val=\"6D28D9\"/></a:buClr><a:buFont typeface=\"Arial\"/><a:buChar char=\"\u{2022}\"/></a:pPr><a:r><a:rPr lang=\"en-US\" sz=\"2000\"><a:solidFill><a:srgbClr val=\"111827\"/></a:solidFill></a:rPr><a:t>");
        let t = BULLET_HEAD@;
        assert(t.subrange(t.len() - 5, t.len() as int) =~= "<a:t>"@);
    }
    assert(text::starts_with(BULLET_TAIL@, "</a:t>"@)) by {
        reveal_strlit("</a:t></a:r></a:p>");
        assert(BULLET_TAIL@.subrange(0, 6) =~= "</a:t>"@);
    }
}

/// A text as a run of a slide holds it.
pub open spec fn run_of(t: Seq<char>) -> Seq<char> {
    "<a:t>"@ + xml_text(t) + "</a:t>"@
}

/// A text between a head that opens a run and a tail that closes it stands in
/// a run.
proof fn lemma_run_stands(
    before: Seq<char>,
    head: Seq<char>,
    t: Seq<char>,
    tail: Seq<char>,
    after: Seq<char>,
)
    requires
        text::ends_with(head, "<a:t>"@),
        text::starts_with(tail, "</a:t>"@),
        "<a:t>"@.len() == 5,
        "</a:t>"@.len() == 6,
    ensures
        text::matches_at(
            before + head + xml_text(t) + tail + after,
            run_of(t),
            before.len() + head.len() - 5,
        ),
{
    let whole = before + head + xml_text(t) + tail + after;
    let p = before.len() + head.len() - 5;
    let run = run_of(t);
    let n = xml_text(t).len() as int;
    assert forall|i: int| 0 <= i < run.len() implies whole[p + i] == #[trigger] run[i] by {
        if i < 5 {
            assert(head.subrange(head.len() - 5, head.len() as int)[i] == "<a:t>"@[i]);
        } else if i >= 5 + n {
            assert(tail.subrange(0, 6)[i - 5 - n] == "</a:t>"@[i - 5 - n]);
        }
    }
    assert(whole.subrange(p, p + run.len()) =~= run);
}

proof fn lemma_bullets_stand(bullets: Seq<Seq<char>>) -> (at: Seq<int>)
    ensures
        text::in_order(
            bullet_paragraphs(bullets),
            bullets.map_values(|b: Seq<char>| run_of(b)),
            at,
        ),
    decreases bullets.len(),
{
    let f = |b: Seq<char>| run_of(b);
    if bullets.len() == 0 {
        Seq::<int>::empty()
    } else {
        lemma_text_tags();
        let rest = bullets.drop_last();
        let at = lemma_bullets_stand(rest);
        let before = bullet_paragraphs(rest);
        let last = bullets.last();
        let none = Seq::<char>::empty();
        let whole = bullet_paragraphs(bullets);
        let added = BULLET_HEAD@ + xml_text(last) + BULLET_TAIL@;
        assert(whole =~= none + before + added);
        text::lemma_in_order_within(none, before, added, rest.map_values(f), at);
        assert(at.map_values(|p: int| p + none.len()) =~= at);
        lemma_run_stands(before, BULLET_HEAD@, last, BULLET_TAIL@, none);
        assert(whole =~= before + BULLET_HEAD@ + xml_text(last) + BULLET_TAIL@ + none);
        let place = before.len() + BULLET_HEAD@.len() - 5;
        if rest.len() > 0 {
            let j = rest.len() - 1;
            assert(text::matches_at(before, rest.map_values(f)[j], at[j]));
        }
        text::lemma_in_order_push(whole, rest.map_values(f), at, run_of(last), place);
        assert(bullets.map_values(f) =~= rest.map_values(f).push(run_of(last)));
        at.push(place)
    }
}

/// A slide shows its title and, behind it, its bullets, every one of them and
/// in order, each in a run of its own.
pub proof fn law_slide_shows_its_texts(s: SlideText) -> (at: Seq<int>)
    ensures
        text::in_order(
            slide_markup(s),
            seq![run_of(s.title)] + s.bullets.map_values(|b: Seq<char>| run_of(b)),
            at,
        ),
{
    lemma_text_tags();
    let whole = slide_markup(s);
    let none = Seq::<char>::empty();
    let title = run_of(s.title);
    let runs = s.bullets.map_values(|b: Seq<char>| run_of(b));
    let parts = seq![title] + runs;
    let place = SLIDE_HEAD@.len() - 5;
    lemma_run_stands(
        none,
        SLIDE_HEAD@,
        s.title,
        SLIDE_MID@,
        slide_body(s.bullets) + SLIDE_TAIL@,
    );
    assert(whole =~= none + SLIDE_HEAD@ + xml_text(s.title) + SLIDE_MID@ + (slide_body(s.bullets)
        + SLIDE_TAIL@));
    let head = SLIDE_HEAD@ + xml_text(s.title) + SLIDE_MID@;
    if s.bullets.len() == 0 {
        let at = seq![place];
        assert(parts =~= seq![title]);
        at
    } else {
        let inner = lemma_bullets_stand(s.bullets);
        let body = bullet_paragraphs(s.bullets);
        text::lemma_in_order_within(head, body, SLIDE_TAIL@, runs, inner);
        assert(whole =~= head + body + SLIDE_TAIL@);
        let moved = inner.map_values(|p: int| p + head.len());
        let at = seq![place] + moved;
        assert forall|k: int| 0 <= k < parts.len() implies text::matches_at(
            whole,
            #[trigger] parts[k],
            at[k],
        ) by {
            if k > 0 {
                assert(parts[k] == runs[k - 1]);
                assert(at[k] == moved[k - 1]);
            }
        }
        assert forall|k: int, j: int|
            0 <= k && j == k + 1 && j < parts.len() implies (#[trigger] at[k]) + parts[k].len()
            <= #[trigger] at[j] by {
            assert(at[j] == moved[k]);
            if k == 0 {
                assert(text::matches_at(body, runs[0], inner[0]));
                assert(SLIDE_MID@.len() >= 6);
            } else {
                assert(at[k] == moved[k - 1]);
                assert(parts[k] == runs[k - 1]);
            }
        }
        at
    }
}

/// A text of characters that XML allows, that is of anything but control
/// characters other than tabs and line breaks, reads back whole.
pub proof fn law_allowed_text_reads_back_whole(s: Seq<char>)
    requires
        forall|i: int|
            0 <= i < s.len() ==> (#[trigger] s[i] as u32) >= 0x20 || s[i] == '\t' || s[i] == '\n'
                || s[i] == '\r',
    ensures
        xml_read(xml_text(s)) == s,
{
    law_xml_text_reads_back(s);
    lemma_all_allowed(s);
}

proof fn lemma_all_allowed(s: Seq<char>)
    requires
        forall|i: int|
            0 <= i < s.len() ==> (#[trigger] s[i] as u32) >= 0x20 || s[i] == '\t' || s[i] == '\n'
                || s[i] == '\r',
    ensures
        allowed_chars(s) == s,
    decreases s.len(),
{
    if s.len() > 0 {
        let rest = s.skip(1);
        assert forall|i: int| 0 <= i < rest.len() implies (#[trigger] rest[i] as u32) >= 0x20
            || rest[i] == '\t' || rest[i] == '\n' || rest[i] == '\r' by {
            assert(rest[i] == s[i + 1]);
        }
        lemma_all_allowed(rest);
        assert(!is_forbidden(s[0]));
        assert(seq![s[0]] + rest =~= s);
    }
}

/// The files of a package are named by their slides: that of slide `i`,
/// counted from one, and the one of its relationships.
pub proof fn law_slides_have_their_files(slides: Seq<SlideText>, doc_title: Seq<char>, i: int)
    requires
        0 <= i < slides.len(),
    ensures
        package_parts(slides, doc_title).len() == 11 + 2 * slides.len(),
        package_parts(slides, doc_title)[11 + 2 * i].name == "ppt/slides/slide"@ + text::decimal(
            (i + 1) as nat,
        ) + ".xml"@,
        package_parts(slides, doc_title)[11 + 2 * i].content == slide_markup(slides[i]),
        package_parts(slides, doc_title)[12 + 2 * i].name == "ppt/slides/_rels/slide"@
            + text::decimal((i + 1) as nat) + ".xml.rels"@,
{
    lemma_slide_parts(slides, i);
}

/// XML text holds no control character but tabs and line breaks.
pub proof fn law_no_control_character_is_written(s: Seq<char>, i: int)
    requires
        0 <= i < xml_text(s).len(),
    ensures
        xml_text(s)[i] as u32 >= 0x20 || xml_text(s)[i] == '\t' || xml_text(s)[i] == '\n'
            || xml_text(s)[i] == '\r',
{
    law_xml_text_is_plain(s, i);
    lemma_allowed_char(xml_text(s)[i]);
}

proof fn lemma_allowed_char(c: char)
    requires
        !is_forbidden(c),
    ensures
        c as u32 >= 0x20 || c == '\t' || c == '\n' || c == '\r',
{
}

proof fn lemma_holds_still(a: Seq<char>, t: Seq<char>, b: Seq<char>, pat: Seq<char>)
    requires
        text::contains(t, pat),
    ensures
        text::contains(a + t + b, pat),
{
    let i = choose|i: int| text::matches_at(t, pat, i);
    let s = a + t + b;
    assert(s.subrange(a.len() + i, a.len() + i + pat.len()) =~= t.subrange(i, i + pat.len()));
    assert(text::matches_at(s, pat, a.len() + i));
}

/// The entry of slide `k` in the list of slides.
pub open spec fn listed_slide(k: nat) -> Seq<char> {
    "<p:sldId id=\""@ + text::decimal(255 + k) + "\" r:id=\"rId"@ + text::decimal(k + 1) + "\"/>"@
}

/// The relationship of slide `k`, by which the list of slides names it.
pub open spec fn related_slide(k: nat) -> Seq<char> {
    "<Relationship Id=\"rId"@ + text::decimal(k + 1) + SLIDE_REL_MID@ + text::decimal(k)
        + ".xml\"/>"@
}

/// The content type of slide `k`.
pub open spec fn typed_slide(k: nat) -> Seq<char> {
    "<Override PartName=\"/ppt/slides/slide"@ + text::decimal(k) + SLIDE_TYPE_TAIL@
}

proof fn lemma_slide_is_listed(n: nat, k: nat)
    requires
        1 <= k <= n,
    ensures
        text::contains(slide_ids(n), listed_slide(k)),
        text::contains(slide_rels(n), related_slide(k)),
        text::contains(slide_types(n), typed_slide(k)),
    decreases n,
{
    let none = Seq::<char>::empty();
    let m = (n - 1) as nat;
    let ids = slide_ids(m);
    let rels = slide_rels(m);
    let types = slide_types(m);
    assert(slide_ids(n) =~= ids + listed_slide(n) + none);
    assert(slide_rels(n) =~= rels + related_slide(n) + none);
    assert(slide_types(n) =~= types + typed_slide(n) + none);
    if k == n {
        lemma_holds_itself(listed_slide(k));
        lemma_holds_itself(related_slide(k));
        lemma_holds_itself(typed_slide(k));
        lemma_holds_still(ids, listed_slide(n), none, listed_slide(k));
        lemma_holds_still(rels, related_slide(n), none, related_slide(k));
        lemma_holds_still(types, typed_slide(n), none, typed_slide(k));
    } else {
        lemma_slide_is_listed(m, k);
        lemma_holds_still(none, ids, listed_slide(n), listed_slide(k));
        lemma_holds_still(none, rels, related_slide(n), related_slide(k));
        lemma_holds_still(none, types, typed_slide(n), typed_slide(k));
        assert(slide_ids(n) =~= none + ids + listed_slide(n));
        assert(slide_rels(n) =~= none + rels + related_slide(n));
        assert(slide_types(n) =~= none + types + typed_slide(n));
    }
}

proof fn lemma_holds_itself(t: Seq<char>)
    ensures
        text::contains(t, t),
{
    assert(t.subrange(0, t.len() as int) =~= t);
    assert(text::matches_at(t, t, 0));
}

/// A presentation lists every slide: it names slide `k`, counted from one, by
/// an id of its own and by a relationship that leads to the file of that slide,
/// and the content type of that file is declared. No slide shares the
/// relationship of the theme.
pub proof fn law_every_slide_is_listed(slides: Seq<SlideText>, doc_title: Seq<char>, k: nat)
    requires
        1 <= k <= slides.len(),
    ensures
        ({
            let parts = package_parts(slides, doc_title);
            let theme = slides.len() + 2;
            &&& parts[0].name == "[Content_Types].xml"@
            &&& text::contains(parts[0].content, typed_slide(k))
            &&& parts[4].name == "ppt/presentation.xml"@
            &&& text::contains(parts[4].content, listed_slide(k))
            &&& parts[5].name == "ppt/_rels/presentation.xml.rels"@
            &&& text::contains(parts[5].content, related_slide(k))
            &&& text::contains(
                parts[5].content,
                "<Relationship Id=\"rId"@ + text::decimal(theme) + PRESENTATION_RELS_TAIL@,
            )
            &&& theme > k + 1
        }),
{
    let n = slides.len();
    lemma_slide_is_listed(n, k);
    let parts = package_parts(slides, doc_title);
    let none = Seq::<char>::empty();
    lemma_holds_still(CONTENT_TYPES_HEAD@, slide_types(n), CONTENT_TYPES_TAIL@, typed_slide(k));
    lemma_holds_still(PRESENTATION_HEAD@, slide_ids(n), PRESENTATION_TAIL@, listed_slide(k));
    let theme = "<Relationship Id=\"rId"@ + text::decimal(n + 2) + PRESENTATION_RELS_TAIL@;
    lemma_holds_still(PRESENTATION_RELS_HEAD@, slide_rels(n), theme, related_slide(k));
    assert(parts[5].content =~= PRESENTATION_RELS_HEAD@ + slide_rels(n) + theme);
    lemma_holds_itself(theme);
    lemma_holds_still(PRESENTATION_RELS_HEAD@ + slide_rels(n), theme, none, theme);
    assert(parts[5].content =~= PRESENTATION_RELS_HEAD@ + slide_rels(n) + theme + none);
}

/// Whatever its slides are, a presentation has its title, written as XML text,
/// and the parts that every one has.
pub proof fn law_package_has_its_frame(slides: Seq<SlideText>, doc_title: Seq<char>)
    ensures
        ({
            let parts = package_parts(slides, doc_title);
            &&& parts[1] == part("_rels/.rels"@, ROOT_RELS@)
            &&& parts[2].name == "docProps/core.xml"@
            &&& text::contains(
                parts[2].content,
                "<dc:title>"@ + xml_text(doc_title) + "</dc:title>"@,
            )
            &&& parts[3] == part("docProps/app.xml"@, APP_PROPS@)
            &&& parts[6] == part("ppt/slideMasters/slideMaster1.xml"@, MASTER@)
            &&& parts[7] == part("ppt/slideMasters/_rels/slideMaster1.xml.rels"@, MASTER_RELS@)
            &&& parts[8] == part("ppt/slideLayouts/slideLayout1.xml"@, LAYOUT@)
            &&& parts[9] == part("ppt/slideLayouts/_rels/slideLayout1.xml.rels"@, LAYOUT_RELS@)
            &&& parts[10] == part("ppt/theme/theme1.xml"@, THEME@)
        }),
{
    reveal_strlit("<dc:title>");
    reveal_strlit("</dc:title>");
    reveal_strlit("</dc:title><dc:creator>zagent</dc:creator></cp:coreProperties>");
    reveal_strlit(
        "<?xml version=\"1.0\" encoding=\"UTF-8\" standalone=\"yes\"?>\n<cp:coreProperties xmlns:cp=\"http://schemas.openxmlformats.org/package/2006/metadata/core-properties\" xmlns:dc=\"http://purl.org/dc/elements/1.1/\"><dc:title>",
    );
    let head = CORE_HEAD@;
    let tail = CORE_TAIL@;
    let t = "<dc:title>"@ + xml_text(doc_title) + "</dc:title>"@;
    let content = package_parts(slides, doc_title)[2].content;
    let p = head.len() - 10;
    assert(head.subrange(p, p + 10) =~= "<dc:title>"@);
    assert(tail.subrange(0, 11) =~= "</dc:title>"@);
    assert(head =~= head.take(p) + "<dc:title>"@);
    assert(tail =~= "</dc:title>"@ + tail.skip(11));
    assert(content =~= head.take(p) + t + tail.skip(11));
    lemma_holds_itself(t);
    lemma_holds_still(head.take(p), t, tail.skip(11), t);
}

/// The presentation that is built reads back as its parts: slide `i`, counted
/// from zero, in a file of its own.
pub proof fn law_built_presentation_reads_back(
    slides: &[Slide],
    doc_title: &str,
    out: Vec<u8>,
    i: int,
)
    requires
        0 <= i < slides@.len(),
        archive::fits_format(package_entries(slide_texts(slides@), doc_title@)),
        call_ensures(build, (slides, doc_title), out),
    ensures
        archive::read_archive(out@) matches Some(files) && {
            &&& files.len() == 11 + 2 * slides@.len()
            &&& files[11 + 2 * i].name == vstd::utf8::encode_utf8(
                "ppt/slides/slide"@ + text::decimal((i + 1) as nat) + ".xml"@,
            )
            &&& files[11 + 2 * i].data == vstd::utf8::encode_utf8(slide_markup(slides@[i]@))
        },
{
    let texts = slide_texts(slides@);
    law_package_reads_back(texts, doc_title@);
    assert(texts[i] == slides@[i]@);
}

} // verus!

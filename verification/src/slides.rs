//! Slide decks: from generated HTML pages to bullets, to a preview document
//! and to the pages of a presentation file.
use crate::entities;
use crate::pptx;
use crate::text;
use crate::text::{
    chars_of, copy_str, find, lines_of, str_contains, str_replace, string_of_range, to_lowercase,
    trim_chars,
};
use vstd::prelude::*;

verus! {

/// One page of a generated deck.
#[derive(Clone, Debug)]
pub struct Slide {
    pub position: usize,
    pub title: String,
    pub html: String,
}

/// The final event of a deck stream.
#[derive(Clone, Debug)]
pub struct SlideDeckEvent {
    pub conversation_id: String,
    pub slides: Vec<Slide>,
    pub global_css: String,
}

/// Asks for a deck on the given topic; without one the clipboard text is used.
#[derive(Clone, Debug, PartialEq)]
pub struct GenerateSlides {
    pub topic: Option<String>,
}

// ---- the topic ------------------------------------------------------------------

/// What is asked of a deck whose size the topic leaves open.
pub const DECK_REQUEST: &'static str = "\n\nPlease produce a complete presentation deck of 6 to 10 slides: a title slide, an agenda slide, well-developed content slides (3-5 concise bullets each, each bullet a full concrete statement, not a bare keyword), and a closing summary slide.";

/// The topic to send, given its lower case: as it is where it mentions
/// slides, else followed by what is asked of the deck.
pub open spec fn enhanced(topic: Seq<char>, lowered: Seq<char>) -> Seq<char> {
    if text::contains(lowered, "slide"@) {
        topic
    } else {
        topic + DECK_REQUEST@
    }
}

/// The topic to send, given its lower case.
pub fn enhance_topic_given(topic: String, lowered: &str) -> (out: String)
    ensures
        out@ == enhanced(topic@, lowered@),
{
    if str_contains(lowered, "slide") {
        return topic;
    }
    let mut out: String = topic;
    out.append(DECK_REQUEST);
    out
}

/// What is asked of a deck mentions slides, last in its last word.
proof fn lemma_deck_request()
    ensures
        text::ends_with(DECK_REQUEST@, "slide."@),
        text::matches_at("slide."@, "slide"@, 0),
        text::starts_with(DECK_REQUEST@, "\n\n"@),
        text::contains(DECK_REQUEST@, "deck of 6 to 10 slides"@),
{
    reveal_strlit(
        "\n\nPlease produce a complete presentation deck of 6 to 10 slides: a title slide, an agenda slide, well-developed content slides (3-5 concise bullets each, each bullet a full concrete statement, not a bare keyword), and a closing summary slide.",
    );
    reveal_strlit("slide.");
    reveal_strlit("slide");
    reveal_strlit("\n\n");
    reveal_strlit("deck of 6 to 10 slides");
    let request = DECK_REQUEST@;
    assert(request.subrange(request.len() - 6, request.len() as int) =~= "slide."@);
    assert("slide."@.subrange(0, 5) =~= "slide"@);
    assert(request.subrange(0, 2) =~= "\n\n"@);
    assert(request.subrange(41, 63) =~= "deck of 6 to 10 slides"@);
    assert(text::matches_at(request, "deck of 6 to 10 slides"@, 41));
}

/// The lower case of a topic that ends with what is asked of a deck mentions
/// slides.
proof fn lemma_request_mentions_slides(topic: Seq<char>, lowered: Seq<char>)
    requires
        text::ends_with(topic, DECK_REQUEST@),
        text::lowers_ascii_end(topic, lowered),
    ensures
        text::contains(lowered, "slide"@),
{
    lemma_deck_request();
    reveal_strlit("slide.");
    reveal_strlit("slide");
    let request = DECK_REQUEST@;
    let end = "slide."@;
    let k = topic.len() - 6;
    assert(topic.skip(k) =~= end) by {
        assert(request.subrange(request.len() - 6, request.len() as int) == end);
        assert(topic.subrange(topic.len() - request.len(), topic.len() as int) == request);
        assert forall|i: int| 0 <= i < 6 implies topic.skip(k)[i] == #[trigger] end[i] by {
            assert(request.subrange(request.len() - 6, request.len() as int)[i] == end[i]);
            assert(topic.subrange(topic.len() - request.len(), topic.len() as int)[request.len() - 6
                + i] == request[request.len() - 6 + i]);
        }
    }
    assert(text::is_ascii(topic.skip(k)));
    assert(text::ascii_lowered(end) =~= end);
    let at = lowered.len() - 6;
    assert(text::matches_at(lowered, end, at));
    assert forall|i: int| 0 <= i < 5 implies lowered[at + i] == #[trigger] "slide"@[i] by {
        assert(lowered.subrange(at, at + 6)[i] == end[i]);
    }
    assert(lowered.subrange(at, at + 5) =~= "slide"@);
    assert(text::matches_at(lowered, "slide"@, at));
}

/// `out` is the topic to send for `topic`. One that already ends with what is
/// asked of a deck stays as it is.
pub open spec fn is_enhanced(topic: Seq<char>, out: Seq<char>) -> bool {
    &&& out == enhanced(topic, text::lowercase(topic))
    &&& text::ends_with(topic, DECK_REQUEST@) ==> out == topic
}

/// Wraps the topic with quality requirements unless it already dictates a
/// deck size, that is unless it mentions "slide" in any case.
pub fn enhance_topic(topic: String) -> (out: String)
    ensures
        is_enhanced(topic@, out@),
{
    let lowered = to_lowercase(topic.as_str());
    proof {
        if text::ends_with(topic@, DECK_REQUEST@) {
            lemma_request_mentions_slides(topic@, lowered@);
        }
    }
    enhance_topic_given(topic, lowered.as_str())
}

/// A topic is sent as it is exactly where its lower case mentions slides;
/// else it is followed, after an empty line, by a request for a deck of 6 to
/// 10 slides. Enhancing the topic to send changes nothing more.
pub proof fn law_topic_is_enhanced_once(topic: Seq<char>, once: Seq<char>, twice: Seq<char>)
    requires
        is_enhanced(topic, once),
        is_enhanced(once, twice),
    ensures
        once == topic <==> text::contains(text::lowercase(topic), "slide"@),
        once != topic ==> text::starts_with(once, topic + "\n\n"@) && text::contains(
            once,
            "deck of 6 to 10 slides"@,
        ),
        twice == once,
{
    lemma_deck_request();
    let request = DECK_REQUEST@;
    assert(request.len() > 0) by {
        reveal_strlit("slide.");
    }
    if !text::contains(text::lowercase(topic), "slide"@) {
        assert(once.len() == topic.len() + request.len());
        assert(once.subrange(once.len() - request.len(), once.len() as int) =~= request);
        assert(text::ends_with(once, request));
        let pat = "deck of 6 to 10 slides"@;
        let at = choose|i: int| text::matches_at(request, pat, i);
        assert(once.subrange(topic.len() + at, topic.len() + at + pat.len()) =~= request.subrange(
            at,
            at + pat.len(),
        ));
        assert(text::matches_at(once, pat, topic.len() + at));
        let gap = "\n\n"@;
        let n = gap.len() as int;
        assert(request.subrange(0, n) == gap);
        assert(once.subrange(0, topic.len() + n) =~= topic + request.subrange(0, n));
    }
}

// ---- stripping markup -------------------------------------------------------------

/// How many tags are open after `s`; a closing bracket without an open one
/// closes nothing.
pub open spec fn tag_depth(s: Seq<char>) -> nat
    decreases s.len(),
{
    if s.len() == 0 {
        0
    } else {
        let d = tag_depth(s.drop_last());
        if s.last() == '<' {
            d + 1
        } else if s.last() == '>' && d > 0 {
            (d - 1) as nat
        } else {
            d
        }
    }
}

/// The characters of `s` that stand outside tags.
pub open spec fn untagged(s: Seq<char>) -> Seq<char>
    decreases s.len(),
{
    if s.len() == 0 {
        Seq::empty()
    } else {
        let u = untagged(s.drop_last());
        if s.last() != '<' && s.last() != '>' && tag_depth(s.drop_last()) == 0 {
            u.push(s.last())
        } else {
            u
        }
    }
}

/// A text with its HTML entities replaced, one kind after the other.
pub open spec fn unescaped(s: Seq<char>) -> Seq<char> {
    let a = text::replace(s, "&amp;"@, "&"@);
    let b = text::replace(a, "&lt;"@, "<"@);
    let c = text::replace(b, "&gt;"@, ">"@);
    let d = text::replace(c, "&quot;"@, "\""@);
    let e = text::replace(d, "&#39;"@, "'"@);
    text::replace(e, "&nbsp;"@, " "@)
}

/// The text of a fragment: what stands outside tags, with entities replaced.
pub open spec fn stripped(s: Seq<char>) -> Seq<char> {
    unescaped(untagged(s))
}

/// `text` with its HTML entities replaced.
pub fn unescape_entities(text: &str) -> (out: String)
    ensures
        out@ == unescaped(text@),
{
    proof {
        reveal_strlit("&amp;");
        reveal_strlit("&lt;");
        reveal_strlit("&gt;");
        reveal_strlit("&quot;");
        reveal_strlit("&#39;");
        reveal_strlit("&nbsp;");
    }
    let a = str_replace(text, "&amp;", "&");
    let b = str_replace(a.as_str(), "&lt;", "<");
    let c = str_replace(b.as_str(), "&gt;", ">");
    let d = str_replace(c.as_str(), "&quot;", "\"");
    let e = str_replace(d.as_str(), "&#39;", "'");
    str_replace(e.as_str(), "&nbsp;", " ")
}

proof fn lemma_depth_bound(s: Seq<char>)
    ensures
        tag_depth(s) <= s.len(),
    decreases s.len(),
{
    if s.len() > 0 {
        lemma_depth_bound(s.drop_last());
    }
}

/// The text of a fragment without its tags.
pub fn strip_tags(fragment: &str) -> (out: String)
    ensures
        out@ == stripped(fragment@),
{
    let cs: Vec<char> = chars_of(fragment);
    let mut out = String::new();
    let mut depth: usize = 0;
    let mut i: usize = 0;
    while i < cs.len()
        invariant
            i <= cs@.len(),
            cs@ == fragment@,
            depth == tag_depth(fragment@.take(i as int)),
            out@ == untagged(fragment@.take(i as int)),
        decreases cs@.len() - i,
    {
        let ch = cs[i];
        proof {
            assert(fragment@.take(i + 1).drop_last() =~= fragment@.take(i as int));
            lemma_depth_bound(fragment@.take(i as int));
        }
        if ch == '<' {
            depth = depth + 1;
        } else if ch == '>' {
            depth = depth.saturating_sub(1);
        } else if depth == 0 {
            out.push(ch);
        }
        i = i + 1;
    }
    assert(fragment@.take(fragment@.len() as int) =~= fragment@);
    unescape_entities(out.as_str())
}

// ---- bullets ------------------------------------------------------------------------

/// The texts of the list items of `s` from position `i` on; empty ones are
/// left out.
pub open spec fn item_texts(s: Seq<char>, i: int) -> Seq<Seq<char>>
    decreases s.len() - i,
{
    match text::find_from(s, "<li"@, i) {
        Some(start) if i <= start => match text::find_from(s, ">"@, start) {
            Some(gt) if start <= gt => match text::find_from(s, "</li>"@, gt + 1) {
                Some(end) if gt < end && end + 4 <= s.len() => {
                    let t = stripped(s.subrange(gt + 1, end));
                    let rest = item_texts(s, end + 4);
                    if t.len() > 0 {
                        seq![t] + rest
                    } else {
                        rest
                    }
                },
                _ => Seq::empty(),
            },
            _ => Seq::empty(),
        },
        _ => Seq::empty(),
    }
}

/// The lines that are not blank, trimmed.
pub open spec fn filled_lines(lines: Seq<Seq<char>>) -> Seq<Seq<char>>
    decreases lines.len(),
{
    if lines.len() == 0 {
        Seq::empty()
    } else {
        let t = text::trim(lines.last());
        let before = filled_lines(lines.drop_last());
        if t.len() > 0 {
            before.push(t)
        } else {
            before
        }
    }
}

/// The first `n` elements, or all where there are fewer.
pub open spec fn first_n<T>(s: Seq<T>, n: nat) -> Seq<T> {
    if s.len() <= n {
        s
    } else {
        s.take(n as int)
    }
}

/// The bullets of a page: its list items, or the first six lines of its text
/// where it has no filled list item; eight at most.
pub open spec fn bullets_of(html: Seq<char>) -> Seq<Seq<char>> {
    let items = item_texts(html, 0);
    if items.len() == 0 {
        first_n(filled_lines(text::lines_from(stripped(html), 0)), 6)
    } else {
        first_n(items, 8)
    }
}

/// The lines of `s` that are not blank, trimmed, up to `limit` of them.
fn first_filled_lines(s: &str, limit: usize) -> (out: Vec<String>)
    ensures
        text::views(out@) == first_n(filled_lines(text::lines_from(s@, 0)), limit as nat),
{
    let lines: Vec<String> = lines_of(s);
    let ghost all = text::views(lines@);
    let mut out: Vec<String> = Vec::new();
    let mut i: usize = 0;
    assert(text::views(out@) =~= Seq::<Seq<char>>::empty());
    while i < lines.len()
        invariant
            i <= lines@.len(),
            all == text::views(lines@),
            out@.len() <= limit,
            text::views(out@) == first_n(filled_lines(all.take(i as int)), limit as nat),
        decreases lines@.len() - i,
    {
        let cs: Vec<char> = chars_of(lines[i].as_str());
        let (a, b) = trim_chars(&cs);
        let ghost t = text::trim(lines@[i as int]@);
        let ghost old_out = out@;
        proof {
            assert(all.take(i + 1).drop_last() =~= all.take(i as int));
            assert(all.take(i + 1).last() == lines@[i as int]@);
        }
        if a < b && out.len() < limit {
            let line = string_of_range(&cs, a, b);
            out.push(line);
            assert(text::views(out@) =~= text::views(old_out).push(t));
        }
        assert(text::views(out@) =~= first_n(filled_lines(all.take(i + 1)), limit as nat));
        i = i + 1;
    }
    assert(all.take(all.len() as int) =~= all);
    out
}

/// Extracts the text of the list items of the fragment, falling back to its
/// text lines where it has no filled list item.
pub fn extract_bullets(html: &str) -> (out: Vec<String>)
    ensures
        text::views(out@) == bullets_of(html@),
{
    let cs: Vec<char> = chars_of(html);
    let open: Vec<char> = chars_of("<li");
    let close: Vec<char> = chars_of(">");
    let end_tag: Vec<char> = chars_of("</li>");
    proof {
        reveal_strlit("<li");
        reveal_strlit(">");
        reveal_strlit("</li>");
    }
    let mut bullets: Vec<String> = Vec::new();
    let count: usize = cs.len();
    let mut i: usize = 0;
    let mut more = true;
    assert(text::views(bullets@) + item_texts(html@, 0) =~= item_texts(html@, 0));
    while more
        invariant
            i <= count,
            count == cs@.len(),
            cs@ == html@,
            open@ == "<li"@,
            close@ == ">"@,
            end_tag@ == "</li>"@,
            open@.len() == 3,
            close@.len() == 1,
            end_tag@.len() == 5,
            more ==> text::views(bullets@) + item_texts(html@, i as int) == item_texts(html@, 0),
            !more ==> text::views(bullets@) == item_texts(html@, 0),
        decreases count - i, (if more {
            1int
        } else {
            0int
        }),
    {
        let ghost before = text::views(bullets@);
        proof {
            text::lemma_find(html@, "<li"@, i as int);
            assert(before + Seq::<Seq<char>>::empty() =~= before);
        }
        match find(&cs, &open, i) {
            None => {
                more = false;
            },
            Some(start) => {
                proof {
                    text::lemma_find(html@, ">"@, start as int);
                }
                match find(&cs, &close, start) {
                    None => {
                        more = false;
                    },
                    Some(gt) => {
                        proof {
                            text::lemma_find(html@, "</li>"@, gt + 1);
                        }
                        match find(&cs, &end_tag, gt + 1) {
                            None => {
                                more = false;
                            },
                            Some(end) => {
                                let body = string_of_range(&cs, gt + 1, end);
                                let t = strip_tags(body.as_str());
                                let ghost rest = item_texts(html@, end + 4);
                                if !t.as_str().is_empty() {
                                    bullets.push(t);
                                    proof {
                                        assert(text::views(bullets@) =~= before.push(t@));
                                        assert(before + (seq![t@] + rest) =~= before.push(t@)
                                            + rest);
                                    }
                                }
                                i = end + 4;
                            },
                        }
                    },
                }
            },
        }
    }
    if bullets.len() == 0 {
        assert(text::views(bullets@) =~= Seq::<Seq<char>>::empty());
        let stripped_html = strip_tags(html);
        return first_filled_lines(stripped_html.as_str(), 6);
    }
    let ghost full = bullets@;
    bullets.truncate(8);
    assert(text::views(bullets@) =~= first_n(text::views(full), 8));
    bullets
}

proof fn lemma_items_filled(s: Seq<char>, i: int, k: int)
    requires
        0 <= k < item_texts(s, i).len(),
    ensures
        item_texts(s, i)[k].len() > 0,
    decreases s.len() - i,
{
    let start = text::find_from(s, "<li"@, i)->0;
    let gt = text::find_from(s, ">"@, start)->0;
    let end = text::find_from(s, "</li>"@, gt + 1)->0;
    let t = stripped(s.subrange(gt + 1, end));
    if t.len() == 0 {
        lemma_items_filled(s, end + 4, k);
    } else if k > 0 {
        lemma_items_filled(s, end + 4, k - 1);
    }
}

proof fn lemma_lines_filled(lines: Seq<Seq<char>>, k: int)
    requires
        0 <= k < filled_lines(lines).len(),
    ensures
        filled_lines(lines)[k].len() > 0,
    decreases lines.len(),
{
    if k < filled_lines(lines.drop_last()).len() {
        lemma_lines_filled(lines.drop_last(), k);
    }
}

/// A page has eight bullets at most, and none of them is empty.
pub proof fn law_bullets_are_few_and_filled(html: Seq<char>)
    ensures
        bullets_of(html).len() <= 8,
        forall|k: int| 0 <= k < bullets_of(html).len() ==> (#[trigger] bullets_of(html)[k]).len() > 0,
{
    assert forall|k: int| 0 <= k < bullets_of(html).len() implies (#[trigger] bullets_of(
        html,
    )[k]).len() > 0 by {
        if item_texts(html, 0).len() == 0 {
            lemma_lines_filled(text::lines_from(stripped(html), 0), k);
        } else {
            lemma_items_filled(html, 0, k);
        }
    }
}

/// A text without angle brackets and without ampersands is its own text.
pub proof fn law_plain_text_is_kept(s: Seq<char>)
    requires
        forall|i: int| 0 <= i < s.len() ==> s[i] != '<' && s[i] != '>' && s[i] != '&',
    ensures
        stripped(s) == s,
{
    lemma_untagged_plain(s);
    reveal_strlit("&amp;");
    reveal_strlit("&lt;");
    reveal_strlit("&gt;");
    reveal_strlit("&quot;");
    reveal_strlit("&#39;");
    reveal_strlit("&nbsp;");
    lemma_replace_absent(s, "&amp;"@, "&"@, 0);
    lemma_replace_absent(s, "&lt;"@, "<"@, 0);
    lemma_replace_absent(s, "&gt;"@, ">"@, 0);
    lemma_replace_absent(s, "&quot;"@, "\""@, 0);
    lemma_replace_absent(s, "&#39;"@, "'"@, 0);
    lemma_replace_absent(s, "&nbsp;"@, " "@, 0);
    assert(s.skip(0) =~= s);
}

proof fn lemma_untagged_plain(s: Seq<char>)
    requires
        forall|i: int| 0 <= i < s.len() ==> s[i] != '<' && s[i] != '>',
    ensures
        untagged(s) == s,
        tag_depth(s) == 0,
    decreases s.len(),
{
    if s.len() > 0 {
        lemma_untagged_plain(s.drop_last());
        assert(s.drop_last().push(s.last()) =~= s);
    }
}

proof fn lemma_replace_absent(s: Seq<char>, pat: Seq<char>, with: Seq<char>, i: int)
    requires
        0 <= i <= s.len(),
        pat.len() > 0,
        forall|k: int| 0 <= k < s.len() ==> s[k] != pat[0],
    ensures
        text::replace_from(s, pat, with, i) == s.skip(i),
    decreases s.len() - i,
{
    if i < s.len() {
        if text::matches_at(s, pat, i) {
            assert(s.subrange(i, i + pat.len())[0] == pat[0]);
            assert(s[i] == pat[0]);
        }
        lemma_replace_absent(s, pat, with, i + 1);
        assert(seq![s[i]] + s.skip(i + 1) =~= s.skip(i));
    }
}

/// The page of the presentation that a page of the deck becomes.
pub open spec fn page_text(slide: Slide) -> pptx::SlideText {
    pptx::SlideText { title: stripped(slide.title@), bullets: bullets_of(slide.html@) }
}

/// The pages of the presentation for a deck.
pub fn html_to_pptx_slides(deck: &SlideDeckEvent) -> (out: Vec<pptx::Slide>)
    ensures
        pptx::slide_texts(out@) == deck.slides@.map_values(|s: Slide| page_text(s)),
{
    let mut out: Vec<pptx::Slide> = Vec::new();
    let mut i: usize = 0;
    while i < deck.slides.len()
        invariant
            i <= deck.slides@.len(),
            pptx::slide_texts(out@) == deck.slides@.take(i as int).map_values(
                |s: Slide| page_text(s),
            ),
        decreases deck.slides@.len() - i,
    {
        let slide = &deck.slides[i];
        let ghost before = out@;
        out.push(
            pptx::Slide {
                title: strip_tags(slide.title.as_str()),
                bullets: extract_bullets(slide.html.as_str()),
            },
        );
        proof {
            assert(pptx::slide_texts(out@) =~= pptx::slide_texts(before).push(page_text(*slide)));
            assert(deck.slides@.take(i + 1).map_values(|s: Slide| page_text(s))
                =~= deck.slides@.take(i as int).map_values(|s: Slide| page_text(s)).push(
                page_text(*slide),
            ));
        }
        i = i + 1;
    }
    assert(deck.slides@.take(deck.slides@.len() as int) =~= deck.slides@);
    out
}

// ---- the preview document -------------------------------------------------------

/// One character as HTML text.
pub open spec fn html_char(c: char) -> Seq<char> {
    if c == '&' {
        "&amp;"@
    } else if c == '<' {
        "&lt;"@
    } else if c == '>' {
        "&gt;"@
    } else if c == '"' {
        "&quot;"@
    } else {
        seq![c]
    }
}

/// A text as HTML text: markup characters become entities.
pub open spec fn html_text(s: Seq<char>) -> Seq<char>
    decreases s.len(),
{
    if s.len() == 0 {
        Seq::empty()
    } else {
        html_text(s.drop_last()) + html_char(s.last())
    }
}

/// `s` as HTML text.
pub fn html_escape(s: &str) -> (out: String)
    ensures
        out@ == html_text(s@),
{
    let cs: Vec<char> = chars_of(s);
    let mut out = String::new();
    let mut i: usize = 0;
    while i < cs.len()
        invariant
            i <= cs@.len(),
            cs@ == s@,
            out@ == html_text(s@.take(i as int)),
        decreases cs@.len() - i,
    {
        let c = cs[i];
        let ghost before = out@;
        if c == '&' {
            out.append("&amp;");
        } else if c == '<' {
            out.append("&lt;");
        } else if c == '>' {
            out.append("&gt;");
        } else if c == '"' {
            out.append("&quot;");
        } else {
            out.push(c);
        }
        proof {
            assert(out@ =~= before + html_char(c));
            assert(s@.take(i + 1).drop_last() =~= s@.take(i as int));
        }
        i = i + 1;
    }
    assert(s@.take(s@.len() as int) =~= s@);
    out
}

/// HTML text holds no markup character, so nothing in it can open a tag or
/// close an attribute.
pub proof fn law_html_text_is_plain(s: Seq<char>, i: int)
    requires
        0 <= i < html_text(s).len(),
    ensures
        html_text(s)[i] != '<',
        html_text(s)[i] != '>',
        html_text(s)[i] != '"',
    decreases s.len(),
{
    reveal_strlit("&amp;");
    reveal_strlit("&lt;");
    reveal_strlit("&gt;");
    reveal_strlit("&quot;");
    let before = html_text(s.drop_last());
    if i < before.len() {
        law_html_text_is_plain(s.drop_last(), i);
    } else {
        let w = html_char(s.last());
        assert(html_text(s)[i] == w[i - before.len()]);
    }
}

pub const PREVIEW_HEAD: &'static str = "<!DOCTYPE html>\n<html>\n<head>\n<meta charset=\"utf-8\">\n<title>";

pub const PREVIEW_STYLE: &'static str = "</title>\n<style>\nbody { background: #2a2a2e; margin: 0; padding: 24px; display: flex; flex-direction: column; align-items: center; gap: 24px; }\n.page-wrap { width: 1280px; height: 720px; overflow: hidden; box-shadow: 0 8px 32px rgba(0,0,0,.45); background: #fff; }\n";

pub const PREVIEW_BODY: &'static str = "\n</style>\n</head>\n<body>";

pub const PREVIEW_TAIL: &'static str = "</body>\n</html>\n";

pub const PAGE_HEAD: &'static str = "\n<div class=\"page-wrap\">\n";

pub const PAGE_TAIL: &'static str = "\n</div>\n";

/// The pages of the preview, one below the other.
pub open spec fn preview_pages(slides: Seq<Slide>) -> Seq<char>
    decreases slides.len(),
{
    if slides.len() == 0 {
        Seq::empty()
    } else {
        preview_pages(slides.drop_last()) + (PAGE_HEAD@ + slides.last().html@ + PAGE_TAIL@)
    }
}

/// The title of the preview: that of the first slide.
pub open spec fn preview_title(slides: Seq<Slide>) -> Seq<char> {
    if slides.len() == 0 {
        "Slides"@
    } else {
        html_text(stripped(slides[0].title@))
    }
}

/// The preview document of a deck.
pub open spec fn preview(deck: SlideDeckEvent) -> Seq<char> {
    PREVIEW_HEAD@ + preview_title(deck.slides@) + PREVIEW_STYLE@ + deck.global_css@
        + PREVIEW_BODY@ + preview_pages(deck.slides@) + PREVIEW_TAIL@
}

/// Renders a standalone preview document: one fixed-size page per slide,
/// vertically stacked, with the deck's global stylesheet inlined.
pub fn render_preview_html(deck: &SlideDeckEvent) -> (out: String)
    ensures
        out@ == preview(*deck),
{
    let mut pages = String::new();
    let mut i: usize = 0;
    while i < deck.slides.len()
        invariant
            i <= deck.slides@.len(),
            pages@ == preview_pages(deck.slides@.take(i as int)),
        decreases deck.slides@.len() - i,
    {
        let ghost before = pages@;
        pages.append(PAGE_HEAD);
        pages.append(deck.slides[i].html.as_str());
        pages.append(PAGE_TAIL);
        proof {
            let html = deck.slides@[i as int].html@;
            assert(pages@ =~= before + (PAGE_HEAD@ + html + PAGE_TAIL@));
            assert(deck.slides@.take(i + 1).drop_last() =~= deck.slides@.take(i as int));
        }
        i = i + 1;
    }
    assert(deck.slides@.take(deck.slides@.len() as int) =~= deck.slides@);
    let title = if deck.slides.len() == 0 {
        copy_str("Slides")
    } else {
        let stripped_title = strip_tags(deck.slides[0].title.as_str());
        html_escape(stripped_title.as_str())
    };
    let mut out = copy_str(PREVIEW_HEAD);
    out.append(title.as_str());
    out.append(PREVIEW_STYLE);
    out.append(deck.global_css.as_str());
    out.append(PREVIEW_BODY);
    out.append(pages.as_str());
    out.append(PREVIEW_TAIL);
    out
}

// ---- escaping undone --------------------------------------------------------------

proof fn lemma_html_front(s: Seq<char>)
    ensures
        html_text(s) == entities::staged(s, 0, 3),
    decreases s.len(),
{
    if s.len() == 1 {
        assert(s.drop_last() =~= Seq::empty());
        assert(s.skip(1) =~= Seq::empty());
        assert(html_text(s.drop_last()) =~= Seq::empty());
        assert(entities::staged(s.skip(1), 0, 3) =~= Seq::empty());
        assert(html_text(s) =~= entities::staged(s, 0, 3));
    } else if s.len() > 1 {
        lemma_html_front(s.drop_last());
        lemma_html_front(s.skip(1));
        lemma_html_front(s.drop_last().skip(1));
        assert(s.drop_last().skip(1) =~= s.skip(1).drop_last());
        assert(s.skip(1).last() == s.last());
        assert(html_text(s) =~= entities::staged(s, 0, 3));
    }
}

/// A text that holds none of the entities that are replaced, but for that of
/// the ampersand.
pub open spec fn holds_no_entity(s: Seq<char>) -> bool {
    &&& !text::contains(s, "&lt;"@)
    &&& !text::contains(s, "&gt;"@)
    &&& !text::contains(s, "&quot;"@)
    &&& !text::contains(s, "&#39;"@)
    &&& !text::contains(s, "&nbsp;"@)
}

/// Replacing entities undoes escaping: a text comes back from its HTML text,
/// unless the text itself holds an entity. One without an ampersand holds none.
pub proof fn law_escaped_text_comes_back(s: Seq<char>)
    requires
        holds_no_entity(s) || !s.contains('&'),
    ensures
        unescaped(html_text(s)) == s,
{
    reveal_strlit("&#39;");
    reveal_strlit("&nbsp;");
    entities::lemma_entities();
    if !s.contains('&') {
        lemma_no_ampersand(s, "&lt;"@);
        lemma_no_ampersand(s, "&gt;"@);
        lemma_no_ampersand(s, "&quot;"@);
        lemma_no_ampersand(s, "&#39;"@);
        lemma_no_ampersand(s, "&nbsp;"@);
    }
    lemma_html_front(s);
    entities::lemma_stage(s, 0, 3);
    entities::lemma_stage(s, 1, 3);
    entities::lemma_stage(s, 2, 3);
    entities::lemma_stage(s, 3, 3);
    entities::lemma_staged_end(s, 3);
    entities::lemma_nothing_replaced(s, "&#39;"@, "'"@);
    entities::lemma_nothing_replaced(s, "&nbsp;"@, " "@);
}

proof fn lemma_no_ampersand(s: Seq<char>, pat: Seq<char>)
    requires
        !s.contains('&'),
        pat.len() > 0,
        pat[0] == '&',
    ensures
        !text::contains(s, pat),
{
    entities::lemma_no_ampersand(s, pat);
}

// ---- what a page becomes ------------------------------------------------------------

/// A text without angle brackets and without ampersands.
pub open spec fn is_plain(s: Seq<char>) -> bool {
    forall|i: int| 0 <= i < s.len() ==> #[trigger] s[i] != '<' && s[i] != '>' && s[i] != '&'
}

/// The markup of list items, each given by the attributes of its tag and its
/// text.
pub open spec fn list_markup(items: Seq<(Seq<char>, Seq<char>)>) -> Seq<char>
    decreases items.len(),
{
    if items.len() == 0 {
        Seq::empty()
    } else {
        "<li"@ + items[0].0 + ">"@ + items[0].1 + "</li>"@ + list_markup(items.skip(1))
    }
}

/// The texts of list items are filled and plain, and no attribute closes its
/// tag.
pub open spec fn are_plain_items(items: Seq<(Seq<char>, Seq<char>)>) -> bool {
    forall|k: int|
        0 <= k < items.len() ==> (#[trigger] items[k]).1.len() > 0 && is_plain(items[k].1)
            && !items[k].0.contains('>')
}

proof fn lemma_items_found(
    before: Seq<char>,
    items: Seq<(Seq<char>, Seq<char>)>,
    after: Seq<char>,
    p: int,
)
    requires
        0 <= p <= before.len(),
        are_plain_items(items),
        !text::contains(after, "<li"@),
        ({
            let s = before + list_markup(items) + after;
            forall|i: int| p <= i < before.len() ==> !#[trigger] text::matches_at(s, "<li"@, i)
        }),
    ensures
        item_texts(before + list_markup(items) + after, p) == items.map_values(
            |t: (Seq<char>, Seq<char>)| t.1,
        ),
    decreases items.len(),
{
    let s = before + list_markup(items) + after;
    let open = "<li"@;
    let close = ">"@;
    let end_tag = "</li>"@;
    reveal_strlit("<li");
    reveal_strlit(">");
    reveal_strlit("</li>");
    let texts = items.map_values(|t: (Seq<char>, Seq<char>)| t.1);
    let n = before.len() as int;
    if items.len() == 0 {
        assert forall|i: int| p <= i implies !#[trigger] text::matches_at(s, open, i) by {
            if n <= i && text::matches_at(s, open, i) {
                assert(after.subrange(i - n, i - n + 3) =~= s.subrange(i, i + 3));
                assert(text::matches_at(after, open, i - n));
            }
        }
        text::lemma_find_none(s, open, p);
        assert(item_texts(s, p) =~= texts);
    } else {
        let attr = items[0].0;
        let t = items[0].1;
        let rest = items.skip(1);
        let gt = n + 3 + attr.len();
        let end = gt + 1 + t.len();
        assert(s.subrange(n, n + 3) =~= open);
        text::lemma_find_is(s, open, p, n);
        assert(s.subrange(gt, gt + 1) =~= close);
        assert forall|j: int| n <= j < gt implies !#[trigger] text::matches_at(s, close, j) by {
            if text::matches_at(s, close, j) {
                assert(s.subrange(j, j + 1)[0] == '>');
                if j >= n + 3 {
                    assert(attr[j - n - 3] == '>');
                    assert(attr.contains('>'));
                }
            }
        }
        text::lemma_find_is(s, close, n, gt);
        assert(s.subrange(end, end + 5) =~= end_tag);
        assert forall|j: int| gt + 1 <= j < end implies !#[trigger] text::matches_at(s, end_tag, j) by {
            if text::matches_at(s, end_tag, j) {
                assert(s.subrange(j, j + 5)[0] == '<');
                assert(t[j - gt - 1] == '<');
            }
        }
        text::lemma_find_is(s, end_tag, gt + 1, end);
        assert(s.subrange(gt + 1, end) =~= t);
        law_plain_text_is_kept(t);
        let head = before + (open + attr + close + t + end_tag);
        assert(s =~= head + list_markup(rest) + after);
        assert(head.len() == end + 5);
        assert forall|i: int| end + 4 <= i < head.len() implies !#[trigger] text::matches_at(
            head + list_markup(rest) + after,
            open,
            i,
        ) by {
            if text::matches_at(s, open, i) {
                assert(s.subrange(i, i + 3)[0] == '<');
                assert(s[i] == end_tag[4]);
            }
        }
        assert(are_plain_items(rest)) by {
            assert forall|k: int| 0 <= k < rest.len() implies (#[trigger] rest[k]).1.len() > 0
                && is_plain(rest[k].1) && !rest[k].0.contains('>') by {
                assert(rest[k] == items[k + 1]);
            }
        }
        lemma_items_found(head, rest, after, end + 4);
        assert(item_texts(s, p) =~= texts);
    }
}

/// A page with a list becomes its items, in order and each of them whole, up
/// to eight. What stands before the list opens no item, and what stands behind
/// it neither.
pub proof fn law_list_items_become_bullets(
    before: Seq<char>,
    items: Seq<(Seq<char>, Seq<char>)>,
    after: Seq<char>,
    k: int,
)
    requires
        items.len() > 0,
        are_plain_items(items),
        !text::contains(after, "<li"@),
        forall|i: int|
            0 <= i < before.len() ==> !#[trigger] text::matches_at(
                before + list_markup(items) + after,
                "<li"@,
                i,
            ),
    ensures
        ({
            let bullets = bullets_of(before + list_markup(items) + after);
            &&& bullets.len() == if items.len() <= 8 {
                items.len()
            } else {
                8
            }
            &&& 0 <= k < bullets.len() ==> bullets[k] == items[k].1
        }),
{
    lemma_items_found(before, items, after, 0);
}

/// Lines, one below the other.
pub open spec fn lines_below(lines: Seq<Seq<char>>) -> Seq<char>
    decreases lines.len(),
{
    if lines.len() == 0 {
        Seq::empty()
    } else if lines.len() == 1 {
        lines[0]
    } else {
        lines[0] + seq!['\n'] + lines_below(lines.skip(1))
    }
}

/// A line that is plain and not blank, without white space at its ends.
pub open spec fn is_plain_line(line: Seq<char>) -> bool {
    &&& line.len() > 0
    &&& is_plain(line)
    &&& !line.contains('\n')
    &&& !line.contains('\r')
    &&& !text::whitespace(line[0])
    &&& !text::whitespace(line.last())
}

proof fn lemma_lines_found(before: Seq<char>, lines: Seq<Seq<char>>)
    requires
        lines.len() > 0,
        forall|k: int| 0 <= k < lines.len() ==> is_plain_line(#[trigger] lines[k]),
    ensures
        text::lines_from(before + lines_below(lines), before.len() as int) == lines,
        is_plain(lines_below(lines)),
        lines_below(lines).len() > 0,
    decreases lines.len(),
{
    let s = before + lines_below(lines);
    let n = before.len() as int;
    let feed = seq!['\n'];
    let line = lines[0];
    assert(is_plain_line(line));
    let end = n + line.len();
    assert forall|j: int| n <= j < end implies !#[trigger] text::matches_at(s, feed, j) by {
        if text::matches_at(s, feed, j) {
            assert(s.subrange(j, j + 1)[0] == '\n');
            assert(line[j - n] == '\n');
        }
    }
    if lines.len() == 1 {
        assert(s =~= before + line);
        assert forall|j: int| n <= j implies !#[trigger] text::matches_at(s, feed, j) by {
            if j >= end {
                assert(j + 1 > s.len());
            }
        }
        text::lemma_find_none(s, feed, n);
        assert(s.skip(n) =~= line);
        assert(text::lines_from(s, n) =~= lines);
    } else {
        let rest = lines.skip(1);
        assert forall|k: int| 0 <= k < rest.len() implies is_plain_line(#[trigger] rest[k]) by {
            assert(rest[k] == lines[k + 1]);
        }
        let head = before + line + feed;
        lemma_lines_found(head, rest);
        assert(s =~= head + lines_below(rest));
        assert(s.subrange(end, end + 1) =~= feed);
        text::lemma_find_is(s, feed, n, end);
        assert(s.subrange(n, end) =~= line);
        assert(line.last() != '\r') by {
            if line.last() == '\r' {
                assert(line.contains(line[line.len() - 1]));
            }
        }
        assert(text::lines_from(s, n) =~= lines);
        assert forall|i: int| 0 <= i < lines_below(lines).len() implies #[trigger] lines_below(
            lines,
        )[i] != '<' && lines_below(lines)[i] != '>' && lines_below(lines)[i] != '&' by {
            let below = lines_below(lines);
            if i < line.len() {
                assert(below[i] == line[i]);
            } else if i > line.len() {
                assert(below[i] == lines_below(rest)[i - line.len() - 1]);
            }
        }
    }
}

proof fn lemma_lines_are_filled(lines: Seq<Seq<char>>)
    requires
        forall|k: int| 0 <= k < lines.len() ==> is_plain_line(#[trigger] lines[k]),
    ensures
        filled_lines(lines) == lines,
    decreases lines.len(),
{
    if lines.len() > 0 {
        let rest = lines.drop_last();
        assert forall|k: int| 0 <= k < rest.len() implies is_plain_line(#[trigger] rest[k]) by {
            assert(rest[k] == lines[k]);
        }
        lemma_lines_are_filled(rest);
        let last = lines[lines.len() - 1];
        assert(is_plain_line(last));
        assert(text::trim(last) == last);
    }
    assert(filled_lines(lines) =~= lines);
}

/// A page of text without a list becomes its lines, in order and each of them
/// whole, up to six.
pub proof fn law_lines_become_bullets(lines: Seq<Seq<char>>, k: int)
    requires
        lines.len() > 0,
        forall|i: int| 0 <= i < lines.len() ==> is_plain_line(#[trigger] lines[i]),
    ensures
        ({
            let bullets = bullets_of(lines_below(lines));
            &&& bullets.len() == if lines.len() <= 6 {
                lines.len()
            } else {
                6
            }
            &&& 0 <= k < bullets.len() ==> bullets[k] == lines[k]
        }),
{
    let page = lines_below(lines);
    let none = Seq::<char>::empty();
    lemma_lines_found(none, lines);
    assert(none + page =~= page);
    lemma_lines_are_filled(lines);
    law_plain_text_is_kept(page);
    reveal_strlit("<li");
    assert forall|j: int| 0 <= j implies !#[trigger] text::matches_at(page, "<li"@, j) by {
        if text::matches_at(page, "<li"@, j) {
            assert(page.subrange(j, j + 3)[0] == '<');
            assert(page[j] == '<');
        }
    }
    text::lemma_find_none(page, "<li"@, 0);
    assert(item_texts(page, 0) =~= Seq::empty());
}

/// A tag between two plain texts is dropped, and the texts are kept whole.
pub proof fn law_tags_are_dropped(a: Seq<char>, tag: Seq<char>, b: Seq<char>)
    requires
        is_plain(a),
        is_plain(b),
        !tag.contains('<'),
        !tag.contains('>'),
    ensures
        stripped(a + seq!['<'] + tag + seq!['>'] + b) == a + b,
{
    let s = a + seq!['<'] + tag + seq!['>'] + b;
    lemma_untagged_plain(a);
    lemma_untagged_inside(a, tag);
    let closed = a + seq!['<'] + tag + seq!['>'];
    assert(closed.drop_last() =~= a + seq!['<'] + tag);
    assert(untagged(closed) == a && tag_depth(closed) == 0);
    lemma_untagged_more(closed, b);
    assert(closed + b =~= s);
    assert(is_plain(a + b));
    law_plain_text_is_kept(a + b);
    lemma_untagged_plain(a + b);
}

proof fn lemma_untagged_inside(a: Seq<char>, tag: Seq<char>)
    requires
        is_plain(a),
        !tag.contains('<'),
        !tag.contains('>'),
    ensures
        untagged(a + seq!['<'] + tag) == a,
        tag_depth(a + seq!['<'] + tag) == 1,
    decreases tag.len(),
{
    let s = a + seq!['<'] + tag;
    if tag.len() == 0 {
        lemma_untagged_plain(a);
        assert(s.drop_last() =~= a);
    } else {
        let rest = tag.drop_last();
        assert forall|c: char| rest.contains(c) implies #[trigger] tag.contains(c) by {
            let i = rest.index_of(c);
            assert(tag[i] == c);
        }
        lemma_untagged_inside(a, rest);
        assert(s.drop_last() =~= a + seq!['<'] + rest);
        assert(tag.contains(tag[tag.len() - 1]));
    }
}

proof fn lemma_untagged_more(a: Seq<char>, b: Seq<char>)
    requires
        tag_depth(a) == 0,
        is_plain(b),
    ensures
        untagged(a + b) == untagged(a) + b,
        tag_depth(a + b) == 0,
    decreases b.len(),
{
    if b.len() == 0 {
        assert(a + b =~= a);
        assert(untagged(a) + b =~= untagged(a));
    } else {
        let rest = b.drop_last();
        assert forall|i: int| 0 <= i < rest.len() implies #[trigger] rest[i] != '<' && rest[i]
            != '>' && rest[i] != '&' by {
            assert(rest[i] == b[i]);
        }
        lemma_untagged_more(a, rest);
        assert((a + b).drop_last() =~= a + rest);
        assert(b[b.len() - 1] != '<');
        assert((untagged(a) + rest).push(b.last()) =~= untagged(a) + b);
    }
}

/// Every slide of a deck becomes a page, in order; a plain title is kept
/// whole.
pub proof fn law_slides_become_pages(slides: Seq<Slide>, k: int)
    requires
        0 <= k < slides.len(),
    ensures
        ({
            let pages = slides.map_values(|s: Slide| page_text(s));
            &&& pages.len() == slides.len()
            &&& is_plain(slides[k].title@) ==> pages[k].title == slides[k].title@
            &&& pages[k].title == stripped(slides[k].title@)
            &&& pages[k].bullets == bullets_of(slides[k].html@)
        }),
{
    if is_plain(slides[k].title@) {
        law_plain_text_is_kept(slides[k].title@);
    }
}

proof fn lemma_pages_hold(slides: Seq<Slide>) -> (at: Seq<int>)
    ensures
        text::in_order(
            preview_pages(slides),
            slides.map_values(|s: Slide| s.html@),
            at,
        ),
    decreases slides.len(),
{
    let f = |s: Slide| s.html@;
    let parts = slides.map_values(f);
    if slides.len() == 0 {
        let at = Seq::<int>::empty();
        at
    } else {
        let rest = slides.drop_last();
        let at = lemma_pages_hold(rest);
        let before = preview_pages(rest);
        let html = slides.last().html@;
        let none = Seq::<char>::empty();
        let whole = preview_pages(slides);
        assert(whole =~= none + before + (PAGE_HEAD@ + html + PAGE_TAIL@));
        text::lemma_in_order_within(
            none,
            before,
            PAGE_HEAD@ + html + PAGE_TAIL@,
            rest.map_values(f),
            at,
        );
        assert(at.map_values(|p: int| p + none.len()) =~= at);
        let place = (before.len() + PAGE_HEAD@.len()) as int;
        assert(whole.subrange(place, place + html.len()) =~= html);
        if rest.len() > 0 {
            let j = rest.len() - 1;
            assert(text::matches_at(before, rest.map_values(f)[j], at[j]));
        }
        text::lemma_in_order_push(whole, rest.map_values(f), at, html, place);
        assert(parts =~= rest.map_values(f).push(html));
        at.push(place)
    }
}

/// The preview shows the style sheet of the deck and, behind it, the page of
/// every slide, whole and in order. Its title is that of the first slide.
pub proof fn law_preview_shows_every_slide(deck: SlideDeckEvent) -> (at: Seq<int>)
    ensures
        text::in_order(
            preview(deck),
            seq![deck.global_css@] + deck.slides@.map_values(|s: Slide| s.html@),
            at,
        ),
        deck.slides@.len() > 0 ==> text::contains(
            preview(deck),
            "<title>"@ + html_text(stripped(deck.slides@[0].title@)) + "</title>"@,
        ),
{
    let css = deck.global_css@;
    let htmls = deck.slides@.map_values(|s: Slide| s.html@);
    let whole = preview(deck);
    let head = PREVIEW_HEAD@ + preview_title(deck.slides@) + PREVIEW_STYLE@;
    let start = head + css + PREVIEW_BODY@;
    let pages = preview_pages(deck.slides@);
    let inner = lemma_pages_hold(deck.slides@);
    assert(whole =~= start + pages + PREVIEW_TAIL@);
    text::lemma_in_order_within(start, pages, PREVIEW_TAIL@, htmls, inner);
    let moved = inner.map_values(|p: int| p + start.len());
    let at = seq![head.len() as int] + moved;
    let parts = seq![css] + htmls;
    assert(whole.subrange(head.len() as int, (head.len() + css.len()) as int) =~= css);
    assert forall|k: int| 0 <= k < parts.len() implies text::matches_at(
        whole,
        #[trigger] parts[k],
        at[k],
    ) by {
        if k > 0 {
            assert(parts[k] == htmls[k - 1]);
            assert(at[k] == moved[k - 1]);
        }
    }
    assert forall|k: int, j: int|
        0 <= k && j == k + 1 && j < parts.len() implies (#[trigger] at[k]) + parts[k].len()
        <= #[trigger] at[j] by {
        assert(at[j] == moved[k]);
        if k == 0 {
            assert(text::matches_at(pages, htmls[0], inner[0]));
        } else {
            assert(at[k] == moved[k - 1]);
            assert(parts[k] == htmls[k - 1]);
        }
    }
    if deck.slides@.len() > 0 {
        lemma_title_tags();
        let title = preview_title(deck.slides@);
        let tagged = "<title>"@ + title + "</title>"@;
        let p = (PREVIEW_HEAD@.len() - "<title>"@.len()) as int;
        let a = "<title>"@.len() as int;
        let b = "</title>"@.len() as int;
        assert(PREVIEW_HEAD@.subrange(p, p + a) == "<title>"@);
        assert(PREVIEW_STYLE@.subrange(0, b) == "</title>"@);
        assert forall|i: int| 0 <= i < tagged.len() implies whole[p + i] == #[trigger] tagged[i] by {
            if i < a {
                assert(PREVIEW_HEAD@.subrange(p, p + a)[i] == tagged[i]);
            } else if i >= a + title.len() {
                assert(PREVIEW_STYLE@.subrange(0, b)[i - a - title.len()] == tagged[i]);
            }
        }
        assert(whole.subrange(p, p + tagged.len()) =~= tagged);
        assert(text::matches_at(whole, tagged, p));
    }
    at
}

proof fn lemma_title_tags()
    ensures
        text::ends_with(PREVIEW_HEAD@, "<title>"@),
        text::starts_with(PREVIEW_STYLE@, "</title>"@),
{
    reveal_strlit("<!DOCTYPE html>\n<html>\n<head>\n<meta charset=\"utf-8\">\n<title>");
    reveal_strlit("</title>\n<style>\nbody { background: #2a2a2e; margin: 0; padding: 24px; display: flex; flex-direction: column; align-items: center; gap: 24px; }\n.page-wrap { width: 1280px; height: 720px; overflow: hidden; box-shadow: 0 8px 32px rgba(0,0,0,.45); background: #fff; }\n");
    reveal_strlit("<title>");
    reveal_strlit("</title>");
    let head = PREVIEW_HEAD@;
    assert(head.subrange(head.len() - 7, head.len() as int) =~= "<title>"@);
    assert(PREVIEW_STYLE@.subrange(0, 8) =~= "</title>"@);
}

/// An entity between two plain texts becomes the character that it stands for,
/// and the texts are kept whole.
pub proof fn law_entities_become_characters(a: Seq<char>, b: Seq<char>)
    requires
        is_plain(a),
        is_plain(b),
        !b.contains(';'),
    ensures
        stripped(a + "&amp;"@ + b) == a + "&"@ + b,
        stripped(a + "&lt;"@ + b) == a + "<"@ + b,
        stripped(a + "&gt;"@ + b) == a + ">"@ + b,
        stripped(a + "&quot;"@ + b) == a + "\""@ + b,
        stripped(a + "&#39;"@ + b) == a + "'"@ + b,
        stripped(a + "&nbsp;"@ + b) == a + " "@ + b,
{
    entities::lemma_entities();
    reveal_strlit("&#39;");
    reveal_strlit("&nbsp;");
    reveal_strlit(" ");
    assert(!a.contains('&') && !b.contains('&'));
    lemma_stripped_entity(a, "&amp;"@, b);
    lemma_stripped_entity(a, "&lt;"@, b);
    lemma_stripped_entity(a, "&gt;"@, b);
    lemma_stripped_entity(a, "&quot;"@, b);
    lemma_stripped_entity(a, "&#39;"@, b);
    lemma_stripped_entity(a, "&nbsp;"@, b);
    lemma_one_entity(a, "&amp;"@, b, "&"@);
    lemma_one_entity(a, "&lt;"@, b, "<"@);
    lemma_one_entity(a, "&gt;"@, b, ">"@);
    lemma_one_entity(a, "&quot;"@, b, "\""@);
    lemma_one_entity(a, "&#39;"@, b, "'"@);
    lemma_one_entity(a, "&nbsp;"@, b, " "@);
}

proof fn lemma_stripped_entity(a: Seq<char>, pat: Seq<char>, b: Seq<char>)
    requires
        is_plain(a),
        is_plain(b),
        !pat.contains('<'),
        !pat.contains('>'),
    ensures
        untagged(a + pat + b) == a + pat + b,
{
    let s = a + pat + b;
    assert forall|i: int| 0 <= i < s.len() implies #[trigger] s[i] != '<' && s[i] != '>' by {
        if i < a.len() {
            assert(a.contains(a[i]));
        } else if i < a.len() + pat.len() {
            assert(pat.contains(pat[i - a.len()]));
        } else {
            assert(b.contains(b[i - a.len() - pat.len()]));
        }
    }
    lemma_untagged_plain(s);
}

/// An entity and the character that it stands for.
spec fn is_entity_of(pat: Seq<char>, with: Seq<char>) -> bool {
    ||| pat == "&amp;"@ && with == "&"@
    ||| pat == "&lt;"@ && with == "<"@
    ||| pat == "&gt;"@ && with == ">"@
    ||| pat == "&quot;"@ && with == "\""@
    ||| pat == "&#39;"@ && with == "'"@
    ||| pat == "&nbsp;"@ && with == " "@
}

proof fn lemma_one_entity(a: Seq<char>, pat: Seq<char>, b: Seq<char>, with: Seq<char>)
    requires
        !a.contains('&'),
        !b.contains('&'),
        !b.contains(';'),
        is_entity_of(pat, with),
    ensures
        unescaped(a + pat + b) == a + with + b,
{
    entities::lemma_entities();
    reveal_strlit("&#39;");
    reveal_strlit("&nbsp;");
    reveal_strlit(" ");
    entities::lemma_entity_replaced(a, pat, b, with);
    entities::lemma_kept_entity(a, pat, b, with, "&amp;"@, "&"@);
    entities::lemma_kept_entity(a, pat, b, with, "&lt;"@, "<"@);
    entities::lemma_kept_entity(a, pat, b, with, "&gt;"@, ">"@);
    entities::lemma_kept_entity(a, pat, b, with, "&quot;"@, "\""@);
    entities::lemma_kept_entity(a, pat, b, with, "&#39;"@, "'"@);
    entities::lemma_kept_entity(a, pat, b, with, "&nbsp;"@, " "@);
}

/// The preview of a deck without slides has a title all the same.
pub proof fn law_empty_deck_has_a_title(deck: SlideDeckEvent)
    requires
        deck.slides@.len() == 0,
    ensures
        text::starts_with(preview(deck), PREVIEW_HEAD@ + "Slides"@),
{
    let head = PREVIEW_HEAD@ + "Slides"@;
    assert(preview(deck).subrange(0, head.len() as int) =~= head);
}

// ---- what callers see ----------------------------------------------------------------

/// The bullets that are extracted from a page with a list are its items, whole
/// and in order, the first eight of them.
pub proof fn law_list_items_are_extracted(
    items: Seq<(Seq<char>, Seq<char>)>,
    html: &str,
    out: Vec<String>,
    k: int,
)
    requires
        items.len() > 0,
        are_plain_items(items),
        html@ == list_markup(items),
        call_ensures(extract_bullets, (html,), out),
    ensures
        out@.len() == if items.len() <= 8 {
            items.len()
        } else {
            8
        },
        0 <= k < out@.len() ==> out@[k]@ == items[k].1,
{
    let none = Seq::<char>::empty();
    reveal_strlit("<li");
    assert forall|i: int| !#[trigger] text::matches_at(none, "<li"@, i) by {}
    law_list_items_become_bullets(none, items, none, k);
    assert(none + list_markup(items) + none =~= list_markup(items));
    if 0 <= k < out@.len() {
        assert(text::views(out@)[k] == out@[k]@);
    }
}

/// Of a fragment the text is kept and the tags are dropped; a text that is
/// escaped for the preview comes back from it.
pub proof fn law_fragments_are_stripped(
    a: Seq<char>,
    tag: Seq<char>,
    b: Seq<char>,
    fragment: &str,
    out: String,
)
    requires
        is_plain(a),
        is_plain(b),
        !tag.contains('<'),
        !tag.contains('>'),
        fragment@ == a + seq!['<'] + tag + seq!['>'] + b,
        call_ensures(strip_tags, (fragment,), out),
    ensures
        out@ == a + b,
{
    law_tags_are_dropped(a, tag, b);
}

/// A deck comes to its pages and its preview whole: a page for every slide, in
/// order, with its title and its bullets.
pub proof fn law_deck_becomes_pages(
    deck: &SlideDeckEvent,
    pages: Vec<pptx::Slide>,
    html: String,
    k: int,
)
    requires
        call_ensures(html_to_pptx_slides, (deck,), pages),
        call_ensures(render_preview_html, (deck,), html),
    ensures
        pages@.len() == deck.slides@.len(),
        0 <= k < pages@.len() ==> pages@[k]@.title == stripped(deck.slides@[k].title@)
            && pages@[k]@.bullets == bullets_of(deck.slides@[k].html@),
        html@ == preview(*deck),
{
    let texts = pptx::slide_texts(pages@);
    assert(texts.len() == pages@.len());
    if 0 <= k < pages@.len() {
        assert(texts[k] == pages@[k]@);
        assert(texts[k] == page_text(deck.slides@[k]));
    }
}

/// The topic that is sent begins with the topic that was given.
pub proof fn law_sent_topic_begins_with_the_topic(topic: String, out: String)
    requires
        call_ensures(enhance_topic, (topic,), out),
    ensures
        text::starts_with(out@, topic@),
        text::contains(text::lowercase(topic@), "slide"@) <==> out@ == topic@,
{
    lemma_deck_request();
    reveal_strlit("slide.");
    assert(DECK_REQUEST@.len() > 0);
    assert(out@.subrange(0, topic@.len() as int) =~= topic@);
    if !text::contains(text::lowercase(topic@), "slide"@) {
        assert(out@.len() > topic@.len());
    }
}

/// Of a tag that is not closed all is dropped to the end, and so is what stands
/// between a tag in a tag and the end of the outer one; a closing bracket alone
/// is dropped and nothing with it.
pub proof fn law_stray_brackets_are_dropped(a: Seq<char>, tag: Seq<char>, b: Seq<char>)
    requires
        is_plain(a),
        is_plain(b),
        !tag.contains('<'),
        !tag.contains('>'),
    ensures
        stripped(a + seq!['<'] + tag) == a,
        stripped(a.push('>') + b) == a + b,
        stripped(a.push('<').push('<').push('>') + b) == a,
{
    law_plain_text_is_kept(a);
    lemma_untagged_plain(a);
    lemma_untagged_inside(a, tag);
    let closed = a.push('>');
    assert(closed.drop_last() =~= a);
    lemma_untagged_more(closed, b);
    assert(is_plain(a + b));
    law_plain_text_is_kept(a + b);
    lemma_untagged_plain(a + b);
    let one = a.push('<');
    let two = one.push('<');
    let open = two.push('>');
    assert(one.drop_last() =~= a);
    assert(two.drop_last() =~= one);
    assert(open.drop_last() =~= two);
    assert(tag_depth(one) == 1 && untagged(one) == a);
    assert(tag_depth(two) == 2 && untagged(two) == a);
    assert(tag_depth(open) == 1 && untagged(open) == a);
    lemma_untagged_deeper(open, b);
}

proof fn lemma_untagged_deeper(a: Seq<char>, b: Seq<char>)
    requires
        tag_depth(a) == 1,
        is_plain(b),
    ensures
        untagged(a + b) == untagged(a),
        tag_depth(a + b) == 1,
    decreases b.len(),
{
    if b.len() == 0 {
        assert(a + b =~= a);
    } else {
        let rest = b.drop_last();
        assert(is_plain(rest)) by {
            assert forall|i: int| 0 <= i < rest.len() implies rest[i] == b[i] by {}
            if rest.contains('<') {
                assert(b[rest.index_of('<')] == '<');
            }
            if rest.contains('>') {
                assert(b[rest.index_of('>')] == '>');
            }
            if rest.contains('&') {
                assert(b[rest.index_of('&')] == '&');
            }
        }
        lemma_untagged_deeper(a, rest);
        assert((a + b).drop_last() =~= a + rest);
        assert(b[b.len() - 1] != '<' && b[b.len() - 1] != '>');
    }
}

} // verus!

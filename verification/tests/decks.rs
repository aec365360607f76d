use zagent::deck_stream::{
    action_summary, advance, bearer, current_topic, deck_answer, deck_request_body,
    generate_slides, op_stage,
    pick_topic, read_stream_line, slides_uri, DeckCollector, DeckStep, JobAction, JobEvent,
    JobKind, JobStage, SlidesEvent, SlidesStart, StreamLine, NO_TOPIC, REQUESTING,
    SIDECAR_BASE_URL,
};
use zagent::slides::{
    enhance_topic, enhance_topic_given, extract_bullets, html_escape, html_to_pptx_slides,
    render_preview_html, strip_tags, unescape_entities, GenerateSlides, Slide, SlideDeckEvent,
    DECK_REQUEST,
};
use zagent::slides_tool::{GenerateSlidesToolInput, GenerateSlidesToolOutput, GeneratedDeck};

fn deck(pages: &[(&str, &str)]) -> SlideDeckEvent {
    SlideDeckEvent {
        conversation_id: "c".to_string(),
        slides: pages
            .iter()
            .enumerate()
            .map(|(i, (title, html))| Slide {
                position: i,
                title: title.to_string(),
                html: html.to_string(),
            })
            .collect(),
        global_css: ".x{}".to_string(),
    }
}

#[test]
fn topic_is_completed_unless_it_mentions_slides() {
    assert_eq!(
        enhance_topic("Rust".to_string()),
        format!("Rust{}", DECK_REQUEST)
    );
    assert_eq!(
        enhance_topic("Five SLIDES on Rust".to_string()),
        "Five SLIDES on Rust"
    );
    assert_eq!(
        enhance_topic_given("X".to_string(), "a slide"),
        "X"
    );
    assert!(DECK_REQUEST.starts_with("\n\nPlease produce a complete presentation deck of 6 to 10"));
}

#[test]
fn topic_is_completed_once() {
    for topic in ["Rust", "", "ΑΣ", "a SLIDE", "Über Σ"] {
        let once = enhance_topic(topic.to_string());
        assert_eq!(once == topic, topic.to_lowercase().contains("slide"));
        assert_eq!(enhance_topic(once.clone()), once);
    }
    let wrapped = enhance_topic("Σ".to_string());
    assert!(wrapped.starts_with("Σ\n\n") && wrapped.contains("deck of 6 to 10 slides"));
}

#[test]
fn deck_answers() {
    assert_eq!(deck_answer(200), Ok(()));
    assert_eq!(deck_answer(299), Ok(()));
    assert_eq!(
        deck_answer(404),
        Err("slides endpoint returned 404 Not Found".to_string())
    );
    assert_eq!(
        deck_answer(300),
        Err("slides endpoint returned 300 Multiple Choices".to_string())
    );
    assert_eq!(deck_answer(199).unwrap_err(), "slides endpoint returned 199 <unknown status code>");
}

#[test]
fn tags_are_stripped() {
    assert_eq!(strip_tags("<b>a</b> &amp; b"), "a & b");
    assert_eq!(strip_tags("a > b"), "a  b");
    assert_eq!(strip_tags("a < b"), "a ");
    assert_eq!(strip_tags("<<x>y>z"), "z");
    assert_eq!(strip_tags("plain"), "plain");
}

#[test]
fn escaped_text_comes_back() {
    for text in ["", "a < b > \"c\" 'd'", "R&D & <x>", "&amp;", "&copy; <&>"] {
        assert_eq!(unescape_entities(&html_escape(text)), text);
    }
    assert_eq!(unescape_entities(&html_escape("&lt;")), "<");
}

#[test]
fn entities_are_replaced_in_order() {
    assert_eq!(unescape_entities("&lt;a&gt; &quot;b&quot; &#39;c&#39;&nbsp;d"), "<a> \"b\" 'c' d");
    assert_eq!(unescape_entities("&amp;lt;"), "<");
    assert_eq!(unescape_entities("&amp;amp;"), "&amp;");
}

#[test]
fn html_text_is_escaped() {
    assert_eq!(html_escape("<a & \"b\">'"), "&lt;a &amp; &quot;b&quot;&gt;'");
}

#[test]
fn bullets_come_from_list_items() {
    assert_eq!(
        extract_bullets("<ul><li>One</li><li class='x'><b>Two</b></li><li></li></ul>"),
        vec!["One", "Two"]
    );
    let many: String = (0..12).map(|i| format!("<li>{i}</li>")).collect();
    assert_eq!(
        extract_bullets(&many),
        vec!["0", "1", "2", "3", "4", "5", "6", "7"]
    );
    assert_eq!(extract_bullets("<li>One</li><li>open"), vec!["One"]);
}

#[test]
fn bullets_fall_back_to_lines() {
    assert_eq!(
        extract_bullets("<h1>T</h1>\r\n\n  a \n<p>b</p>\nc\nd\ne\nf\ng"),
        vec!["T", "a", "b", "c", "d", "e"]
    );
    assert_eq!(extract_bullets(""), Vec::<String>::new());
}

#[test]
fn deck_becomes_pages() {
    let pages = html_to_pptx_slides(&deck(&[("<i>T</i>", "<li>a</li>"), ("U", "x")]));
    assert_eq!(pages.len(), 2);
    assert_eq!(pages[0].title, "T");
    assert_eq!(pages[0].bullets, vec!["a"]);
    assert_eq!(pages[1].bullets, vec!["x"]);
}

#[test]
fn preview_document() {
    let html = render_preview_html(&deck(&[("A<b>&</b>\"", "<p>1</p>"), ("B", "<p>2</p>")]));
    assert_eq!(
        html,
        "<!DOCTYPE html>\n<html>\n<head>\n<meta charset=\"utf-8\">\n<title>A&amp;&quot;</title>\n<style>\nbody { background: #2a2a2e; margin: 0; padding: 24px; display: flex; flex-direction: column; align-items: center; gap: 24px; }\n.page-wrap { width: 1280px; height: 720px; overflow: hidden; box-shadow: 0 8px 32px rgba(0,0,0,.45); background: #fff; }\n.x{}\n</style>\n</head>\n<body>\n<div class=\"page-wrap\">\n<p>1</p>\n</div>\n\n<div class=\"page-wrap\">\n<p>2</p>\n</div>\n</body>\n</html>\n"
    );
    let empty = render_preview_html(&deck(&[]));
    assert!(empty.contains("<title>Slides</title>"));
}

#[test]
fn request_body_is_json() {
    let body = deck_request_body("say \"hi\"", 1234);
    let value: serde_json::Value = serde_json::from_str(&body).unwrap();
    assert_eq!(value["model"].as_str(), Some("glm-5.3-flash"));
    assert_eq!(value["stream"].as_bool(), Some(true));
    assert_eq!(value["conversation_id"].as_str(), Some("zagent-slides-1234"));
    assert_eq!(value["messages"][0]["role"].as_str(), Some("user"));
    assert_eq!(value["messages"][0]["content"].as_str(), Some("say \"hi\""));
    assert_eq!(value["messages"].as_array().unwrap().len(), 1);
    assert_eq!(value.as_object().unwrap().len(), 4);
    assert_eq!(slides_uri(SIDECAR_BASE_URL), "http://127.0.0.1:3001/v1/slides");
    assert_eq!(bearer("t"), "Bearer t");
}

#[test]
fn stream_lines() {
    assert!(matches!(read_stream_line("event: x"), StreamLine::Skip));
    assert!(matches!(read_stream_line("data:x"), StreamLine::Skip));
    assert!(matches!(read_stream_line("data: [DONE]"), StreamLine::Done));
    match read_stream_line("data: {}") {
        StreamLine::Payload(p) => assert_eq!(p, "{}"),
        _ => panic!("no payload"),
    }
}

#[test]
fn stages_of_operations() {
    let tool = |name: &str| Some(name.to_string());
    assert_eq!(op_stage(&tool("insert_page"), Some(3)), "Adding slide 3…");
    assert_eq!(op_stage(&tool("update_page"), Some(12)), "Updating slide 12…");
    assert_eq!(op_stage(&tool("remove_slides"), None), "Trimming slides…");
    assert_eq!(op_stage(&tool("insert_page"), None), "Styling the deck…");
    assert_eq!(op_stage(&None, Some(1)), "Styling the deck…");
}

#[test]
fn collector_returns_the_first_deck() {
    let mut c = DeckCollector::new(false);
    match c.on_event(Some(SlidesEvent::Progress { chars: Some(40) })) {
        DeckStep::Continue { title } => {
            assert_eq!(title, Some("Authoring deck… 40 chars".to_string()))
        }
        _ => panic!("stopped"),
    }
    assert!(matches!(
        c.on_event(Some(SlidesEvent::Progress { chars: None })),
        DeckStep::Continue { title: None }
    ));
    assert!(matches!(c.on_event(None), DeckStep::Continue { title: None }));
    assert!(matches!(
        c.on_event(Some(SlidesEvent::OpError { error: "x".to_string() })),
        DeckStep::Continue { title: None }
    ));
    assert!(matches!(
        c.on_event(Some(SlidesEvent::Error { error: "late".to_string() })),
        DeckStep::Continue { title: None }
    ));
    match c.on_event(Some(SlidesEvent::Deck(deck(&[("T", "")])))) {
        DeckStep::Deck(d) => assert_eq!(d.slides.len(), 1),
        _ => panic!("no deck"),
    }
}

#[test]
fn collector_reports_the_last_error() {
    let mut c = DeckCollector::new(false);
    c.on_event(Some(SlidesEvent::Error { error: "one".to_string() }));
    c.on_event(Some(SlidesEvent::Error { error: "two".to_string() }));
    assert_eq!(c.finish(), "two");
    assert_eq!(DeckCollector::new(true).finish(), "no deck event received");
}

#[test]
fn collector_can_stop_at_errors() {
    let mut c = DeckCollector::new(true);
    match c.on_event(Some(SlidesEvent::Error { error: "bad".to_string() })) {
        DeckStep::Failed { error } => assert_eq!(error, "bad"),
        _ => panic!("went on"),
    }
}

#[test]
fn topics() {
    let action = |t: Option<&str>| GenerateSlides { topic: t.map(|s| s.to_string()) };
    assert_eq!(pick_topic(&action(Some(" a \n")), Some("c".to_string())), "a");
    assert_eq!(pick_topic(&action(Some(" \t")), Some(" c ".to_string())), "c");
    assert_eq!(pick_topic(&action(None), None), "");
    assert_eq!(current_topic(Some("\u{a0}x\u{2003}".to_string())), "x");
    match generate_slides(&action(None), Some("  ".to_string())) {
        SlidesStart::NoTopic { message } => assert_eq!(message, NO_TOPIC),
        _ => panic!("a topic"),
    }
    match generate_slides(&action(Some(" My slide deck ")), None) {
        SlidesStart::Request { status, topic } => {
            assert_eq!(status, REQUESTING);
            assert_eq!(topic, "My slide deck");
        }
        _ => panic!("no topic"),
    }
}

#[test]
fn job_runs_to_its_end() {
    let d = deck(&[("T", "<li>a</li>"), ("U", "")]);
    let (stage, action) = advance(JobKind::Tool, JobStage::Deck, JobEvent::Deck(Ok(d.clone())));
    match action {
        JobAction::MakeDirectory { status } => {
            assert_eq!(status, "Deck ready: 2 slides — writing files…")
        }
        _ => panic!("no directory"),
    }
    let (stage, action) = advance(JobKind::Tool, stage, JobEvent::Written(Ok(())));
    match action {
        JobAction::WritePreview { html } => assert_eq!(html, render_preview_html(&d)),
        _ => panic!("no preview"),
    }
    let (stage, action) = advance(JobKind::Tool, stage, JobEvent::Written(Ok(())));
    match action {
        JobAction::WritePptx { status, bytes } => {
            assert_eq!(status, Some("Packaging editable PPTX…".to_string()));
            assert_eq!(
                bytes,
                zagent::pptx::build(&html_to_pptx_slides(&d), "presentation")
            );
        }
        _ => panic!("no package"),
    }
    let (stage, action) = advance(JobKind::Tool, stage, JobEvent::Written(Ok(())));
    assert!(matches!(action, JobAction::Succeed { count: 2 }));
    let (_, action) = advance(JobKind::Tool, stage, JobEvent::Written(Ok(())));
    assert!(matches!(action, JobAction::Wait));
}

#[test]
fn job_failures() {
    let fail = |kind: JobKind, stage: JobStage, event: JobEvent| match advance(kind, stage, event) {
        (JobStage::Finished, JobAction::Fail { error }) => error,
        _ => panic!("no failure"),
    };
    assert_eq!(
        fail(JobKind::Action, JobStage::Deck, JobEvent::Deck(Err("x".to_string()))),
        "Slides failed: x"
    );
    assert_eq!(
        fail(JobKind::Tool, JobStage::Deck, JobEvent::Deck(Err("x".to_string()))),
        "slides pipeline failed: x"
    );
    let d = deck(&[]);
    assert_eq!(
        fail(
            JobKind::Tool,
            JobStage::Directory { deck: d.clone() },
            JobEvent::Written(Err("disk".to_string()))
        ),
        "disk"
    );
    assert_eq!(
        fail(
            JobKind::Action,
            JobStage::Preview { deck: d },
            JobEvent::Written(Err("disk".to_string()))
        ),
        "Slides failed: disk"
    );
    assert_eq!(
        fail(
            JobKind::Action,
            JobStage::Pptx { count: 1 },
            JobEvent::Written(Err("e".to_string()))
        ),
        "Slides failed: e"
    );
    match advance(JobKind::Action, JobStage::Deck, JobEvent::Deck(Ok(deck(&[("a", "b")])))) {
        (_, JobAction::MakeDirectory { status }) => {
            assert_eq!(status, "Deck ready: 1 slides. Packaging PPTX…")
        }
        _ => panic!("no directory"),
    }
}

#[test]
fn too_many_slides_for_a_package() {
    let one = Slide { position: 0, title: String::new(), html: String::new() };
    let d = SlideDeckEvent {
        conversation_id: String::new(),
        slides: vec![one; 32763],
        global_css: String::new(),
    };
    let (stage, action) = advance(
        JobKind::Tool,
        JobStage::Preview { deck: d },
        JobEvent::Written(Ok(())),
    );
    assert!(matches!(stage, JobStage::Finished));
    assert!(matches!(action, JobAction::TooLarge));
}

#[test]
fn summaries() {
    assert_eq!(
        action_summary(3, "/a.html", "/b.pptx"),
        "Generated 3 slides.\nPreview: /a.html\nPPTX: /b.pptx"
    );
    let out = GenerateSlidesToolOutput::Success(GeneratedDeck {
        slide_count: 3,
        html_path: "/a.html".to_string(),
        pptx_path: "/b.pptx".to_string(),
    });
    assert_eq!(
        out.content(),
        "Generated 3 slides.\nHTML preview: /a.html\nPPTX: /b.pptx"
    );
    let out = GenerateSlidesToolOutput::Error { error: "no".to_string() };
    assert_eq!(out.content(), "no");
}

#[test]
fn slides_tool_input() {
    let input = GenerateSlidesToolInput { prompt: "é".repeat(100) };
    assert_eq!(
        input.authorization(),
        format!("Generate a slide deck: {}", "é".repeat(80))
    );
    let (status, topic) = GenerateSlidesToolInput { prompt: "slides".to_string() }.request();
    assert_eq!(status, REQUESTING);
    assert_eq!(topic, "slides");
}

use std::io::Read;
use zagent::archive::ZipWriter;
use zagent::document::{
    cap_chars, docx_output, docx_path, document_text, packed_output, pdf_output, read_docx,
    unescape_xml_entities, write_docx, MemberError, ReadDocxToolOutput, ReadPdfToolOutput,
    WriteDocxToolInput, WriteDocxToolOutput,
};
use zagent::text::str_trim;

const NOTE: &str = "\n\n[document truncated — ask again with a narrower target or split the file]";

fn package(xml: &[u8]) -> Vec<u8> {
    let mut writer = ZipWriter::new();
    writer.add("word/document.xml", xml);
    writer.finish()
}

fn read(bytes: &[u8]) -> (usize, String) {
    match read_docx(bytes) {
        ReadDocxToolOutput::Success { paragraphs, text } => (paragraphs, text),
        ReadDocxToolOutput::Error { error } => panic!("{}", error),
    }
}

fn read_error(bytes: &[u8]) -> String {
    match read_docx(bytes) {
        ReadDocxToolOutput::Success { .. } => panic!("read"),
        ReadDocxToolOutput::Error { error } => error,
    }
}

fn input(title: Option<&str>, paragraphs: &[&str]) -> WriteDocxToolInput {
    WriteDocxToolInput {
        path: "p".to_string(),
        title: title.map(|t| t.to_string()),
        paragraphs: paragraphs.iter().map(|p| p.to_string()).collect(),
    }
}

fn document_xml(bytes: &[u8]) -> String {
    let mut archive = zip::ZipArchive::new(std::io::Cursor::new(bytes)).unwrap();
    let mut text = String::new();
    archive
        .by_name("word/document.xml")
        .unwrap()
        .read_to_string(&mut text)
        .unwrap();
    text
}

#[test]
fn xml_entities() {
    assert_eq!(
        unescape_xml_entities("&lt;&gt;&quot;&apos;&#39;&amp;".to_string()),
        "<>\"''&"
    );
    assert_eq!(unescape_xml_entities("&amp;lt;".to_string()), "<");
}

#[test]
fn capping() {
    let short = "a".repeat(120_000);
    assert_eq!(cap_chars(short.clone()), short);
    assert_eq!(cap_chars("a".repeat(120_001)), format!("{}{}", short, NOTE));
    let wide = "é".repeat(60_001);
    assert_eq!(cap_chars(wide), format!("{}{}", "é".repeat(60_000), NOTE));
    let odd = format!("a{}", "€".repeat(40_000));
    assert_eq!(cap_chars(odd), format!("a{}{}", "€".repeat(39_999), NOTE));
}

#[test]
fn text_of_a_document() {
    let xml = "<w:p><w:r><w:t>One </w:t></w:r><w:r><w:t xml:space=\"preserve\"> two</w:t></w:r></w:p><w:p/><w:p><w:t>  </w:t></w:p><w:p><w:t>a &amp; b</w:t></w:p><w:sectPr/>";
    let (count, text) = document_text(xml);
    assert_eq!(count, 2);
    assert_eq!(text, "One  two\na & b");
    assert_eq!(read(&package(xml.as_bytes())), (2, text));
    assert_eq!(document_text(""), (0, String::new()));
}

#[test]
fn unreadable_documents() {
    assert!(read_error(b"not a zip").starts_with("read as zip archive: invalid Zip archive: "));
    let mut writer = ZipWriter::new();
    writer.add("other.xml", b"");
    assert_eq!(
        read_error(&writer.finish()),
        "word/document.xml not found — is this a real .docx file?: specified file not found in archive"
    );
    assert_eq!(
        read_error(&package(&[0xff, 0xfe])),
        "stream did not contain valid UTF-8"
    );
    let error = |e: MemberError| match docx_output(Err(e)) {
        ReadDocxToolOutput::Error { error } => error,
        _ => panic!("read"),
    };
    assert_eq!(error(MemberError::NotAnArchive("x".to_string())), "read as zip archive: x");
    assert_eq!(error(MemberError::Unreadable("x".to_string())), "x");
    assert_eq!(
        error(MemberError::NotFound("x".to_string())),
        "word/document.xml not found — is this a real .docx file?: x"
    );
    let ok = docx_output(Ok("<w:p><w:t>t</w:t></w:p>".to_string()));
    assert_eq!(ok.content(), "1 non-empty paragraphs:\n\nt");
}

#[test]
fn written_document_reads_back() {
    let lines = ["# Head", "## Sub", "plain <b> \"q\" 'a' &", "", "two\nlines\r", "#no"];
    let (bytes, count) = write_docx(&input(Some("The & title"), &lines)).unwrap();
    assert_eq!(count, 7);
    assert_eq!(
        read(&bytes),
        (
            6,
            "The & title\nHead\nSub\nplain <b> \"q\" 'a' &\ntwolines\n#no".to_string()
        )
    );
    let xml = document_xml(&bytes);
    let chunks: Vec<&str> = xml.split("</w:p>").collect();
    assert_eq!(chunks.len(), 8);
    assert!(chunks[0].contains("<w:pStyle w:val=\"Heading1\" />"));
    assert!(chunks[1].contains("<w:pStyle w:val=\"Heading1\" />"));
    assert!(chunks[2].contains("<w:pStyle w:val=\"Heading2\" />"));
    assert!(!chunks[3].contains("w:pStyle"));
    assert!(chunks[3].contains(">plain &lt;b&gt; &quot;q&quot; &apos;a&apos; &amp;</w:t>"));
    assert!(!chunks[7].contains("<w:t"));
    let (bytes, _) = write_docx(&input(None, &["<w:pStyle w:val=\"Heading1\" />", "#x"])).unwrap();
    assert!(!document_xml(&bytes).contains("<w:pStyle"));
}

#[test]
fn paragraphs_are_shown_without_space_at_their_ends() {
    let lines = ["  a < b\t", "\u{3000}\u{a0}", " \u{200b} ", "# \u{2028}head "];
    let (bytes, count) = write_docx(&input(None, &lines)).unwrap();
    assert_eq!(count, 4);
    assert_eq!(read(&bytes), (3, "a < b\n\u{200b}\nhead".to_string()));
}

#[test]
fn white_space_is_trimmed() {
    let space = "\u{9}\u{a}\u{b}\u{c}\u{d}\u{20}\u{85}\u{a0}\u{1680}\u{2000}\u{2001}\u{2002}\u{2003}\u{2004}\u{2005}\u{2006}\u{2007}\u{2008}\u{2009}\u{200a}\u{2028}\u{2029}\u{202f}\u{205f}\u{3000}";
    assert_eq!(str_trim(space), "");
    assert_eq!(str_trim(&format!("{}x y{}", space, space)), "x y");
    let listed: Vec<char> = ('\0'..=char::MAX).filter(|c| c.is_whitespace()).collect();
    assert_eq!(listed, space.chars().collect::<Vec<char>>());
    for other in ["\u{8}", "\u{1c}", "\u{180e}", "\u{200b}", "\u{feff}"] {
        assert_eq!(str_trim(other), other);
    }
}

#[test]
fn empty_document() {
    let (bytes, count) = write_docx(&input(None, &[])).unwrap();
    assert_eq!(count, 0);
    assert_eq!(read(&bytes), (0, String::new()));
}

#[test]
fn packing_failures() {
    assert_eq!(
        packed_output(Err("full".to_string()), 3).unwrap_err(),
        "serialize docx: full"
    );
    assert_eq!(packed_output(Ok(vec![1]), 3).unwrap(), (vec![1], 3));
}

#[test]
fn document_paths() {
    assert_eq!(docx_path("a/report"), "a/report.docx");
    assert_eq!(docx_path("report.docx"), "report.docx");
    assert_eq!(docx_path("v1.2"), "v1.2.docx");
    assert_eq!(docx_path("x"), "x.docx");
}

#[test]
fn document_results() {
    let out = WriteDocxToolOutput::Success { path: "/p".to_string(), paragraphs: 4 };
    assert_eq!(out.content(), "Wrote 4 paragraphs to /p");
    let out = WriteDocxToolOutput::Error { error: "e".to_string() };
    assert_eq!(out.content(), "e");
    let out = ReadDocxToolOutput::Error { error: "e".to_string() };
    assert_eq!(out.content(), "e");
}

#[test]
fn pdf_results() {
    assert_eq!(pdf_output(Ok("text".to_string())).content(), "text");
    assert_eq!(
        pdf_output(Err("bad".to_string())).content(),
        "PDF extraction failed: bad"
    );
    match pdf_output(Ok("x".repeat(130_000))) {
        ReadPdfToolOutput::Success { text } => assert_eq!(text.len(), 120_000 + NOTE.len()),
        _ => panic!("an error"),
    }
}

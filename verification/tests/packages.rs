use std::io::{Cursor, Read};
use zagent::archive::{crc32, ZipWriter};
use zagent::pptx::{build, slide_xml, theme_xml, xml_escape, Slide};

fn member(bytes: &[u8], name: &str) -> String {
    let mut archive = zip::ZipArchive::new(Cursor::new(bytes)).unwrap();
    let mut file = archive.by_name(name).unwrap();
    let mut text = String::new();
    file.read_to_string(&mut text).unwrap();
    text
}

fn names(bytes: &[u8]) -> Vec<String> {
    let mut archive = zip::ZipArchive::new(Cursor::new(bytes)).unwrap();
    let mut out = Vec::new();
    for i in 0..archive.len() {
        out.push(archive.by_index(i).unwrap().name().to_string());
    }
    out
}

fn page(title: &str, bullets: &[&str]) -> Slide {
    Slide {
        title: title.to_string(),
        bullets: bullets.iter().map(|b| b.to_string()).collect(),
    }
}

#[test]
fn crc_of_check_string() {
    assert_eq!(crc32(b"123456789"), 0xCBF4_3926);
    assert_eq!(crc32(b""), 0);
}

#[test]
fn empty_archive_is_its_end_record() {
    let bytes = ZipWriter::new().finish();
    let mut expected = vec![0x50, 0x4b, 0x05, 0x06];
    expected.extend_from_slice(&[0u8; 18]);
    assert_eq!(bytes, expected);
}

#[test]
fn archive_reads_back() {
    let mut writer = ZipWriter::new();
    writer.add("a.txt", b"hello");
    writer.add("dir/\u{e9}.bin", &[0, 1, 2, 255]);
    writer.add("empty", b"");
    let bytes = writer.finish();
    assert_eq!(names(&bytes), vec!["a.txt", "dir/\u{e9}.bin", "empty"]);
    let mut archive = zip::ZipArchive::new(Cursor::new(&bytes)).unwrap();
    let mut data = Vec::new();
    archive
        .by_name("dir/\u{e9}.bin")
        .unwrap()
        .read_to_end(&mut data)
        .unwrap();
    assert_eq!(data, vec![0, 1, 2, 255]);
    assert_eq!(member(&bytes, "a.txt"), "hello");
    assert_eq!(member(&bytes, "empty"), "");
}

#[test]
fn local_header_bytes() {
    let mut writer = ZipWriter::new();
    writer.add("a", b"");
    let bytes = writer.finish();
    assert_eq!(&bytes[0..4], &[0x50, 0x4b, 0x03, 0x04]);
    assert_eq!(&bytes[4..8], &[20, 0, 0, 8]);
    assert_eq!(&bytes[10..14], &[0, 0, 0x21, 0]);
    assert_eq!(&bytes[26..31], &[1, 0, 0, 0, b'a']);
}

#[test]
fn xml_escape_replaces_markup_and_drops_controls() {
    assert_eq!(
        xml_escape("a<b> & \"c\" 'd'\u{1}\u{b}\t\n"),
        "a&lt;b&gt; &amp; &quot;c&quot; 'd'\t\n"
    );
    assert_eq!(xml_escape(""), "");
}

#[test]
fn package_holds_every_part() {
    let slides = vec![page("One", &["a", "b"]), page("Two & more", &[])];
    let bytes = build(&slides, "My <deck>");
    assert_eq!(
        names(&bytes),
        vec![
            "[Content_Types].xml",
            "_rels/.rels",
            "docProps/core.xml",
            "docProps/app.xml",
            "ppt/presentation.xml",
            "ppt/_rels/presentation.xml.rels",
            "ppt/slideMasters/slideMaster1.xml",
            "ppt/slideMasters/_rels/slideMaster1.xml.rels",
            "ppt/slideLayouts/slideLayout1.xml",
            "ppt/slideLayouts/_rels/slideLayout1.xml.rels",
            "ppt/theme/theme1.xml",
            "ppt/slides/slide1.xml",
            "ppt/slides/_rels/slide1.xml.rels",
            "ppt/slides/slide2.xml",
            "ppt/slides/_rels/slide2.xml.rels",
        ]
    );
    assert!(member(&bytes, "docProps/core.xml").contains("My &lt;deck&gt;"));
    assert_eq!(member(&bytes, "ppt/slides/slide1.xml"), slide_xml(&slides[0]));
    assert_eq!(member(&bytes, "ppt/theme/theme1.xml"), theme_xml());
    let presentation = member(&bytes, "ppt/presentation.xml");
    assert!(presentation.contains("id=\"256\""));
    assert!(presentation.contains("id=\"257\""));
    assert!(!presentation.contains("id=\"258\""));
    let second = member(&bytes, "ppt/slides/slide2.xml");
    assert!(second.contains("Two &amp; more"));
}

#[test]
fn package_without_slides() {
    let bytes = build(&[], "t");
    assert_eq!(names(&bytes).len(), 11);
    assert!(member(&bytes, "ppt/_rels/presentation.xml.rels").contains("Id=\"rId2\""));
}

#[test]
fn slide_lists_its_bullets_in_order() {
    let xml = slide_xml(&page("T", &["first", "second"]));
    let a = xml.find("first").unwrap();
    let b = xml.find("second").unwrap();
    assert!(a < b);
    assert!(xml.find(">T<").unwrap() < a);
}

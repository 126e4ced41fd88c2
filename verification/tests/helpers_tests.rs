use docx_extractor::body::{body_is_parsable, heading_level, parse_body, try_parse_body};
use docx_extractor::meta::parse_core_props;
use docx_extractor::model::Section;
use docx_extractor::rels::{parse_relationships, Rels};
use docx_extractor::xml::read_xml;
use docx_extractor::images::{is_unsafe_path, mime_type_of};
use docx_extractor::parts::{find_attr_in_open_tag, split_by_tag};
use docx_extractor::text::lossy;

#[test]
fn heading_level_valid_range() {
    for i in 1u8..=9 {
        assert_eq!(heading_level(&format!("Heading{i}")), Some(i));
        assert_eq!(heading_level(&format!("heading{i}")), Some(i));
        assert_eq!(heading_level(&format!("HEADING{i}")), Some(i));
    }
}

#[test]
fn heading_level_zero_rejected() {
    assert_eq!(heading_level("Heading0"), None);
}

#[test]
fn heading_level_ten_rejected() {
    assert_eq!(heading_level("Heading10"), None);
}

#[test]
fn heading_level_non_heading_styles() {
    assert_eq!(heading_level("Normal"), None);
    assert_eq!(heading_level(""), None);
    assert_eq!(heading_level("Body Text"), None);
    assert_eq!(heading_level("Title"), None);
}

#[test]
fn heading_level_trims_whitespace() {
    assert_eq!(heading_level("  Heading1  "), Some(1));
}

#[test]
fn lossy_valid_utf8_is_unchanged() {
    assert_eq!(lossy(b"hello world"), "hello world");
}

#[test]
fn lossy_invalid_utf8_returns_replacement() {
    let result = lossy(&[0xFF, 0xFE, 0x41]);
    assert!(result.contains('\u{FFFD}'));
    assert!(result.ends_with('A'));
}

#[test]
fn lossy_empty_is_empty() {
    assert_eq!(lossy(b""), "");
}

#[test]
fn heading_level_skips_separator_before_digits() {
    assert_eq!(heading_level("Heading 3"), Some(3));
    assert_eq!(heading_level("heading_12"), None);
    assert_eq!(heading_level("Heading"), None);
}

#[test]
fn split_by_tag_finds_entries_and_skips_longer_names() {
    let xml = r#"<w:footnotes><w:footnoteReference w:id="9"/><w:footnote w:id="1"><w:p/></w:footnote><w:footnote w:id="2"/></w:footnotes>"#;
    let chunks = split_by_tag(xml, "footnote");
    assert_eq!(chunks.len(), 2);
    assert_eq!(chunks[0].opening, r#"<w:footnote w:id="1">"#);
    assert_eq!(chunks[0].full, r#"<w:footnote w:id="1"><w:p/></w:footnote>"#);
    assert_eq!(chunks[1].opening, r#"<w:footnote w:id="2"/>"#);
    assert_eq!(chunks[1].full, r#"<w:footnote w:id="2"/>"#);
}

#[test]
fn split_by_tag_stops_at_unclosed_entry() {
    let xml = r#"<w:comment w:id="0"><w:p/></w:comment><w:comment w:id="1"><w:p/>"#;
    let chunks = split_by_tag(xml, "comment");
    assert_eq!(chunks.len(), 1);
    assert_eq!(chunks[0].full, r#"<w:comment w:id="0"><w:p/></w:comment>"#);
}

#[test]
fn find_attr_in_open_tag_reads_local_names() {
    let tag = r#"<w:comment w:id="7" w:author="Ann">"#;
    assert_eq!(find_attr_in_open_tag(tag, "id"), Some("7".to_string()));
    assert_eq!(find_attr_in_open_tag(tag, "author"), Some("Ann".to_string()));
    assert_eq!(find_attr_in_open_tag(tag, "date"), None);
}

#[test]
fn mime_types_by_extension_any_case() {
    assert_eq!(mime_type_of("word/media/image1.PNG"), Some("image/png".to_string()));
    assert_eq!(mime_type_of("word/media/a.jpeg"), Some("image/jpeg".to_string()));
    assert_eq!(mime_type_of("word/media/a.jpg"), Some("image/jpeg".to_string()));
    assert_eq!(mime_type_of("word/media/a.tif"), Some("image/tiff".to_string()));
    assert_eq!(mime_type_of("word/media/a.webp"), Some("image/webp".to_string()));
    assert_eq!(mime_type_of("word/media/a.emf"), None);
    assert_eq!(mime_type_of("word/media/noext"), None);
}

#[test]
fn unsafe_image_paths() {
    assert!(is_unsafe_path("word/../secret.png"));
    assert!(is_unsafe_path("/etc/a.png"));
    assert!(is_unsafe_path("\\a.png"));
    assert!(!is_unsafe_path("word/media/image1.png"));
}

#[test]
fn parse_body_of_a_header_part() {
    let rels = Rels::new();
    let xml = "<w:hdr><w:p><w:r><w:t> Head </w:t></w:r></w:p></w:hdr>";
    assert!(body_is_parsable(xml, &rels));
    let b = parse_body(xml, &rels);
    assert_eq!(b.sections.len(), 1);
    assert!(matches!(&b.sections[0], Section::Paragraph { text, .. } if text == "Head"));
    assert!(try_parse_body(xml, &rels).is_some());
}

#[test]
fn try_parse_body_refuses_unparsable_parts() {
    let rels = Rels::new();
    let xml = "<w:body><w:p><w:r><w:t>abc</w:t></w:r><w:ins><w:p><w:r><w:t>z</w:t></w:r></w:p></w:ins></w:p></w:body>";
    assert!(!body_is_parsable(xml, &rels));
    assert!(try_parse_body(xml, &rels).is_none());
}

#[test]
fn text_outside_a_container_is_ignored() {
    let rels = Rels::new();
    let b = parse_body("<w:p><w:r><w:t>loose</w:t></w:r></w:p>", &rels);
    assert!(b.sections.is_empty());
}

#[test]
fn relationships_by_type() {
    let xml = r#"<Relationships>
<Relationship Id="r1" Type="http://x/image" Target="media/a.png"/>
<Relationship Id="r2" Type="http://x/hyperlink" Target="https://example.com"/>
<Relationship Id="r3" Type="http://x/header" Target="header1.xml"/>
<Relationship Id="r4" Type="http://x/footer" Target="footer1.xml"/>
<Relationship Id="r5" Type="http://x/styles" Target="styles.xml"/>
<Relationship Id="r1" Type="http://x/image" Target="media/b.png"/>
</Relationships>"#;
    let rels = parse_relationships(read_xml(xml)).unwrap();
    assert_eq!(rels.images.get("r1"), Some("word/media/b.png".to_string()));
    assert_eq!(rels.images.entries.len(), 1);
    assert_eq!(rels.hyperlinks.get("r2"), Some("https://example.com".to_string()));
    assert_eq!(rels.headers.get("r3"), Some("word/header1.xml".to_string()));
    assert_eq!(rels.footers.get("r4"), Some("word/footer1.xml".to_string()));
    assert_eq!(rels.images.get("r5"), None);
}

#[test]
fn relationships_xml_error() {
    assert!(parse_relationships(read_xml("<Relationships></Other>")).is_err());
}

#[test]
fn core_properties_later_value_wins() {
    let xml = "<cp:coreProperties><dc:title>One</dc:title><dc:title>Two</dc:title><cp:lastModifiedBy>Sam</cp:lastModifiedBy></cp:coreProperties>";
    let m = parse_core_props(read_xml(xml)).unwrap().unwrap();
    assert_eq!(m.title.as_deref(), Some("Two"));
    assert_eq!(m.last_modified_by.as_deref(), Some("Sam"));
    assert!(parse_core_props(read_xml("<cp:coreProperties/>")).unwrap().is_none());
}

#[test]
fn rel_map_gives_back_what_was_set() {
    let mut m = docx_extractor::rels::RelMap::new();
    m.insert("a".to_string(), "1".to_string());
    m.insert("b".to_string(), "2".to_string());
    m.insert("a".to_string(), "3".to_string());
    assert_eq!(m.get("a"), Some("3".to_string()));
    assert_eq!(m.get("b"), Some("2".to_string()));
    assert_eq!(m.get("c"), None);
    assert_eq!(m.values(), vec!["3".to_string(), "2".to_string()]);
}

#[test]
fn comment_anchor_is_an_offset_into_the_trimmed_text() {
    let rels = Rels::new();
    let xml = r#"<w:body><w:p><w:r><w:t>  </w:t></w:r><w:commentRangeStart w:id="1"/><w:r><w:t>ab</w:t></w:r><w:commentRangeEnd w:id="1"/></w:p></w:body>"#;
    let r = parse_body(xml, &rels);
    assert_eq!(r.sections.len(), 1);
    assert!(matches!(&r.sections[0], Section::Paragraph { text, .. } if text == "ab"));
    let anchor = r.comment_anchors.iter().find(|(id, _)| *id == 1).unwrap().1;
    assert_eq!((anchor.section_index, anchor.char_start, anchor.char_end), (0, 0, 2));
}

#[test]
fn anchors_stay_within_the_trimmed_text() {
    let rels = Rels::new();
    let xml = r#"<w:body><w:p><w:r><w:t>a</w:t></w:r><w:ins><w:r><w:t>b  </w:t></w:r></w:ins><w:commentRangeStart w:id="2"/><w:r><w:t> </w:t></w:r></w:p><w:p><w:r><w:t>next</w:t></w:r><w:commentRangeEnd w:id="2"/></w:p></w:body>"#;
    let r = parse_body(xml, &rels);
    assert_eq!(r.sections.len(), 2);
    let ins = r.revisions[0].anchor.unwrap();
    assert_eq!((ins.section_index, ins.char_start, ins.char_end), (0, 1, 2));
    let c = r.comment_anchors.iter().find(|(id, _)| *id == 2).unwrap().1;
    assert_eq!((c.section_index, c.char_start, c.char_end), (0, 2, 2));
}

#[test]
fn every_container_parses_like_body() {
    let rels = Rels::new();
    let inner = "<w:p><w:r><w:t>x</w:t></w:r></w:p>";
    for t in ["body", "hdr", "ftr", "footnote", "endnote", "comment"] {
        let r = parse_body(&format!("<w:{t}>{inner}</w:{t}>"), &rels);
        assert_eq!(r.sections.len(), 1, "{t}");
        assert!(matches!(&r.sections[0], Section::Paragraph { text, .. } if text == "x"));
    }
    assert!(parse_body(inner, &rels).sections.is_empty());
}

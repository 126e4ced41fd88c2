use std::io::{Cursor, Write as _};

use docx_extractor::extract::{extract, ExtractError, ExtractOptions};
use docx_extractor::model::{Document, RevisionKind, Section};
use zip::write::SimpleFileOptions;
use zip::ZipWriter;

// ── DOCX builder helpers ───────────────────────────────────────────────────────

const DOCUMENT_HEADER: &str = r#"<?xml version="1.0" encoding="UTF-8" standalone="yes"?>
<w:document xmlns:w="http://schemas.openxmlformats.org/wordprocessingml/2006/main">"#;

const DOCUMENT_FOOTER: &str = "</w:document>";

fn wrap_body(body_content: &str) -> String {
    format!("{DOCUMENT_HEADER}<w:body>{body_content}</w:body>{DOCUMENT_FOOTER}")
}

fn build_docx(document_xml: &str) -> Vec<u8> {
    build_multifile_docx(&[("word/document.xml", document_xml.as_bytes())])
}

fn build_multifile_docx(files: &[(&str, &[u8])]) -> Vec<u8> {
    let cursor = Cursor::new(Vec::new());
    let mut zip = ZipWriter::new(cursor);
    let opts = SimpleFileOptions::default();
    for (name, content) in files {
        zip.start_file(*name, opts).unwrap();
        zip.write_all(content).unwrap();
    }
    zip.finish().unwrap().into_inner()
}

fn run(bytes: Vec<u8>) -> Document {
    extract("input.docx", bytes, &ExtractOptions::default()).unwrap()
}

fn kind(s: &Section) -> &'static str {
    match s {
        Section::Heading { .. } => "heading",
        Section::Paragraph { .. } => "paragraph",
        Section::ListItem { .. } => "list_item",
        Section::Table { .. } => "table",
    }
}

fn text(s: &Section) -> &str {
    match s {
        Section::Heading { text, .. } | Section::Paragraph { text, .. } | Section::ListItem { text, .. } => text,
        Section::Table { .. } => panic!("a table has no text"),
    }
}

fn level(s: &Section) -> u8 {
    match s {
        Section::Heading { level, .. } | Section::ListItem { level, .. } => *level,
        _ => panic!("no level"),
    }
}

fn images(s: &Section) -> &Vec<String> {
    match s {
        Section::Heading { images, .. } | Section::Paragraph { images, .. } | Section::ListItem { images, .. } => images,
        Section::Table { .. } => panic!("a table has no images"),
    }
}

fn footnote_refs(s: &Section) -> &Vec<u32> {
    match s {
        Section::Heading { footnote_refs, .. }
        | Section::Paragraph { footnote_refs, .. }
        | Section::ListItem { footnote_refs, .. } => footnote_refs,
        Section::Table { .. } => panic!("a table has no notes"),
    }
}

fn rows(s: &Section) -> &Vec<Vec<docx_extractor::model::TableCell>> {
    match s {
        Section::Table { rows } => rows,
        _ => panic!("not a table"),
    }
}

// ── Tests ──────────────────────────────────────────────────────────────────────

#[test]
fn simple_paragraph() {
    let xml = wrap_body("<w:p><w:r><w:t>Hello World</w:t></w:r></w:p>");
    let doc = run(build_docx(&xml));
    let sections = &doc.sections;
    assert_eq!(sections.len(), 1);
    assert_eq!(kind(&sections[0]), "paragraph");
    assert_eq!(text(&sections[0]), "Hello World");
}

#[test]
fn heading_detection() {
    let xml = wrap_body(
        r#"<w:p>
            <w:pPr><w:pStyle w:val="Heading1"/></w:pPr>
            <w:r><w:t>My Title</w:t></w:r>
        </w:p>"#,
    );
    let doc = run(build_docx(&xml));
    let sections = &doc.sections;
    assert_eq!(sections.len(), 1);
    assert_eq!(kind(&sections[0]), "heading");
    assert_eq!(level(&sections[0]), 1);
    assert_eq!(text(&sections[0]), "My Title");
}

#[test]
fn all_heading_levels() {
    let mut body = String::new();
    for i in 1..=9 {
        body.push_str(&format!(
            r#"<w:p><w:pPr><w:pStyle w:val="Heading{i}"/></w:pPr>
            <w:r><w:t>H{i}</w:t></w:r></w:p>"#
        ));
    }
    let xml = wrap_body(&body);
    let doc = run(build_docx(&xml));
    let sections = &doc.sections;
    assert_eq!(sections.len(), 9);
    for (i, s) in sections.iter().enumerate() {
        assert_eq!(kind(s), "heading");
        assert_eq!(level(s) as u64, (i + 1) as u64);
    }
}

#[test]
fn simple_table() {
    let xml = wrap_body(
        r#"<w:tbl>
            <w:tr>
                <w:tc><w:p><w:r><w:t>A</w:t></w:r></w:p></w:tc>
                <w:tc><w:p><w:r><w:t>B</w:t></w:r></w:p></w:tc>
            </w:tr>
            <w:tr>
                <w:tc><w:p><w:r><w:t>C</w:t></w:r></w:p></w:tc>
                <w:tc><w:p><w:r><w:t>D</w:t></w:r></w:p></w:tc>
            </w:tr>
        </w:tbl>"#,
    );
    let doc = run(build_docx(&xml));
    let sections = &doc.sections;
    assert_eq!(sections.len(), 1);
    assert_eq!(kind(&sections[0]), "table");
    let rows = rows(&sections[0]);
    assert_eq!(rows.len(), 2);
    assert_eq!(rows[0][0].text, "A");
    assert_eq!(rows[0][1].text, "B");
    assert_eq!(rows[1][0].text, "C");
    assert_eq!(rows[1][1].text, "D");
}

#[test]
fn tracked_deletion_recorded_in_revisions() {
    // Deleted text is NOT in body text, but IS surfaced in revisions.
    let xml = wrap_body(
        r#"<w:p>
            <w:r><w:t>Keep</w:t></w:r>
            <w:del w:author="Jane" w:date="2024-01-15T10:30:00Z">
                <w:r><w:delText>Remove</w:delText></w:r>
            </w:del>
        </w:p>"#,
    );
    let doc = run(build_docx(&xml));
    let sections = &doc.sections;
    assert_eq!(sections.len(), 1);
    assert_eq!(text(&sections[0]), "Keep");
    let revisions = &doc.revisions;
    assert_eq!(revisions.len(), 1);
    assert_eq!(revisions[0].kind.name(), "delete");
    assert_eq!(revisions[0].text, "Remove");
    assert_eq!(revisions[0].author.as_deref(), Some("Jane"));
    assert_eq!(revisions[0].anchor.unwrap().section_index, 0);
}

#[test]
fn tracked_insertion_recorded_in_revisions() {
    // Inserted text IS in body, AND is surfaced in revisions.
    let xml = wrap_body(
        r#"<w:p>
            <w:r><w:t>Hello </w:t></w:r>
            <w:ins w:author="Jane" w:date="2024-01-15T10:30:00Z">
                <w:r><w:t>brave new </w:t></w:r>
            </w:ins>
            <w:r><w:t>world</w:t></w:r>
        </w:p>"#,
    );
    let doc = run(build_docx(&xml));
    let sections = &doc.sections;
    assert_eq!(text(&sections[0]), "Hello brave new world");
    let revisions = &doc.revisions;
    assert_eq!(revisions.len(), 1);
    assert_eq!(revisions[0].kind.name(), "insert");
    assert_eq!(revisions[0].text, "brave new ");
    assert_eq!(revisions[0].author.as_deref(), Some("Jane"));
    let anchor = revisions[0].anchor.unwrap();
    assert_eq!(anchor.section_index, 0);
    assert_eq!(anchor.char_start, 6);
    assert_eq!(anchor.char_end, 16);
}

#[test]
fn empty_paragraphs_skipped() {
    let xml = wrap_body(
        "<w:p/><w:p><w:r><w:t>   </w:t></w:r></w:p><w:p><w:r><w:t>Real</w:t></w:r></w:p>",
    );
    let doc = run(build_docx(&xml));
    let sections = &doc.sections;
    assert_eq!(sections.len(), 1);
    assert_eq!(text(&sections[0]), "Real");
}

#[test]
fn tab_and_linebreak_in_paragraph() {
    let xml = wrap_body(
        r#"<w:p>
            <w:r><w:t>A</w:t><w:tab/><w:t>B</w:t><w:br/><w:t>C</w:t></w:r>
        </w:p>"#,
    );
    let doc = run(build_docx(&xml));
    assert_eq!(text(&doc.sections[0]), "A\tB\nC");
}

#[test]
fn multiple_paragraphs_in_cell_joined() {
    let xml = wrap_body(
        r#"<w:tbl><w:tr><w:tc>
            <w:p><w:r><w:t>Line1</w:t></w:r></w:p>
            <w:p><w:r><w:t>Line2</w:t></w:r></w:p>
        </w:tc></w:tr></w:tbl>"#,
    );
    let doc = run(build_docx(&xml));
    assert_eq!(rows(&doc.sections[0])[0][0].text, "Line1\nLine2");
}

#[test]
fn nested_table_content_flattened() {
    // Nested-table content is flattened into the outer cell text (rows joined
    // by '\n', cells within a row joined by ' | ').
    let xml = wrap_body(
        r#"<w:tbl>
            <w:tr>
                <w:tc>
                    <w:p><w:r><w:t>Outer</w:t></w:r></w:p>
                    <w:tbl>
                        <w:tr>
                            <w:tc><w:p><w:r><w:t>A</w:t></w:r></w:p></w:tc>
                            <w:tc><w:p><w:r><w:t>B</w:t></w:r></w:p></w:tc>
                        </w:tr>
                        <w:tr>
                            <w:tc><w:p><w:r><w:t>C</w:t></w:r></w:p></w:tc>
                            <w:tc><w:p><w:r><w:t>D</w:t></w:r></w:p></w:tc>
                        </w:tr>
                    </w:tbl>
                </w:tc>
            </w:tr>
        </w:tbl>"#,
    );
    let doc = run(build_docx(&xml));
    let sections = &doc.sections;
    assert_eq!(sections.len(), 1);
    assert_eq!(kind(&sections[0]), "table");
    let cell = rows(&sections[0])[0][0].text.as_str();
    assert!(cell.starts_with("Outer"), "got: {cell}");
    assert!(cell.contains("A | B"), "got: {cell}");
    assert!(cell.contains("C | D"), "got: {cell}");
}

#[test]
fn invalid_docx_exits_nonzero() {
    let result = extract("bad.docx", b"this is not a zip file".to_vec(), &ExtractOptions::default());
    assert!(result.is_err());
    assert!(matches!(result, Err(ExtractError::Zip(_))));
}

#[test]
fn source_field_is_filename() {
    let xml = wrap_body("<w:p><w:r><w:t>x</w:t></w:r></w:p>");
    let doc = extract("/tmp/some/dir/report.docx", build_docx(&xml), &ExtractOptions::default()).unwrap();
    let source = doc.source.as_str();
    // Should be just the filename, not a full path.
    assert!(!source.contains('/') && !source.contains('\\'));
    assert!(source.ends_with(".docx"));
    assert_eq!(source, "report.docx");
}

#[test]
fn localized_heading_via_outline_level() {
    // Non-English style name + outlineLvl should still emit a Heading.
    let xml = wrap_body(
        r#"<w:p>
            <w:pPr>
                <w:pStyle w:val="Titre1"/>
                <w:outlineLvl w:val="0"/>
            </w:pPr>
            <w:r><w:t>French Heading</w:t></w:r>
        </w:p>"#,
    );
    let doc = run(build_docx(&xml));
    let sections = &doc.sections;
    assert_eq!(sections.len(), 1);
    assert_eq!(kind(&sections[0]), "heading");
    assert_eq!(level(&sections[0]), 1); // outlineLvl 0 → level 1
    assert_eq!(text(&sections[0]), "French Heading");
}

#[test]
fn metadata_extracted_from_core_xml() {
    let core_xml = r#"<?xml version="1.0" encoding="UTF-8"?>
<cp:coreProperties
  xmlns:cp="http://schemas.openxmlformats.org/package/2006/metadata/core-properties"
  xmlns:dc="http://purl.org/dc/elements/1.1/"
  xmlns:dcterms="http://purl.org/dc/terms/"
  xmlns:xsi="http://www.w3.org/2001/XMLSchema-instance">
  <dc:title>My Report</dc:title>
  <dc:creator>Jane Smith</dc:creator>
  <dcterms:created xsi:type="dcterms:W3CDTF">2024-01-15T10:30:00Z</dcterms:created>
</cp:coreProperties>"#;
    let body = wrap_body("<w:p/>");
    let bytes = build_multifile_docx(&[
        ("word/document.xml", body.as_bytes()),
        ("docProps/core.xml", core_xml.as_bytes()),
    ]);
    let doc = run(bytes);
    let metadata = doc.metadata.unwrap();
    assert_eq!(metadata.title.as_deref(), Some("My Report"));
    assert_eq!(metadata.author.as_deref(), Some("Jane Smith"));
    assert_eq!(metadata.created.as_deref(), Some("2024-01-15T10:30:00Z"));
    assert!(metadata.modified.is_none());
}

#[test]
fn text_box_content_extracted() {
    // A text box: <w:pict><v:textbox><w:txbxContent> … </w:txbxContent></v:textbox></w:pict>
    let xml = wrap_body(
        r#"<w:p>
            <w:r>
                <w:pict>
                    <v:shape>
                        <v:textbox>
                            <w:txbxContent>
                                <w:p><w:r><w:t>Box text</w:t></w:r></w:p>
                            </w:txbxContent>
                        </v:textbox>
                    </v:shape>
                </w:pict>
            </w:r>
        </w:p>"#,
    );
    let doc = run(build_docx(&xml));
    let texts: Vec<&str> = doc.sections.iter().map(|s| text(s)).collect();
    assert!(texts.contains(&"Box text"), "text box content not found: {texts:?}");
}

#[test]
fn list_items_detected() {
    let xml = wrap_body(
        r#"<w:p>
            <w:pPr>
                <w:numPr>
                    <w:ilvl w:val="0"/>
                    <w:numId w:val="1"/>
                </w:numPr>
            </w:pPr>
            <w:r><w:t>Item A</w:t></w:r>
        </w:p>
        <w:p>
            <w:pPr>
                <w:numPr>
                    <w:ilvl w:val="1"/>
                    <w:numId w:val="1"/>
                </w:numPr>
            </w:pPr>
            <w:r><w:t>Nested Item</w:t></w:r>
        </w:p>"#,
    );
    let doc = run(build_docx(&xml));
    let sections = &doc.sections;
    assert_eq!(sections.len(), 2);
    assert_eq!(kind(&sections[0]), "list_item");
    assert_eq!(level(&sections[0]), 0);
    assert_eq!(text(&sections[0]), "Item A");
    assert_eq!(kind(&sections[1]), "list_item");
    assert_eq!(level(&sections[1]), 1);
    assert_eq!(text(&sections[1]), "Nested Item");
}

#[test]
fn hyperlink_url_preserved() {
    // A .rels file mapping rId1 → https://example.com, and a hyperlink
    // element referencing that relationship.
    let rels_xml = r#"<?xml version="1.0"?>
<Relationships xmlns="http://schemas.openxmlformats.org/package/2006/relationships">
  <Relationship Id="rId1" Type="http://schemas.openxmlformats.org/officeDocument/2006/relationships/hyperlink"
    Target="https://example.com" TargetMode="External"/>
</Relationships>"#;

    let doc_xml = wrap_body(
        r#"<w:p>
            <w:hyperlink r:id="rId1"
              xmlns:r="http://schemas.openxmlformats.org/officeDocument/2006/relationships">
              <w:r><w:t>click here</w:t></w:r>
            </w:hyperlink>
        </w:p>"#,
    );
    let bytes = build_multifile_docx(&[
        ("word/document.xml", doc_xml.as_bytes()),
        ("word/_rels/document.xml.rels", rels_xml.as_bytes()),
    ]);
    let doc = run(bytes);
    let sections = &doc.sections;
    assert_eq!(sections.len(), 1);
    assert_eq!(text(&sections[0]), "[click here](https://example.com)");
}

// 1x1 transparent PNG.
const PNG: &[u8] = &[
    0x89, 0x50, 0x4E, 0x47, 0x0D, 0x0A, 0x1A, 0x0A, 0x00, 0x00, 0x00, 0x0D, 0x49, 0x48, 0x44,
    0x52, 0x00, 0x00, 0x00, 0x01, 0x00, 0x00, 0x00, 0x01, 0x08, 0x06, 0x00, 0x00, 0x00, 0x1F,
    0x15, 0xC4, 0x89, 0x00, 0x00, 0x00, 0x0D, 0x49, 0x44, 0x41, 0x54, 0x78, 0x9C, 0x63, 0x00,
    0x01, 0x00, 0x00, 0x05, 0x00, 0x01, 0x0D, 0x0A, 0x2D, 0xB4, 0x00, 0x00, 0x00, 0x00, 0x49,
    0x45, 0x4E, 0x44, 0xAE, 0x42, 0x60, 0x82,
];

const IMAGE_RELS: &str = r#"<?xml version="1.0"?>
<Relationships xmlns="http://schemas.openxmlformats.org/package/2006/relationships">
  <Relationship Id="rId7" Type="http://schemas.openxmlformats.org/officeDocument/2006/relationships/image" Target="media/image1.png"/>
</Relationships>"#;

fn image_doc_xml() -> String {
    wrap_body(
        r#"<w:p>
            <w:r><w:t>Before</w:t></w:r>
            <w:r>
              <w:drawing xmlns:a="http://schemas.openxmlformats.org/drawingml/2006/main"
                         xmlns:r="http://schemas.openxmlformats.org/officeDocument/2006/relationships">
                <a:blip r:embed="rId7"/>
              </w:drawing>
            </w:r>
            <w:r><w:t> after</w:t></w:r>
        </w:p>"#,
    )
}

#[test]
fn image_attached_to_paragraph() {
    let doc_xml = image_doc_xml();
    let bytes = build_multifile_docx(&[
        ("word/document.xml", doc_xml.as_bytes()),
        ("word/_rels/document.xml.rels", IMAGE_RELS.as_bytes()),
        ("word/media/image1.png", PNG),
    ]);
    let doc = run(bytes);
    let sections = &doc.sections;
    assert_eq!(sections.len(), 1);
    assert_eq!(text(&sections[0]), "Before after");
    let images_attached = images(&sections[0]);
    assert_eq!(images_attached.len(), 1);
    assert_eq!(images_attached[0], "image1.png");
    // Top-level images still has the file.
    assert_eq!(doc.images[0].id, "image1.png");
}

#[test]
fn footnote_extracted() {
    let footnotes_xml = r#"<?xml version="1.0"?>
<w:footnotes xmlns:w="http://schemas.openxmlformats.org/wordprocessingml/2006/main">
  <w:footnote w:type="separator" w:id="0"><w:p><w:r><w:t>sep</w:t></w:r></w:p></w:footnote>
  <w:footnote w:id="1">
    <w:p><w:r><w:t>This is footnote one.</w:t></w:r></w:p>
  </w:footnote>
</w:footnotes>"#;

    let doc_xml = wrap_body(
        r#"<w:p>
            <w:r><w:t>See note</w:t></w:r>
            <w:r><w:footnoteReference w:id="1"/></w:r>
            <w:r><w:t>.</w:t></w:r>
        </w:p>"#,
    );
    let bytes = build_multifile_docx(&[
        ("word/document.xml", doc_xml.as_bytes()),
        ("word/footnotes.xml", footnotes_xml.as_bytes()),
    ]);
    let doc = run(bytes);
    let sections = &doc.sections;
    assert_eq!(text(&sections[0]), "See note.");
    assert_eq!(footnote_refs(&sections[0])[0], 1);

    let footnotes = &doc.footnotes;
    assert_eq!(footnotes.len(), 1);
    assert_eq!(footnotes[0].id, 1);
    assert_eq!(text(&footnotes[0].sections[0]), "This is footnote one.");
}

#[test]
fn header_extracted() {
    let header_xml = r#"<?xml version="1.0"?>
<w:hdr xmlns:w="http://schemas.openxmlformats.org/wordprocessingml/2006/main">
  <w:p><w:r><w:t>Page header text</w:t></w:r></w:p>
</w:hdr>"#;

    let rels_xml = r#"<?xml version="1.0"?>
<Relationships xmlns="http://schemas.openxmlformats.org/package/2006/relationships">
  <Relationship Id="rId10" Type="http://schemas.openxmlformats.org/officeDocument/2006/relationships/header" Target="header1.xml"/>
</Relationships>"#;

    let doc_xml = format!(
        "{}<w:body>{}<w:sectPr><w:headerReference w:type=\"default\" r:id=\"rId10\" xmlns:r=\"http://schemas.openxmlformats.org/officeDocument/2006/relationships\"/></w:sectPr></w:body>{}",
        r#"<?xml version="1.0" encoding="UTF-8" standalone="yes"?>
<w:document xmlns:w="http://schemas.openxmlformats.org/wordprocessingml/2006/main">"#,
        "<w:p><w:r><w:t>Body</w:t></w:r></w:p>",
        "</w:document>"
    );
    let bytes = build_multifile_docx(&[
        ("word/document.xml", doc_xml.as_bytes()),
        ("word/_rels/document.xml.rels", rels_xml.as_bytes()),
        ("word/header1.xml", header_xml.as_bytes()),
    ]);
    let doc = run(bytes);
    let headers = &doc.headers;
    assert_eq!(headers.len(), 1);
    assert_eq!(headers[0].kind, "default");
    assert_eq!(text(&headers[0].sections[0]), "Page header text");
}

#[test]
fn comment_extracted_with_anchor() {
    let comments_xml = r#"<?xml version="1.0"?>
<w:comments xmlns:w="http://schemas.openxmlformats.org/wordprocessingml/2006/main">
  <w:comment w:id="0" w:author="Editor" w:date="2024-02-01T12:00:00Z">
    <w:p><w:r><w:t>Looks good.</w:t></w:r></w:p>
  </w:comment>
</w:comments>"#;

    let doc_xml = wrap_body(
        r#"<w:p>
            <w:r><w:t>The </w:t></w:r>
            <w:commentRangeStart w:id="0"/>
            <w:r><w:t>quick brown</w:t></w:r>
            <w:commentRangeEnd w:id="0"/>
            <w:r><w:t> fox</w:t></w:r>
        </w:p>"#,
    );
    let bytes = build_multifile_docx(&[
        ("word/document.xml", doc_xml.as_bytes()),
        ("word/comments.xml", comments_xml.as_bytes()),
    ]);
    let doc = run(bytes);
    let comments = &doc.comments;
    assert_eq!(comments.len(), 1);
    assert_eq!(comments[0].id, 0);
    assert_eq!(comments[0].author.as_deref(), Some("Editor"));
    assert_eq!(text(&comments[0].sections[0]), "Looks good.");
    let anchor = comments[0].anchor.unwrap();
    assert_eq!(anchor.section_index, 0);
    assert_eq!(anchor.char_start, 4);
    assert_eq!(anchor.char_end, 15);
}

// ── Further behaviour ──────────────────────────────────────────────────────────

#[test]
fn image_base64_and_mime_type() {
    let doc_xml = image_doc_xml();
    let bytes = build_multifile_docx(&[
        ("word/document.xml", doc_xml.as_bytes()),
        ("word/_rels/document.xml.rels", IMAGE_RELS.as_bytes()),
        ("word/media/image1.png", PNG),
    ]);
    let doc = run(bytes);
    assert_eq!(doc.images.len(), 1);
    assert_eq!(doc.images[0].mime_type, "image/png");
    assert_eq!(
        doc.images[0].base64,
        "iVBORw0KGgoAAAANSUhEUgAAAAEAAAABCAYAAAAfFcSJAAAADUlEQVR4nGMAAQAABQABDQottAAAAABJRU5ErkJggg=="
    );
}

#[test]
fn without_images_only_the_image_list_changes() {
    let doc_xml = image_doc_xml();
    let files: [(&str, &[u8]); 3] = [
        ("word/document.xml", doc_xml.as_bytes()),
        ("word/_rels/document.xml.rels", IMAGE_RELS.as_bytes()),
        ("word/media/image1.png", PNG),
    ];
    let with = run(build_multifile_docx(&files));
    let opts = ExtractOptions { include_images: false, ..ExtractOptions::default() };
    let without = extract("input.docx", build_multifile_docx(&files), &opts).unwrap();
    assert!(without.images.is_empty());
    assert_eq!(with.images.len(), 1);
    assert_eq!(format!("{:?}", with.sections), format!("{:?}", without.sections));
    assert_eq!(images(&without.sections[0])[0], "image1.png");
}

#[test]
fn image_over_the_size_limit_is_skipped() {
    let doc_xml = image_doc_xml();
    let files: [(&str, &[u8]); 3] = [
        ("word/document.xml", doc_xml.as_bytes()),
        ("word/_rels/document.xml.rels", IMAGE_RELS.as_bytes()),
        ("word/media/image1.png", PNG),
    ];
    let small = ExtractOptions { include_images: true, max_image_bytes: (PNG.len() - 1) as u64 };
    let doc = extract("input.docx", build_multifile_docx(&files), &small).unwrap();
    assert!(doc.images.is_empty());
    let exact = ExtractOptions { include_images: true, max_image_bytes: PNG.len() as u64 };
    let doc = extract("input.docx", build_multifile_docx(&files), &exact).unwrap();
    assert_eq!(doc.images.len(), 1);
}

#[test]
fn missing_main_part_is_not_docx() {
    let bytes = build_multifile_docx(&[("word/other.xml", b"<x/>")]);
    let result = extract("input.docx", bytes, &ExtractOptions::default());
    assert!(matches!(result, Err(ExtractError::NotDocx)));
}

#[test]
fn malformed_relationships_are_an_xml_error() {
    let doc_xml = wrap_body("<w:p><w:r><w:t>x</w:t></w:r></w:p>");
    let bytes = build_multifile_docx(&[
        ("word/document.xml", doc_xml.as_bytes()),
        ("word/_rels/document.xml.rels", b"<Relationships><Relationship Id=\"a\"></Oops>"),
    ]);
    let result = extract("input.docx", bytes, &ExtractOptions::default());
    assert!(matches!(result, Err(ExtractError::Xml(_))));
}

#[test]
fn main_part_not_utf8_is_an_io_error() {
    let bytes = build_multifile_docx(&[("word/document.xml", &[0x3C, 0xFF, 0xFE, 0x3E])]);
    let result = extract("input.docx", bytes, &ExtractOptions::default());
    match result {
        Err(ExtractError::Io(m)) => assert_eq!(m, "stream did not contain valid UTF-8"),
        other => panic!("unexpected: {other:?}"),
    }
}

#[test]
fn insertion_closed_after_its_paragraph_is_malformed() {
    // The insertion opens after "abc"; the paragraph inside it is emitted
    // and the outer paragraph's text is gone when the insertion closes.
    let xml = wrap_body(
        "<w:p><w:r><w:t>abc</w:t></w:r><w:ins><w:p><w:r><w:t>z</w:t></w:r></w:p></w:ins></w:p>",
    );
    let result = extract("input.docx", build_docx(&xml), &ExtractOptions::default());
    assert!(matches!(result, Err(ExtractError::Malformed)));
}

#[test]
fn hyperlink_around_a_paragraph_is_malformed() {
    let xml = wrap_body(
        r##"<w:p><w:r><w:t>abc</w:t></w:r><w:hyperlink w:anchor="x"><w:p><w:r><w:t>z</w:t></w:r></w:p></w:hyperlink></w:p>"##,
    );
    let result = extract("input.docx", build_docx(&xml), &ExtractOptions::default());
    assert!(matches!(result, Err(ExtractError::Malformed)));
}

#[test]
fn hyperlink_to_bookmark_uses_anchor() {
    let xml = wrap_body(
        r##"<w:p><w:r><w:t>See </w:t></w:r><w:hyperlink w:anchor="intro"><w:r><w:t>intro</w:t></w:r></w:hyperlink></w:p>"##,
    );
    let doc = run(build_docx(&xml));
    assert_eq!(text(&doc.sections[0]), "See [intro](#intro)");
}

#[test]
fn deletion_anchor_is_empty() {
    let xml = wrap_body(
        r#"<w:p><w:r><w:t>  Keep</w:t></w:r><w:del w:author="Jane"><w:r><w:delText>gone</w:delText></w:r></w:del><w:r><w:t> this</w:t></w:r></w:p>"#,
    );
    let doc = run(build_docx(&xml));
    assert_eq!(text(&doc.sections[0]), "Keep this");
    let r = &doc.revisions[0];
    assert_eq!(r.kind, RevisionKind::Delete);
    assert_eq!(r.text, "gone");
    let a = r.anchor.unwrap();
    assert_eq!(a.section_index, 0);
    assert_eq!(a.char_start, 4);
    assert_eq!(a.char_end, 4);
}

#[test]
fn deleted_paragraph_anchors_past_last_section() {
    let xml = wrap_body(
        r#"<w:p><w:del><w:r><w:delText>all gone</w:delText></w:r></w:del></w:p>"#,
    );
    let doc = run(build_docx(&xml));
    assert!(doc.sections.is_empty());
    assert_eq!(doc.revisions.len(), 1);
    assert_eq!(doc.revisions[0].anchor.unwrap().section_index, 0);
}

#[test]
fn comments_sorted_by_id_stably() {
    let comments_xml = r#"<w:comments>
  <w:comment w:id="2" w:author="B"><w:p><w:r><w:t>second</w:t></w:r></w:p></w:comment>
  <w:comment w:id="0" w:author="A"><w:p><w:r><w:t>first</w:t></w:r></w:p></w:comment>
  <w:comment w:id="2" w:author="C"><w:p><w:r><w:t>third</w:t></w:r></w:p></w:comment>
  <w:comment w:id="x" w:author="D"><w:p><w:r><w:t>no id</w:t></w:r></w:p></w:comment>
</w:comments>"#;
    let doc_xml = wrap_body("<w:p><w:r><w:t>Body</w:t></w:r></w:p>");
    let bytes = build_multifile_docx(&[
        ("word/document.xml", doc_xml.as_bytes()),
        ("word/comments.xml", comments_xml.as_bytes()),
    ]);
    let doc = run(bytes);
    let authors: Vec<&str> = doc.comments.iter().map(|c| c.author.as_deref().unwrap()).collect();
    assert_eq!(authors, vec!["A", "B", "C"]);
    let ids: Vec<u32> = doc.comments.iter().map(|c| c.id).collect();
    assert_eq!(ids, vec![0, 2, 2]);
    assert!(doc.comments.iter().all(|c| c.anchor.is_none()));
}

#[test]
fn notes_skip_separators_and_non_positive_ids() {
    let endnotes_xml = r#"<w:endnotes>
  <w:endnote w:type="continuationSeparator" w:id="5"><w:p><w:r><w:t>sep</w:t></w:r></w:p></w:endnote>
  <w:endnote w:id="-1"><w:p><w:r><w:t>negative</w:t></w:r></w:p></w:endnote>
  <w:endnote w:id="3"><w:p/></w:endnote>
  <w:endnote w:id="4"><w:p><w:r><w:t>kept</w:t></w:r></w:p></w:endnote>
</w:endnotes>"#;
    let doc_xml = wrap_body("<w:p><w:r><w:t>Body</w:t></w:r></w:p>");
    let bytes = build_multifile_docx(&[
        ("word/document.xml", doc_xml.as_bytes()),
        ("word/endnotes.xml", endnotes_xml.as_bytes()),
    ]);
    let doc = run(bytes);
    assert_eq!(doc.endnotes.len(), 1);
    assert_eq!(doc.endnotes[0].id, 4);
    assert_eq!(text(&doc.endnotes[0].sections[0]), "kept");
}

#[test]
fn repeated_header_reference_taken_once() {
    let header_xml = r#"<w:hdr><w:p><w:r><w:t>H</w:t></w:r></w:p></w:hdr>"#;
    let footer_xml = r#"<w:ftr><w:p><w:r><w:t>F</w:t></w:r></w:p></w:ftr>"#;
    let rels_xml = r#"<Relationships>
  <Relationship Id="rId1" Type="http://x/relationships/header" Target="header1.xml"/>
  <Relationship Id="rId2" Type="http://x/relationships/footer" Target="footer1.xml"/>
</Relationships>"#;
    let doc_xml = wrap_body(
        r#"<w:p><w:r><w:t>Body</w:t></w:r></w:p><w:sectPr><w:headerReference w:type="first" r:id="rId1"/><w:headerReference w:type="even" r:id="rId1"/><w:headerReference r:id="rId9"/><w:footerReference r:id="rId2"/></w:sectPr>"#,
    );
    let bytes = build_multifile_docx(&[
        ("word/document.xml", doc_xml.as_bytes()),
        ("word/_rels/document.xml.rels", rels_xml.as_bytes()),
        ("word/header1.xml", header_xml.as_bytes()),
        ("word/footer1.xml", footer_xml.as_bytes()),
    ]);
    let doc = run(bytes);
    assert_eq!(doc.headers.len(), 1);
    assert_eq!(doc.headers[0].kind, "first");
    assert_eq!(doc.footers.len(), 1);
    assert_eq!(doc.footers[0].kind, "default");
    assert_eq!(text(&doc.footers[0].sections[0]), "F");
}

#[test]
fn metadata_values_trimmed_and_blank_ones_dropped() {
    let core_xml = r#"<cp:coreProperties xmlns:cp="c" xmlns:dc="d"><dc:title>  Spaced  </dc:title><dc:creator>   </dc:creator></cp:coreProperties>"#;
    let doc_xml = wrap_body("<w:p/>");
    let bytes = build_multifile_docx(&[
        ("word/document.xml", doc_xml.as_bytes()),
        ("docProps/core.xml", core_xml.as_bytes()),
    ]);
    let doc = run(bytes);
    let m = doc.metadata.unwrap();
    assert_eq!(m.title.as_deref(), Some("Spaced"));
    assert!(m.author.is_none());

    let blank = r#"<cp:coreProperties xmlns:cp="c" xmlns:dc="d"><dc:title> </dc:title></cp:coreProperties>"#;
    let bytes = build_multifile_docx(&[
        ("word/document.xml", doc_xml.as_bytes()),
        ("docProps/core.xml", blank.as_bytes()),
    ]);
    assert!(run(bytes).metadata.is_none());
}

#[test]
fn corrupted_main_part_is_an_io_error() {
    let doc_xml = wrap_body("<w:p><w:r><w:t>Checksum</w:t></w:r></w:p>");
    let cursor = Cursor::new(Vec::new());
    let mut zip = ZipWriter::new(cursor);
    let opts = SimpleFileOptions::default().compression_method(zip::CompressionMethod::Stored);
    zip.start_file("word/document.xml", opts).unwrap();
    zip.write_all(doc_xml.as_bytes()).unwrap();
    let mut bytes = zip.finish().unwrap().into_inner();
    let at = bytes.windows(8).position(|w| w == b"Checksum").unwrap();
    bytes[at] = b'X';
    let result = extract("input.docx", bytes, &ExtractOptions::default());
    match result {
        Err(ExtractError::Io(m)) => assert_eq!(m, "Invalid checksum"),
        other => panic!("unexpected: {other:?}"),
    }
}

#[test]
fn empty_tables_and_rows_are_dropped() {
    let xml = wrap_body(
        r#"<w:tbl><w:tr></w:tr></w:tbl><w:tbl><w:tr><w:tc><w:p/></w:tc></w:tr><w:tr/></w:tbl>"#,
    );
    let doc = run(build_docx(&xml));
    assert_eq!(doc.sections.len(), 1);
    let rows = rows(&doc.sections[0]);
    assert_eq!(rows.len(), 1);
    assert_eq!(rows[0].len(), 1);
    assert_eq!(rows[0][0].text, "");
}

#[test]
fn outline_levels_map_to_heading_levels() {
    let xml = wrap_body(
        r#"<w:p><w:pPr><w:outlineLvl w:val="8"/></w:pPr><w:r><w:t>deep</w:t></w:r></w:p><w:p><w:pPr><w:outlineLvl w:val="9"/></w:pPr><w:r><w:t>body</w:t></w:r></w:p>"#,
    );
    let doc = run(build_docx(&xml));
    assert_eq!(kind(&doc.sections[0]), "heading");
    assert_eq!(level(&doc.sections[0]), 9);
    assert_eq!(kind(&doc.sections[1]), "paragraph");
}

#[test]
fn malformed_main_part_is_an_xml_error() {
    let xml = "<w:document><w:body><w:p><w:r><w:t>a</w:t></w:r></w:x></w:body></w:document>";
    let result = extract("input.docx", build_docx(xml), &ExtractOptions::default());
    assert!(matches!(result, Err(ExtractError::Xml(_))));
}

use std::io::{Cursor, Write as _};

use docx_extractor::archive::{read_archive, Archive, ArchiveEntry, EntryData, Part};
use docx_extractor::extract::{extract_archive, image_skips, source_of, ExtractError, ExtractOptions};
use docx_extractor::images::SkipReason;
use zip::write::SimpleFileOptions;
use zip::ZipWriter;

fn entry(name: &str, data: EntryData) -> ArchiveEntry {
    let size = match &data {
        EntryData::Bytes(b) => b.len() as u64,
        _ => 0,
    };
    ArchiveEntry { name: name.to_string(), size, data }
}

fn body(xml: &str) -> EntryData {
    EntryData::Bytes(format!("<w:document><w:body>{xml}</w:body></w:document>").into_bytes())
}

#[test]
fn read_archive_lists_entries_in_order() {
    let cursor = Cursor::new(Vec::new());
    let mut zip = ZipWriter::new(cursor);
    let opts = SimpleFileOptions::default();
    zip.start_file("b.txt", opts).unwrap();
    zip.write_all(b"second").unwrap();
    zip.start_file("a.txt", opts).unwrap();
    zip.write_all(b"first!").unwrap();
    let bytes = zip.finish().unwrap().into_inner();
    let mut archive = read_archive(bytes).unwrap();
    assert_eq!(archive.len(), 2);
    assert_eq!(archive.position("b.txt"), Some(0));
    assert_eq!(archive.position("a.txt"), Some(1));
    assert_eq!(archive.position("c.txt"), None);
    assert_eq!(archive.entry_size(0), Some(6));
    assert!(matches!(archive.entry_data(0), EntryData::Bytes(b) if b == b"second"));
    assert!(matches!(archive.part("a.txt"), Part::Text(t) if t == "first!"));
    assert!(matches!(archive.part("c.txt"), Part::Missing));
}

#[test]
fn read_archive_rejects_other_bytes() {
    assert!(read_archive(b"PK but not really".to_vec()).is_err());
    assert!(read_archive(Vec::new()).is_err());
}

#[test]
fn unopenable_main_part_is_not_docx() {
    let mut archive = Archive::from_entries(vec![entry("word/document.xml", EntryData::Unavailable)]);
    let result = extract_archive("x.docx", &mut archive, &ExtractOptions::default());
    assert!(matches!(result, Err(ExtractError::NotDocx)));
}

#[test]
fn unreadable_main_part_is_an_io_error() {
    let mut archive = Archive::from_entries(vec![entry(
        "word/document.xml",
        EntryData::Failed("corrupt deflate stream".to_string()),
    )]);
    let result = extract_archive("x.docx", &mut archive, &ExtractOptions::default());
    assert!(matches!(result, Err(ExtractError::Io(m)) if m == "corrupt deflate stream"));
}

#[test]
fn unreadable_image_is_an_io_error_unless_skipped() {
    let rels = r#"<Relationships><Relationship Id="r1" Type="http://x/image" Target="media/p.png"/></Relationships>"#;
    let make = |size: u64| Archive::from_entries(vec![
            entry("word/document.xml", body("<w:p><w:r><w:t>t</w:t></w:r></w:p>")),
            entry("word/_rels/document.xml.rels", EntryData::Bytes(rels.as_bytes().to_vec())),
            ArchiveEntry {
                name: "word/media/p.png".to_string(),
                size,
                data: EntryData::Failed("bad".to_string()),
            },
    ]);
    let opts = ExtractOptions::default();
    let result = extract_archive("x.docx", &mut make(10), &opts);
    assert!(matches!(result, Err(ExtractError::Io(m)) if m == "bad"));
    let too_big = ExtractOptions { include_images: true, max_image_bytes: 9 };
    let doc = extract_archive("x.docx", &mut make(10), &too_big).unwrap();
    assert!(doc.images.is_empty());
    let none = ExtractOptions { include_images: false, max_image_bytes: 100 };
    assert!(extract_archive("x.docx", &mut make(10), &none).is_ok());
}

#[test]
fn unsafe_and_unsupported_image_targets_are_skipped() {
    let rels = r#"<Relationships>
<Relationship Id="r1" Type="http://x/image" Target="../evil.png"/>
<Relationship Id="r2" Type="http://x/image" Target="media/vector.emf"/>
<Relationship Id="r3" Type="http://x/image" Target="media/ok.gif"/>
<Relationship Id="r4" Type="http://x/image" Target="media/missing.png"/>
</Relationships>"#;
    let mut archive = Archive::from_entries(vec![
            entry("word/document.xml", body("<w:p/>")),
            entry("word/_rels/document.xml.rels", EntryData::Bytes(rels.as_bytes().to_vec())),
            entry("word/../evil.png", EntryData::Bytes(vec![1, 2, 3])),
            entry("word/media/vector.emf", EntryData::Bytes(vec![1, 2, 3])),
            entry("word/media/ok.gif", EntryData::Bytes(b"abc".to_vec())),
    ]);
    let doc = extract_archive("x.docx", &mut archive, &ExtractOptions::default()).unwrap();
    assert_eq!(doc.images.len(), 1);
    assert_eq!(doc.images[0].id, "ok.gif");
    assert_eq!(doc.images[0].mime_type, "image/gif");
    assert_eq!(doc.images[0].base64, "YWJj");
}

#[test]
fn base64_padding() {
    let rels = r#"<Relationships>
<Relationship Id="r1" Type="http://x/image" Target="media/one.png"/>
<Relationship Id="r2" Type="http://x/image" Target="media/two.png"/>
</Relationships>"#;
    let mut archive = Archive::from_entries(vec![
            entry("word/document.xml", body("")),
            entry("word/_rels/document.xml.rels", EntryData::Bytes(rels.as_bytes().to_vec())),
            entry("word/media/one.png", EntryData::Bytes(b"a".to_vec())),
            entry("word/media/two.png", EntryData::Bytes(b"ab".to_vec())),
    ]);
    let doc = extract_archive("x.docx", &mut archive, &ExtractOptions::default()).unwrap();
    assert_eq!(doc.images.len(), 2);
    assert_eq!(doc.images[0].base64, "YQ==");
    assert_eq!(doc.images[1].base64, "YWI=");
}

#[test]
fn source_is_the_file_name() {
    assert_eq!(source_of("/a/b/report.docx"), "report.docx");
    assert_eq!(source_of("report.docx"), "report.docx");
    assert_eq!(source_of("/"), "/");
}

#[test]
fn default_options() {
    let o = ExtractOptions::default();
    assert!(o.include_images);
    assert_eq!(o.max_image_bytes, 10485760);
}

#[test]
fn skipped_image_targets_with_reasons() {
    let rels = r#"<Relationships>
<Relationship Id="r1" Type="http://x/image" Target="../evil.png"/>
<Relationship Id="r2" Type="http://x/image" Target="media/vector.emf"/>
<Relationship Id="r3" Type="http://x/image" Target="media/ok.gif"/>
<Relationship Id="r4" Type="http://x/image" Target="media/missing.png"/>
<Relationship Id="r5" Type="http://x/image" Target="media/big.png"/>
</Relationships>"#;
    let mut archive = Archive::from_entries(vec![
        entry("word/document.xml", body("<w:p/>")),
        entry("word/_rels/document.xml.rels", EntryData::Bytes(rels.as_bytes().to_vec())),
        entry("word/media/ok.gif", EntryData::Bytes(b"abc".to_vec())),
        entry("word/media/big.png", EntryData::Bytes(vec![0; 20])),
    ]);
    let opts = ExtractOptions { include_images: true, max_image_bytes: 10 };
    let skips = image_skips(&mut archive, &opts).unwrap();
    assert_eq!(
        skips,
        vec![
            ("word/../evil.png".to_string(), SkipReason::UnsafePath),
            ("word/media/vector.emf".to_string(), SkipReason::Unsupported),
            ("word/media/missing.png".to_string(), SkipReason::NotFound),
            ("word/media/big.png".to_string(), SkipReason::TooLarge(20)),
        ]
    );
    let none = ExtractOptions { include_images: false, max_image_bytes: 10 };
    assert!(image_skips(&mut archive, &none).unwrap().is_empty());
}

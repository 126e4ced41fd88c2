//! The whole extraction: from the parts of a `.docx` package to a
//! `Document`.

use quick_xml::Error as XmlError;
use vstd::prelude::*;
use zip::result::ZipError;

use crate::archive::{part_model, read_archive, zip_read, Archive, ArchiveEntryModel, Part, PartModel};
use crate::assoc::assoc_get;
use crate::body::{body_of, parse_body_events, run_ok, ParsedBodyModel};
use crate::images::{extract_images, images_of, skipped_images, skips_of, SkipReason};
use crate::meta::{metadata_of, parse_core_props};
use crate::model::{
    Document, DocumentModel, HeaderFooter, HeaderFooterModel, ImageModel, Metadata, MetadataModel,
    Note, NoteModel, Comment, CommentModel,
};
use crate::parts::{chunks_of, comments_of, notes_of, parse_comments, parse_notes};
use crate::path::{file_name, path_file_name};
use crate::rels::{empty_rels, parse_relationships, rels_of, RelMap, Rels, RelsModel};
use crate::text::str_eq;
use crate::xml::{read_xml, step_events, step_failed, xml_parse};

verus! {

/// Why an extraction failed.
#[derive(Debug)]
pub enum ExtractError {
    /// A part could not be read; the I/O error's message.
    Io(String),
    /// The bytes are not a ZIP archive.
    Zip(ZipError),
    /// The relationships, core-properties, main, header or footer part is
    /// not well-formed XML.
    Xml(XmlError),
    /// The package has no `word/document.xml`.
    NotDocx,
    /// A body-like part nests insertions or hyperlinks so that the text
    /// they cover cannot be taken (see `body_is_parsable`).
    Malformed,
}

/// Failures, as the contracts see them.
pub enum Failure {
    Io(Seq<char>),
    Zip,
    Xml,
    NotDocx,
    Malformed,
}

pub open spec fn failure_of(e: ExtractError) -> Failure {
    match e {
        ExtractError::Io(m) => Failure::Io(m@),
        ExtractError::Zip(_) => Failure::Zip,
        ExtractError::Xml(_) => Failure::Xml,
        ExtractError::NotDocx => Failure::NotDocx,
        ExtractError::Malformed => Failure::Malformed,
    }
}

/// What to extract.
pub struct ExtractOptions {
    /// Whether the top-level images are read and encoded (references on
    /// sections are kept either way).
    pub include_images: bool,
    /// Images whose recorded size is larger than this are skipped.
    pub max_image_bytes: u64,
}

/// The default limit on the size of one image: 10 MiB.
pub const DEFAULT_MAX_IMAGE_BYTES: u64 = 10 * 1024 * 1024;

impl Default for ExtractOptions {
    fn default() -> (o: ExtractOptions)
        ensures
            o.include_images,
            o.max_image_bytes == DEFAULT_MAX_IMAGE_BYTES,
    {
        ExtractOptions { include_images: true, max_image_bytes: DEFAULT_MAX_IMAGE_BYTES }
    }
}

// ── The parts ─────────────────────────────────────────────────────────────────

/// The relationships of the main part: none when the part is missing.
pub open spec fn rels_part(a: Seq<ArchiveEntryModel>) -> Result<RelsModel, Failure> {
    match part_model(a, "word/_rels/document.xml.rels"@) {
        PartModel::Missing => Ok(empty_rels()),
        PartModel::Failed(m) => Err(Failure::Io(m)),
        PartModel::Text(t) => if step_failed(xml_parse(t)) {
            Err(Failure::Xml)
        } else {
            Ok(rels_of(step_events(xml_parse(t))))
        },
    }
}

/// A body-like part parsed with the relationships: `Xml` where reading it
/// stops at an XML error.
pub open spec fn body_part(t: Seq<char>, rels: RelsModel) -> Result<ParsedBodyModel, Failure> {
    let evs = step_events(xml_parse(t));
    if step_failed(xml_parse(t)) {
        Err(Failure::Xml)
    } else if run_ok(evs, rels) {
        Ok(body_of(evs, rels))
    } else {
        Err(Failure::Malformed)
    }
}

/// Whether relationship id `rid` occurs in `refs`.
pub open spec fn rid_in(refs: Seq<(Seq<char>, Seq<char>)>, rid: Seq<char>) -> bool {
    exists|j: int| 0 <= j < refs.len() && (#[trigger] refs[j]).1 == rid
}

/// The header (or footer) parts referenced by `refs` (type, relationship
/// id), in order: a relationship id is taken at its first reference only;
/// references whose id has no target in `targets`, whose part is missing,
/// or whose part has no content are left out.
pub open spec fn header_footer_parts(
    a: Seq<ArchiveEntryModel>,
    rels: RelsModel,
    targets: Seq<(Seq<char>, Seq<char>)>,
    refs: Seq<(Seq<char>, Seq<char>)>,
) -> Result<Seq<HeaderFooterModel>, Failure>
    decreases refs.len(),
{
    if refs.len() == 0 {
        Ok(Seq::empty())
    } else {
        match header_footer_parts(a, rels, targets, refs.drop_last()) {
            Err(f) => Err(f),
            Ok(out) => {
                let kind = refs.last().0;
                let rid = refs.last().1;
                if rid_in(refs.drop_last(), rid) {
                    Ok(out)
                } else {
                    match assoc_get(targets, rid) {
                        None => Ok(out),
                        Some(path) => match part_model(a, path) {
                            PartModel::Missing => Ok(out),
                            PartModel::Failed(m) => Err(Failure::Io(m)),
                            PartModel::Text(t) => match body_part(t, rels) {
                                Err(f) => Err(f),
                                Ok(b) => if b.sections.len() > 0 {
                                    Ok(out.push(HeaderFooterModel { kind, sections: b.sections }))
                                } else {
                                    Ok(out)
                                },
                            },
                        },
                    }
                }
            },
        }
    }
}

/// The footnotes or endnotes of a notes part: none when it is missing.
pub open spec fn notes_part(a: Seq<ArchiveEntryModel>, path: Seq<char>, tag: Seq<char>, rels: RelsModel) -> Result<
    Seq<NoteModel>,
    Failure,
> {
    match part_model(a, path) {
        PartModel::Missing => Ok(Seq::empty()),
        PartModel::Failed(m) => Err(Failure::Io(m)),
        PartModel::Text(t) => match notes_of(chunks_of(t, tag), rels) {
            None => Err(Failure::Malformed),
            Some(n) => Ok(n),
        },
    }
}

/// The comments of the comments part: none when it is missing.
pub open spec fn comments_part(a: Seq<ArchiveEntryModel>, rels: RelsModel, anchors: Seq<(u32, crate::model::Anchor)>) -> Result<
    Seq<CommentModel>,
    Failure,
> {
    match part_model(a, "word/comments.xml"@) {
        PartModel::Missing => Ok(Seq::empty()),
        PartModel::Failed(m) => Err(Failure::Io(m)),
        PartModel::Text(t) => match comments_of(chunks_of(t, "comment"@), rels, anchors) {
            None => Err(Failure::Malformed),
            Some(c) => Ok(c),
        },
    }
}

/// The targets of the image relationships, in order.
pub open spec fn image_targets(rels: RelsModel) -> Seq<Seq<char>> {
    rels.images.map_values(|e: (Seq<char>, Seq<char>)| e.1)
}

/// The top-level images: none unless they are asked for.
pub open spec fn images_part(a: Seq<ArchiveEntryModel>, rels: RelsModel, wanted: bool, max: u64) -> Result<
    Seq<ImageModel>,
    Failure,
> {
    if !wanted {
        Ok(Seq::empty())
    } else {
        match images_of(a, image_targets(rels), max) {
            Err(m) => Err(Failure::Io(m)),
            Ok(v) => Ok(v),
        }
    }
}

/// The core properties: none when the part is missing.
pub open spec fn metadata_part(a: Seq<ArchiveEntryModel>) -> Result<Option<MetadataModel>, Failure> {
    match part_model(a, "docProps/core.xml"@) {
        PartModel::Missing => Ok(None),
        PartModel::Failed(m) => Err(Failure::Io(m)),
        PartModel::Text(t) => if step_failed(xml_parse(t)) {
            Err(Failure::Xml)
        } else {
            Ok(metadata_of(step_events(xml_parse(t))))
        },
    }
}

/// The name recorded as the document's source: the file name of the path,
/// or the whole path where it has none.
pub open spec fn source_name(path: Seq<char>) -> Seq<char> {
    match path_file_name(path) {
        Some(n) => n,
        None => path,
    }
}

/// The document, once the main part has been parsed into `body`: the parts
/// are read in the order headers, footers, footnotes, endnotes, comments,
/// images, core properties, and the first failure is the result.
pub open spec fn document_after_body(
    source: Seq<char>,
    a: Seq<ArchiveEntryModel>,
    include_images: bool,
    max_image_bytes: u64,
    rels: RelsModel,
    body: ParsedBodyModel,
) -> Result<DocumentModel, Failure> {
    match header_footer_parts(a, rels, rels.headers, body.header_refs) {
        Err(f) => Err(f),
        Ok(headers) => match header_footer_parts(a, rels, rels.footers, body.footer_refs) {
            Err(f) => Err(f),
            Ok(footers) => match notes_part(a, "word/footnotes.xml"@, "footnote"@, rels) {
                Err(f) => Err(f),
                Ok(footnotes) => match notes_part(a, "word/endnotes.xml"@, "endnote"@, rels) {
                    Err(f) => Err(f),
                    Ok(endnotes) => match comments_part(a, rels, body.comment_anchors) {
                        Err(f) => Err(f),
                        Ok(comments) => match images_part(a, rels, include_images, max_image_bytes) {
                            Err(f) => Err(f),
                            Ok(images) => match metadata_part(a) {
                                Err(f) => Err(f),
                                Ok(metadata) => Ok(
                                    DocumentModel {
                                        source: source_name(source),
                                        metadata,
                                        sections: body.sections,
                                        headers,
                                        footers,
                                        footnotes,
                                        endnotes,
                                        comments,
                                        revisions: body.revisions,
                                        images,
                                    },
                                ),
                            },
                        },
                    },
                },
            },
        },
    }
}

/// The extraction of a package: `NotDocx` without a main part; then the
/// relationships, the main part, and the rest (`document_after_body`).
pub open spec fn extract_model(
    source: Seq<char>,
    a: Seq<ArchiveEntryModel>,
    include_images: bool,
    max_image_bytes: u64,
) -> Result<DocumentModel, Failure> {
    match part_model(a, "word/document.xml"@) {
        PartModel::Missing => Err(Failure::NotDocx),
        PartModel::Failed(m) => match rels_part(a) {
            Err(f) => Err(f),
            Ok(_) => Err(Failure::Io(m)),
        },
        PartModel::Text(t) => match rels_part(a) {
            Err(f) => Err(f),
            Ok(rels) => match body_part(t, rels) {
                Err(f) => Err(f),
                Ok(body) => document_after_body(source, a, include_images, max_image_bytes, rels, body),
            },
        },
    }
}

/// A result, as the contracts see it.
pub open spec fn outcome<T: DeepView>(r: Result<T, ExtractError>) -> Result<T::V, Failure> {
    match r {
        Ok(v) => Ok(v.deep_view()),
        Err(e) => Err(failure_of(e)),
    }
}

// ── Reading the parts ─────────────────────────────────────────────────────────

fn read_rels(archive: &mut Archive) -> (r: Result<Rels, ExtractError>)
    ensures
        final(archive).deep_view() == old(archive).deep_view(),
        outcome(r) == rels_part(old(archive).deep_view()),
{
    match archive.part("word/_rels/document.xml.rels") {
        Part::Missing => Ok(Rels::new()),
        Part::Failed(m) => Err(ExtractError::Io(m)),
        Part::Text(t) => match parse_relationships(read_xml(t.as_str())) {
            Ok(rels) => Ok(rels),
            Err(e) => Err(ExtractError::Xml(e)),
        },
    }
}

fn read_body(t: &str, rels: &Rels) -> (r: Result<crate::body::ParsedBody, ExtractError>)
    ensures
        outcome(r) == body_part(t@, rels.deep_view()),
{
    let stream = read_xml(t);
    if let Some(e) = stream.error {
        return Err(ExtractError::Xml(e));
    }
    match parse_body_events(&stream.events, rels) {
        Some(b) => Ok(b),
        None => Err(ExtractError::Malformed),
    }
}

/// Whether the relationship id of `refs[i]` occurs before it.
fn rid_seen(refs: &Vec<(String, String)>, i: usize) -> (r: bool)
    requires
        i < refs.len(),
    ensures
        r == rid_in(refs.deep_view().take(i as int), refs.deep_view()[i as int].1),
{
    let ghost prev = refs.deep_view().take(i as int);
    let ghost rid = refs.deep_view()[i as int].1;
    let mut j: usize = 0;
    while j < i
        invariant
            j <= i < refs.len(),
            prev == refs.deep_view().take(i as int),
            rid == refs.deep_view()[i as int].1,
            forall|k: int| 0 <= k < j ==> (#[trigger] prev[k]).1 != rid,
        decreases i - j,
    {
        assert(prev[j as int] == refs.deep_view()[j as int]);
        if str_eq(refs[j].1.as_str(), refs[i].1.as_str()) {
            assert(prev[j as int].1 == rid);
            return true;
        }
        j = j + 1;
    }
    false
}

proof fn lemma_header_footer_err(
    a: Seq<ArchiveEntryModel>,
    rels: RelsModel,
    targets: Seq<(Seq<char>, Seq<char>)>,
    refs: Seq<(Seq<char>, Seq<char>)>,
    k: int,
)
    requires
        0 <= k <= refs.len(),
        header_footer_parts(a, rels, targets, refs.take(k)) is Err,
    ensures
        header_footer_parts(a, rels, targets, refs) == header_footer_parts(a, rels, targets, refs.take(k)),
    decreases refs.len() - k,
{
    if k < refs.len() {
        assert(refs.drop_last().take(k) =~= refs.take(k));
        lemma_header_footer_err(a, rels, targets, refs.drop_last(), k);
    } else {
        assert(refs.take(k) =~= refs);
    }
}

/// The header (or footer) parts that `refs` reference through `targets`.
pub fn parse_header_footer_parts(
    archive: &mut Archive,
    rels: &Rels,
    targets: &RelMap,
    refs: &Vec<(String, String)>,
) -> (r: Result<Vec<HeaderFooter>, ExtractError>)
    ensures
        final(archive).deep_view() == old(archive).deep_view(),
        outcome(r) == header_footer_parts(
            old(archive).deep_view(),
            rels.deep_view(),
            targets.deep_view(),
            refs.deep_view(),
        ),
{
    let ghost a = archive.deep_view();
    let ghost rm = rels.deep_view();
    let ghost tm = targets.deep_view();
    let ghost rs = refs.deep_view();
    let mut out: Vec<HeaderFooter> = Vec::new();
    let mut i: usize = 0;
    assert(out.deep_view() =~= Seq::<HeaderFooterModel>::empty());
    assert(rs.take(0).len() == 0);
    while i < refs.len()
        invariant
            i <= refs.len(),
            rs == refs.deep_view(),
            a == archive.deep_view(),
            a == old(archive).deep_view(),
            rm == rels.deep_view(),
            tm == targets.deep_view(),
            header_footer_parts(a, rm, tm, rs.take(i as int)) == Ok::<
                Seq<HeaderFooterModel>,
                Failure,
            >(out.deep_view()),
        decreases refs.len() - i,
    {
        let ghost pre = rs.take(i + 1);
        assert(pre.drop_last() =~= rs.take(i as int));
        assert(pre.last() == rs[i as int]);
        if !rid_seen(refs, i) {
            if let Some(path) = targets.get(refs[i].1.as_str()) {
                match archive.part(path.as_str()) {
                    Part::Missing => {},
                    Part::Failed(m) => {
                        proof {
                            lemma_header_footer_err(a, rm, tm, rs, i + 1);
                        }
                        return Err(ExtractError::Io(m));
                    },
                    Part::Text(t) => {
                        match read_body(t.as_str(), rels) {
                            Err(e) => {
                                proof {
                                    lemma_header_footer_err(a, rm, tm, rs, i + 1);
                                }
                                return Err(e);
                            },
                            Ok(b) => {
                                if b.sections.len() > 0 {
                                    let ghost before = out.deep_view();
                                    let hf = HeaderFooter { kind: refs[i].0.clone(), sections: b.sections };
                                    out.push(hf);
                                    assert(out.deep_view() =~= before.push(hf.deep_view()));
                                }
                            },
                        }
                    },
                }
            }
        }
        i = i + 1;
    }
    assert(rs.take(i as int) =~= rs);
    Ok(out)
}

fn parse_notes_file(archive: &mut Archive, path: &str, tag: &str, rels: &Rels) -> (r: Result<Vec<Note>, ExtractError>)
    ensures
        final(archive).deep_view() == old(archive).deep_view(),
        outcome(r) == notes_part(old(archive).deep_view(), path@, tag@, rels.deep_view()),
{
    match archive.part(path) {
        Part::Missing => {
            let v: Vec<Note> = Vec::new();
            assert(v.deep_view() =~= Seq::<NoteModel>::empty());
            Ok(v)
        },
        Part::Failed(m) => Err(ExtractError::Io(m)),
        Part::Text(t) => match parse_notes(t.as_str(), tag, rels) {
            Some(n) => Ok(n),
            None => Err(ExtractError::Malformed),
        },
    }
}

fn parse_comments_file(archive: &mut Archive, rels: &Rels, anchors: &Vec<(u32, crate::model::Anchor)>) -> (r: Result<
    Vec<Comment>,
    ExtractError,
>)
    ensures
        final(archive).deep_view() == old(archive).deep_view(),
        outcome(r) == comments_part(old(archive).deep_view(), rels.deep_view(), anchors@),
{
    match archive.part("word/comments.xml") {
        Part::Missing => {
            let v: Vec<Comment> = Vec::new();
            assert(v.deep_view() =~= Seq::<CommentModel>::empty());
            Ok(v)
        },
        Part::Failed(m) => Err(ExtractError::Io(m)),
        Part::Text(t) => match parse_comments(t.as_str(), rels, anchors) {
            Some(c) => Ok(c),
            None => Err(ExtractError::Malformed),
        },
    }
}

fn read_images(archive: &mut Archive, rels: &Rels, opts: &ExtractOptions) -> (r: Result<
    Vec<crate::model::Image>,
    ExtractError,
>)
    ensures
        final(archive).deep_view() == old(archive).deep_view(),
        outcome(r) == images_part(
            old(archive).deep_view(),
            rels.deep_view(),
            opts.include_images,
            opts.max_image_bytes,
        ),
{
    if !opts.include_images {
        let v: Vec<crate::model::Image> = Vec::new();
        assert(v.deep_view() =~= Seq::<ImageModel>::empty());
        return Ok(v);
    }
    let targets = rels.images.values();
    match extract_images(archive, &targets, opts.max_image_bytes) {
        Ok(v) => Ok(v),
        Err(m) => Err(ExtractError::Io(m)),
    }
}

fn read_metadata(archive: &mut Archive) -> (r: Result<Option<Metadata>, ExtractError>)
    ensures
        final(archive).deep_view() == old(archive).deep_view(),
        outcome(r) == metadata_part(old(archive).deep_view()),
{
    match archive.part("docProps/core.xml") {
        Part::Missing => Ok(None),
        Part::Failed(m) => Err(ExtractError::Io(m)),
        Part::Text(t) => match parse_core_props(read_xml(t.as_str())) {
            Ok(m) => Ok(m),
            Err(e) => Err(ExtractError::Xml(e)),
        },
    }
}

/// The name recorded as the document's source.
pub fn source_of(path: &str) -> (s: String)
    ensures
        s@ == source_name(path@),
{
    match file_name(path) {
        Some(n) => n,
        None => path.to_owned(),
    }
}

/// The rest of the document once the main part is parsed.
fn finish_document(
    path: &str,
    archive: &mut Archive,
    opts: &ExtractOptions,
    rels: Rels,
    body: crate::body::ParsedBody,
) -> (r: Result<Document, ExtractError>)
    ensures
        final(archive).deep_view() == old(archive).deep_view(),
        outcome(r) == document_after_body(
            path@,
            old(archive).deep_view(),
            opts.include_images,
            opts.max_image_bytes,
            rels.deep_view(),
            body.deep_view(),
        ),
{
    let headers = match parse_header_footer_parts(archive, &rels, &rels.headers, &body.header_refs) {
        Ok(v) => v,
        Err(e) => {
            return Err(e);
        },
    };
    let footers = match parse_header_footer_parts(archive, &rels, &rels.footers, &body.footer_refs) {
        Ok(v) => v,
        Err(e) => {
            return Err(e);
        },
    };
    let footnotes = match parse_notes_file(archive, "word/footnotes.xml", "footnote", &rels) {
        Ok(v) => v,
        Err(e) => {
            return Err(e);
        },
    };
    let endnotes = match parse_notes_file(archive, "word/endnotes.xml", "endnote", &rels) {
        Ok(v) => v,
        Err(e) => {
            return Err(e);
        },
    };
    assert(body.comment_anchors@ =~= body.deep_view().comment_anchors);
    let comments = match parse_comments_file(archive, &rels, &body.comment_anchors) {
        Ok(v) => v,
        Err(e) => {
            return Err(e);
        },
    };
    let images = match read_images(archive, &rels, opts) {
        Ok(v) => v,
        Err(e) => {
            return Err(e);
        },
    };
    let metadata = match read_metadata(archive) {
        Ok(v) => v,
        Err(e) => {
            return Err(e);
        },
    };
    let source = source_of(path);
    Ok(
        Document {
            source,
            metadata,
            sections: body.sections,
            headers,
            footers,
            footnotes,
            endnotes,
            comments,
            revisions: body.revisions,
            images,
        },
    )
}


// ── Extraction ────────────────────────────────────────────────────────────────

/// Extracts the document from the entries of a package read from `path`.
pub fn extract_archive(path: &str, archive: &mut Archive, opts: &ExtractOptions) -> (r: Result<
    Document,
    ExtractError,
>)
    ensures
        final(archive).deep_view() == old(archive).deep_view(),
        outcome(r) == extract_model(
            path@,
            old(archive).deep_view(),
            opts.include_images,
            opts.max_image_bytes,
        ),
{
    let doc = archive.part("word/document.xml");
    if let Part::Missing = doc {
        return Err(ExtractError::NotDocx);
    }
    let rels = match read_rels(archive) {
        Ok(v) => v,
        Err(e) => {
            return Err(e);
        },
    };
    let text = match doc {
        Part::Text(t) => t,
        Part::Failed(m) => {
            return Err(ExtractError::Io(m));
        },
        Part::Missing => {
            return Err(ExtractError::NotDocx);
        },
    };
    let body = match read_body(text.as_str(), &rels) {
        Ok(v) => v,
        Err(e) => {
            return Err(e);
        },
    };
    finish_document(path, archive, opts, rels, body)
}

/// The image targets that an extraction with `opts` skips, each with the
/// reason (none when images are not asked for); `Err` where the
/// relationships cannot be read. No image data is read.
pub fn image_skips(archive: &mut Archive, opts: &ExtractOptions) -> (r: Result<
    Vec<(String, SkipReason)>,
    ExtractError,
>)
    ensures
        final(archive).deep_view() == old(archive).deep_view(),
        match rels_part(old(archive).deep_view()) {
            Err(f) => r matches Err(e) && failure_of(e) == f,
            Ok(rels) => r matches Ok(v) && v.deep_view() == (if opts.include_images {
                skips_of(old(archive).deep_view(), image_targets(rels), opts.max_image_bytes)
            } else {
                Seq::empty()
            }),
        },
{
    let rels = match read_rels(archive) {
        Ok(r) => r,
        Err(e) => {
            return Err(e);
        },
    };
    if !opts.include_images {
        let v: Vec<(String, SkipReason)> = Vec::new();
        assert(v.deep_view() =~= Seq::<(Seq<char>, SkipReason)>::empty());
        return Ok(v);
    }
    let targets = rels.images.values();
    Ok(skipped_images(archive, &targets, opts.max_image_bytes))
}

/// Extracts the document from the bytes of a `.docx` file read from `path`:
/// `Zip` when the bytes are not a ZIP archive, else the extraction of its
/// entries.
pub fn extract(path: &str, bytes: Vec<u8>, opts: &ExtractOptions) -> (r: Result<
    Document,
    ExtractError,
>)
    ensures
        match zip_read(bytes@) {
            None => r matches Err(ExtractError::Zip(_)),
            Some(entries) => outcome(r) == extract_model(
                path@,
                entries,
                opts.include_images,
                opts.max_image_bytes,
            ),
        },
{
    match read_archive(bytes) {
        Err(e) => Err(ExtractError::Zip(e)),
        Ok(mut archive) => extract_archive(path, &mut archive, opts),
    }
}

} // verus!

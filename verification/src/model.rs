//! The extracted document: sections, notes, comments, revisions, images,
//! together with their mathematical models (`DeepView`).

use vstd::prelude::*;

verus! {

/// Position of a comment or revision inside the body: the index of a
/// section, and byte offsets into that section's (trimmed) text.
#[derive(Clone, Copy, Debug, PartialEq, Eq, Structural)]
pub struct Anchor {
    pub section_index: usize,
    pub char_start: usize,
    pub char_end: usize,
}

impl DeepView for Anchor {
    type V = Anchor;

    open spec fn deep_view(&self) -> Anchor {
        *self
    }
}

/// Whether a tracked change inserted or deleted text.
#[derive(Clone, Copy, Debug, PartialEq, Eq, Structural)]
pub enum RevisionKind {
    Insert,
    Delete,
}

impl DeepView for RevisionKind {
    type V = RevisionKind;

    open spec fn deep_view(&self) -> RevisionKind {
        *self
    }
}

impl RevisionKind {
    /// The name used for the kind in the output (`"insert"` / `"delete"`).
    pub fn name(&self) -> (s: &'static str)
        ensures
            s@ == (match self {
                RevisionKind::Insert => "insert"@,
                RevisionKind::Delete => "delete"@,
            }),
    {
        match self {
            RevisionKind::Insert => "insert",
            RevisionKind::Delete => "delete",
        }
    }
}

/// One cell of a (top-level) table.
#[derive(Debug)]
pub struct TableCell {
    pub text: String,
    pub images: Vec<String>,
}

pub struct TableCellModel {
    pub text: Seq<char>,
    pub images: Seq<Seq<char>>,
}

impl DeepView for TableCell {
    type V = TableCellModel;

    open spec fn deep_view(&self) -> TableCellModel {
        TableCellModel { text: self.text@, images: self.images.deep_view() }
    }
}

/// A single content block.
#[derive(Debug)]
pub enum Section {
    Heading {
        level: u8,
        text: String,
        images: Vec<String>,
        footnote_refs: Vec<u32>,
        endnote_refs: Vec<u32>,
    },
    Paragraph { text: String, images: Vec<String>, footnote_refs: Vec<u32>, endnote_refs: Vec<u32> },
    ListItem {
        level: u8,
        text: String,
        images: Vec<String>,
        footnote_refs: Vec<u32>,
        endnote_refs: Vec<u32>,
    },
    Table { rows: Vec<Vec<TableCell>> },
}

pub enum SectionModel {
    Heading {
        level: u8,
        text: Seq<char>,
        images: Seq<Seq<char>>,
        footnote_refs: Seq<u32>,
        endnote_refs: Seq<u32>,
    },
    Paragraph {
        text: Seq<char>,
        images: Seq<Seq<char>>,
        footnote_refs: Seq<u32>,
        endnote_refs: Seq<u32>,
    },
    ListItem {
        level: u8,
        text: Seq<char>,
        images: Seq<Seq<char>>,
        footnote_refs: Seq<u32>,
        endnote_refs: Seq<u32>,
    },
    Table { rows: Seq<Seq<TableCellModel>> },
}

impl DeepView for Section {
    type V = SectionModel;

    open spec fn deep_view(&self) -> SectionModel {
        match self {
            Section::Heading { level, text, images, footnote_refs, endnote_refs } =>
                SectionModel::Heading {
                level: *level,
                text: text@,
                images: images.deep_view(),
                footnote_refs: footnote_refs@,
                endnote_refs: endnote_refs@,
            },
            Section::Paragraph { text, images, footnote_refs, endnote_refs } =>
                SectionModel::Paragraph {
                text: text@,
                images: images.deep_view(),
                footnote_refs: footnote_refs@,
                endnote_refs: endnote_refs@,
            },
            Section::ListItem { level, text, images, footnote_refs, endnote_refs } =>
                SectionModel::ListItem {
                level: *level,
                text: text@,
                images: images.deep_view(),
                footnote_refs: footnote_refs@,
                endnote_refs: endnote_refs@,
            },
            Section::Table { rows } => SectionModel::Table { rows: rows.deep_view() },
        }
    }
}

/// A tracked insertion or deletion.
#[derive(Debug)]
pub struct Revision {
    pub kind: RevisionKind,
    pub author: Option<String>,
    pub date: Option<String>,
    pub anchor: Option<Anchor>,
    pub text: String,
}

pub struct RevisionModel {
    pub kind: RevisionKind,
    pub author: Option<Seq<char>>,
    pub date: Option<Seq<char>>,
    pub anchor: Option<Anchor>,
    pub text: Seq<char>,
}

impl DeepView for Revision {
    type V = RevisionModel;

    open spec fn deep_view(&self) -> RevisionModel {
        RevisionModel {
            kind: self.kind,
            author: self.author.deep_view(),
            date: self.date.deep_view(),
            anchor: self.anchor,
            text: self.text@,
        }
    }
}

/// A header or footer part, typed `default` / `first` / `even`.
#[derive(Debug)]
pub struct HeaderFooter {
    pub kind: String,
    pub sections: Vec<Section>,
}

pub struct HeaderFooterModel {
    pub kind: Seq<char>,
    pub sections: Seq<SectionModel>,
}

impl DeepView for HeaderFooter {
    type V = HeaderFooterModel;

    open spec fn deep_view(&self) -> HeaderFooterModel {
        HeaderFooterModel { kind: self.kind@, sections: self.sections.deep_view() }
    }
}

/// A footnote or endnote.
#[derive(Debug)]
pub struct Note {
    pub id: u32,
    pub sections: Vec<Section>,
}

pub struct NoteModel {
    pub id: u32,
    pub sections: Seq<SectionModel>,
}

impl DeepView for Note {
    type V = NoteModel;

    open spec fn deep_view(&self) -> NoteModel {
        NoteModel { id: self.id, sections: self.sections.deep_view() }
    }
}

/// A comment with its body and, when found, its anchor in the body.
#[derive(Debug)]
pub struct Comment {
    pub id: u32,
    pub author: Option<String>,
    pub date: Option<String>,
    pub anchor: Option<Anchor>,
    pub sections: Vec<Section>,
}

pub struct CommentModel {
    pub id: u32,
    pub author: Option<Seq<char>>,
    pub date: Option<Seq<char>>,
    pub anchor: Option<Anchor>,
    pub sections: Seq<SectionModel>,
}

impl DeepView for Comment {
    type V = CommentModel;

    open spec fn deep_view(&self) -> CommentModel {
        CommentModel {
            id: self.id,
            author: self.author.deep_view(),
            date: self.date.deep_view(),
            anchor: self.anchor,
            sections: self.sections.deep_view(),
        }
    }
}

/// Document-level properties from `docProps/core.xml`.
#[derive(Debug)]
pub struct Metadata {
    pub title: Option<String>,
    pub author: Option<String>,
    pub last_modified_by: Option<String>,
    pub created: Option<String>,
    pub modified: Option<String>,
}

pub struct MetadataModel {
    pub title: Option<Seq<char>>,
    pub author: Option<Seq<char>>,
    pub last_modified_by: Option<Seq<char>>,
    pub created: Option<Seq<char>>,
    pub modified: Option<Seq<char>>,
}

impl DeepView for Metadata {
    type V = MetadataModel;

    open spec fn deep_view(&self) -> MetadataModel {
        MetadataModel {
            title: self.title.deep_view(),
            author: self.author.deep_view(),
            last_modified_by: self.last_modified_by.deep_view(),
            created: self.created.deep_view(),
            modified: self.modified.deep_view(),
        }
    }
}

impl Metadata {
    pub fn new() -> (m: Metadata)
        ensures
            m.title is None,
            m.author is None,
            m.last_modified_by is None,
            m.created is None,
            m.modified is None,
    {
        Metadata { title: None, author: None, last_modified_by: None, created: None, modified: None }
    }
}

/// An embedded image, base64-encoded.
#[derive(Debug)]
pub struct Image {
    pub id: String,
    pub mime_type: String,
    pub base64: String,
}

pub struct ImageModel {
    pub id: Seq<char>,
    pub mime_type: Seq<char>,
    pub base64: Seq<char>,
}

impl DeepView for Image {
    type V = ImageModel;

    open spec fn deep_view(&self) -> ImageModel {
        ImageModel { id: self.id@, mime_type: self.mime_type@, base64: self.base64@ }
    }
}

/// The whole extraction result.
#[derive(Debug)]
pub struct Document {
    /// Filename of the source DOCX (not the full path).
    pub source: String,
    pub metadata: Option<Metadata>,
    pub sections: Vec<Section>,
    pub headers: Vec<HeaderFooter>,
    pub footers: Vec<HeaderFooter>,
    pub footnotes: Vec<Note>,
    pub endnotes: Vec<Note>,
    pub comments: Vec<Comment>,
    pub revisions: Vec<Revision>,
    pub images: Vec<Image>,
}


pub struct DocumentModel {
    pub source: Seq<char>,
    pub metadata: Option<MetadataModel>,
    pub sections: Seq<SectionModel>,
    pub headers: Seq<HeaderFooterModel>,
    pub footers: Seq<HeaderFooterModel>,
    pub footnotes: Seq<NoteModel>,
    pub endnotes: Seq<NoteModel>,
    pub comments: Seq<CommentModel>,
    pub revisions: Seq<RevisionModel>,
    pub images: Seq<ImageModel>,
}

impl DeepView for Document {
    type V = DocumentModel;

    open spec fn deep_view(&self) -> DocumentModel {
        DocumentModel {
            source: self.source@,
            metadata: self.metadata.deep_view(),
            sections: self.sections.deep_view(),
            headers: self.headers.deep_view(),
            footers: self.footers.deep_view(),
            footnotes: self.footnotes.deep_view(),
            endnotes: self.endnotes.deep_view(),
            comments: self.comments.deep_view(),
            revisions: self.revisions.deep_view(),
            images: self.images.deep_view(),
        }
    }
}

} // verus!

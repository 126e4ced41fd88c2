//! Core document properties (`docProps/core.xml`).

use vstd::prelude::*;

use crate::model::{Metadata, MetadataModel};
use crate::text::{trim, trim_str};
use crate::xml::{classify, tag_kind, TagKind, XmlEvent, XmlEventModel, XmlStream};

verus! {

/// The property an element's text goes to.
#[derive(Clone, Copy, PartialEq, Eq, Structural)]
pub enum MetaField {
    Title,
    Author,
    LastModifiedBy,
    Created,
    Modified,
}

pub open spec fn field_of(k: TagKind) -> Option<MetaField> {
    if k == TagKind::Title {
        Some(MetaField::Title)
    } else if k == TagKind::Creator {
        Some(MetaField::Author)
    } else if k == TagKind::LastModifiedBy {
        Some(MetaField::LastModifiedBy)
    } else if k == TagKind::Created {
        Some(MetaField::Created)
    } else if k == TagKind::Modified {
        Some(MetaField::Modified)
    } else {
        None
    }
}

pub open spec fn empty_meta() -> MetadataModel {
    MetadataModel { title: None, author: None, last_modified_by: None, created: None, modified: None }
}

pub open spec fn set_field(m: MetadataModel, f: MetaField, v: Seq<char>) -> MetadataModel {
    match f {
        MetaField::Title => MetadataModel { title: Some(v), ..m },
        MetaField::Author => MetadataModel { author: Some(v), ..m },
        MetaField::LastModifiedBy => MetadataModel { last_modified_by: Some(v), ..m },
        MetaField::Created => MetadataModel { created: Some(v), ..m },
        MetaField::Modified => MetadataModel { modified: Some(v), ..m },
    }
}

/// Reading state: the properties so far and the property whose element is open.
pub open spec fn meta_step(s: (MetadataModel, Option<MetaField>), e: XmlEventModel) -> (
    MetadataModel,
    Option<MetaField>,
) {
    match e {
        XmlEventModel::Start(t) => (s.0, field_of(tag_kind(t.name))),
        XmlEventModel::Text(x) => match s.1 {
            Some(f) => {
                let text = trim(
                    match x {
                        Some(v) => v,
                        None => Seq::empty(),
                    },
                );
                if text.len() > 0 {
                    (set_field(s.0, f, text), s.1)
                } else {
                    s
                }
            },
            None => s,
        },
        XmlEventModel::End(_) => (s.0, None),
        _ => s,
    }
}

pub open spec fn meta_run(evs: Seq<XmlEventModel>) -> (MetadataModel, Option<MetaField>)
    decreases evs.len(),
{
    if evs.len() == 0 {
        (empty_meta(), None)
    } else {
        meta_step(meta_run(evs.drop_last()), evs.last())
    }
}

pub open spec fn meta_has_any(m: MetadataModel) -> bool {
    m.title is Some || m.author is Some || m.last_modified_by is Some || m.created is Some
        || m.modified is Some
}

/// The metadata a sequence of events gives: `None` when no property is set.
pub open spec fn metadata_of(evs: Seq<XmlEventModel>) -> Option<MetadataModel> {
    let m = meta_run(evs).0;
    if meta_has_any(m) {
        Some(m)
    } else {
        None
    }
}

fn field_of_kind(k: TagKind) -> (r: Option<MetaField>)
    ensures
        r == field_of(k),
{
    if k == TagKind::Title {
        Some(MetaField::Title)
    } else if k == TagKind::Creator {
        Some(MetaField::Author)
    } else if k == TagKind::LastModifiedBy {
        Some(MetaField::LastModifiedBy)
    } else if k == TagKind::Created {
        Some(MetaField::Created)
    } else if k == TagKind::Modified {
        Some(MetaField::Modified)
    } else {
        None
    }
}

/// Core properties from the events of `docProps/core.xml`: `Err` (the
/// reader's error) when reading stopped at an error; otherwise the title,
/// author (`creator`), last-modified-by, created and modified texts, trimmed
/// (blank texts ignored; a later text of the same property replaces an
/// earlier one), or `None` when there is none.
pub fn parse_core_props(stream: XmlStream) -> (r: Result<Option<Metadata>, quick_xml::Error>)
    ensures
        r is Err <==> stream.error is Some,
        r matches Ok(m) ==> m.deep_view() == metadata_of(stream.events.deep_view()),
{
    if let Some(e) = stream.error {
        return Err(e);
    }
    let events = stream.events;
    let mut meta = Metadata::new();
    let mut current: Option<MetaField> = None;
    let mut i: usize = 0;
    while i < events.len()
        invariant
            i <= events.len(),
            (meta.deep_view(), current) == meta_run(events.deep_view().take(i as int)),
        decreases events.len() - i,
    {
        let ghost pre = events.deep_view().take(i + 1);
        assert(pre.drop_last() =~= events.deep_view().take(i as int));
        assert(pre.last() == events[i as int].deep_view());
        match &events[i] {
            XmlEvent::Start(t) => {
                current = field_of_kind(classify(t.name.as_slice()));
            },
            XmlEvent::Text(x) => {
                if let Some(f) = current {
                    let text = match x {
                        Some(v) => trim_str(v.as_str()),
                        None => {
                            proof {
                                reveal_strlit("");
                            }
                            let t = trim_str("");
                            assert(""@ =~= Seq::<char>::empty());
                            t
                        },
                    };
                    if !text.as_str().is_empty() {
                        match f {
                            MetaField::Title => meta.title = Some(text),
                            MetaField::Author => meta.author = Some(text),
                            MetaField::LastModifiedBy => meta.last_modified_by = Some(text),
                            MetaField::Created => meta.created = Some(text),
                            MetaField::Modified => meta.modified = Some(text),
                        }
                    }
                }
            },
            XmlEvent::End(_) => {
                current = None;
            },
            _ => {},
        }
        i = i + 1;
    }
    assert(events.deep_view().take(i as int) =~= events.deep_view());
    let has_any = meta.title.is_some() || meta.author.is_some() || meta.last_modified_by.is_some()
        || meta.created.is_some() || meta.modified.is_some();
    Ok(
        if has_any {
            Some(meta)
        } else {
            None
        },
    )
}

} // verus!

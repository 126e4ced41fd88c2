//! Relationships of the main document part (`word/_rels/document.xml.rels`):
//! relationship id → target, split by type (images, hyperlinks, headers,
//! footers).

use vstd::prelude::*;
use vstd::string::*;

use crate::assoc::{assoc_get, assoc_insert, find_key, lemma_find_key};
use crate::text::{contains, contains_str, ends_with, ends_with_str, push_str};
use crate::xml::{
    classify, local_name, tag_kind, TagKind, XmlAttr, XmlAttrModel, XmlEvent, XmlEventModel,
    XmlStream, local_part,
};
use crate::text::{bytes_eq, lossy, utf8_lossy};

verus! {

/// A map from relationship id to target, in insertion order.
pub struct RelMap {
    pub entries: Vec<(String, String)>,
}

impl DeepView for RelMap {
    type V = Seq<(Seq<char>, Seq<char>)>;

    open spec fn deep_view(&self) -> Seq<(Seq<char>, Seq<char>)> {
        self.entries.deep_view()
    }
}

impl RelMap {
    pub fn new() -> (m: RelMap)
        ensures
            m.deep_view() == Seq::<(Seq<char>, Seq<char>)>::empty(),
    {
        let m = RelMap { entries: Vec::new() };
        assert(m.deep_view() =~= Seq::<(Seq<char>, Seq<char>)>::empty());
        m
    }

    fn position(&self, k: &str) -> (r: usize)
        ensures
            find_key(self.deep_view(), k@) == (if r == self.entries.len() {
                -1
            } else {
                r as int
            }),
            r <= self.entries.len(),
    {
        let mut i: usize = 0;
        while i < self.entries.len()
            invariant
                i <= self.entries.len(),
                forall|j: int| 0 <= j < i ==> (#[trigger] self.deep_view()[j]).0 != k@,
            decreases self.entries.len() - i,
        {
            if crate::text::str_eq(self.entries[i].0.as_str(), k) {
                proof {
                    lemma_find_key(self.deep_view(), k@, i as int);
                }
                return i;
            }
            i = i + 1;
        }
        proof {
            lemma_find_key(self.deep_view(), k@, i as int);
        }
        i
    }

    /// The target for `k`, if any.
    pub fn get(&self, k: &str) -> (r: Option<String>)
        ensures
            r.deep_view() == assoc_get(self.deep_view(), k@),
    {
        let i = self.position(k);
        if i < self.entries.len() {
            Some(self.entries[i].1.clone())
        } else {
            None
        }
    }

    /// Sets the target for `k`, replacing an earlier one.
    pub fn insert(&mut self, k: String, v: String)
        ensures
            final(self).deep_view() == assoc_insert(old(self).deep_view(), k@, v@),
    {
        let i = self.position(k.as_str());
        let ghost before = self.deep_view();
        if i < self.entries.len() {
            self.entries.set(i, (k, v));
            assert(self.deep_view() =~= before.update(i as int, (k@, v@)));
        } else {
            self.entries.push((k, v));
            assert(self.deep_view() =~= before.push((k@, v@)));
        }
    }

    /// The targets, in order.
    pub fn values(&self) -> (r: Vec<String>)
        ensures
            r.deep_view() == self.deep_view().map_values(|e: (Seq<char>, Seq<char>)| e.1),
    {
        let mut r: Vec<String> = Vec::new();
        let mut i: usize = 0;
        while i < self.entries.len()
            invariant
                i <= self.entries.len(),
                r.deep_view() == self.deep_view().take(i as int).map_values(
                    |e: (Seq<char>, Seq<char>)| e.1,
                ),
            decreases self.entries.len() - i,
        {
            let ghost before = r.deep_view();
            let v = self.entries[i].1.clone();
            assert(v@ == self.deep_view()[i as int].1);
            r.push(v);
            assert(r.deep_view() =~= before.push(v@));
            i = i + 1;
            assert(r.deep_view() =~= self.deep_view().take(i as int).map_values(
                |e: (Seq<char>, Seq<char>)| e.1,
            ));
        }
        assert(self.deep_view().take(i as int) =~= self.deep_view());
        r
    }
}

/// Relationship targets by type. Image and header/footer targets are
/// archive paths (`word/` + target); hyperlink targets are URLs.
pub struct Rels {
    pub images: RelMap,
    pub hyperlinks: RelMap,
    pub headers: RelMap,
    pub footers: RelMap,
}

pub struct RelsModel {
    pub images: Seq<(Seq<char>, Seq<char>)>,
    pub hyperlinks: Seq<(Seq<char>, Seq<char>)>,
    pub headers: Seq<(Seq<char>, Seq<char>)>,
    pub footers: Seq<(Seq<char>, Seq<char>)>,
}

impl DeepView for Rels {
    type V = RelsModel;

    open spec fn deep_view(&self) -> RelsModel {
        RelsModel {
            images: self.images.deep_view(),
            hyperlinks: self.hyperlinks.deep_view(),
            headers: self.headers.deep_view(),
            footers: self.footers.deep_view(),
        }
    }
}

pub open spec fn empty_rels() -> RelsModel {
    RelsModel {
        images: Seq::empty(),
        hyperlinks: Seq::empty(),
        headers: Seq::empty(),
        footers: Seq::empty(),
    }
}

impl Rels {
    pub fn new() -> (r: Rels)
        ensures
            r.deep_view() == empty_rels(),
    {
        Rels {
            images: RelMap::new(),
            hyperlinks: RelMap::new(),
            headers: RelMap::new(),
            footers: RelMap::new(),
        }
    }
}

/// The value of the last attribute whose local name is `key`, decoded.
pub open spec fn last_attr_value(attrs: Seq<XmlAttrModel>, key: Seq<u8>) -> Option<Seq<char>>
    decreases attrs.len(),
{
    if attrs.len() == 0 {
        None
    } else if local_part(attrs.last().key) == key {
        Some(utf8_lossy(attrs.last().value))
    } else {
        last_attr_value(attrs.drop_last(), key)
    }
}

/// Records one `<Relationship Id=.. Type=.. Target=..>`.
pub open spec fn add_relationship(r: RelsModel, attrs: Seq<XmlAttrModel>) -> RelsModel {
    let id = last_attr_value(attrs, "Id".spec_bytes());
    let target = last_attr_value(attrs, "Target".spec_bytes());
    let rel_type = match last_attr_value(attrs, "Type".spec_bytes()) {
        Some(t) => t,
        None => Seq::empty(),
    };
    match (id, target) {
        (Some(id), Some(target)) => if contains_str(rel_type, "image"@) {
            RelsModel { images: assoc_insert(r.images, id, "word/"@ + target), ..r }
        } else if contains_str(rel_type, "hyperlink"@) {
            RelsModel { hyperlinks: assoc_insert(r.hyperlinks, id, target), ..r }
        } else if ends_with_str(rel_type, "/header"@) {
            RelsModel { headers: assoc_insert(r.headers, id, "word/"@ + target), ..r }
        } else if ends_with_str(rel_type, "/footer"@) {
            RelsModel { footers: assoc_insert(r.footers, id, "word/"@ + target), ..r }
        } else {
            r
        },
        _ => r,
    }
}

pub open spec fn rels_step(r: RelsModel, e: XmlEventModel) -> RelsModel {
    match e {
        XmlEventModel::Start(t) => if tag_kind(t.name) == TagKind::Relationship {
            add_relationship(r, t.attrs)
        } else {
            r
        },
        XmlEventModel::Empty(t) => if tag_kind(t.name) == TagKind::Relationship {
            add_relationship(r, t.attrs)
        } else {
            r
        },
        _ => r,
    }
}

/// The relationships recorded by a sequence of events.
pub open spec fn rels_of(evs: Seq<XmlEventModel>) -> RelsModel
    decreases evs.len(),
{
    if evs.len() == 0 {
        empty_rels()
    } else {
        rels_step(rels_of(evs.drop_last()), evs.last())
    }
}

fn last_attr(attrs: &Vec<XmlAttr>, key: &str) -> (r: Option<String>)
    ensures
        r.deep_view() == last_attr_value(attrs.deep_view(), key.spec_bytes()),
{
    let mut i: usize = attrs.len();
    assert(attrs.deep_view().take(i as int) =~= attrs.deep_view());
    while i > 0
        invariant
            i <= attrs.len(),
            last_attr_value(attrs.deep_view(), key.spec_bytes()) == last_attr_value(
                attrs.deep_view().take(i as int),
                key.spec_bytes(),
            ),
        decreases i,
    {
        let ghost pre = attrs.deep_view().take(i as int);
        assert(pre.last() == attrs[i - 1].deep_view());
        assert(pre.drop_last() =~= attrs.deep_view().take(i - 1));
        let l = local_name(attrs[i - 1].key.as_slice());
        if bytes_eq(l.as_slice(), key.as_bytes()) {
            return Some(lossy(attrs[i - 1].value.as_slice()));
        }
        i = i - 1;
    }
    None
}

fn word_path(target: &String) -> (p: String)
    ensures
        p@ == "word/"@ + target@,
{
    let mut p = "word/".to_owned();
    push_str(&mut p, target.as_str());
    p
}

fn add_relationship_exec(rels: &mut Rels, attrs: &Vec<XmlAttr>)
    ensures
        final(rels).deep_view() == add_relationship(old(rels).deep_view(), attrs.deep_view()),
{
    let id = last_attr(attrs, "Id");
    let target = last_attr(attrs, "Target");
    let rel_type = match last_attr(attrs, "Type") {
        Some(t) => t,
        None => String::new(),
    };
    if let (Some(id), Some(target)) = (id, target) {
        if contains(rel_type.as_str(), "image") {
            let p = word_path(&target);
            rels.images.insert(id, p);
        } else if contains(rel_type.as_str(), "hyperlink") {
            rels.hyperlinks.insert(id, target);
        } else if ends_with(rel_type.as_str(), "/header") {
            let p = word_path(&target);
            rels.headers.insert(id, p);
        } else if ends_with(rel_type.as_str(), "/footer") {
            let p = word_path(&target);
            rels.footers.insert(id, p);
        }
    }
}

/// Relationships from the events of a `.rels` part: `Err` (the reader's
/// error) when reading stopped at an error, else the relationships recorded
/// by the events.
pub fn parse_relationships(stream: XmlStream) -> (r: Result<Rels, quick_xml::Error>)
    ensures
        r is Err <==> stream.error is Some,
        r matches Ok(rels) ==> rels.deep_view() == rels_of(stream.events.deep_view()),
{
    if let Some(e) = stream.error {
        return Err(e);
    }
    let events = stream.events;
    let mut rels = Rels::new();
    let mut i: usize = 0;
    while i < events.len()
        invariant
            i <= events.len(),
            rels.deep_view() == rels_of(events.deep_view().take(i as int)),
        decreases events.len() - i,
    {
        let ghost pre = events.deep_view().take(i + 1);
        assert(pre.drop_last() =~= events.deep_view().take(i as int));
        assert(pre.last() == events[i as int].deep_view());
        match &events[i] {
            XmlEvent::Start(t) => {
                if classify(t.name.as_slice()) == TagKind::Relationship {
                    add_relationship_exec(&mut rels, &t.attrs);
                }
            },
            XmlEvent::Empty(t) => {
                if classify(t.name.as_slice()) == TagKind::Relationship {
                    add_relationship_exec(&mut rels, &t.attrs);
                }
            },
            _ => {},
        }
        i = i + 1;
    }
    assert(events.deep_view().take(i as int) =~= events.deep_view());
    Ok(rels)
}

} // verus!

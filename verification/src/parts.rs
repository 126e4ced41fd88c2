//! Splitting a notes/comments part into its entries, and reading single
//! attributes of an opening tag.

use vstd::prelude::*;
use vstd::string::*;

use crate::text::{
    chars_of, char_is_whitespace, ends_with_str, is_ws, lemma_trail_ws, occurs_at, push_char,
    trail_ws,
};
use crate::xml::{
    attr_value, get_attr, read_xml, step_events, xml_parse, XmlEvent, XmlEventModel,
};
use crate::assoc::{assoc_get, key_position};
use crate::body::{body_of, run_ok, try_parse_body};
use crate::model::{Anchor, Comment, CommentModel, Note, NoteModel};
use crate::rels::{Rels, RelsModel};
use crate::text::{parse_i64, parse_signed, parse_u32, parse_unsigned, str_eq};

verus! {

/// First position `>= from` where `p` occurs in `h`, or -1.
pub open spec fn find_from(h: Seq<char>, p: Seq<char>, from: int) -> int
    decreases h.len() + 1 - from,
{
    if from < 0 || from + p.len() > h.len() {
        -1
    } else if occurs_at(h, p, from) {
        from
    } else {
        find_from(h, p, from + 1)
    }
}

pub proof fn lemma_find_from(h: Seq<char>, p: Seq<char>, from: int)
    requires
        0 <= from,
    ensures
        find_from(h, p, from) == -1 || (from <= find_from(h, p, from) && occurs_at(
            h,
            p,
            find_from(h, p, from),
        )),
        find_from(h, p, from) >= 0 ==> forall|j: int|
            from <= j < find_from(h, p, from) ==> !occurs_at(h, p, j),
        find_from(h, p, from) == -1 ==> forall|j: int| from <= j ==> !occurs_at(h, p, j),
    decreases h.len() + 1 - from,
{
    if from < 0 || from + p.len() > h.len() {
        assert forall|j: int| from <= j implies !occurs_at(h, p, j) by {}
    } else if occurs_at(h, p, from) {
    } else {
        lemma_find_from(h, p, from + 1);
    }
}

/// `str::trim_end`.
pub open spec fn trim_end(s: Seq<char>) -> Seq<char> {
    s.take(s.len() - trail_ws(s))
}

/// One entry of a notes/comments part: its opening tag, and the whole
/// element (the opening tag alone when it is self-closing).
pub struct Chunk {
    pub opening: String,
    pub full: String,
}

pub struct ChunkModel {
    pub opening: Seq<char>,
    pub full: Seq<char>,
}

impl DeepView for Chunk {
    type V = ChunkModel;

    open spec fn deep_view(&self) -> ChunkModel {
        ChunkModel { opening: self.opening@, full: self.full@ }
    }
}

/// A character that may follow the element name in an opening tag.
pub open spec fn ends_name(c: char) -> bool {
    c == ' ' || c == '\t' || c == '\n' || c == '\r' || c == '>' || c == '/'
}

/// The entries `<w:{tag} ...>` ... `</w:{tag}>` of `xml` from position
/// `cursor` on, in order. A match of the prefix that continues the name
/// (`<w:footnoteReference` when looking for `<w:footnote`) is skipped;
/// scanning stops at an opening tag without `>` or an element without its
/// closing tag.
pub open spec fn chunks_from(xml: Seq<char>, open: Seq<char>, close: Seq<char>, cursor: int) -> Seq<ChunkModel>
    decreases xml.len() + 1 - cursor,
    when 0 <= cursor && open.len() > 0
{
    let s = find_from(xml, open, cursor);
    proof {
        lemma_find_from(xml, open, cursor);
    }
    if s < 0 {
        Seq::empty()
    } else {
        let after = s + open.len();
        if !(after < xml.len() && ends_name(xml[after])) {
            chunks_from(xml, open, close, after)
        } else {
            let gt = find_from(xml, ">"@, s);
            proof {
                lemma_find_from(xml, ">"@, s);
            }
            if gt < 0 {
                Seq::empty()
            } else {
                let coo = gt + 1;
                let opening = xml.subrange(s, coo);
                if ends_with_str(trim_end(opening), "/>"@) {
                    seq![ChunkModel { opening, full: opening }] + chunks_from(xml, open, close, coo)
                } else {
                    let e = find_from(xml, close, coo);
                    proof {
                        lemma_find_from(xml, close, coo);
                    }
                    if e < 0 {
                        Seq::empty()
                    } else {
                        let end = e + close.len();
                        seq![ChunkModel { opening, full: xml.subrange(s, end) }] + chunks_from(
                            xml,
                            open,
                            close,
                            end,
                        )
                    }
                }
            }
        }
    }
}

/// `split_by_tag`'s result for `tag`.
pub open spec fn chunks_of(xml: Seq<char>, tag: Seq<char>) -> Seq<ChunkModel> {
    chunks_from(xml, "<w:"@ + tag, "</w:"@ + tag + ">"@, 0)
}

fn find_chars(h: &Vec<char>, p: &Vec<char>, from: usize) -> (r: Option<usize>)
    requires
        from <= h.len(),
    ensures
        match r {
            Some(i) => i as int == find_from(h@, p@, from as int) && i + p.len() <= h.len(),
            None => find_from(h@, p@, from as int) == -1,
        },
{
    proof {
        lemma_find_from(h@, p@, from as int);
    }
    if p.len() > h.len() - from {
        return None;
    }
    let last = h.len() - p.len();
    let mut i: usize = from;
    loop
        invariant
            from <= i <= last,
            last == h.len() - p.len(),
            forall|j: int| from <= j < i ==> !occurs_at(h@, p@, j),
        decreases last - i,
    {
        let mut k: usize = 0;
        let mut ok = true;
        while k < p.len()
            invariant
                i + p.len() <= h.len(),
                k <= p.len(),
                ok ==> forall|q: int| 0 <= q < k ==> h@[i + q] == p@[q],
                !ok ==> exists|q: int| 0 <= q < p.len() && h@[i + q] != p@[q],
            decreases p.len() - k,
        {
            if h[i + k] != p[k] {
                ok = false;
                assert(h@[i + k] != p@[k as int]);
            }
            k = k + 1;
        }
        if ok {
            assert(h@.subrange(i as int, i + p.len()) =~= p@);
            proof {
                lemma_find_from_first(h@, p@, from as int, i as int);
            }
            return Some(i);
        } else {
            proof {
                let q = choose|q: int| 0 <= q < p.len() && h@[i + q] != p@[q];
                assert(h@.subrange(i as int, i + p.len())[q] != p@[q]);
            }
        }
        if i == last {
            proof {
                lemma_find_from_none(h@, p@, from as int);
            }
            return None;
        }
        i = i + 1;
    }
}

proof fn lemma_find_from_first(h: Seq<char>, p: Seq<char>, from: int, i: int)
    requires
        0 <= from <= i,
        occurs_at(h, p, i),
        forall|j: int| from <= j < i ==> !occurs_at(h, p, j),
    ensures
        find_from(h, p, from) == i,
    decreases i - from,
{
    if from < i {
        lemma_find_from_first(h, p, from + 1, i);
    }
}

proof fn lemma_find_from_none(h: Seq<char>, p: Seq<char>, from: int)
    requires
        0 <= from,
        forall|j: int| from <= j <= h.len() - p.len() ==> !occurs_at(h, p, j),
    ensures
        find_from(h, p, from) == -1,
    decreases h.len() + 1 - from,
{
    if from + p.len() <= h.len() {
        lemma_find_from_none(h, p, from + 1);
    }
}

fn string_of(cs: &Vec<char>, a: usize, b: usize) -> (s: String)
    requires
        a <= b <= cs.len(),
    ensures
        s@ == cs@.subrange(a as int, b as int),
{
    let mut s = String::new();
    let mut i: usize = a;
    while i < b
        invariant
            a <= i <= b <= cs.len(),
            s@ == cs@.subrange(a as int, i as int),
        decreases b - i,
    {
        push_char(&mut s, cs[i]);
        i = i + 1;
        assert(s@ =~= cs@.subrange(a as int, i as int));
    }
    s
}

fn ends_with_self_close(o: &Vec<char>) -> (r: bool)
    ensures
        r == ends_with_str(trim_end(o@), "/>"@),
{
    let mut b: usize = o.len();
    while b > 0 && char_is_whitespace(o[b - 1])
        invariant
            b <= o.len(),
            forall|i: int| b <= i < o.len() ==> is_ws(#[trigger] o@[i]),
        decreases b,
    {
        b = b - 1;
    }
    proof {
        lemma_trail_ws(o@, b as int);
        reveal_strlit("/>");
    }
    assert(trim_end(o@) =~= o@.take(b as int));
    let r = b >= 2 && o[b - 2] == '/' && o[b - 1] == '>';
    proof {
        let t = o@.take(b as int);
        if b >= 2 {
            if r {
                assert(t.skip(b - 2) =~= "/>"@);
            } else {
                assert(t.skip(b - 2)[0] == o@[b - 2]);
                assert(t.skip(b - 2)[1] == o@[b - 1]);
            }
        }
    }
    r
}

/// Splits an XML document into the entries `<w:{tag} ...>` ... `</w:{tag}>`.
pub fn split_by_tag(xml: &str, tag: &str) -> (r: Vec<Chunk>)
    ensures
        r.deep_view() == chunks_of(xml@, tag@),
{
    let cs = chars_of(xml);
    let mut open = chars_of("<w:");
    let tag_cs = chars_of(tag);
    let mut close = chars_of("</w:");
    let mut i: usize = 0;
    while i < tag_cs.len()
        invariant
            i <= tag_cs.len(),
            open@ == "<w:"@ + tag@.take(i as int),
            close@ == "</w:"@ + tag@.take(i as int),
            tag_cs@ == tag@,
        decreases tag_cs.len() - i,
    {
        open.push(tag_cs[i]);
        close.push(tag_cs[i]);
        i = i + 1;
        assert(open@ =~= "<w:"@ + tag@.take(i as int));
        assert(close@ =~= "</w:"@ + tag@.take(i as int));
    }
    close.push('>');
    proof {
        reveal_strlit("<w:");
        reveal_strlit(">");
        assert(tag@.take(i as int) =~= tag@);
        assert(close@ =~= "</w:"@ + tag@ + ">"@);
    }
    let gt = chars_of(">");
    let ghost o = open@;
    let ghost c = close@;
    let mut out: Vec<Chunk> = Vec::new();
    let mut cursor: usize = 0;
    assert(out.deep_view() + chunks_from(cs@, o, c, 0) =~= chunks_from(cs@, o, c, 0));
    loop
        invariant
            cursor <= cs.len(),
            cs@ == xml@,
            open@ == o,
            close@ == c,
            gt@ == ">"@,
            gt.len() == 1,
            o.len() > 0,
            out.deep_view() + chunks_from(cs@, o, c, cursor as int) == chunks_of(xml@, tag@),
        decreases cs.len() - cursor,
    {
        let ghost before = out.deep_view();
        let s = match find_chars(&cs, &open, cursor) {
            Some(s) => s,
            None => {
                assert(before =~= before + Seq::<ChunkModel>::empty());
                return out;
            },
        };
        proof {
            lemma_find_from(cs@, o, cursor as int);
        }
        let after = s + open.len();
        if !(after < cs.len() && (cs[after] == ' ' || cs[after] == '\t' || cs[after] == '\n'
            || cs[after] == '\r' || cs[after] == '>' || cs[after] == '/')) {
            cursor = after;
            continue;
        }
        let g = match find_chars(&cs, &gt, s) {
            Some(g) => g,
            None => {
                assert(before =~= before + Seq::<ChunkModel>::empty());
                return out;
            },
        };
        proof {
            lemma_find_from(cs@, ">"@, s as int);
        }
        let coo = g + 1;
        let opening = string_of(&cs, s, coo);
        let ov = chars_of(opening.as_str());
        if ends_with_self_close(&ov) {
            let full = string_of(&cs, s, coo);
            let ch = Chunk { opening, full };
            let ghost chm = ch.deep_view();
            out.push(ch);
            assert(out.deep_view() =~= before.push(chm));
            assert(seq![chm] + chunks_from(cs@, o, c, coo as int) == chunks_from(
                cs@,
                o,
                c,
                cursor as int,
            ));
            assert(out.deep_view() + chunks_from(cs@, o, c, coo as int) =~= before + (seq![chm]
                + chunks_from(cs@, o, c, coo as int)));
            cursor = coo;
            continue;
        }
        let e = match find_chars(&cs, &close, coo) {
            Some(e) => e,
            None => {
                assert(before =~= before + Seq::<ChunkModel>::empty());
                return out;
            },
        };
        proof {
            lemma_find_from(cs@, c, coo as int);
        }
        let end = e + close.len();
        let full = string_of(&cs, s, end);
        let ch = Chunk { opening, full };
        let ghost chm = ch.deep_view();
        out.push(ch);
        assert(out.deep_view() =~= before.push(chm));
        assert(seq![chm] + chunks_from(cs@, o, c, end as int) == chunks_from(
            cs@,
            o,
            c,
            cursor as int,
        ));
        assert(out.deep_view() + chunks_from(cs@, o, c, end as int) =~= before + (seq![chm]
            + chunks_from(cs@, o, c, end as int)));
        cursor = end;
    }
}


// ── Attributes of an opening tag ──────────────────────────────────────────────

/// The events `quick_xml` reads from a text, before its end or first error.
pub open spec fn events_of(text: Seq<char>) -> Seq<XmlEventModel> {
    step_events(xml_parse(text))
}

/// The attribute `key` (by local name) of the first opening or empty tag.
pub open spec fn first_tag_attr(evs: Seq<XmlEventModel>, key: Seq<u8>) -> Option<Seq<char>>
    decreases evs.len(),
{
    if evs.len() == 0 {
        None
    } else {
        match evs[0] {
            XmlEventModel::Start(t) => attr_value(t.attrs, key),
            XmlEventModel::Empty(t) => attr_value(t.attrs, key),
            _ => first_tag_attr(evs.drop_first(), key),
        }
    }
}

/// The attribute `key` of the (first) tag in `opening`.
pub fn find_attr_in_open_tag(opening: &str, key: &str) -> (r: Option<String>)
    ensures
        r.deep_view() == first_tag_attr(events_of(opening@), key.spec_bytes()),
{
    let stream = read_xml(opening);
    let events = stream.events;
    let mut i: usize = 0;
    assert(events.deep_view().skip(0) =~= events.deep_view());
    while i < events.len()
        invariant
            i <= events.len(),
            events.deep_view() == events_of(opening@),
            first_tag_attr(events_of(opening@), key.spec_bytes()) == first_tag_attr(
                events.deep_view().skip(i as int),
                key.spec_bytes(),
            ),
        decreases events.len() - i,
    {
        let ghost rest = events.deep_view().skip(i as int);
        assert(rest[0] == events[i as int].deep_view());
        assert(rest.drop_first() =~= events.deep_view().skip(i + 1));
        match &events[i] {
            XmlEvent::Start(t) => {
                return get_attr(&t.attrs, key);
            },
            XmlEvent::Empty(t) => {
                return get_attr(&t.attrs, key);
            },
            _ => {},
        }
        i = i + 1;
    }
    None
}

// ── Footnotes and endnotes ────────────────────────────────────────────────────

/// One entry of a notes part: `None` where its body is malformed (see
/// `body_is_parsable`); `Some(None)` for a separator, an entry without a positive
/// id, or one without content.
#[verifier::opaque]
pub open spec fn note_of(c: ChunkModel, rels: RelsModel) -> Option<Option<NoteModel>> {
    let o = events_of(c.opening);
    let t = first_tag_attr(o, "type".spec_bytes());
    if t == Some("separator"@) || t == Some("continuationSeparator"@) {
        Some(None)
    } else {
        match first_tag_attr(o, "id".spec_bytes()) {
            None => Some(None),
            Some(v) => match parse_signed(v, -0x8000_0000_0000_0000, 0x7fff_ffff_ffff_ffff) {
                None => Some(None),
                Some(id) => if id < 1 {
                    Some(None)
                } else {
                    let evs = events_of(c.full);
                    if !run_ok(evs, rels) {
                        None
                    } else {
                        let b = body_of(evs, rels);
                        if b.sections.len() > 0 {
                            Some(Some(NoteModel { id: id as u32, sections: b.sections }))
                        } else {
                            Some(None)
                        }
                    }
                },
            },
        }
    }
}

/// The notes of a sequence of entries, in order; `None` when a body is
/// malformed.
pub open spec fn notes_of(cs: Seq<ChunkModel>, rels: RelsModel) -> Option<Seq<NoteModel>>
    decreases cs.len(),
{
    if cs.len() == 0 {
        Some(Seq::empty())
    } else {
        match notes_of(cs.drop_last(), rels) {
            None => None,
            Some(prev) => match note_of(cs.last(), rels) {
                None => None,
                Some(None) => Some(prev),
                Some(Some(n)) => Some(prev.push(n)),
            },
        }
    }
}

fn note_from(c: &Chunk, rels: &Rels) -> (r: Option<Option<Note>>)
    ensures
        r.deep_view() == note_of(c.deep_view(), rels.deep_view()),
{
    reveal(note_of);
    let t = find_attr_in_open_tag(c.opening.as_str(), "type");
    let is_sep = match &t {
        Some(v) => str_eq(v.as_str(), "separator") || str_eq(v.as_str(), "continuationSeparator"),
        None => false,
    };
    if is_sep {
        return Some(None);
    }
    let id = match find_attr_in_open_tag(c.opening.as_str(), "id") {
        Some(v) => match parse_i64(v.as_str()) {
            Some(id) => id,
            None => {
                return Some(None);
            },
        },
        None => {
            return Some(None);
        },
    };
    if id < 1 {
        return Some(None);
    }
    match try_parse_body(c.full.as_str(), rels) {
        None => None,
        Some(body) => {
            if body.sections.len() > 0 {
                Some(Some(Note { id: id as u32, sections: body.sections }))
            } else {
                Some(None)
            }
        },
    }
}

/// The footnotes (`note_tag` = `footnote`) or endnotes (`endnote`) of a
/// notes part: separators and entries without a positive id or without
/// content are left out. `None` where a body is malformed (see `body_is_parsable`).
pub fn parse_notes(xml: &str, note_tag: &str, rels: &Rels) -> (r: Option<Vec<Note>>)
    ensures
        r.deep_view() == notes_of(chunks_of(xml@, note_tag@), rels.deep_view()),
{
    let chunks = split_by_tag(xml, note_tag);
    let ghost cs = chunks.deep_view();
    let mut out: Vec<Note> = Vec::new();
    let mut i: usize = 0;
    assert(out.deep_view() =~= Seq::<NoteModel>::empty());
    assert(cs.take(0) =~= Seq::<ChunkModel>::empty());
    while i < chunks.len()
        invariant
            i <= chunks.len(),
            cs == chunks.deep_view(),
            cs == chunks_of(xml@, note_tag@),
            notes_of(cs.take(i as int), rels.deep_view()) == Some(out.deep_view()),
        decreases chunks.len() - i,
    {
        let ghost pre = cs.take(i + 1);
        assert(pre.drop_last() =~= cs.take(i as int));
        assert(pre.last() == chunks[i as int].deep_view());
        match note_from(&chunks[i], rels) {
            None => {
                proof {
                    assert(notes_of(pre, rels.deep_view()) is None);
                    lemma_notes_none(cs, rels.deep_view(), i + 1);
                }
                return None;
            },
            Some(None) => {},
            Some(Some(n)) => {
                let ghost before = out.deep_view();
                let ghost nm = n.deep_view();
                out.push(n);
                assert(out.deep_view() =~= before.push(nm));
            },
        }
        i = i + 1;
    }
    assert(cs.take(i as int) =~= cs);
    Some(out)
}

proof fn lemma_notes_none(cs: Seq<ChunkModel>, rels: RelsModel, k: int)
    requires
        0 <= k <= cs.len(),
        notes_of(cs.take(k), rels) is None,
    ensures
        notes_of(cs, rels) is None,
    decreases cs.len() - k,
{
    if k < cs.len() {
        assert(cs.take(k + 1).drop_last() =~= cs.take(k));
        lemma_notes_none(cs, rels, k + 1);
    } else {
        assert(cs.take(k) =~= cs);
    }
}

// ── Comments ──────────────────────────────────────────────────────────────────

/// One entry of the comments part: `None` where its body is malformed (see
/// `body_is_parsable`); `Some(None)` for an entry without a `u32` id.
#[verifier::opaque]
pub open spec fn comment_of(c: ChunkModel, rels: RelsModel, anchors: Seq<(u32, Anchor)>) -> Option<
    Option<CommentModel>,
> {
    let o = events_of(c.opening);
    match first_tag_attr(o, "id".spec_bytes()) {
        None => Some(None),
        Some(v) => match parse_unsigned(v, 0xffff_ffff) {
            None => Some(None),
            Some(id) => {
                let evs = events_of(c.full);
                if !run_ok(evs, rels) {
                    None
                } else {
                    Some(
                        Some(
                            CommentModel {
                                id: id as u32,
                                author: first_tag_attr(o, "author".spec_bytes()),
                                date: first_tag_attr(o, "date".spec_bytes()),
                                anchor: assoc_get(anchors, id as u32),
                                sections: body_of(evs, rels).sections,
                            },
                        ),
                    )
                }
            },
        },
    }
}

/// The comments of a sequence of entries, in document order.
pub open spec fn comments_in_order(
    cs: Seq<ChunkModel>,
    rels: RelsModel,
    anchors: Seq<(u32, Anchor)>,
) -> Option<Seq<CommentModel>>
    decreases cs.len(),
{
    if cs.len() == 0 {
        Some(Seq::empty())
    } else {
        match comments_in_order(cs.drop_last(), rels, anchors) {
            None => None,
            Some(prev) => match comment_of(cs.last(), rels, anchors) {
                None => None,
                Some(None) => Some(prev),
                Some(Some(c)) => Some(prev.push(c)),
            },
        }
    }
}

/// Inserts `c` after every comment whose id is not larger.
pub open spec fn insert_by_id(s: Seq<CommentModel>, c: CommentModel) -> Seq<CommentModel>
    decreases s.len(),
{
    if s.len() == 0 {
        seq![c]
    } else if s.last().id <= c.id {
        s.push(c)
    } else {
        insert_by_id(s.drop_last(), c).push(s.last())
    }
}

/// Stable sort by id (`sort_by_key(|c| c.id)`).
pub open spec fn sort_by_id(s: Seq<CommentModel>) -> Seq<CommentModel>
    decreases s.len(),
{
    if s.len() == 0 {
        Seq::empty()
    } else {
        insert_by_id(sort_by_id(s.drop_last()), s.last())
    }
}

/// The comments part's comments, sorted by id.
pub open spec fn comments_of(cs: Seq<ChunkModel>, rels: RelsModel, anchors: Seq<(u32, Anchor)>) -> Option<
    Seq<CommentModel>,
> {
    match comments_in_order(cs, rels, anchors) {
        Some(s) => Some(sort_by_id(s)),
        None => None,
    }
}

fn comment_from(c: &Chunk, rels: &Rels, anchors: &Vec<(u32, Anchor)>) -> (r: Option<Option<Comment>>)
    ensures
        r.deep_view() == comment_of(c.deep_view(), rels.deep_view(), anchors@),
{
    reveal(comment_of);
    let id = match find_attr_in_open_tag(c.opening.as_str(), "id") {
        Some(v) => match parse_u32(v.as_str()) {
            Some(id) => id,
            None => {
                return Some(None);
            },
        },
        None => {
            return Some(None);
        },
    };
    let author = find_attr_in_open_tag(c.opening.as_str(), "author");
    let date = find_attr_in_open_tag(c.opening.as_str(), "date");
    match try_parse_body(c.full.as_str(), rels) {
        None => None,
        Some(body) => {
            let i = key_position(anchors, id);
            let anchor = if i < anchors.len() {
                Some(anchors[i].1)
            } else {
                None
            };
            Some(Some(Comment { id, author, date, anchor, sections: body.sections }))
        },
    }
}

proof fn lemma_insert_by_id(s: Seq<CommentModel>, c: CommentModel, p: int)
    requires
        0 <= p <= s.len(),
        forall|j: int| p <= j < s.len() ==> (#[trigger] s[j]).id > c.id,
        p == 0 || s[p - 1].id <= c.id,
    ensures
        insert_by_id(s, c) == s.take(p).push(c) + s.skip(p),
    decreases s.len(),
{
    if s.len() == 0 {
        assert(s.take(p).push(c) + s.skip(p) =~= seq![c]);
    } else if p == s.len() {
        assert(s.take(p) =~= s);
        assert(s.take(p).push(c) + s.skip(p) =~= s.push(c));
    } else {
        lemma_insert_by_id(s.drop_last(), c, p);
        assert(s.drop_last().take(p) =~= s.take(p));
        assert(s.drop_last().skip(p).push(s.last()) =~= s.skip(p));
        assert((s.take(p).push(c) + s.drop_last().skip(p)).push(s.last()) =~= s.take(p).push(c)
            + s.skip(p));
    }
}

/// Stable insertion sort by id.
fn sort_comments(v: Vec<Comment>) -> (r: Vec<Comment>)
    ensures
        r.deep_view() == sort_by_id(v.deep_view()),
{
    let ghost input = v.deep_view();
    let mut v = v;
    let mut rev_in: Vec<Comment> = Vec::new();
    while v.len() > 0
        invariant
            v.deep_view() + rev_in.deep_view().reverse() == input,
        decreases v.len(),
    {
        let ghost a = v.deep_view();
        let ghost b = rev_in.deep_view();
        let c = v.pop().unwrap();
        let ghost cm = c.deep_view();
        rev_in.push(c);
        assert(v.deep_view() =~= a.drop_last());
        assert(rev_in.deep_view() =~= b.push(cm));
        assert(v.deep_view() + rev_in.deep_view().reverse() =~= a + b.reverse()) by {
            assert(b.push(cm).reverse() =~= seq![cm] + b.reverse());
            assert(a =~= a.drop_last().push(cm));
        }
    }
    // rev_in holds the comments in reverse order; insert them one by one.
    let mut out: Vec<Comment> = Vec::new();
    let ghost n = rev_in.len();
    assert(rev_in.deep_view().reverse() =~= input);
    assert(input.take(0) =~= Seq::<CommentModel>::empty());
    assert(out.deep_view() =~= Seq::<CommentModel>::empty());
    while rev_in.len() > 0
        invariant
            rev_in.len() <= n,
            n == input.len(),
            rev_in.deep_view().reverse() == input.skip(n - rev_in.len()),
            out.deep_view() == sort_by_id(input.take(n - rev_in.len())),
        decreases rev_in.len(),
    {
        let ghost k = n - rev_in.len();
        let ghost rb = rev_in.deep_view();
        let c = rev_in.pop().unwrap();
        let ghost cm = c.deep_view();
        proof {
            assert(rb.reverse()[0] == rb.last());
            assert(input.skip(k)[0] == input[k]);
            assert(cm == input[k]);
            assert(rev_in.deep_view() =~= rb.drop_last());
            assert(rev_in.deep_view().reverse() =~= input.skip(k + 1)) by {
                assert(rb.drop_last().reverse() =~= rb.reverse().drop_first());
                assert(input.skip(k).drop_first() =~= input.skip(k + 1));
            }
            assert(input.take(k + 1).drop_last() =~= input.take(k));
            assert(input.take(k + 1).last() == cm);
        }
        let mut p: usize = out.len();
        while p > 0 && out[p - 1].id > c.id
            invariant
                p <= out.len(),
                forall|j: int| p <= j < out.len() ==> (#[trigger] out.deep_view()[j]).id > cm.id,
                cm.id == c.id,
            decreases p,
        {
            p = p - 1;
        }
        proof {
            lemma_insert_by_id(out.deep_view(), cm, p as int);
        }
        let ghost ob = out.deep_view();
        out.insert(p, c);
        assert(out.deep_view() =~= ob.take(p as int).push(cm) + ob.skip(p as int));
    }
    assert(input.take(n as int) =~= input);
    out
}

/// The comments of the comments part, sorted by id (stable): entries
/// without a `u32` id are left out; each gets its author, date, body and
/// the anchor recorded for its id. `None` where a body is malformed (see
/// `body_is_parsable`).
pub fn parse_comments(xml: &str, rels: &Rels, anchors: &Vec<(u32, Anchor)>) -> (r: Option<Vec<Comment>>)
    ensures
        r.deep_view() == comments_of(chunks_of(xml@, "comment"@), rels.deep_view(), anchors@),
{
    let chunks = split_by_tag(xml, "comment");
    let ghost cs = chunks.deep_view();
    let mut out: Vec<Comment> = Vec::new();
    let mut i: usize = 0;
    assert(out.deep_view() =~= Seq::<CommentModel>::empty());
    assert(cs.take(0) =~= Seq::<ChunkModel>::empty());
    while i < chunks.len()
        invariant
            i <= chunks.len(),
            cs == chunks.deep_view(),
            cs == chunks_of(xml@, "comment"@),
            comments_in_order(cs.take(i as int), rels.deep_view(), anchors@) == Some(
                out.deep_view(),
            ),
        decreases chunks.len() - i,
    {
        let ghost pre = cs.take(i + 1);
        assert(pre.drop_last() =~= cs.take(i as int));
        assert(pre.last() == chunks[i as int].deep_view());
        match comment_from(&chunks[i], rels, anchors) {
            None => {
                proof {
                    assert(comments_in_order(pre, rels.deep_view(), anchors@) is None);
                    lemma_comments_none(cs, rels.deep_view(), anchors@, i + 1);
                }
                return None;
            },
            Some(None) => {},
            Some(Some(c)) => {
                let ghost before = out.deep_view();
                let ghost cm = c.deep_view();
                out.push(c);
                assert(out.deep_view() =~= before.push(cm));
            },
        }
        i = i + 1;
    }
    assert(cs.take(i as int) =~= cs);
    Some(sort_comments(out))
}

proof fn lemma_comments_none(cs: Seq<ChunkModel>, rels: RelsModel, anchors: Seq<(u32, Anchor)>, k: int)
    requires
        0 <= k <= cs.len(),
        comments_in_order(cs.take(k), rels, anchors) is None,
    ensures
        comments_in_order(cs, rels, anchors) is None,
    decreases cs.len() - k,
{
    if k < cs.len() {
        assert(cs.take(k + 1).drop_last() =~= cs.take(k));
        lemma_comments_none(cs, rels, anchors, k + 1);
    } else {
        assert(cs.take(k) =~= cs);
    }
}

} // verus!

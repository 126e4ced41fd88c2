//! What single operations do, stated by their inputs and results: closing a
//! paragraph, an insertion in a table cell, a core property, a comment's
//! attributes, the headers and footers taken from references.

use vstd::prelude::*;
use vstd::string::*;
use vstd::utf8::*;

use crate::archive::{part_model, ArchiveEntryModel, PartModel};
use crate::assoc::assoc_get;
use crate::body::{
    body_of, depth, end_ins_m, end_m, start_m, BodyModel, Ctx,
};
use crate::extract::{body_part, header_footer_parts, rid_in, Failure};
use crate::laws::{section_text, sorted_by_id};
use crate::meta::{meta_step, MetaField};
use crate::model::{
    Anchor, CommentModel, HeaderFooterModel, MetadataModel, RevisionKind, RevisionModel,
    SectionModel,
};
use crate::parts::{comment_of, comments_in_order, comments_of, events_of, first_tag_attr, ChunkModel};
use crate::rels::RelsModel;
use crate::text::{blen, byte_tail, lemma_blen_concat, lemma_encode_concat, trim};
use crate::xml::{attr_value, tag_kind, TagKind, XmlEventModel, XmlTagModel};

verus! {

// ── Paragraphs ────────────────────────────────────────────────────────────────

/// The image references of a paragraph, heading or list item; none for a
/// table.
pub open spec fn section_images(s: SectionModel) -> Seq<Seq<char>> {
    match s {
        SectionModel::Heading { images, .. } => images,
        SectionModel::Paragraph { images, .. } => images,
        SectionModel::ListItem { images, .. } => images,
        SectionModel::Table { .. } => Seq::empty(),
    }
}

/// Closing a paragraph outside tables adds one section exactly when the
/// paragraph has non-blank text or at least one image reference (a
/// paragraph holding only a picture is kept); that section has the trimmed
/// text and carries all the paragraph's image references. Otherwise the
/// sections stay as they were.
pub proof fn law_paragraph_kept(m: BodyModel, name: Seq<u8>)
    requires
        tag_kind(name) == TagKind::P,
        m.ctx.contains(Ctx::Body),
        m.ctx.contains(Ctx::Para),
        depth(m.ctx) == 0,
    ensures
        trim(m.para.text).len() > 0 || m.para.images.len() > 0 ==> {
            &&& end_m(m, name).out.sections.len() == m.out.sections.len() + 1
            &&& end_m(m, name).out.sections.drop_last() == m.out.sections
            &&& section_text(end_m(m, name).out.sections.last()) == Some(trim(m.para.text))
            &&& section_images(end_m(m, name).out.sections.last()) == m.para.images
        },
        !(trim(m.para.text).len() > 0 || m.para.images.len() > 0) ==> end_m(m, name).out.sections
            == m.out.sections,
{
    let r = end_m(m, name);
    if trim(m.para.text).len() > 0 || m.para.images.len() > 0 {
        assert(r.out.sections.drop_last() =~= m.out.sections);
    }
}

// ── Insertions in table cells ─────────────────────────────────────────────────

proof fn lemma_byte_tail_concat(a: Seq<char>, s: Seq<char>)
    ensures
        byte_tail(a + s, blen(a) as int) == s,
{
    lemma_encode_concat(a, s);
    lemma_blen_concat(a, s);
    assert(encode_utf8(a + s).subrange(blen(a) as int, blen(a + s) as int) =~= encode_utf8(s));
    encode_utf8_decode_utf8(s);
}

/// An insertion opened inside a table cell (`t` is a `<w:ins>` tag read in
/// state `m0`) is recorded against the cell: when it closes in a state `m2`
/// whose cell text is the cell text at the opening followed by non-empty
/// text `s`, and whose open insertions are those after the opening, the
/// revision recorded is an insertion of exactly `s`, with the tag's author
/// and date, anchored from the cell's byte length at the opening to its
/// length at the close; the cell text stays.
pub proof fn law_cell_insertion(
    m0: BodyModel,
    t: XmlTagModel,
    rels: RelsModel,
    m2: BodyModel,
    s: Seq<char>,
)
    requires
        tag_kind(t.name) == TagKind::Ins,
        depth(m0.ctx) >= 1,
        m2.ins_stack == start_m(m0, t, rels).ins_stack,
        m2.cell_text == m0.cell_text + s,
        s.len() > 0,
        blen(m0.cell_text + s) <= usize::MAX,
    ensures
        end_ins_m(m2).out.revisions == m2.out.revisions.push(
            RevisionModel {
                kind: RevisionKind::Insert,
                author: attr_value(t.attrs, "author".spec_bytes()),
                date: attr_value(t.attrs, "date".spec_bytes()),
                anchor: Some(
                    Anchor {
                        section_index: m2.out.sections.len() as usize,
                        char_start: blen(m0.cell_text) as usize,
                        char_end: blen(m0.cell_text + s) as usize,
                    },
                ),
                text: s,
            },
        ),
        end_ins_m(m2).cell_text == m2.cell_text,
{
    lemma_blen_concat(m0.cell_text, s);
    lemma_byte_tail_concat(m0.cell_text, s);
    let st = m2.ins_stack.last();
    assert(st.in_table);
    assert(st.start_pos == blen(m0.cell_text) as usize);
    assert(st.start_pos as int == blen(m0.cell_text) as int);
}

// ── Core properties ───────────────────────────────────────────────────────────

/// Text under a core-property element sets that property, and only that
/// one: after the element `t` opens, non-blank text `v` sets the title
/// (`<title>`), the author (`<creator>`), last-modified-by
/// (`<lastModifiedBy>`), created (`<created>`) or modified (`<modified>`) to
/// the trimmed text, leaving the other properties as they were; under any
/// other element it changes nothing.
pub proof fn law_core_property_text(
    s0: (MetadataModel, Option<MetaField>),
    t: XmlTagModel,
    v: Seq<char>,
)
    requires
        trim(v).len() > 0,
    ensures
        ({
            let m = meta_step(meta_step(s0, XmlEventModel::Start(t)), XmlEventModel::Text(Some(v))).0;
            let k = tag_kind(t.name);
            &&& k == TagKind::Title ==> m == MetadataModel { title: Some(trim(v)), ..s0.0 }
            &&& k == TagKind::Creator ==> m == MetadataModel { author: Some(trim(v)), ..s0.0 }
            &&& k == TagKind::LastModifiedBy ==> m == MetadataModel {
                last_modified_by: Some(trim(v)),
                ..s0.0
            }
            &&& k == TagKind::Created ==> m == MetadataModel { created: Some(trim(v)), ..s0.0 }
            &&& k == TagKind::Modified ==> m == MetadataModel { modified: Some(trim(v)), ..s0.0 }
            &&& !(k == TagKind::Title || k == TagKind::Creator || k == TagKind::LastModifiedBy || k
                == TagKind::Created || k == TagKind::Modified) ==> m == s0.0
        }),
{
}

// ── Comments ──────────────────────────────────────────────────────────────────

/// A comment read from an entry has the entry's `author` and `date`
/// attributes (from its opening tag), the anchor recorded for its id, and
/// the sections of the entry's body.
pub proof fn law_comment_attributes(c: ChunkModel, rels: RelsModel, anchors: Seq<(u32, Anchor)>)
    ensures
        comment_of(c, rels, anchors) matches Some(Some(cm)) ==> {
            &&& cm.author == first_tag_attr(events_of(c.opening), "author".spec_bytes())
            &&& cm.date == first_tag_attr(events_of(c.opening), "date".spec_bytes())
            &&& cm.anchor == assoc_get(anchors, cm.id)
            &&& cm.sections == body_of(events_of(c.full), rels).sections
        },
{
    reveal(comment_of);
}

proof fn lemma_in_order_from_entries(cs: Seq<ChunkModel>, rels: RelsModel, anchors: Seq<(u32, Anchor)>)
    ensures
        comments_in_order(cs, rels, anchors) matches Some(v) ==> forall|k: int|
            0 <= k < v.len() ==> exists|j: int|
                0 <= j < cs.len() && comment_of(#[trigger] cs[j], rels, anchors) == Some(
                    Some(#[trigger] v[k]),
                ),
    decreases cs.len(),
{
    if cs.len() > 0 {
        lemma_in_order_from_entries(cs.drop_last(), rels, anchors);
        if let Some(v) = comments_in_order(cs, rels, anchors) {
            let prev = comments_in_order(cs.drop_last(), rels, anchors)->Some_0;
            assert forall|k: int| 0 <= k < v.len() implies exists|j: int|
                0 <= j < cs.len() && comment_of(#[trigger] cs[j], rels, anchors) == Some(
                    Some(#[trigger] v[k]),
                ) by {
                if k < prev.len() {
                    assert(v[k] == prev[k]);
                    let j = choose|j: int|
                        0 <= j < cs.drop_last().len() && comment_of(
                            #[trigger] cs.drop_last()[j],
                            rels,
                            anchors,
                        ) == Some(Some(prev[k]));
                    assert(cs[j] == cs.drop_last()[j]);
                } else {
                    assert(cs[cs.len() - 1] == cs.last());
                }
            }
        }
    }
}

/// Every comment of a comments part comes from one of its entries and has
/// that entry's `author` and `date` attributes and the anchor recorded for
/// its id; the comments are sorted by id.
pub proof fn law_comments_from_entries(cs: Seq<ChunkModel>, rels: RelsModel, anchors: Seq<(u32, Anchor)>)
    ensures
        comments_of(cs, rels, anchors) matches Some(v) ==> {
            &&& sorted_by_id(v)
            &&& forall|k: int|
                0 <= k < v.len() ==> exists|j: int|
                    0 <= j < cs.len() && (#[trigger] v[k]).author == first_tag_attr(
                        events_of(cs[j].opening),
                        "author".spec_bytes(),
                    ) && v[k].date == first_tag_attr(events_of(cs[j].opening), "date".spec_bytes())
                        && v[k].anchor == assoc_get(anchors, v[k].id)
        },
{
    broadcast use vstd::seq_lib::group_seq_properties;

    crate::laws::law_comments_sorted(cs, rels, anchors);
    lemma_in_order_from_entries(cs, rels, anchors);
    if let Some(v) = comments_of(cs, rels, anchors) {
        let o = comments_in_order(cs, rels, anchors)->Some_0;
        assert forall|k: int| 0 <= k < v.len() implies exists|j: int|
            0 <= j < cs.len() && (#[trigger] v[k]).author == first_tag_attr(
                events_of(cs[j].opening),
                "author".spec_bytes(),
            ) && v[k].date == first_tag_attr(events_of(cs[j].opening), "date".spec_bytes())
                && v[k].anchor == assoc_get(anchors, v[k].id) by {
            assert(v.contains(v[k]));
            assert(v.to_multiset().count(v[k]) > 0);
            assert(o.to_multiset().count(v[k]) > 0);
            assert(o.contains(v[k]));
            let p = choose|p: int| 0 <= p < o.len() && o[p] == v[k];
            let j = choose|j: int|
                0 <= j < cs.len() && comment_of(#[trigger] cs[j], rels, anchors) == Some(Some(o[p]));
            law_comment_attributes(cs[j], rels, anchors);
        }
    }
}

// ── Headers and footers ───────────────────────────────────────────────────────

/// Whether reference `j` of `refs` gives a header (or footer): its
/// relationship id does not occur before it, has a target, the target part
/// is there and parses, and it has at least one section.
pub open spec fn contributes(
    a: Seq<ArchiveEntryModel>,
    rels: RelsModel,
    targets: Seq<(Seq<char>, Seq<char>)>,
    refs: Seq<(Seq<char>, Seq<char>)>,
    j: int,
) -> bool {
    &&& !rid_in(refs.take(j), refs[j].1)
    &&& assoc_get(targets, refs[j].1) matches Some(path) && part_model(a, path) matches PartModel::Text(
        t,
    ) && body_part(t, rels) matches Ok(b) && b.sections.len() > 0
}

/// The number of references among the first `n` that give a header.
pub open spec fn contributing(
    a: Seq<ArchiveEntryModel>,
    rels: RelsModel,
    targets: Seq<(Seq<char>, Seq<char>)>,
    refs: Seq<(Seq<char>, Seq<char>)>,
    n: int,
) -> nat
    decreases n,
{
    if n <= 0 {
        0
    } else {
        contributing(a, rels, targets, refs, n - 1) + if contributes(a, rels, targets, refs, n - 1) {
            1nat
        } else {
            0nat
        }
    }
}

proof fn lemma_contributing_prefix(
    a: Seq<ArchiveEntryModel>,
    rels: RelsModel,
    targets: Seq<(Seq<char>, Seq<char>)>,
    refs: Seq<(Seq<char>, Seq<char>)>,
    n: int,
)
    requires
        0 <= n < refs.len(),
    ensures
        contributing(a, rels, targets, refs.drop_last(), n) == contributing(a, rels, targets, refs, n),
    decreases n,
{
    if n > 0 {
        lemma_contributing_prefix(a, rels, targets, refs, n - 1);
        assert(refs.drop_last().take(n - 1) =~= refs.take(n - 1));
        assert(refs.drop_last()[n - 1] == refs[n - 1]);
    }
}

/// One more reference either adds the header it gives or nothing.
#[verifier::spinoff_prover]
#[verifier::rlimit(60)]
proof fn lemma_header_footer_step(
    a: Seq<ArchiveEntryModel>,
    rels: RelsModel,
    targets: Seq<(Seq<char>, Seq<char>)>,
    refs: Seq<(Seq<char>, Seq<char>)>,
)
    requires
        refs.len() > 0,
        header_footer_parts(a, rels, targets, refs) is Ok,
    ensures
        header_footer_parts(a, rels, targets, refs.drop_last()) is Ok,
        ({
            let v = header_footer_parts(a, rels, targets, refs)->Ok_0;
            let prev = header_footer_parts(a, rels, targets, refs.drop_last())->Ok_0;
            let n = refs.len() - 1;
            &&& contributes(a, rels, targets, refs, n) ==> v.len() == prev.len() + 1 && v.drop_last()
                == prev && v.last().kind == refs[n].0
            &&& !contributes(a, rels, targets, refs, n) ==> v == prev
        }),
{
    let n = refs.len() - 1;
    assert(refs.take(n) =~= refs.drop_last());
    let v = header_footer_parts(a, rels, targets, refs)->Ok_0;
    let prev = header_footer_parts(a, rels, targets, refs.drop_last())->Ok_0;
    if contributes(a, rels, targets, refs, n) {
        assert(v.drop_last() =~= prev);
    }
}

/// The headers (or footers) taken from references are one per reference
/// that gives one: a relationship id is taken at its first reference, and
/// the reference gives a header when its id has a target whose part is
/// there, parses, and has at least one section. So their number is the
/// number of such references.
#[verifier::spinoff_prover]
#[verifier::rlimit(60)]
pub proof fn law_header_footer_count(
    a: Seq<ArchiveEntryModel>,
    rels: RelsModel,
    targets: Seq<(Seq<char>, Seq<char>)>,
    refs: Seq<(Seq<char>, Seq<char>)>,
)
    requires
        header_footer_parts(a, rels, targets, refs) is Ok,
    ensures
        header_footer_parts(a, rels, targets, refs)->Ok_0.len() == contributing(
            a,
            rels,
            targets,
            refs,
            refs.len() as int,
        ),
    decreases refs.len(),
{
    if refs.len() > 0 {
        let prev_refs = refs.drop_last();
        let n = refs.len() - 1;
        lemma_header_footer_step(a, rels, targets, refs);
        law_header_footer_count(a, rels, targets, prev_refs);
        if n > 0 {
            lemma_contributing_prefix(a, rels, targets, refs, n);
        }
        assert(contributing(a, rels, targets, prev_refs, n) == contributing(a, rels, targets, refs, n));
        assert(contributing(a, rels, targets, refs, refs.len() as int) == contributing(
            a,
            rels,
            targets,
            refs,
            n,
        ) + if contributes(a, rels, targets, refs, n) {
            1nat
        } else {
            0nat
        });
    }
}

/// Every header (or footer) taken from references has the type of a
/// reference that gives one.
#[verifier::spinoff_prover]
#[verifier::rlimit(60)]
pub proof fn law_header_footer_types(
    a: Seq<ArchiveEntryModel>,
    rels: RelsModel,
    targets: Seq<(Seq<char>, Seq<char>)>,
    refs: Seq<(Seq<char>, Seq<char>)>,
)
    requires
        header_footer_parts(a, rels, targets, refs) is Ok,
    ensures
        forall|k: int|
            0 <= k < header_footer_parts(a, rels, targets, refs)->Ok_0.len() ==> exists|j: int|
                0 <= j < refs.len() && contributes(a, rels, targets, refs, j) && typed_as(
                #[trigger] header_footer_parts(a, rels, targets, refs)->Ok_0[k],
                refs[j],
            ),
    decreases refs.len(),
{
    if refs.len() > 0 {
        let prev_refs = refs.drop_last();
        let n = refs.len() - 1;
        lemma_header_footer_step(a, rels, targets, refs);
        law_header_footer_types(a, rels, targets, prev_refs);
        let v = header_footer_parts(a, rels, targets, refs)->Ok_0;
        let prev = header_footer_parts(a, rels, targets, prev_refs)->Ok_0;
        assert forall|k: int| 0 <= k < v.len() implies exists|j: int|
            0 <= j < refs.len() && contributes(a, rels, targets, refs, j) && typed_as(#[trigger] v[k], refs[j]) by {
            if k < prev.len() {
                assert(v[k] == prev[k]);
                let j = choose|j: int|
                    0 <= j < prev_refs.len() && contributes(a, rels, targets, prev_refs, j) && typed_as(
                    #[trigger] prev[k],
                    prev_refs[j],
                );
                assert(prev_refs.take(j) =~= refs.take(j));
                assert(prev_refs[j] == refs[j]);
                assert(contributes(a, rels, targets, refs, j));
                assert(typed_as(v[k], refs[j]));
            } else {
                assert(v[k] == v.last());
                assert(contributes(a, rels, targets, refs, n));
                assert(typed_as(v[k], refs[n])) by {
                    reveal(typed_as);
                }
            }
        }
    }
}

/// A header (or footer) has the type of reference `r`.
#[verifier::opaque]
pub open spec fn typed_as(h: HeaderFooterModel, r: (Seq<char>, Seq<char>)) -> bool {
    h.kind == r.0
}

} // verus!

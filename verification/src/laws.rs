//! What holds of every extraction: properties of the body parser over every
//! sequence of events, and of the parts and options around it.

use vstd::prelude::*;
use vstd::string::*;

use crate::assoc::{
    assoc_get, assoc_insert, assoc_remove, find_key, lemma_assoc_get_member,
    lemma_assoc_insert_members, lemma_assoc_remove_members, lemma_find_key, lemma_find_key_first, lemma_find_key_range,
};
use crate::body::{
    body_of, comment_end_m, comment_start_m, emit_para_m, empty_m, end_del_m, end_ins_m, end_m,
    end_p_m, end_tbl_m, end_tc_m, end_tr_m, end_txbx_m, end_hyperlink_m, initial_model,
    outline_wf, para_emits, run_ok, is_container, end_ins_ok, end_hyperlink_ok, ins_buf, link_buf, para_level, para_section, push_text_m, run_body, start_m, step_m,
    text_m, add_image_m, start_p_m, start_tbl_m, start_tr_m, start_tc_m, start_txbx_m,
    start_ins_m, start_del_m, start_hyperlink_m, adjust_revision, adjust_start, adjust_anchor, outline_value,
    spec_heading_level, BodyModel, CommentStart, DelModel, ParaModel, ParsedBodyModel,
};
use crate::archive::{lookup, part_model, ArchiveEntryModel, EntryDataModel, PartModel};
use crate::images::{base64_of, images_of};
use crate::extract::{extract_model, header_footer_parts, Failure};
use crate::meta::{meta_has_any, meta_run, metadata_of};
use crate::model::{
    Anchor, CommentModel, DocumentModel, ImageModel, MetadataModel, RevisionKind, RevisionModel, SectionModel,
    TableCellModel,
};
use crate::parts::{comments_in_order, comments_of, events_of, insert_by_id, note_of, notes_of, sort_by_id, ChunkModel};
use crate::rels::RelsModel;
use crate::text::{blen, byte_head, byte_tail, lemma_trim_trimmed, trim, trimmed};
use crate::xml::{attr_value, step_events, tag_kind, xml_parse, TagKind, XmlEventModel, XmlTagModel};

verus! {

// ── Well-formed output ────────────────────────────────────────────────────────

/// A table row: at least one cell, each cell's text trimmed.
pub open spec fn row_wf(r: Seq<TableCellModel>) -> bool {
    r.len() > 0 && forall|j: int| 0 <= j < r.len() ==> trimmed(#[trigger] r[j].text)
}

/// A section as the parser emits it: text blocks are trimmed and carry
/// text or images; headings have a level in 1..=9; tables have rows.
pub open spec fn section_wf(s: SectionModel) -> bool {
    match s {
        SectionModel::Heading { level, text, images, .. } => 1 <= level <= 9 && trimmed(text) && (
        text.len() > 0 || images.len() > 0),
        SectionModel::Paragraph { text, images, .. } => trimmed(text) && (text.len() > 0
            || images.len() > 0),
        SectionModel::ListItem { text, images, .. } => trimmed(text) && (text.len() > 0
            || images.len() > 0),
        SectionModel::Table { rows } => rows.len() > 0 && forall|i: int|
            0 <= i < rows.len() ==> row_wf(#[trigger] rows[i]),
    }
}

/// A revision as the parser records it, with `n` sections emitted: it has
/// text and an anchor at a section index of at most `n`; a deletion's
/// anchor is empty.
pub open spec fn revision_wf(r: RevisionModel, n: int) -> bool {
    &&& r.text.len() > 0
    &&& r.anchor matches Some(a) && a.section_index <= n && (r.kind == RevisionKind::Delete
        ==> a.char_start == a.char_end)
}

/// What the parser keeps true after every event.
spec fn state_wf(m: BodyModel) -> bool {
    let n = m.out.sections.len();
    &&& forall|i: int| 0 <= i < n ==> section_wf(#[trigger] m.out.sections[i])
    &&& forall|i: int|
        0 <= i < m.out.revisions.len() ==> revision_wf(#[trigger] m.out.revisions[i], n as int)
    &&& forall|i: int|
        0 <= i < m.out.comment_anchors.len() ==> (#[trigger] m.out.comment_anchors[i]).1.section_index
            <= n
    &&& forall|i: int|
        0 <= i < m.open_comment_starts.len() ==> (#[trigger] m.open_comment_starts[i]).1.section_index
            <= n
    &&& forall|i: int| 0 <= i < m.current_table.len() ==> row_wf(#[trigger] m.current_table[i])
    &&& forall|j: int| 0 <= j < m.current_row.len() ==> trimmed(#[trigger] m.current_row[j].text)
    &&& outline_wf(m)
}

/// The parts `state_wf` speaks of are the same in two states.
spec fn same_tracked(a: BodyModel, b: BodyModel) -> bool {
    &&& a.out.sections == b.out.sections
    &&& a.out.revisions == b.out.revisions
    &&& a.out.comment_anchors == b.out.comment_anchors
    &&& a.open_comment_starts == b.open_comment_starts
    &&& a.current_table == b.current_table
    &&& a.current_row == b.current_row
    &&& a.para.outline_level == b.para.outline_level
}

proof fn lemma_same_tracked(a: BodyModel, b: BodyModel)
    requires
        state_wf(a),
        same_tracked(a, b),
    ensures
        state_wf(b),
{
}

proof fn lemma_push_text_tracked(m: BodyModel, s: Seq<char>)
    ensures
        same_tracked(m, push_text_m(m, s)),
{
}

proof fn lemma_start_wf(m: BodyModel, t: XmlTagModel, rels: RelsModel)
    requires
        state_wf(m),
    ensures
        state_wf(start_m(m, t, rels)),
{
    let k = tag_kind(t.name);
    let r = start_m(m, t, rels);
    if k == TagKind::P {
        assert(state_wf(start_p_m(m)));
    } else if k == TagKind::Tbl {
        assert(state_wf(start_tbl_m(m)));
    } else if k == TagKind::Tr {
        assert(state_wf(start_tr_m(m)));
    } else if k == TagKind::Tc {
        assert(state_wf(start_tc_m(m)));
    } else if k == TagKind::Ins {
        lemma_same_tracked(m, start_ins_m(m, t.attrs));
    } else if k == TagKind::Del {
        lemma_same_tracked(m, start_del_m(m, t.attrs));
    } else if k == TagKind::TxbxContent {
        lemma_same_tracked(m, start_txbx_m(m));
    } else if k == TagKind::Hyperlink {
        lemma_same_tracked(m, start_hyperlink_m(m, t.attrs, rels));
    }
    assert(state_wf(r));
}

proof fn lemma_comment_start_wf(m: BodyModel, attrs: Seq<crate::xml::XmlAttrModel>)
    requires
        state_wf(m),
    ensures
        state_wf(comment_start_m(m, attrs)),
{
    let r = comment_start_m(m, attrs);
    match crate::body::id_attr(attrs) {
        Some(id) => {
            let in_table = crate::body::depth(m.ctx) >= 1;
            let st = CommentStart {
                section_index: m.out.sections.len() as usize,
                char_start: crate::body::text_pos(m, in_table),
                in_table,
                finalized_end: None,
            };
            lemma_assoc_insert_members(m.open_comment_starts, id, st);
            assert forall|i: int| 0 <= i < r.open_comment_starts.len() implies (
            #[trigger] r.open_comment_starts[i]).1.section_index <= r.out.sections.len() by {
                if r.open_comment_starts[i] != (id, st) {
                    let j = choose|j: int|
                        0 <= j < m.open_comment_starts.len() && m.open_comment_starts[j]
                            == r.open_comment_starts[i];
                    assert(m.open_comment_starts[j].1.section_index <= m.out.sections.len());
                }
            }
        },
        None => {},
    }
}

proof fn lemma_comment_end_wf(m: BodyModel, attrs: Seq<crate::xml::XmlAttrModel>)
    requires
        state_wf(m),
    ensures
        state_wf(comment_end_m(m, attrs)),
{
    let r = comment_end_m(m, attrs);
    match crate::body::id_attr(attrs) {
        Some(id) => match assoc_get(m.open_comment_starts, id) {
            Some(st) => {
                lemma_assoc_get_member(m.open_comment_starts, id);
                let j0 = choose|j: int|
                    0 <= j < m.open_comment_starts.len() && m.open_comment_starts[j] == (id, st);
                assert(m.open_comment_starts[j0].1.section_index <= m.out.sections.len());
                let char_end = match st.finalized_end {
                    Some(e) => e,
                    None => crate::body::text_pos(m, st.in_table),
                };
                let an = Anchor { section_index: st.section_index, char_start: st.char_start, char_end };
                lemma_assoc_insert_members(m.out.comment_anchors, id, an);
                lemma_assoc_remove_members(m.open_comment_starts, id);
                assert forall|i: int| 0 <= i < r.out.comment_anchors.len() implies (
                #[trigger] r.out.comment_anchors[i]).1.section_index <= r.out.sections.len() by {
                    if r.out.comment_anchors[i] != (id, an) {
                        let j = choose|j: int|
                            0 <= j < m.out.comment_anchors.len() && m.out.comment_anchors[j]
                                == r.out.comment_anchors[i];
                        assert(m.out.comment_anchors[j].1.section_index <= m.out.sections.len());
                    }
                }
                assert forall|i: int| 0 <= i < r.open_comment_starts.len() implies (
                #[trigger] r.open_comment_starts[i]).1.section_index <= r.out.sections.len() by {
                    let j = choose|j: int|
                        0 <= j < m.open_comment_starts.len() && m.open_comment_starts[j]
                            == r.open_comment_starts[i];
                    assert(m.open_comment_starts[j].1.section_index <= m.out.sections.len());
                }
            },
            None => {},
        },
        None => {},
    }
}

proof fn lemma_empty_wf(m: BodyModel, t: XmlTagModel, rels: RelsModel)
    requires
        state_wf(m),
    ensures
        state_wf(empty_m(m, t, rels)),
{
    let k = tag_kind(t.name);
    let r = empty_m(m, t, rels);
    if k == TagKind::OutlineLvl && m.ctx.contains(crate::body::Ctx::ParaProps) {
        match attr_value(t.attrs, "val".spec_bytes()) {
            Some(v) => {
                assert(r.para.outline_level == outline_value(v));
            },
            None => {},
        }
        assert(state_wf(r));
    } else if k == TagKind::Tab || k == TagKind::Br {
        lemma_push_text_tracked(m, "\t"@);
        lemma_push_text_tracked(m, "\n"@);
        lemma_push_text_tracked(m, " "@);
        assert(state_wf(r));
    } else if k == TagKind::CommentRangeStart || k == TagKind::CommentRangeEnd {
        lemma_comment_start_wf(m, t.attrs);
        lemma_comment_end_wf(m, t.attrs);
        assert(state_wf(r));
    } else if k == TagKind::Blip || k == TagKind::Imagedata {
        match crate::body::image_file_for(t.attrs, rels.images) {
            Some(n) => lemma_same_tracked(m, add_image_m(m, n)),
            None => {},
        }
        assert(state_wf(r));
    } else {
        assert(state_wf(r));
    }
}

proof fn lemma_para_section_wf(p: ParaModel)
    requires
        para_emits(p),
        p.outline_level matches Some(l) ==> l <= 8,
    ensures
        section_wf(para_section(p)),
{
    lemma_trim_trimmed(p.text);
    match p.style {
        Some(s) => {
            assert(spec_heading_level(s) matches Some(v) ==> 1 <= v <= 9);
        },
        None => {},
    }
    assert(para_level(p) matches Some(v) ==> 1 <= v <= 9);
}

proof fn lemma_emit_para_wf(m: BodyModel)
    requires
        state_wf(m),
    ensures
        state_wf(emit_para_m(m)),
{
    let p = m.para;
    let n = m.out.sections.len() as usize;
    let r = emit_para_m(m);
    if para_emits(p) {
        lemma_para_section_wf(p);
        let tlen = crate::text::blen(trim(p.text)) as usize;
        let leading = (crate::text::blen(p.text) - crate::text::blen(crate::text::trim_start(p.text))) as usize;
        assert forall|i: int| 0 <= i < r.out.sections.len() implies section_wf(
            #[trigger] r.out.sections[i],
        ) by {
            if i < m.out.sections.len() {
                assert(r.out.sections[i] == m.out.sections[i]);
            }
        }
        assert forall|i: int| 0 <= i < r.out.revisions.len() implies revision_wf(
            #[trigger] r.out.revisions[i],
            r.out.sections.len() as int,
        ) by {
            assert(r.out.revisions[i] == adjust_revision(m.out.revisions[i], n, leading, tlen));
            assert(revision_wf(m.out.revisions[i], m.out.sections.len() as int));
        }
        assert forall|i: int| 0 <= i < r.open_comment_starts.len() implies (
        #[trigger] r.open_comment_starts[i]).1.section_index <= r.out.sections.len() by {
            assert(r.open_comment_starts[i].1 == adjust_start(
                m.open_comment_starts[i].1,
                n,
                tlen,
                leading,
            ));
            assert(m.open_comment_starts[i].1.section_index <= m.out.sections.len());
        }
        assert forall|i: int| 0 <= i < r.out.comment_anchors.len() implies (
        #[trigger] r.out.comment_anchors[i]).1.section_index <= r.out.sections.len() by {
            assert(r.out.comment_anchors[i].1 == adjust_anchor(
                m.out.comment_anchors[i].1,
                n,
                leading,
                tlen,
            ));
            assert(m.out.comment_anchors[i].1.section_index <= m.out.sections.len());
        }
    }
}

proof fn lemma_end_wf(m: BodyModel, name: Seq<u8>)
    requires
        state_wf(m),
    ensures
        state_wf(end_m(m, name)),
{
    let k = tag_kind(name);
    let r = end_m(m, name);
    if k == TagKind::Ins {
        let e = end_ins_m(m);
        assert forall|i: int| 0 <= i < e.out.revisions.len() implies revision_wf(
            #[trigger] e.out.revisions[i],
            e.out.sections.len() as int,
        ) by {
            if i < m.out.revisions.len() {
                assert(e.out.revisions[i] == m.out.revisions[i]);
            }
        }
        assert(state_wf(e));
    } else if k == TagKind::Del {
        let e = end_del_m(m);
        assert forall|i: int| 0 <= i < e.out.revisions.len() implies revision_wf(
            #[trigger] e.out.revisions[i],
            e.out.sections.len() as int,
        ) by {
            if i < m.out.revisions.len() {
                assert(e.out.revisions[i] == m.out.revisions[i]);
            }
        }
        assert(state_wf(e));
    } else if k == TagKind::P {
        let m1 = BodyModel { ctx: crate::body::popped(m.ctx, crate::body::Ctx::Para), ..m };
        lemma_same_tracked(m, m1);
        lemma_emit_para_wf(m1);
        assert(state_wf(end_p_m(m)));
    } else if k == TagKind::Tc {
        let e = end_tc_m(m);
        lemma_trim_trimmed(m.cell_text);
        assert forall|j: int| 0 <= j < e.current_row.len() implies trimmed(
            #[trigger] e.current_row[j].text,
        ) by {
            if crate::body::depth(m.ctx) == 1 && m.ctx.contains(crate::body::Ctx::Row) && j
                < m.current_row.len() {
                assert(e.current_row[j] == m.current_row[j]);
            }
        }
        assert(state_wf(e));
    } else if k == TagKind::Tr {
        let e = end_tr_m(m);
        assert forall|i: int| 0 <= i < e.current_table.len() implies row_wf(
            #[trigger] e.current_table[i],
        ) by {
            if crate::body::depth(m.ctx) == 1 && m.current_row.len() > 0 && i
                < m.current_table.len() {
                assert(e.current_table[i] == m.current_table[i]);
            }
        }
        assert(state_wf(e));
    } else if k == TagKind::Tbl {
        let e = end_tbl_m(m);
        assert forall|i: int| 0 <= i < e.out.sections.len() implies section_wf(
            #[trigger] e.out.sections[i],
        ) by {
            if i < m.out.sections.len() {
                assert(e.out.sections[i] == m.out.sections[i]);
            }
        }
        assert(state_wf(e));
    } else if k == TagKind::TxbxContent {
        assert(state_wf(end_txbx_m(m)));
    } else if k == TagKind::Hyperlink {
        assert(state_wf(end_hyperlink_m(m)));
    }
    assert(state_wf(r));
}

proof fn lemma_step_wf(m: BodyModel, e: XmlEventModel, rels: RelsModel)
    requires
        state_wf(m),
    ensures
        state_wf(step_m(m, e, rels)),
{
    match e {
        XmlEventModel::Start(t) => lemma_start_wf(m, t, rels),
        XmlEventModel::Empty(t) => lemma_empty_wf(m, t, rels),
        XmlEventModel::End(n) => lemma_end_wf(m, n),
        XmlEventModel::Text(t) => {
            let s = match t {
                Some(s) => s,
                None => Seq::empty(),
            };
            lemma_push_text_tracked(m, s);
        },
        _ => {},
    }
}

proof fn lemma_run_wf(evs: Seq<XmlEventModel>, rels: RelsModel)
    ensures
        state_wf(run_body(evs, rels)),
    decreases evs.len(),
{
    if evs.len() > 0 {
        lemma_run_wf(evs.drop_last(), rels);
        lemma_step_wf(run_body(evs.drop_last(), rels), evs.last(), rels);
    }
}

// ── Laws of the body parser ───────────────────────────────────────────────────

/// Every section of a parsed body (the main part, a header, footer, note or
/// comment) is well formed: paragraphs, headings and list items have their
/// text trimmed and carry text or images (blank paragraphs are dropped);
/// headings have a level from 1 to 9; tables have at least one row, every
/// row at least one cell, every cell's text trimmed.
pub proof fn law_sections_well_formed(evs: Seq<XmlEventModel>, rels: RelsModel)
    ensures
        forall|i: int|
            0 <= i < body_of(evs, rels).sections.len() ==> section_wf(
                #[trigger] body_of(evs, rels).sections[i],
            ),
{
    lemma_run_wf(evs, rels);
}

/// Every revision of a parsed body has text and an anchor; the anchor's
/// section index is at most the number of sections (the section it was
/// recorded in, or the one that was being collected); a deletion's anchor
/// is empty (`char_start == char_end`), its text being absent from the body.
pub proof fn law_revisions_anchored(evs: Seq<XmlEventModel>, rels: RelsModel)
    ensures
        forall|i: int|
            0 <= i < body_of(evs, rels).revisions.len() ==> revision_wf(
                #[trigger] body_of(evs, rels).revisions[i],
                body_of(evs, rels).sections.len() as int,
            ),
{
    lemma_run_wf(evs, rels);
}

/// A revision's anchor does not end before it starts.
pub open spec fn anchor_ordered(r: RevisionModel) -> bool {
    match r.anchor {
        Some(a) => a.char_start <= a.char_end,
        None => true,
    }
}

spec fn spans_ok(m: BodyModel) -> bool {
    forall|i: int| 0 <= i < m.out.revisions.len() ==> anchor_ordered(#[trigger] m.out.revisions[i])
}

proof fn lemma_end_spans(m: BodyModel, name: Seq<u8>)
    requires
        spans_ok(m),
        buffers_fit(m),
        crate::body::end_ok(m, name),
    ensures
        spans_ok(end_m(m, name)),
{
    let k = tag_kind(name);
    if k == TagKind::Ins {
        let e = end_ins_m(m);
        assert forall|i: int| 0 <= i < e.out.revisions.len() implies anchor_ordered(
            #[trigger] e.out.revisions[i],
        ) by {
            if i < m.out.revisions.len() {
                assert(e.out.revisions[i] == m.out.revisions[i]);
            }
        }
    } else if k == TagKind::Del {
        let e = end_del_m(m);
        assert forall|i: int| 0 <= i < e.out.revisions.len() implies anchor_ordered(
            #[trigger] e.out.revisions[i],
        ) by {
            if i < m.out.revisions.len() {
                assert(e.out.revisions[i] == m.out.revisions[i]);
            }
        }
    } else if k == TagKind::P {
        let m1 = BodyModel { ctx: crate::body::popped(m.ctx, crate::body::Ctx::Para), ..m };
        let e = emit_para_m(m1);
        if para_emits(m1.para) {
            let n = m1.out.sections.len() as usize;
            let leading = (crate::text::blen(m1.para.text) - crate::text::blen(
                crate::text::trim_start(m1.para.text),
            )) as usize;
            let tlen = crate::text::blen(trim(m1.para.text)) as usize;
            assert forall|i: int| 0 <= i < e.out.revisions.len() implies anchor_ordered(
                #[trigger] e.out.revisions[i],
            ) by {
                assert(e.out.revisions[i] == adjust_revision(m1.out.revisions[i], n, leading, tlen));
                assert(anchor_ordered(m1.out.revisions[i]));
            }
        }
        assert(spans_ok(end_p_m(m)));
    } else if k == TagKind::TxbxContent {
        assert(end_txbx_m(m).out == m.out);
    } else if k == TagKind::Hyperlink {
        assert(end_hyperlink_m(m).out == m.out);
    } else if k == TagKind::Tc {
        assert(end_tc_m(m).out == m.out);
    } else if k == TagKind::Tr {
        assert(end_tr_m(m).out == m.out);
    } else if k == TagKind::Tbl {
        assert(end_tbl_m(m).out.revisions == m.out.revisions);
    }
}

proof fn lemma_step_spans(m: BodyModel, e: XmlEventModel, rels: RelsModel)
    requires
        spans_ok(m),
        buffers_fit(m),
        crate::body::step_ok(m, e),
    ensures
        spans_ok(step_m(m, e, rels)),
{
    match e {
        XmlEventModel::Start(t) => {
            lemma_start_out(m, t, rels);
        },
        XmlEventModel::Empty(t) => {
            lemma_empty_out(m, t, rels);
        },
        XmlEventModel::End(n) => lemma_end_spans(m, n),
        XmlEventModel::Text(t) => {
            let s = match t {
                Some(s) => s,
                None => Seq::empty(),
            };
            lemma_push_text_tracked(m, s);
        },
        _ => {},
    }
}

proof fn lemma_start_out(m: BodyModel, t: XmlTagModel, rels: RelsModel)
    ensures
        start_m(m, t, rels).out.revisions == m.out.revisions,
{
}

proof fn lemma_empty_out(m: BodyModel, t: XmlTagModel, rels: RelsModel)
    ensures
        empty_m(m, t, rels).out.revisions == m.out.revisions,
{
    let k = tag_kind(t.name);
    if k == TagKind::Tab || k == TagKind::Br {
        lemma_push_text_tracked(m, "\t"@);
        lemma_push_text_tracked(m, "\n"@);
        lemma_push_text_tracked(m, " "@);
    } else if k == TagKind::CommentRangeStart || k == TagKind::CommentRangeEnd {
        assert(comment_start_m(m, t.attrs).out.revisions == m.out.revisions);
        assert(comment_end_m(m, t.attrs).out.revisions == m.out.revisions);
    } else if k == TagKind::Blip || k == TagKind::Imagedata {
        match crate::body::image_file_for(t.attrs, rels.images) {
            Some(n) => lemma_same_tracked_out(m, add_image_m(m, n)),
            None => {},
        }
    }
}

proof fn lemma_same_tracked_out(a: BodyModel, b: BodyModel)
    requires
        a.out == b.out,
    ensures
        a.out.revisions == b.out.revisions,
{
}

/// The paragraph and cell buffers' byte lengths and the number of sections
/// fit in a `usize` (as they do for everything held in memory).
pub open spec fn buffers_fit(m: BodyModel) -> bool {
    &&& crate::text::blen(m.para.text) <= usize::MAX
    &&& crate::text::blen(m.cell_text) <= usize::MAX
    &&& m.out.sections.len() <= usize::MAX
}

proof fn lemma_run_spans(evs: Seq<XmlEventModel>, rels: RelsModel)
    requires
        run_ok(evs, rels),
        forall|k: int| 0 <= k <= evs.len() ==> buffers_fit(#[trigger] run_body(evs.take(k), rels)),
    ensures
        spans_ok(run_body(evs, rels)),
    decreases evs.len(),
{
    if evs.len() > 0 {
        let prev = evs.drop_last();
        assert forall|k: int| 0 <= k <= prev.len() implies buffers_fit(
            #[trigger] run_body(prev.take(k), rels),
        ) by {
            assert(prev.take(k) =~= evs.take(k));
        }
        lemma_run_spans(prev, rels);
        assert(evs.take(prev.len() as int) =~= prev);
        assert(buffers_fit(run_body(evs.take(prev.len() as int), rels)));
        lemma_step_spans(run_body(prev, rels), evs.last(), rels);
    }
}

/// In a body that parses, every revision's anchor starts no later than it
/// ends (for buffers that fit in memory).
pub proof fn law_revision_spans(evs: Seq<XmlEventModel>, rels: RelsModel)
    requires
        run_ok(evs, rels),
        forall|k: int| 0 <= k <= evs.len() ==> buffers_fit(#[trigger] run_body(evs.take(k), rels)),
    ensures
        forall|i: int|
            0 <= i < body_of(evs, rels).revisions.len() ==> anchor_ordered(
                #[trigger] body_of(evs, rels).revisions[i],
            ),
{
    lemma_run_spans(evs, rels);
}

/// The text of a paragraph, heading or list item; none for a table.
pub open spec fn section_text(s: SectionModel) -> Option<Seq<char>> {
    match s {
        SectionModel::Heading { text, .. } => Some(text),
        SectionModel::Paragraph { text, .. } => Some(text),
        SectionModel::ListItem { text, .. } => Some(text),
        SectionModel::Table { .. } => None,
    }
}

/// An anchor that points at a section with text lies within that text:
/// both offsets are at most its byte length.
pub open spec fn anchor_within(a: Anchor, ss: Seq<SectionModel>) -> bool {
    a.section_index < ss.len() ==> match section_text(ss[a.section_index as int]) {
        Some(t) => a.char_start <= crate::text::blen(t) && a.char_end <= crate::text::blen(t),
        None => true,
    }
}

pub open spec fn revision_within(r: RevisionModel, ss: Seq<SectionModel>) -> bool {
    match r.anchor {
        Some(a) => anchor_within(a, ss),
        None => true,
    }
}

spec fn start_within(cs: CommentStart, ss: Seq<SectionModel>) -> bool {
    &&& cs.finalized_end is Some ==> cs.section_index < ss.len()
    &&& cs.section_index < ss.len() ==> match section_text(ss[cs.section_index as int]) {
        Some(t) => cs.finalized_end matches Some(e) && e <= crate::text::blen(t) && cs.char_start
            <= crate::text::blen(t),
        None => true,
    }
}

spec fn within_inv(m: BodyModel) -> bool {
    let ss = m.out.sections;
    &&& forall|i: int|
        0 <= i < m.out.revisions.len() ==> revision_within(#[trigger] m.out.revisions[i], ss)
    &&& forall|i: int|
        0 <= i < m.out.comment_anchors.len() ==> anchor_within(
            (#[trigger] m.out.comment_anchors[i]).1,
            ss,
        )
    &&& forall|i: int|
        0 <= i < m.open_comment_starts.len() ==> start_within(
            (#[trigger] m.open_comment_starts[i]).1,
            ss,
        )
}

spec fn same_anchoring(a: BodyModel, b: BodyModel) -> bool {
    &&& a.out.sections == b.out.sections
    &&& a.out.revisions == b.out.revisions
    &&& a.out.comment_anchors == b.out.comment_anchors
    &&& a.open_comment_starts == b.open_comment_starts
}

proof fn lemma_blen_trim(s: Seq<char>)
    ensures
        crate::text::blen(trim(s)) <= crate::text::blen(s),
{
    let t = crate::text::trim_start(s);
    crate::text::lemma_lead_ws_bound(s);
    assert(s =~= s.take(crate::text::lead_ws(s) as int) + t);
    crate::text::lemma_blen_concat(s.take(crate::text::lead_ws(s) as int), t);
    let k = t.len() - crate::text::trail_ws(t);
    crate::text::lemma_trail_ws_bound(t);
    assert(t =~= t.take(k) + t.skip(k));
    crate::text::lemma_blen_concat(t.take(k), t.skip(k));
}

proof fn lemma_emit_within(m: BodyModel)
    requires
        within_inv(m),
        state_wf(m),
        buffers_fit(m),
    ensures
        within_inv(emit_para_m(m)),
{
    let p = m.para;
    let n = m.out.sections.len() as usize;
    let r = emit_para_m(m);
    if para_emits(p) {
        let tlen = crate::text::blen(trim(p.text)) as usize;
        let leading = (crate::text::blen(p.text) - crate::text::blen(crate::text::trim_start(p.text))) as usize;
        lemma_blen_trim(p.text);
        assert(tlen == crate::text::blen(trim(p.text)));
        let ss = r.out.sections;
        assert(ss[n as int] == para_section(p));
        assert(section_text(para_section(p)) == Some(trim(p.text)));
        assert forall|i: int| 0 <= i < r.out.revisions.len() implies revision_within(
            #[trigger] r.out.revisions[i],
            ss,
        ) by {
            let o = m.out.revisions[i];
            assert(r.out.revisions[i] == adjust_revision(o, n, leading, tlen));
            assert(revision_within(o, m.out.sections));
            assert(revision_wf(o, m.out.sections.len() as int));
            if let Some(a) = o.anchor {
                if a.section_index < n {
                    assert(ss[a.section_index as int] == m.out.sections[a.section_index as int]);
                }
            }
        }
        assert forall|i: int| 0 <= i < r.out.comment_anchors.len() implies anchor_within(
            (#[trigger] r.out.comment_anchors[i]).1,
            ss,
        ) by {
            let o = m.out.comment_anchors[i].1;
            assert(r.out.comment_anchors[i].1 == adjust_anchor(o, n, leading, tlen));
            assert(anchor_within(o, m.out.sections));
            assert(o.section_index <= m.out.sections.len());
            if o.section_index < n {
                assert(ss[o.section_index as int] == m.out.sections[o.section_index as int]);
            }
        }
        assert forall|i: int| 0 <= i < r.open_comment_starts.len() implies start_within(
            (#[trigger] r.open_comment_starts[i]).1,
            ss,
        ) by {
            let o = m.open_comment_starts[i].1;
            assert(r.open_comment_starts[i].1 == adjust_start(o, n, tlen, leading));
            assert(start_within(o, m.out.sections));
            assert(o.section_index <= m.out.sections.len());
            if o.section_index < n {
                assert(ss[o.section_index as int] == m.out.sections[o.section_index as int]);
            }
        }
    }
}

proof fn lemma_comment_start_within(m: BodyModel, attrs: Seq<crate::xml::XmlAttrModel>)
    requires
        within_inv(m),
        buffers_fit(m),
    ensures
        within_inv(comment_start_m(m, attrs)),
{
    let r = comment_start_m(m, attrs);
    match crate::body::id_attr(attrs) {
        Some(id) => {
            let in_table = crate::body::depth(m.ctx) >= 1;
            let st = CommentStart {
                section_index: m.out.sections.len() as usize,
                char_start: crate::body::text_pos(m, in_table),
                in_table,
                finalized_end: None,
            };
            lemma_assoc_insert_members(m.open_comment_starts, id, st);
            assert forall|i: int| 0 <= i < r.open_comment_starts.len() implies start_within(
                (#[trigger] r.open_comment_starts[i]).1,
                r.out.sections,
            ) by {
                if r.open_comment_starts[i] != (id, st) {
                    let j = choose|j: int|
                        0 <= j < m.open_comment_starts.len() && m.open_comment_starts[j]
                            == r.open_comment_starts[i];
                    assert(start_within(m.open_comment_starts[j].1, m.out.sections));
                }
            }
        },
        None => {},
    }
}

proof fn lemma_comment_end_within(m: BodyModel, attrs: Seq<crate::xml::XmlAttrModel>)
    requires
        within_inv(m),
        state_wf(m),
    ensures
        within_inv(comment_end_m(m, attrs)),
{
    let r = comment_end_m(m, attrs);
    match crate::body::id_attr(attrs) {
        Some(id) => match assoc_get(m.open_comment_starts, id) {
            Some(st) => {
                lemma_assoc_get_member(m.open_comment_starts, id);
                let j0 = choose|j: int|
                    0 <= j < m.open_comment_starts.len() && m.open_comment_starts[j] == (id, st);
                assert(start_within(m.open_comment_starts[j0].1, m.out.sections));
                let char_end = match st.finalized_end {
                    Some(e) => e,
                    None => crate::body::text_pos(m, st.in_table),
                };
                let an = Anchor { section_index: st.section_index, char_start: st.char_start, char_end };
                assert(anchor_within(an, m.out.sections));
                lemma_assoc_insert_members(m.out.comment_anchors, id, an);
                lemma_assoc_remove_members(m.open_comment_starts, id);
                assert forall|i: int| 0 <= i < r.out.comment_anchors.len() implies anchor_within(
                    (#[trigger] r.out.comment_anchors[i]).1,
                    r.out.sections,
                ) by {
                    if r.out.comment_anchors[i] != (id, an) {
                        let j = choose|j: int|
                            0 <= j < m.out.comment_anchors.len() && m.out.comment_anchors[j]
                                == r.out.comment_anchors[i];
                        assert(anchor_within(m.out.comment_anchors[j].1, m.out.sections));
                    }
                }
                assert forall|i: int| 0 <= i < r.open_comment_starts.len() implies start_within(
                    (#[trigger] r.open_comment_starts[i]).1,
                    r.out.sections,
                ) by {
                    let j = choose|j: int|
                        0 <= j < m.open_comment_starts.len() && m.open_comment_starts[j]
                            == r.open_comment_starts[i];
                    assert(start_within(m.open_comment_starts[j].1, m.out.sections));
                }
            },
            None => {},
        },
        None => {},
    }
}

proof fn lemma_step_within(m: BodyModel, e: XmlEventModel, rels: RelsModel)
    requires
        within_inv(m),
        state_wf(m),
        buffers_fit(m),
    ensures
        within_inv(step_m(m, e, rels)),
{
    match e {
        XmlEventModel::Start(t) => {
            assert(same_anchoring(m, start_m(m, t, rels)));
        },
        XmlEventModel::Empty(t) => {
            let k = tag_kind(t.name);
            if k == TagKind::CommentRangeStart || k == TagKind::CommentRangeEnd {
                lemma_comment_start_within(m, t.attrs);
                lemma_comment_end_within(m, t.attrs);
            } else if k == TagKind::Tab || k == TagKind::Br {
                lemma_push_text_tracked(m, "\t"@);
                lemma_push_text_tracked(m, "\n"@);
                lemma_push_text_tracked(m, " "@);
                assert(same_anchoring(m, empty_m(m, t, rels)));
            } else if k == TagKind::Blip || k == TagKind::Imagedata {
                match crate::body::image_file_for(t.attrs, rels.images) {
                    Some(n) => lemma_same_tracked(m, add_image_m(m, n)),
                    None => {},
                }
                assert(same_anchoring(m, empty_m(m, t, rels)));
            } else {
                assert(same_anchoring(m, empty_m(m, t, rels)));
            }
        },
        XmlEventModel::End(n) => {
            let k = tag_kind(n);
            if k == TagKind::P {
                let m1 = BodyModel { ctx: crate::body::popped(m.ctx, crate::body::Ctx::Para), ..m };
                lemma_same_tracked(m, m1);
                lemma_emit_within(m1);
                assert(within_inv(end_p_m(m)));
            } else if k == TagKind::Ins {
                let x = end_ins_m(m);
                assert forall|i: int| 0 <= i < x.out.revisions.len() implies revision_within(
                    #[trigger] x.out.revisions[i],
                    x.out.sections,
                ) by {
                    if i < m.out.revisions.len() {
                        assert(x.out.revisions[i] == m.out.revisions[i]);
                    }
                }
            } else if k == TagKind::Del {
                let x = end_del_m(m);
                assert forall|i: int| 0 <= i < x.out.revisions.len() implies revision_within(
                    #[trigger] x.out.revisions[i],
                    x.out.sections,
                ) by {
                    if i < m.out.revisions.len() {
                        assert(x.out.revisions[i] == m.out.revisions[i]);
                    }
                }
            } else if k == TagKind::Tbl {
                let x = end_tbl_m(m);
                let ss = x.out.sections;
                if crate::body::depth(m.ctx) == 1 && m.current_table.len() > 0 {
                    let nn = m.out.sections.len();
                    assert(section_text(ss[nn as int]) is None);
                    assert forall|i: int| 0 <= i < x.out.revisions.len() implies revision_within(
                        #[trigger] x.out.revisions[i],
                        ss,
                    ) by {
                        assert(revision_within(m.out.revisions[i], m.out.sections));
                        if let Some(a) = m.out.revisions[i].anchor {
                            if a.section_index < nn {
                                assert(ss[a.section_index as int] == m.out.sections[a.section_index as int]);
                            }
                        }
                    }
                    assert forall|i: int| 0 <= i < x.out.comment_anchors.len() implies anchor_within(
                        (#[trigger] x.out.comment_anchors[i]).1,
                        ss,
                    ) by {
                        let o = m.out.comment_anchors[i].1;
                        assert(anchor_within(o, m.out.sections));
                        if o.section_index < nn {
                            assert(ss[o.section_index as int] == m.out.sections[o.section_index as int]);
                        }
                    }
                    assert forall|i: int| 0 <= i < x.open_comment_starts.len() implies start_within(
                        (#[trigger] x.open_comment_starts[i]).1,
                        ss,
                    ) by {
                        let o = m.open_comment_starts[i].1;
                        assert(start_within(o, m.out.sections));
                        if o.section_index < nn {
                            assert(ss[o.section_index as int] == m.out.sections[o.section_index as int]);
                        }
                    }
                }
            } else {
                assert(same_anchoring(m, end_m(m, n)));
            }
        },
        XmlEventModel::Text(t) => {
            let s = match t {
                Some(s) => s,
                None => Seq::empty(),
            };
            lemma_push_text_tracked(m, s);
            assert(same_anchoring(m, step_m(m, e, rels)));
        },
        _ => {},
    }
}

proof fn lemma_run_within(evs: Seq<XmlEventModel>, rels: RelsModel)
    requires
        forall|k: int| 0 <= k <= evs.len() ==> buffers_fit(#[trigger] run_body(evs.take(k), rels)),
    ensures
        within_inv(run_body(evs, rels)),
    decreases evs.len(),
{
    if evs.len() > 0 {
        let prev = evs.drop_last();
        assert forall|k: int| 0 <= k <= prev.len() implies buffers_fit(
            #[trigger] run_body(prev.take(k), rels),
        ) by {
            assert(prev.take(k) =~= evs.take(k));
        }
        lemma_run_within(prev, rels);
        assert(evs.take(prev.len() as int) =~= prev);
        assert(buffers_fit(run_body(evs.take(prev.len() as int), rels)));
        lemma_run_wf(prev, rels);
        lemma_step_within(run_body(prev, rels), evs.last(), rels);
    }
}

/// Every revision and comment anchor that points at a paragraph, heading or
/// list item lies within that section's (trimmed) text: both offsets are at
/// most its byte length (for buffers that fit in memory). A comment range
/// that outlives its paragraph ends at the end of that paragraph's text.
pub proof fn law_anchors_within_text(evs: Seq<XmlEventModel>, rels: RelsModel)
    requires
        forall|k: int| 0 <= k <= evs.len() ==> buffers_fit(#[trigger] run_body(evs.take(k), rels)),
    ensures
        forall|i: int|
            0 <= i < body_of(evs, rels).revisions.len() ==> revision_within(
                #[trigger] body_of(evs, rels).revisions[i],
                body_of(evs, rels).sections,
            ),
        forall|i: int|
            0 <= i < body_of(evs, rels).comment_anchors.len() ==> anchor_within(
                (#[trigger] body_of(evs, rels).comment_anchors[i]).1,
                body_of(evs, rels).sections,
            ),
{
    lemma_run_within(evs, rels);
}

/// A comment range still open when its paragraph is emitted ends at the
/// end of that paragraph's trimmed text, and its start becomes a position in
/// that text.
pub proof fn law_range_outliving_paragraph(m: BodyModel, i: int)
    requires
        para_emits(m.para),
        crate::text::blen(m.para.text) <= usize::MAX,
        m.out.sections.len() <= usize::MAX,
        0 <= i < m.open_comment_starts.len(),
        m.open_comment_starts[i].1.section_index == m.out.sections.len(),
        m.open_comment_starts[i].1.finalized_end is None,
    ensures
        emit_para_m(m).open_comment_starts[i].1.finalized_end == Some(
            crate::text::blen(trim(m.para.text)) as usize,
        ),
        crate::text::blen(trim(m.para.text)) as usize == crate::text::blen(trim(m.para.text)),
        emit_para_m(m).open_comment_starts[i].1.char_start <= crate::text::blen(trim(m.para.text)),
        section_text(emit_para_m(m).out.sections[m.out.sections.len() as int]) == Some(
            trim(m.para.text),
        ),
{
    lemma_blen_trim(m.para.text);
}

/// Every comment anchor of a parsed body has a section index of at most
/// the number of sections.
pub proof fn law_comment_anchors_in_range(evs: Seq<XmlEventModel>, rels: RelsModel)
    ensures
        forall|i: int|
            0 <= i < body_of(evs, rels).comment_anchors.len() ==> (
            #[trigger] body_of(evs, rels).comment_anchors[i]).1.section_index <= body_of(
                evs,
                rels,
            ).sections.len(),
{
    lemma_run_wf(evs, rels);
}

/// Text read inside an open deletion goes to that deletion only: the
/// sections, revisions, paragraph, cell and nested-cell text stay as they
/// were.
pub proof fn law_deleted_text_hidden(m: BodyModel, t: Option<Seq<char>>)
    requires
        m.del_stack.len() > 0,
    ensures
        text_m(m, t).out == m.out,
        text_m(m, t).para == m.para,
        text_m(m, t).cell_text == m.cell_text,
        text_m(m, t).nested_cell == m.nested_cell,
{
}

/// Closing a deletion that collected text records it as a deletion
/// revision with that text, the deletion's author and date, and an empty
/// anchor at the current position.
pub proof fn law_deletion_recorded(m: BodyModel)
    requires
        m.del_stack.len() > 0,
        m.del_stack.last().buf.len() > 0,
    ensures
        end_del_m(m).out.revisions.len() == m.out.revisions.len() + 1,
        end_del_m(m).out.revisions.drop_last() == m.out.revisions,
        end_del_m(m).out.revisions.last().kind == RevisionKind::Delete,
        end_del_m(m).out.revisions.last().text == m.del_stack.last().buf,
        end_del_m(m).out.revisions.last().author == m.del_stack.last().author,
        end_del_m(m).out.revisions.last().date == m.del_stack.last().date,
        end_del_m(m).out.revisions.last().anchor matches Some(a) && a.char_start == a.char_end,
        end_del_m(m).out.sections == m.out.sections,
{
    assert(end_del_m(m).out.revisions.drop_last() =~= m.out.revisions);
}

/// Closing an insertion that covered text records it as an insertion
/// revision: its text is what was written to the paragraph (or cell) since
/// the insertion opened, anchored from the byte position where it opened to
/// the end of that text; the text stays in the body.
pub proof fn law_insertion_recorded(m: BodyModel)
    requires
        m.ins_stack.len() > 0,
        end_ins_ok(m),
        byte_tail(ins_buf(m, m.ins_stack.last()), m.ins_stack.last().start_pos as int).len() > 0,
    ensures
        end_ins_m(m).out.revisions == m.out.revisions.push(
            RevisionModel {
                kind: RevisionKind::Insert,
                author: m.ins_stack.last().author,
                date: m.ins_stack.last().date,
                anchor: Some(
                    Anchor {
                        section_index: m.out.sections.len() as usize,
                        char_start: m.ins_stack.last().start_pos,
                        char_end: blen(ins_buf(m, m.ins_stack.last())) as usize,
                    },
                ),
                text: byte_tail(ins_buf(m, m.ins_stack.last()), m.ins_stack.last().start_pos as int),
            },
        ),
        end_ins_m(m).para == m.para,
        end_ins_m(m).cell_text == m.cell_text,
        end_ins_m(m).out.sections == m.out.sections,
{
}

/// Closing a hyperlink with a target around some text writes it as Markdown:
/// the text since the hyperlink opened becomes `[text](url)`.
pub proof fn law_hyperlink_markdown(m: BodyModel)
    requires
        m.hyperlink_url is Some,
        end_hyperlink_ok(m),
        byte_tail(link_buf(m), m.hyperlink_text_start as int).len() > 0,
    ensures
        link_buf(end_hyperlink_m(m)) == byte_head(link_buf(m), m.hyperlink_text_start as int) + "["@
            + byte_tail(link_buf(m), m.hyperlink_text_start as int) + "]("@ + m.hyperlink_url.unwrap()
            + ")"@,
        end_hyperlink_m(m).hyperlink_url is None,
        end_hyperlink_m(m).out == m.out,
{
}

// ── Containers ────────────────────────────────────────────────────────────────

/// An opening, empty or closing tag of a body-like container (`body`, `hdr`,
/// `ftr`, `footnote`, `endnote`, `comment`).
pub open spec fn container_event(e: XmlEventModel) -> bool {
    match e {
        XmlEventModel::Start(t) => is_container(tag_kind(t.name)),
        XmlEventModel::Empty(t) => is_container(tag_kind(t.name)),
        XmlEventModel::End(n) => is_container(tag_kind(n)),
        _ => false,
    }
}

/// Two events are the same, or the same kind of tag of two containers.
pub open spec fn alike(a: XmlEventModel, b: XmlEventModel) -> bool {
    ||| a == b
    ||| container_event(a) && container_event(b) && (a is Start && b is Start || a is Empty
        && b is Empty || a is End && b is End)
}

proof fn lemma_step_alike(m: BodyModel, a: XmlEventModel, b: XmlEventModel, rels: RelsModel)
    requires
        alike(a, b),
    ensures
        step_m(m, a, rels) == step_m(m, b, rels),
        crate::body::step_ok(m, a) == crate::body::step_ok(m, b),
{
}

/// The containers are alike: a part whose container is `<w:hdr>`,
/// `<w:ftr>`, `<w:footnote>`, `<w:endnote>` or `<w:comment>` parses as the
/// same content inside `<w:body>` does. Stated over the events: two event
/// sequences that differ only in which container tags they hold give the
/// same parser state, and one parses exactly when the other does.
pub proof fn law_containers_alike(e1: Seq<XmlEventModel>, e2: Seq<XmlEventModel>, rels: RelsModel)
    requires
        e1.len() == e2.len(),
        forall|i: int| 0 <= i < e1.len() ==> alike(#[trigger] e1[i], e2[i]),
    ensures
        run_body(e1, rels) == run_body(e2, rels),
        body_of(e1, rels) == body_of(e2, rels),
        run_ok(e1, rels) == run_ok(e2, rels),
    decreases e1.len(),
{
    if e1.len() > 0 {
        let p1 = e1.drop_last();
        let p2 = e2.drop_last();
        assert forall|i: int| 0 <= i < p1.len() implies alike(#[trigger] p1[i], p2[i]) by {
            assert(p1[i] == e1[i] && p2[i] == e2[i]);
        }
        law_containers_alike(p1, p2, rels);
        assert(alike(e1[e1.len() - 1], e2[e1.len() - 1]));
        lemma_step_alike(run_body(p1, rels), e1.last(), e2.last(), rels);
    }
}

// ── Maps by key ───────────────────────────────────────────────────────────────

/// No key occurs twice.
pub open spec fn keys_unique<K, V>(m: Seq<(K, V)>) -> bool {
    forall|i: int, j: int| 0 <= i < j < m.len() ==> m[i].0 != m[j].0
}

/// A map by key (relationship targets, comment anchors) gives back what was
/// last set for a key, and setting one key leaves the others as they were;
/// keys stay unique.
pub proof fn law_set_then_get<K, V>(m: Seq<(K, V)>, k: K, v: V, other: K)
    ensures
        assoc_get(assoc_insert(m, k, v), k) == Some(v),
        other != k ==> assoc_get(assoc_insert(m, k, v), other) == assoc_get(m, other),
        keys_unique(m) ==> keys_unique(assoc_insert(m, k, v)),
{
    let r = assoc_insert(m, k, v);
    let i = find_key(m, k);
    lemma_find_key_range(m, k);
    lemma_find_key_range(m, other);
    lemma_find_key_first(m, k);
    lemma_find_key_first(m, other);
    if i >= 0 {
        assert forall|j: int| 0 <= j < i implies (#[trigger] r[j]).0 != k by {
            assert(r[j] == m[j]);
        }
        lemma_find_key(r, k, i);
    } else {
        assert forall|j: int| 0 <= j < m.len() implies (#[trigger] r[j]).0 != k by {
            assert(r[j] == m[j]);
        }
        lemma_find_key(r, k, m.len() as int);
    }
    if other != k {
        let o = find_key(m, other);
        if o >= 0 {
            assert forall|j: int| 0 <= j < o implies (#[trigger] r[j]).0 != other by {
                if j != i {
                    assert(r[j] == m[j]);
                }
            }
            assert(r[o] == m[o]);
            lemma_find_key(r, other, o);
        } else {
            assert forall|j: int| 0 <= j < m.len() implies (#[trigger] r[j]).0 != other by {
                if j != i {
                    assert(r[j] == m[j]);
                }
            }
            if i >= 0 {
                lemma_find_key(r, other, m.len() as int);
            } else {
                assert(r[m.len() as int].0 == k);
                assert forall|j: int| 0 <= j < r.len() implies (#[trigger] r[j]).0 != other by {
                    if j < m.len() {
                        assert(r[j] == m[j]);
                    }
                }
                lemma_find_key(r, other, r.len() as int);
            }
        }
    }
    if keys_unique(m) {
        assert forall|a: int, b: int| 0 <= a < b < r.len() implies r[a].0 != r[b].0 by {
            if i >= 0 {
                if a != i && b != i {
                    assert(r[a] == m[a] && r[b] == m[b]);
                } else if a == i {
                    assert(r[b] == m[b]);
                    assert(m[i].0 == k);
                } else {
                    assert(r[a] == m[a]);
                    assert(m[i].0 == k);
                }
            } else {
                if b < m.len() {
                    assert(r[a] == m[a] && r[b] == m[b]);
                } else {
                    assert(r[a] == m[a]);
                }
            }
        }
    }
}

/// Removing a key from a map whose keys are unique leaves no value for it
/// and the others as they were.
pub proof fn law_remove_then_get<K, V>(m: Seq<(K, V)>, k: K, other: K)
    requires
        keys_unique(m),
    ensures
        assoc_get(assoc_remove(m, k), k) is None,
        other != k ==> assoc_get(assoc_remove(m, k), other) == assoc_get(m, other),
        keys_unique(assoc_remove(m, k)),
{
    let r = assoc_remove(m, k);
    let i = find_key(m, k);
    lemma_find_key_range(m, k);
    lemma_find_key_range(m, other);
    lemma_find_key_first(m, other);
    if i >= 0 {
        assert forall|j: int| 0 <= j < r.len() implies (#[trigger] r[j]).0 != k by {
            if j < i {
                assert(r[j] == m[j]);
            } else {
                assert(r[j] == m[j + 1]);
            }
        }
        lemma_find_key(r, k, r.len() as int);
        if other != k {
            let o = find_key(m, other);
            if o >= 0 {
                let p = if o < i { o } else { o - 1 };
                assert forall|j: int| 0 <= j < p implies (#[trigger] r[j]).0 != other by {
                    if j < i {
                        assert(r[j] == m[j]);
                    } else {
                        assert(r[j] == m[j + 1]);
                    }
                }
                if o < i {
                    assert(r[p] == m[o]);
                } else {
                    assert(r[p] == m[o]);
                }
                lemma_find_key(r, other, p);
            } else {
                assert forall|j: int| 0 <= j < r.len() implies (#[trigger] r[j]).0 != other by {
                    if j < i {
                        assert(r[j] == m[j]);
                    } else {
                        assert(r[j] == m[j + 1]);
                    }
                }
                lemma_find_key(r, other, r.len() as int);
            }
        }
        assert forall|a: int, b: int| 0 <= a < b < r.len() implies r[a].0 != r[b].0 by {
            let a0 = if a < i { a } else { a + 1 };
            let b0 = if b < i { b } else { b + 1 };
            assert(r[a] == m[a0]);
            assert(r[b] == m[b0]);
        }
    } else {
        lemma_find_key(r, k, r.len() as int);
    }
}

// ── Comments ──────────────────────────────────────────────────────────────────

/// Comments in ascending order of id.
pub open spec fn sorted_by_id(s: Seq<CommentModel>) -> bool {
    forall|i: int, j: int| 0 <= i < j < s.len() ==> s[i].id <= s[j].id
}

/// Whether a comment has id `k`.
pub open spec fn has_id(k: u32) -> spec_fn(CommentModel) -> bool {
    |c: CommentModel| c.id == k
}

proof fn lemma_insert_by_id(s: Seq<CommentModel>, c: CommentModel)
    requires
        sorted_by_id(s),
    ensures
        sorted_by_id(insert_by_id(s, c)),
        insert_by_id(s, c).to_multiset() == s.to_multiset().insert(c),
        forall|k: u32|
            #[trigger] insert_by_id(s, c).filter(has_id(k)) == (if c.id == k {
                s.filter(has_id(k)).push(c)
            } else {
                s.filter(has_id(k))
            }),
    decreases s.len(),
{
    broadcast use vstd::seq_lib::group_seq_properties, vstd::seq::Seq::lemma_filter_push, vstd::seq_lib::to_multiset_build, vstd::seq_lib::to_multiset_contains;

    let r = insert_by_id(s, c);
    if s.len() == 0 {
        assert(r =~= Seq::<CommentModel>::empty().push(c));
        assert(s =~= Seq::<CommentModel>::empty());
    } else if s.last().id <= c.id {
        assert(r == s.push(c));
    } else {
        let t = s.drop_last();
        let x = s.last();
        assert(s =~= t.push(x));
        assert(sorted_by_id(t));
        lemma_insert_by_id(t, c);
        let u = insert_by_id(t, c);
        assert(r == u.push(x));
        assert forall|i: int| 0 <= i < u.len() implies (#[trigger] u[i]).id <= x.id by {
            assert(u.contains(u[i]));
            assert(u.to_multiset().count(u[i]) > 0);
            if u[i] != c {
                assert(t.to_multiset().count(u[i]) > 0);
                assert(t.contains(u[i]));
                let j = choose|j: int| 0 <= j < t.len() && t[j] == u[i];
                assert(s[j] == t[j]);
            }
        }
        assert forall|k: u32| #[trigger] r.filter(has_id(k)) == (if c.id == k {
            s.filter(has_id(k)).push(c)
        } else {
            s.filter(has_id(k))
        }) by {
            assert(u.filter(has_id(k)) == (if c.id == k {
                t.filter(has_id(k)).push(c)
            } else {
                t.filter(has_id(k))
            }));
        }
    }
}

proof fn lemma_sort_by_id(s: Seq<CommentModel>)
    ensures
        sorted_by_id(sort_by_id(s)),
        sort_by_id(s).to_multiset() == s.to_multiset(),
        forall|k: u32| #[trigger] sort_by_id(s).filter(has_id(k)) == s.filter(has_id(k)),
    decreases s.len(),
{
    broadcast use vstd::seq_lib::group_seq_properties, vstd::seq::Seq::lemma_filter_push, vstd::seq_lib::to_multiset_build;

    if s.len() == 0 {
        assert(sort_by_id(s) =~= s);
    } else {
        let t = s.drop_last();
        assert(s =~= t.push(s.last()));
        lemma_sort_by_id(t);
        lemma_insert_by_id(sort_by_id(t), s.last());
        assert forall|k: u32| #[trigger] sort_by_id(s).filter(has_id(k)) == s.filter(has_id(k)) by {
            assert(sort_by_id(t).filter(has_id(k)) == t.filter(has_id(k)));
        }
    }
}

/// The comments of a comments part come out sorted by id; none is added or
/// lost, and comments with the same id keep their document order (the sort
/// is stable).
pub proof fn law_comments_sorted(cs: Seq<ChunkModel>, rels: RelsModel, anchors: Seq<(u32, Anchor)>)
    ensures
        comments_of(cs, rels, anchors) matches Some(v) ==> {
            &&& sorted_by_id(v)
            &&& comments_in_order(cs, rels, anchors) matches Some(o) && v.to_multiset()
                == o.to_multiset() && forall|k: u32| #[trigger] v.filter(has_id(k)) == o.filter(
                has_id(k),
            )
        },
{
    if let Some(o) = comments_in_order(cs, rels, anchors) {
        lemma_sort_by_id(o);
    }
}

// ── Notes, headers and footers ────────────────────────────────────────────────

/// Every note of a notes part has at least one section, each well formed.
pub proof fn law_notes_have_content(cs: Seq<ChunkModel>, rels: RelsModel)
    ensures
        notes_of(cs, rels) matches Some(v) ==> forall|i: int|
            0 <= i < v.len() ==> (#[trigger] v[i]).sections.len() > 0 && forall|j: int|
                0 <= j < v[i].sections.len() ==> section_wf(#[trigger] v[i].sections[j]),
    decreases cs.len(),
{
    if cs.len() > 0 {
        law_notes_have_content(cs.drop_last(), rels);
        reveal(note_of);
        law_sections_well_formed(events_of(cs.last().full), rels);
        if let Some(v) = notes_of(cs, rels) {
            let prev = notes_of(cs.drop_last(), rels).unwrap();
            assert forall|i: int| 0 <= i < v.len() implies (#[trigger] v[i]).sections.len() > 0
                && forall|j: int|
                0 <= j < v[i].sections.len() ==> section_wf(#[trigger] v[i].sections[j]) by {
                if i < prev.len() {
                    assert(v[i] == prev[i]);
                }
            }
        }
    }
}

/// Every header or footer taken from a sequence of references has at least
/// one section, each well formed; there are no more of them than
/// references.
pub proof fn law_header_footer_content(
    a: Seq<ArchiveEntryModel>,
    rels: RelsModel,
    targets: Seq<(Seq<char>, Seq<char>)>,
    refs: Seq<(Seq<char>, Seq<char>)>,
)
    ensures
        header_footer_parts(a, rels, targets, refs) matches Ok(v) ==> {
            &&& v.len() <= refs.len()
            &&& forall|i: int|
                0 <= i < v.len() ==> (#[trigger] v[i]).sections.len() > 0 && forall|j: int|
                    0 <= j < v[i].sections.len() ==> section_wf(#[trigger] v[i].sections[j])
        },
    decreases refs.len(),
{
    if refs.len() > 0 {
        law_header_footer_content(a, rels, targets, refs.drop_last());
        if let Ok(v) = header_footer_parts(a, rels, targets, refs) {
            let prev = header_footer_parts(a, rels, targets, refs.drop_last())->Ok_0;
            match assoc_get(targets, refs.last().1) {
                Some(path) => match part_model(a, path) {
                    PartModel::Text(t) => {
                        law_sections_well_formed(step_events(xml_parse(t)), rels);
                    },
                    _ => {},
                },
                None => {},
            }
            assert forall|i: int| 0 <= i < v.len() implies (#[trigger] v[i]).sections.len() > 0
                && forall|j: int|
                0 <= j < v[i].sections.len() ==> section_wf(#[trigger] v[i].sections[j]) by {
                if i < prev.len() {
                    assert(v[i] == prev[i]);
                }
            }
        }
    }
}

// ── Metadata ──────────────────────────────────────────────────────────────────

/// A property value as recorded: trimmed and not empty.
pub open spec fn value_wf(v: Option<Seq<char>>) -> bool {
    v matches Some(t) ==> t.len() > 0 && trimmed(t)
}

pub open spec fn metadata_wf(m: MetadataModel) -> bool {
    value_wf(m.title) && value_wf(m.author) && value_wf(m.last_modified_by) && value_wf(m.created)
        && value_wf(m.modified)
}

proof fn lemma_meta_run_wf(evs: Seq<XmlEventModel>)
    ensures
        metadata_wf(meta_run(evs).0),
    decreases evs.len(),
{
    if evs.len() > 0 {
        lemma_meta_run_wf(evs.drop_last());
        if let XmlEventModel::Text(x) = evs.last() {
            let v = match x {
                Some(v) => v,
                None => Seq::empty(),
            };
            lemma_trim_trimmed(v);
        }
    }
}

/// The core properties, where there are any, have at least one property
/// set, and every property set is trimmed and not empty.
pub proof fn law_metadata_values(evs: Seq<XmlEventModel>)
    ensures
        metadata_of(evs) matches Some(m) ==> meta_has_any(m) && metadata_wf(m),
        metadata_of(evs) is None ==> !meta_has_any(meta_run(evs).0),
{
    lemma_meta_run_wf(evs);
}

// ── Images ────────────────────────────────────────────────────────────────────

/// The supported image MIME types.
pub open spec fn supported_mime(t: Seq<char>) -> bool {
    t == "image/png"@ || t == "image/jpeg"@ || t == "image/gif"@ || t == "image/bmp"@ || t
        == "image/tiff"@ || t == "image/webp"@
}

/// Every image read has a supported MIME type and the base64 encoding of
/// an entry's bytes; there are no more images than targets.
pub proof fn law_images_supported(a: Seq<ArchiveEntryModel>, paths: Seq<Seq<char>>, max: u64)
    ensures
        images_of(a, paths, max) matches Ok(v) ==> {
            &&& v.len() <= paths.len()
            &&& forall|i: int|
                0 <= i < v.len() ==> supported_mime((#[trigger] v[i]).mime_type) && exists|
                    b: Seq<u8>,
                | v[i].base64 == base64_of(b)
        },
    decreases paths.len(),
{
    if paths.len() > 0 {
        law_images_supported(a, paths.drop_last(), max);
        if let Ok(v) = images_of(a, paths, max) {
            let prev = images_of(a, paths.drop_last(), max)->Ok_0;
            assert forall|i: int| 0 <= i < v.len() implies supported_mime((#[trigger] v[i]).mime_type)
                && exists|b: Seq<u8>| v[i].base64 == base64_of(b) by {
                if i < prev.len() {
                    assert(v[i] == prev[i]);
                } else {
                    let path = paths.last();
                    match lookup(a, path) {
                        Some(e) => match e.data {
                            EntryDataModel::Bytes(b) => {
                                assert(v[i].base64 == base64_of(b));
                            },
                            _ => {},
                        },
                        None => {},
                    }
                }
            }
        }
    }
}

/// A target is skipped (`skip_reason`) exactly where reading it gives no
/// image and no failure.
pub proof fn law_skips_match_images(a: Seq<ArchiveEntryModel>, path: Seq<char>, max: u64)
    ensures
        crate::images::skip_reason(a, path, max) is Some <==> crate::images::image_step(a, path, max)
            == Ok::<Option<ImageModel>, Seq<char>>(None),
{
}

// ── Options ───────────────────────────────────────────────────────────────────

/// Leaving images out changes nothing but the top-level images: where an
/// extraction with images succeeds, the one without gives the same document
/// with no images.
pub proof fn law_without_images(source: Seq<char>, a: Seq<ArchiveEntryModel>, max_image_bytes: u64)
    ensures
        extract_model(source, a, true, max_image_bytes) matches Ok(d) ==> extract_model(
            source,
            a,
            false,
            max_image_bytes,
        ) == Ok::<DocumentModel, Failure>(DocumentModel { images: Seq::empty(), ..d }),
{
}

} // verus!

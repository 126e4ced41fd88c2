//! The body parser: a state machine over XML events that turns a body-like
//! part (`<w:body>`, `<w:hdr>`, `<w:ftr>`, `<w:footnote>`, `<w:endnote>`,
//! `<w:comment>`) into sections, tracked revisions, comment anchors and
//! header/footer references.

use vstd::prelude::*;
use vstd::string::*;

use crate::assoc::{
    assoc_get, assoc_insert, assoc_remove, find_key, insert_u32_key, key_position, lemma_find_key,
    lemma_find_key_range,
};
use crate::model::{Anchor, Revision, RevisionKind, RevisionModel, Section, SectionModel, TableCell, TableCellModel};
use crate::rels::{Rels, RelsModel};
use crate::text::{
    all_digits, at_boundary, blen, byte_head, byte_len, byte_tail, chars_of, digits_value,
    is_digit, parse_digits, parse_unsigned, starts_with_str, trim, trim_start, trim_str,
    utf8_lossy,
};
use crate::xml::{
    attr_value, attr_value_exact, local_part, tag_kind, TagKind, XmlAttrModel, XmlEventModel,
    XmlTagModel,
};
use crate::path::{file_name, path_file_name};
use crate::text::{
    bytes_eq, is_boundary, leading_ws_bytes, lossy, parse_u32, parse_u8, push_char,
    split_at_byte, str_eq,
};
use crate::xml::{classify, get_attr, get_attr_exact, read_xml, step_events, xml_parse, XmlEvent, XmlTag};
use crate::xml::{local_name, XmlAttr};

verus! {

// ── Element context ───────────────────────────────────────────────────────────

/// The open elements the parser tracks, innermost last.
#[derive(Clone, Copy, Debug, PartialEq, Eq, Structural)]
pub enum Ctx {
    Body,
    Para,
    ParaProps,
    NumPr,
    Run,
    Text,
    Ins,
    Del,
    Tbl,
    Row,
    Cell,
}

/// Number of open tables.
pub open spec fn depth(ctx: Seq<Ctx>) -> nat
    decreases ctx.len(),
{
    if ctx.len() == 0 {
        0
    } else {
        depth(ctx.drop_last()) + if ctx.last() == Ctx::Tbl {
            1nat
        } else {
            0nat
        }
    }
}

/// Index of the innermost occurrence of `tag`, or -1.
pub open spec fn rfind(ctx: Seq<Ctx>, tag: Ctx) -> int
    decreases ctx.len(),
{
    if ctx.len() == 0 {
        -1
    } else if ctx.last() == tag {
        ctx.len() - 1
    } else {
        rfind(ctx.drop_last(), tag)
    }
}

/// Closes the innermost `tag`, if open.
pub open spec fn popped(ctx: Seq<Ctx>, tag: Ctx) -> Seq<Ctx> {
    let i = rfind(ctx, tag);
    if i >= 0 {
        ctx.remove(i)
    } else {
        ctx
    }
}

/// Whether `tag` is open.
pub fn has(ctx: &Vec<Ctx>, tag: Ctx) -> (r: bool)
    ensures
        r == ctx@.contains(tag),
{
    let mut i: usize = 0;
    while i < ctx.len()
        invariant
            i <= ctx.len(),
            forall|j: int| 0 <= j < i ==> ctx@[j] != tag,
        decreases ctx.len() - i,
    {
        if ctx[i] == tag {
            return true;
        }
        i = i + 1;
    }
    false
}

proof fn lemma_depth_bound(ctx: Seq<Ctx>)
    ensures
        depth(ctx) <= ctx.len(),
    decreases ctx.len(),
{
    if ctx.len() > 0 {
        lemma_depth_bound(ctx.drop_last());
    }
}

/// Number of open tables.
pub fn table_depth(ctx: &Vec<Ctx>) -> (n: usize)
    ensures
        n == depth(ctx@),
{
    let mut n: usize = 0;
    let mut i: usize = 0;
    while i < ctx.len()
        invariant
            i <= ctx.len(),
            n == depth(ctx@.take(i as int)),
            n <= i,
        decreases ctx.len() - i,
    {
        assert(ctx@.take(i + 1).drop_last() =~= ctx@.take(i as int));
        if ctx[i] == Ctx::Tbl {
            n = n + 1;
        }
        i = i + 1;
    }
    assert(ctx@.take(i as int) =~= ctx@);
    n
}

proof fn lemma_rfind(ctx: Seq<Ctx>, tag: Ctx, i: int)
    requires
        -1 <= i < ctx.len(),
        forall|j: int| i < j < ctx.len() ==> ctx[j] != tag,
        i >= 0 ==> ctx[i] == tag,
    ensures
        rfind(ctx, tag) == i,
    decreases ctx.len(),
{
    if ctx.len() > 0 && i < ctx.len() - 1 {
        lemma_rfind(ctx.drop_last(), tag, i);
    }
}

/// Closes the innermost open `tag`, if there is one.
pub fn pop_tag(ctx: &mut Vec<Ctx>, tag: Ctx)
    ensures
        final(ctx)@ == popped(old(ctx)@, tag),
{
    let mut i: usize = ctx.len();
    while i > 0 && ctx[i - 1] != tag
        invariant
            i <= ctx.len(),
            forall|j: int| i <= j < ctx.len() ==> ctx@[j] != tag,
        decreases i,
    {
        i = i - 1;
    }
    proof {
        lemma_rfind(ctx@, tag, i - 1);
    }
    if i > 0 {
        ctx.remove(i - 1);
    }
}

// ── Heading levels ────────────────────────────────────────────────────────────

/// What `str::to_lowercase` makes of `s` (Unicode lowercase mapping).
pub uninterp spec fn unicode_lowercase(s: Seq<char>) -> Seq<char>;

/// `str::to_lowercase`. Claimed: the result is `unicode_lowercase(s)`.
#[verifier::external_body]
pub(crate) fn to_lowercase(s: &str) -> (r: String)
    ensures
        r@ == unicode_lowercase(s@),
{
    s.to_lowercase()
}

/// Number of leading characters that are not ASCII digits.
pub open spec fn lead_non_digit(s: Seq<char>) -> nat
    decreases s.len(),
{
    if s.len() > 0 && !is_digit(s[0]) {
        1 + lead_non_digit(s.drop_first())
    } else {
        0
    }
}

/// The heading level of a paragraph style: `heading<N>` (any case, any
/// separator before the digits, surrounding whitespace ignored) with
/// `N` in 1..=9.
pub open spec fn spec_heading_level(style: Seq<char>) -> Option<u8> {
    let lower = unicode_lowercase(trim(style));
    if starts_with_str(lower, "heading"@) {
        let rest = lower.skip(7);
        let digits = rest.skip(lead_non_digit(rest) as int);
        match parse_unsigned(digits, 255) {
            Some(v) => if 1 <= v <= 9 {
                Some(v as u8)
            } else {
                None
            },
            None => None,
        }
    } else {
        None
    }
}

proof fn lemma_lead_non_digit(s: Seq<char>, a: int)
    requires
        0 <= a <= s.len(),
        forall|i: int| 0 <= i < a ==> !is_digit(#[trigger] s[i]),
        a == s.len() || is_digit(s[a]),
    ensures
        lead_non_digit(s) == a,
    decreases a,
{
    if a > 0 {
        lemma_lead_non_digit(s.drop_first(), a - 1);
    }
}

/// Heading level (1..=9) of a paragraph style name such as `Heading1`.
pub fn heading_level(style: &str) -> (r: Option<u8>)
    ensures
        r == spec_heading_level(style@),
{
    let t = trim_str(style);
    let lower = to_lowercase(t.as_str());
    let cs = chars_of(lower.as_str());
    let prefix = chars_of("heading");
    proof {
        reveal_strlit("heading");
    }
    assert(prefix@.len() == 7);
    if cs.len() < 7 {
        return None;
    }
    let mut i: usize = 0;
    while i < 7
        invariant
            i <= 7 <= cs.len(),
            prefix@ == "heading"@,
            prefix.len() == 7,
            cs@ == lower@,
            cs@ == unicode_lowercase(trim(style@)),
            forall|j: int| 0 <= j < i ==> cs@[j] == prefix@[j],
        decreases 7 - i,
    {
        if cs[i] != prefix[i] {
            assert(cs@.take(7)[i as int] != "heading"@[i as int]);
            assert(cs@.take(7) != "heading"@);
            return None;
        }
        i = i + 1;
    }
    assert(cs@.take(7) =~= "heading"@);
    let mut j: usize = 7;
    while j < cs.len() && !('0' <= cs[j] && cs[j] <= '9')
        invariant
            7 <= j <= cs.len(),
            forall|k: int| 7 <= k < j ==> !is_digit(#[trigger] cs@[k]),
        decreases cs.len() - j,
    {
        j = j + 1;
    }
    let ghost rest = cs@.skip(7);
    proof {
        assert forall|k: int| 0 <= k < j - 7 implies !is_digit(#[trigger] rest[k]) by {
            assert(rest[k] == cs@[k + 7]);
        }
        if j < cs.len() {
            assert(rest[j - 7] == cs@[j as int]);
        }
        lemma_lead_non_digit(rest, j - 7);
        assert(rest.skip(j - 7) =~= cs@.skip(j as int));
    }
    let ghost digits = cs@.skip(j as int);
    match parse_digits(&cs, j, 255) {
        Some(v) => {
            proof {
                if digits.len() > 0 {
                    assert(digits[0] == cs@[j as int]);
                }
            }
            if 1 <= v && v <= 9 {
                Some(v as u8)
            } else {
                None
            }
        },
        None => {
            proof {
                if digits.len() > 0 && digits[0] == '+' {
                    assert(digits[0] == cs@[j as int]);
                }
            }
            None
        },
    }
}


// ── Parser state ──────────────────────────────────────────────────────────────

/// The paragraph being collected (outside tables).
pub struct ParaState {
    pub style: Option<String>,
    pub outline_level: Option<u8>,
    pub text: String,
    pub images: Vec<String>,
    pub footnote_refs: Vec<u32>,
    pub endnote_refs: Vec<u32>,
    pub is_list: bool,
    pub list_level: u8,
}

#[verifier::ext_equal]
pub struct ParaModel {
    pub style: Option<Seq<char>>,
    pub outline_level: Option<u8>,
    pub text: Seq<char>,
    pub images: Seq<Seq<char>>,
    pub footnote_refs: Seq<u32>,
    pub endnote_refs: Seq<u32>,
    pub is_list: bool,
    pub list_level: u8,
}

impl DeepView for ParaState {
    type V = ParaModel;

    open spec fn deep_view(&self) -> ParaModel {
        ParaModel {
            style: self.style.deep_view(),
            outline_level: self.outline_level,
            text: self.text@,
            images: self.images.deep_view(),
            footnote_refs: self.footnote_refs@,
            endnote_refs: self.endnote_refs@,
            is_list: self.is_list,
            list_level: self.list_level,
        }
    }
}

/// The outer paragraph put aside while a text box is read.
pub struct SavedPara {
    pub text: String,
    pub style: Option<String>,
    pub is_list: bool,
    pub list_level: u8,
    pub images: Vec<String>,
    pub footnote_refs: Vec<u32>,
    pub endnote_refs: Vec<u32>,
}

#[verifier::ext_equal]
pub struct SavedParaModel {
    pub text: Seq<char>,
    pub style: Option<Seq<char>>,
    pub is_list: bool,
    pub list_level: u8,
    pub images: Seq<Seq<char>>,
    pub footnote_refs: Seq<u32>,
    pub endnote_refs: Seq<u32>,
}

impl DeepView for SavedPara {
    type V = SavedParaModel;

    open spec fn deep_view(&self) -> SavedParaModel {
        SavedParaModel {
            text: self.text@,
            style: self.style.deep_view(),
            is_list: self.is_list,
            list_level: self.list_level,
            images: self.images.deep_view(),
            footnote_refs: self.footnote_refs@,
            endnote_refs: self.endnote_refs@,
        }
    }
}

/// An open `<w:ins>`.
pub struct InsState {
    pub author: Option<String>,
    pub date: Option<String>,
    pub start_pos: usize,
    pub in_table: bool,
}

#[verifier::ext_equal]
pub struct InsModel {
    pub author: Option<Seq<char>>,
    pub date: Option<Seq<char>>,
    pub start_pos: usize,
    pub in_table: bool,
}

impl DeepView for InsState {
    type V = InsModel;

    open spec fn deep_view(&self) -> InsModel {
        InsModel {
            author: self.author.deep_view(),
            date: self.date.deep_view(),
            start_pos: self.start_pos,
            in_table: self.in_table,
        }
    }
}

/// An open `<w:del>`, with the deleted text collected so far.
pub struct DelState {
    pub author: Option<String>,
    pub date: Option<String>,
    pub buf: String,
    pub in_table: bool,
}

#[verifier::ext_equal]
pub struct DelModel {
    pub author: Option<Seq<char>>,
    pub date: Option<Seq<char>>,
    pub buf: Seq<char>,
    pub in_table: bool,
}

impl DeepView for DelState {
    type V = DelModel;

    open spec fn deep_view(&self) -> DelModel {
        DelModel {
            author: self.author.deep_view(),
            date: self.date.deep_view(),
            buf: self.buf@,
            in_table: self.in_table,
        }
    }
}

/// Where a comment range started.
#[derive(Clone, Copy, Debug, PartialEq, Eq)]
pub struct CommentStart {
    /// Prospective index of the section holding the start.
    pub section_index: usize,
    pub char_start: usize,
    pub in_table: bool,
    /// Set when the start paragraph is emitted while the range is open.
    pub finalized_end: Option<usize>,
}

impl DeepView for CommentStart {
    type V = CommentStart;

    open spec fn deep_view(&self) -> CommentStart {
        *self
    }
}

/// What the body parser produces.
pub struct ParsedBody {
    pub sections: Vec<Section>,
    pub revisions: Vec<Revision>,
    /// Comment id → anchor.
    pub comment_anchors: Vec<(u32, Anchor)>,
    /// Header references: (type, relationship id).
    pub header_refs: Vec<(String, String)>,
    /// Footer references: (type, relationship id).
    pub footer_refs: Vec<(String, String)>,
}

#[verifier::ext_equal]
pub struct ParsedBodyModel {
    pub sections: Seq<SectionModel>,
    pub revisions: Seq<RevisionModel>,
    pub comment_anchors: Seq<(u32, Anchor)>,
    pub header_refs: Seq<(Seq<char>, Seq<char>)>,
    pub footer_refs: Seq<(Seq<char>, Seq<char>)>,
}

impl DeepView for ParsedBody {
    type V = ParsedBodyModel;

    open spec fn deep_view(&self) -> ParsedBodyModel {
        ParsedBodyModel {
            sections: self.sections.deep_view(),
            revisions: self.revisions.deep_view(),
            comment_anchors: self.comment_anchors.deep_view(),
            header_refs: self.header_refs.deep_view(),
            footer_refs: self.footer_refs.deep_view(),
        }
    }
}

/// The whole parser state.
pub struct BodyState {
    pub ctx: Vec<Ctx>,
    pub para: ParaState,
    pub cell_text: String,
    pub cell_images: Vec<String>,
    pub current_row: Vec<TableCell>,
    pub current_table: Vec<Vec<TableCell>>,
    pub txbx_depth: usize,
    pub saved_outer_para: Option<SavedPara>,
    pub hyperlink_url: Option<String>,
    pub hyperlink_text_start: usize,
    pub ins_stack: Vec<InsState>,
    pub del_stack: Vec<DelState>,
    pub open_comment_starts: Vec<(u32, CommentStart)>,
    pub nested_cell: String,
    pub nested_row: Vec<String>,
    pub nested_rows: Vec<Vec<String>>,
    pub out: ParsedBody,
}

#[verifier::ext_equal]
pub struct BodyModel {
    pub ctx: Seq<Ctx>,
    pub para: ParaModel,
    pub cell_text: Seq<char>,
    pub cell_images: Seq<Seq<char>>,
    pub current_row: Seq<TableCellModel>,
    pub current_table: Seq<Seq<TableCellModel>>,
    pub txbx_depth: usize,
    pub saved_outer_para: Option<SavedParaModel>,
    pub hyperlink_url: Option<Seq<char>>,
    pub hyperlink_text_start: usize,
    pub ins_stack: Seq<InsModel>,
    pub del_stack: Seq<DelModel>,
    pub open_comment_starts: Seq<(u32, CommentStart)>,
    pub nested_cell: Seq<char>,
    pub nested_row: Seq<Seq<char>>,
    pub nested_rows: Seq<Seq<Seq<char>>>,
    pub out: ParsedBodyModel,
}

impl DeepView for BodyState {
    type V = BodyModel;

    open spec fn deep_view(&self) -> BodyModel {
        BodyModel {
            ctx: self.ctx@,
            para: self.para.deep_view(),
            cell_text: self.cell_text@,
            cell_images: self.cell_images.deep_view(),
            current_row: self.current_row.deep_view(),
            current_table: self.current_table.deep_view(),
            txbx_depth: self.txbx_depth,
            saved_outer_para: self.saved_outer_para.deep_view(),
            hyperlink_url: self.hyperlink_url.deep_view(),
            hyperlink_text_start: self.hyperlink_text_start,
            ins_stack: self.ins_stack.deep_view(),
            del_stack: self.del_stack.deep_view(),
            open_comment_starts: self.open_comment_starts.deep_view(),
            nested_cell: self.nested_cell@,
            nested_row: self.nested_row.deep_view(),
            nested_rows: self.nested_rows.deep_view(),
            out: self.out.deep_view(),
        }
    }
}

pub open spec fn empty_para() -> ParaModel {
    ParaModel {
        style: None,
        outline_level: None,
        text: Seq::empty(),
        images: Seq::empty(),
        footnote_refs: Seq::empty(),
        endnote_refs: Seq::empty(),
        is_list: false,
        list_level: 0,
    }
}

pub open spec fn empty_output() -> ParsedBodyModel {
    ParsedBodyModel {
        sections: Seq::empty(),
        revisions: Seq::empty(),
        comment_anchors: Seq::empty(),
        header_refs: Seq::empty(),
        footer_refs: Seq::empty(),
    }
}

/// The state before the first event.
pub open spec fn initial_model() -> BodyModel {
    BodyModel {
        ctx: Seq::empty(),
        para: empty_para(),
        cell_text: Seq::empty(),
        cell_images: Seq::empty(),
        current_row: Seq::empty(),
        current_table: Seq::empty(),
        txbx_depth: 0,
        saved_outer_para: None,
        hyperlink_url: None,
        hyperlink_text_start: 0,
        ins_stack: Seq::empty(),
        del_stack: Seq::empty(),
        open_comment_starts: Seq::empty(),
        nested_cell: Seq::empty(),
        nested_row: Seq::empty(),
        nested_rows: Seq::empty(),
        out: empty_output(),
    }
}


// ── Transitions ───────────────────────────────────────────────────────────────

pub open spec fn sat_sub(a: usize, b: usize) -> usize {
    if a >= b {
        (a - b) as usize
    } else {
        0
    }
}

/// Text goes to the open deletion, else to the paragraph, the table cell or
/// the nested-table cell, by table depth.
pub open spec fn push_text_m(m: BodyModel, s: Seq<char>) -> BodyModel {
    if m.del_stack.len() > 0 {
        let last = m.del_stack.last();
        BodyModel {
            del_stack: m.del_stack.update(
                m.del_stack.len() - 1,
                DelModel { buf: last.buf + s, ..last },
            ),
            ..m
        }
    } else {
        let d = depth(m.ctx);
        if d == 0 {
            BodyModel { para: ParaModel { text: m.para.text + s, ..m.para }, ..m }
        } else if d == 1 && m.ctx.contains(Ctx::Cell) {
            BodyModel { cell_text: m.cell_text + s, ..m }
        } else if d >= 2 {
            BodyModel { nested_cell: m.nested_cell + s, ..m }
        } else {
            m
        }
    }
}

/// An image reference goes to the paragraph (outside tables) or to the
/// cell, once.
pub open spec fn add_image_m(m: BodyModel, name: Seq<char>) -> BodyModel {
    let d = depth(m.ctx);
    if d == 0 {
        if m.para.images.contains(name) {
            m
        } else {
            BodyModel { para: ParaModel { images: m.para.images.push(name), ..m.para }, ..m }
        }
    } else if m.ctx.contains(Ctx::Cell) {
        if m.cell_images.contains(name) {
            m
        } else {
            BodyModel { cell_images: m.cell_images.push(name), ..m }
        }
    } else {
        m
    }
}

/// The file name of the image that an `r:embed` / `r:id` attribute refers to.
pub open spec fn image_file_for(
    attrs: Seq<XmlAttrModel>,
    images: Seq<(Seq<char>, Seq<char>)>,
) -> Option<Seq<char>>
    decreases attrs.len(),
{
    if attrs.len() == 0 {
        None
    } else {
        let a = attrs[0];
        let path = assoc_get(images, utf8_lossy(a.value));
        if (a.key == "r:embed".spec_bytes() || a.key == "r:id".spec_bytes()) && path is Some {
            path_file_name(path.unwrap())
        } else {
            image_file_for(attrs.drop_first(), images)
        }
    }
}

/// The target of a hyperlink: its relationship's URL, or `#anchor`.
pub open spec fn hyperlink_url_for(
    attrs: Seq<XmlAttrModel>,
    links: Seq<(Seq<char>, Seq<char>)>,
) -> Option<Seq<char>>
    decreases attrs.len(),
{
    if attrs.len() == 0 {
        None
    } else {
        let a = attrs[0];
        let r = if a.key == "r:id".spec_bytes() {
            assoc_get(links, utf8_lossy(a.value))
        } else if local_part(a.key) == "anchor".spec_bytes() {
            Some("#"@ + utf8_lossy(a.value))
        } else {
            None
        };
        if r is Some {
            r
        } else {
            hyperlink_url_for(attrs.drop_first(), links)
        }
    }
}

pub open spec fn push_ctx(m: BodyModel, c: Ctx) -> BodyModel {
    BodyModel { ctx: m.ctx.push(c), ..m }
}

pub open spec fn start_p_m(m: BodyModel) -> BodyModel {
    let d = depth(m.ctx);
    let m1 = push_ctx(m, Ctx::Para);
    if d == 0 {
        BodyModel { para: empty_para(), ..m1 }
    } else if d == 1 && m.ctx.contains(Ctx::Cell) && m.cell_text.len() > 0 {
        BodyModel { cell_text: m.cell_text.push('\n'), ..m1 }
    } else if d >= 2 && m.nested_cell.len() > 0 && m.nested_cell.last() != '\n' {
        BodyModel { nested_cell: m.nested_cell.push('\n'), ..m1 }
    } else {
        m1
    }
}

pub open spec fn start_tbl_m(m: BodyModel) -> BodyModel {
    let d = depth(m.ctx) + 1;
    let m1 = push_ctx(m, Ctx::Tbl);
    if d == 1 {
        BodyModel { current_table: Seq::empty(), ..m1 }
    } else if d == 2 {
        BodyModel { nested_cell: Seq::empty(), nested_row: Seq::empty(), nested_rows: Seq::empty(), ..m1 }
    } else {
        m1
    }
}

pub open spec fn start_tr_m(m: BodyModel) -> BodyModel {
    let d = depth(m.ctx);
    if d == 1 {
        BodyModel { current_row: Seq::empty(), ..push_ctx(m, Ctx::Row) }
    } else if d >= 2 {
        push_ctx(m, Ctx::Row)
    } else {
        m
    }
}

pub open spec fn start_tc_m(m: BodyModel) -> BodyModel {
    let d = depth(m.ctx);
    if d == 1 && m.ctx.contains(Ctx::Row) {
        BodyModel { cell_text: Seq::empty(), cell_images: Seq::empty(), ..push_ctx(m, Ctx::Cell) }
    } else if d >= 2 && m.ctx.contains(Ctx::Row) {
        BodyModel { nested_cell: Seq::empty(), ..push_ctx(m, Ctx::Cell) }
    } else {
        m
    }
}

/// Byte length of the buffer that collects text at the current position.
pub open spec fn text_pos(m: BodyModel, in_table: bool) -> usize {
    if in_table {
        blen(m.cell_text) as usize
    } else {
        blen(m.para.text) as usize
    }
}

pub open spec fn start_ins_m(m: BodyModel, attrs: Seq<XmlAttrModel>) -> BodyModel {
    let in_table = depth(m.ctx) >= 1;
    BodyModel {
        ins_stack: m.ins_stack.push(
            InsModel {
                author: attr_value(attrs, "author".spec_bytes()),
                date: attr_value(attrs, "date".spec_bytes()),
                start_pos: text_pos(m, in_table),
                in_table,
            },
        ),
        ..push_ctx(m, Ctx::Ins)
    }
}

pub open spec fn start_del_m(m: BodyModel, attrs: Seq<XmlAttrModel>) -> BodyModel {
    BodyModel {
        del_stack: m.del_stack.push(
            DelModel {
                author: attr_value(attrs, "author".spec_bytes()),
                date: attr_value(attrs, "date".spec_bytes()),
                buf: Seq::empty(),
                in_table: depth(m.ctx) >= 1,
            },
        ),
        ..push_ctx(m, Ctx::Del)
    }
}

pub open spec fn start_txbx_m(m: BodyModel) -> BodyModel {
    let n = (m.txbx_depth + 1) as usize;
    if n == 1 {
        BodyModel {
            txbx_depth: n,
            saved_outer_para: Some(
                SavedParaModel {
                    text: m.para.text,
                    style: m.para.style,
                    is_list: m.para.is_list,
                    list_level: m.para.list_level,
                    images: m.para.images,
                    footnote_refs: m.para.footnote_refs,
                    endnote_refs: m.para.endnote_refs,
                },
            ),
            para: ParaModel {
                text: Seq::empty(),
                style: None,
                images: Seq::empty(),
                footnote_refs: Seq::empty(),
                endnote_refs: Seq::empty(),
                is_list: false,
                list_level: 0,
                ..m.para
            },
            ..m
        }
    } else {
        BodyModel { txbx_depth: n, ..m }
    }
}

pub open spec fn start_hyperlink_m(m: BodyModel, attrs: Seq<XmlAttrModel>, rels: RelsModel) -> BodyModel {
    match hyperlink_url_for(attrs, rels.hyperlinks) {
        Some(u) => BodyModel {
            hyperlink_url: Some(u),
            hyperlink_text_start: text_pos(m, depth(m.ctx) != 0),
            ..m
        },
        None => m,
    }
}

pub open spec fn is_container(k: TagKind) -> bool {
    k == TagKind::Body || k == TagKind::Hdr || k == TagKind::Ftr || k == TagKind::Footnote || k
        == TagKind::Endnote || k == TagKind::Comment
}

pub open spec fn run_allowed(ctx: Seq<Ctx>) -> bool {
    let d = depth(ctx);
    ||| d == 0 && ctx.contains(Ctx::Para)
    ||| d == 1 && ctx.contains(Ctx::Cell)
    ||| d >= 2 && ctx.contains(Ctx::Body)
    ||| ctx.contains(Ctx::Del)
}

/// An opening tag.
pub open spec fn start_m(m: BodyModel, t: XmlTagModel, rels: RelsModel) -> BodyModel {
    let k = tag_kind(t.name);
    let body = m.ctx.contains(Ctx::Body);
    if is_container(k) && !body {
        push_ctx(m, Ctx::Body)
    } else if k == TagKind::P && body {
        start_p_m(m)
    } else if k == TagKind::PPr && (m.ctx.contains(Ctx::Para) || m.ctx.contains(Ctx::Cell)) {
        push_ctx(m, Ctx::ParaProps)
    } else if k == TagKind::NumPr && m.ctx.contains(Ctx::ParaProps) {
        push_ctx(m, Ctx::NumPr)
    } else if k == TagKind::R && run_allowed(m.ctx) {
        push_ctx(m, Ctx::Run)
    } else if k == TagKind::T && m.ctx.contains(Ctx::Run) {
        push_ctx(m, Ctx::Text)
    } else if k == TagKind::DelText && m.ctx.contains(Ctx::Run) && m.ctx.contains(Ctx::Del) {
        push_ctx(m, Ctx::Text)
    } else if k == TagKind::Tbl && body {
        start_tbl_m(m)
    } else if k == TagKind::Tr {
        start_tr_m(m)
    } else if k == TagKind::Tc {
        start_tc_m(m)
    } else if k == TagKind::Ins {
        start_ins_m(m, t.attrs)
    } else if k == TagKind::Del {
        start_del_m(m, t.attrs)
    } else if k == TagKind::TxbxContent && body {
        start_txbx_m(m)
    } else if k == TagKind::Hyperlink && body {
        start_hyperlink_m(m, t.attrs, rels)
    } else {
        m
    }
}

/// `val` of `<w:outlineLvl>`: 0..=8, else none.
pub open spec fn outline_value(v: Seq<char>) -> Option<u8> {
    match parse_unsigned(v, 255) {
        Some(l) => if 0 <= l <= 8 {
            Some(l as u8)
        } else {
            None
        },
        None => None,
    }
}

/// A note or comment id attribute, as a `u32`.
pub open spec fn id_attr(attrs: Seq<XmlAttrModel>) -> Option<u32> {
    match attr_value(attrs, "id".spec_bytes()) {
        Some(v) => match parse_unsigned(v, 0xffff_ffff) {
            Some(n) => Some(n as u32),
            None => None,
        },
        None => None,
    }
}

pub open spec fn comment_start_m(m: BodyModel, attrs: Seq<XmlAttrModel>) -> BodyModel {
    match id_attr(attrs) {
        Some(id) => {
            let in_table = depth(m.ctx) >= 1;
            BodyModel {
                open_comment_starts: assoc_insert(
                    m.open_comment_starts,
                    id,
                    CommentStart {
                        section_index: m.out.sections.len() as usize,
                        char_start: text_pos(m, in_table),
                        in_table,
                        finalized_end: None,
                    },
                ),
                ..m
            }
        },
        None => m,
    }
}

pub open spec fn comment_end_m(m: BodyModel, attrs: Seq<XmlAttrModel>) -> BodyModel {
    match id_attr(attrs) {
        Some(id) => match assoc_get(m.open_comment_starts, id) {
            Some(st) => {
                let char_end = match st.finalized_end {
                    Some(e) => e,
                    None => text_pos(m, st.in_table),
                };
                BodyModel {
                    open_comment_starts: assoc_remove(m.open_comment_starts, id),
                    out: ParsedBodyModel {
                        comment_anchors: assoc_insert(
                            m.out.comment_anchors,
                            id,
                            Anchor {
                                section_index: st.section_index,
                                char_start: st.char_start,
                                char_end,
                            },
                        ),
                        ..m.out
                    },
                    ..m
                }
            },
            None => m,
        },
        None => m,
    }
}

/// (type, relationship id) of a header/footer reference.
pub open spec fn part_ref(attrs: Seq<XmlAttrModel>) -> Option<(Seq<char>, Seq<char>)> {
    let kind = match attr_value(attrs, "type".spec_bytes()) {
        Some(k) => k,
        None => "default"@,
    };
    match attr_value_exact(attrs, "r:id".spec_bytes()) {
        Some(id) => Some((kind, id)),
        None => None,
    }
}

/// An empty-element tag.
pub open spec fn empty_m(m: BodyModel, t: XmlTagModel, rels: RelsModel) -> BodyModel {
    let k = tag_kind(t.name);
    let a = t.attrs;
    let body = m.ctx.contains(Ctx::Body);
    let run = m.ctx.contains(Ctx::Run);
    if k == TagKind::PStyle && m.ctx.contains(Ctx::ParaProps) {
        BodyModel { para: ParaModel { style: attr_value(a, "val".spec_bytes()), ..m.para }, ..m }
    } else if k == TagKind::OutlineLvl && m.ctx.contains(Ctx::ParaProps) {
        match attr_value(a, "val".spec_bytes()) {
            Some(v) => BodyModel {
                para: ParaModel { outline_level: outline_value(v), ..m.para },
                ..m
            },
            None => m,
        }
    } else if k == TagKind::Ilvl && m.ctx.contains(Ctx::NumPr) {
        match attr_value(a, "val".spec_bytes()) {
            Some(v) => BodyModel {
                para: ParaModel {
                    list_level: match parse_unsigned(v, 255) {
                        Some(l) => l as u8,
                        None => 0,
                    },
                    ..m.para
                },
                ..m
            },
            None => m,
        }
    } else if k == TagKind::NumId && m.ctx.contains(Ctx::NumPr) && attr_value(
        a,
        "val".spec_bytes(),
    ) != Some("0"@) {
        BodyModel { para: ParaModel { is_list: true, ..m.para }, ..m }
    } else if k == TagKind::Tab && run {
        push_text_m(m, "\t"@)
    } else if k == TagKind::Br && run {
        push_text_m(
            m,
            if depth(m.ctx) == 0 {
                "\n"@
            } else {
                " "@
            },
        )
    } else if (k == TagKind::Blip || k == TagKind::Imagedata) && run {
        match image_file_for(a, rels.images) {
            Some(n) => add_image_m(m, n),
            None => m,
        }
    } else if k == TagKind::FootnoteReference && run && depth(m.ctx) == 0 {
        match id_attr(a) {
            Some(id) => BodyModel {
                para: ParaModel { footnote_refs: m.para.footnote_refs.push(id), ..m.para },
                ..m
            },
            None => m,
        }
    } else if k == TagKind::EndnoteReference && run && depth(m.ctx) == 0 {
        match id_attr(a) {
            Some(id) => BodyModel {
                para: ParaModel { endnote_refs: m.para.endnote_refs.push(id), ..m.para },
                ..m
            },
            None => m,
        }
    } else if k == TagKind::CommentRangeStart && body {
        comment_start_m(m, a)
    } else if k == TagKind::CommentRangeEnd && body {
        comment_end_m(m, a)
    } else if k == TagKind::HeaderReference && body {
        match part_ref(a) {
            Some(r) => BodyModel {
                out: ParsedBodyModel { header_refs: m.out.header_refs.push(r), ..m.out },
                ..m
            },
            None => m,
        }
    } else if k == TagKind::FooterReference && body {
        match part_ref(a) {
            Some(r) => BodyModel {
                out: ParsedBodyModel { footer_refs: m.out.footer_refs.push(r), ..m.out },
                ..m
            },
            None => m,
        }
    } else {
        m
    }
}

/// The buffer an insertion was recorded against.
pub open spec fn ins_buf(m: BodyModel, st: InsModel) -> Seq<char> {
    if st.in_table {
        m.cell_text
    } else {
        m.para.text
    }
}

/// Closing `</w:ins>` slices its buffer at the recorded start.
pub open spec fn end_ins_ok(m: BodyModel) -> bool {
    m.ins_stack.len() > 0 ==> {
        let st = m.ins_stack.last();
        st.start_pos <= blen(ins_buf(m, st)) && at_boundary(ins_buf(m, st), st.start_pos as int)
    }
}

pub open spec fn end_ins_m(m: BodyModel) -> BodyModel {
    let m1 = if m.ins_stack.len() > 0 {
        let st = m.ins_stack.last();
        let buf = ins_buf(m, st);
        let text = byte_tail(buf, st.start_pos as int);
        let m0 = BodyModel { ins_stack: m.ins_stack.drop_last(), ..m };
        if text.len() > 0 {
            BodyModel {
                out: ParsedBodyModel {
                    revisions: m.out.revisions.push(
                        RevisionModel {
                            kind: RevisionKind::Insert,
                            author: st.author,
                            date: st.date,
                            anchor: Some(
                                Anchor {
                                    section_index: m.out.sections.len() as usize,
                                    char_start: st.start_pos,
                                    char_end: blen(buf) as usize,
                                },
                            ),
                            text,
                        },
                    ),
                    ..m.out
                },
                ..m0
            }
        } else {
            m0
        }
    } else {
        m
    };
    BodyModel { ctx: popped(m1.ctx, Ctx::Ins), ..m1 }
}

pub open spec fn end_del_m(m: BodyModel) -> BodyModel {
    let m1 = if m.del_stack.len() > 0 {
        let st = m.del_stack.last();
        let m0 = BodyModel { del_stack: m.del_stack.drop_last(), ..m };
        if st.buf.len() > 0 {
            let pos = text_pos(m, st.in_table);
            BodyModel {
                out: ParsedBodyModel {
                    revisions: m.out.revisions.push(
                        RevisionModel {
                            kind: RevisionKind::Delete,
                            author: st.author,
                            date: st.date,
                            anchor: Some(
                                Anchor {
                                    section_index: m.out.sections.len() as usize,
                                    char_start: pos,
                                    char_end: pos,
                                },
                            ),
                            text: st.buf,
                        },
                    ),
                    ..m.out
                },
                ..m0
            }
        } else {
            m0
        }
    } else {
        m
    };
    BodyModel { ctx: popped(m1.ctx, Ctx::Del), ..m1 }
}

/// A byte position in a paragraph's raw text, as a position in its trimmed
/// text (`tlen` bytes long): shifted by the leading whitespace and kept
/// within the trimmed text.
pub open spec fn clamp(x: usize, leading: usize, tlen: usize) -> usize {
    let y = sat_sub(x, leading);
    if y > tlen {
        tlen
    } else {
        y
    }
}

/// An open comment range that starts in the paragraph being emitted ends
/// with it, at the end of its (trimmed) text; its start becomes a position
/// in the trimmed text.
pub open spec fn adjust_start(cs: CommentStart, n: usize, tlen: usize, leading: usize) -> CommentStart {
    if cs.section_index == n && cs.finalized_end is None {
        CommentStart {
            finalized_end: Some(tlen),
            char_start: clamp(cs.char_start, leading, tlen),
            ..cs
        }
    } else {
        cs
    }
}

/// An anchor in the paragraph being emitted becomes a range of its trimmed
/// text.
pub open spec fn adjust_anchor(a: Anchor, n: usize, leading: usize, tlen: usize) -> Anchor {
    if a.section_index == n {
        Anchor {
            char_start: clamp(a.char_start, leading, tlen),
            char_end: clamp(a.char_end, leading, tlen),
            ..a
        }
    } else {
        a
    }
}

/// Revisions anchored in the paragraph being emitted get ranges of its
/// trimmed text.
pub open spec fn adjust_revision(r: RevisionModel, n: usize, leading: usize, tlen: usize) -> RevisionModel {
    match r.anchor {
        Some(a) => RevisionModel { anchor: Some(adjust_anchor(a, n, leading, tlen)), ..r },
        None => r,
    }
}

/// Heading level of the paragraph: from its style, else from its outline
/// level (+1).
pub open spec fn para_level(p: ParaModel) -> Option<u8> {
    let from_style = match p.style {
        Some(s) => spec_heading_level(s),
        None => None,
    };
    if from_style is Some {
        from_style
    } else {
        match p.outline_level {
            Some(l) => Some((l + 1) as u8),
            None => None,
        }
    }
}

/// The section a non-empty paragraph becomes.
pub open spec fn para_section(p: ParaModel) -> SectionModel {
    let text = trim(p.text);
    if p.is_list {
        SectionModel::ListItem {
            level: p.list_level,
            text,
            images: p.images,
            footnote_refs: p.footnote_refs,
            endnote_refs: p.endnote_refs,
        }
    } else {
        match para_level(p) {
            Some(level) => SectionModel::Heading {
                level,
                text,
                images: p.images,
                footnote_refs: p.footnote_refs,
                endnote_refs: p.endnote_refs,
            },
            None => SectionModel::Paragraph {
                text,
                images: p.images,
                footnote_refs: p.footnote_refs,
                endnote_refs: p.endnote_refs,
            },
        }
    }
}

/// Whether the paragraph yields a section: non-blank text or images.
pub open spec fn para_emits(p: ParaModel) -> bool {
    trim(p.text).len() > 0 || p.images.len() > 0
}

/// A paragraph outside tables ends: emitted when not blank, then reset.
pub open spec fn emit_para_m(m: BodyModel) -> BodyModel {
    let p = m.para;
    let n = m.out.sections.len() as usize;
    let m1 = if para_emits(p) {
        let tlen = blen(trim(p.text)) as usize;
        let leading = (blen(p.text) - blen(trim_start(p.text))) as usize;
        BodyModel {
            open_comment_starts: m.open_comment_starts.map_values(
                |e: (u32, CommentStart)| (e.0, adjust_start(e.1, n, tlen, leading)),
            ),
            out: ParsedBodyModel {
                sections: m.out.sections.push(para_section(p)),
                revisions: m.out.revisions.map_values(
                    |r: RevisionModel| adjust_revision(r, n, leading, tlen),
                ),
                comment_anchors: m.out.comment_anchors.map_values(
                    |e: (u32, Anchor)| (e.0, adjust_anchor(e.1, n, leading, tlen)),
                ),
                ..m.out
            },
            ..m
        }
    } else {
        m
    };
    BodyModel { para: empty_para(), ..m1 }
}

pub open spec fn end_p_m(m: BodyModel) -> BodyModel {
    let d = depth(m.ctx);
    let m1 = BodyModel { ctx: popped(m.ctx, Ctx::Para), ..m };
    if d == 0 {
        emit_para_m(m1)
    } else {
        m1
    }
}

pub open spec fn end_tc_m(m: BodyModel) -> BodyModel {
    let d = depth(m.ctx);
    if d == 1 && m.ctx.contains(Ctx::Row) {
        BodyModel {
            ctx: popped(m.ctx, Ctx::Cell),
            current_row: m.current_row.push(
                TableCellModel { text: trim(m.cell_text), images: m.cell_images },
            ),
            cell_text: Seq::empty(),
            cell_images: Seq::empty(),
            ..m
        }
    } else if d >= 2 && m.ctx.contains(Ctx::Row) {
        BodyModel {
            ctx: popped(m.ctx, Ctx::Cell),
            nested_row: m.nested_row.push(trim(m.nested_cell)),
            nested_cell: Seq::empty(),
            ..m
        }
    } else {
        m
    }
}

pub open spec fn end_tr_m(m: BodyModel) -> BodyModel {
    let d = depth(m.ctx);
    if d == 1 {
        let m1 = BodyModel { ctx: popped(m.ctx, Ctx::Row), ..m };
        if m.current_row.len() > 0 {
            BodyModel {
                current_table: m.current_table.push(m.current_row),
                current_row: Seq::empty(),
                ..m1
            }
        } else {
            m1
        }
    } else if d >= 2 {
        let m1 = BodyModel { ctx: popped(m.ctx, Ctx::Row), ..m };
        if m.nested_row.len() > 0 {
            BodyModel { nested_rows: m.nested_rows.push(m.nested_row), nested_row: Seq::empty(), ..m1 }
        } else {
            m1
        }
    } else {
        m
    }
}

/// `items.join(sep)`.
pub open spec fn join(items: Seq<Seq<char>>, sep: Seq<char>) -> Seq<char>
    decreases items.len(),
{
    if items.len() == 0 {
        Seq::empty()
    } else if items.len() == 1 {
        items[0]
    } else {
        join(items.drop_last(), sep) + sep + items.last()
    }
}

/// A nested table rendered as text: cells joined by ` | `, rows by newlines.
pub open spec fn render_nested(rows: Seq<Seq<Seq<char>>>) -> Seq<char> {
    join(rows.map_values(|r: Seq<Seq<char>>| join(r, " | "@)), "\n"@)
}

pub open spec fn end_tbl_m(m: BodyModel) -> BodyModel {
    let d = depth(m.ctx);
    let m1 = BodyModel { ctx: popped(m.ctx, Ctx::Tbl), ..m };
    if d == 1 && m.current_table.len() > 0 {
        BodyModel {
            out: ParsedBodyModel {
                sections: m.out.sections.push(SectionModel::Table { rows: m.current_table }),
                ..m.out
            },
            current_table: Seq::empty(),
            ..m1
        }
    } else if d == 2 {
        let rendered = render_nested(m.nested_rows);
        let m2 = BodyModel { nested_rows: Seq::empty(), ..m1 };
        if rendered.len() > 0 {
            let cell = if m.cell_text.len() > 0 && m.cell_text.last() != '\n' {
                m.cell_text.push('\n')
            } else {
                m.cell_text
            };
            BodyModel { cell_text: cell + rendered, ..m2 }
        } else {
            m2
        }
    } else {
        m1
    }
}

pub open spec fn end_txbx_m(m: BodyModel) -> BodyModel {
    let m1 = if m.txbx_depth == 1 {
        match m.saved_outer_para {
            Some(sv) => BodyModel {
                para: ParaModel {
                    text: sv.text,
                    style: sv.style,
                    is_list: sv.is_list,
                    list_level: sv.list_level,
                    images: sv.images,
                    footnote_refs: sv.footnote_refs,
                    endnote_refs: sv.endnote_refs,
                    ..m.para
                },
                saved_outer_para: None,
                ..m
            },
            None => m,
        }
    } else {
        m
    };
    BodyModel { txbx_depth: sat_sub(m1.txbx_depth, 1), ..m1 }
}

/// The buffer a hyperlink's text is collected in.
pub open spec fn link_buf(m: BodyModel) -> Seq<char> {
    if depth(m.ctx) == 0 {
        m.para.text
    } else {
        m.cell_text
    }
}

/// Closing `</w:hyperlink>` slices its buffer at the recorded start.
pub open spec fn end_hyperlink_ok(m: BodyModel) -> bool {
    m.hyperlink_url is Some ==> m.hyperlink_text_start <= blen(link_buf(m)) && at_boundary(
        link_buf(m),
        m.hyperlink_text_start as int,
    )
}

/// The link text is replaced by `[text](url)`.
pub open spec fn end_hyperlink_m(m: BodyModel) -> BodyModel {
    match m.hyperlink_url {
        Some(url) => {
            let buf = link_buf(m);
            let k = m.hyperlink_text_start as int;
            let link = byte_tail(buf, k);
            let m1 = BodyModel { hyperlink_url: None, ..m };
            if link.len() > 0 {
                let nb = byte_head(buf, k) + "["@ + link + "]("@ + url + ")"@;
                if depth(m.ctx) == 0 {
                    BodyModel { para: ParaModel { text: nb, ..m.para }, ..m1 }
                } else {
                    BodyModel { cell_text: nb, ..m1 }
                }
            } else {
                m1
            }
        },
        None => m,
    }
}

/// A closing tag.
pub open spec fn end_m(m: BodyModel, name: Seq<u8>) -> BodyModel {
    let k = tag_kind(name);
    let body = m.ctx.contains(Ctx::Body);
    if is_container(k) {
        BodyModel { ctx: popped(m.ctx, Ctx::Body), ..m }
    } else if k == TagKind::PPr {
        BodyModel { ctx: popped(m.ctx, Ctx::ParaProps), ..m }
    } else if k == TagKind::NumPr {
        BodyModel { ctx: popped(m.ctx, Ctx::NumPr), ..m }
    } else if k == TagKind::T || k == TagKind::DelText {
        BodyModel { ctx: popped(m.ctx, Ctx::Text), ..m }
    } else if k == TagKind::R {
        BodyModel { ctx: popped(m.ctx, Ctx::Run), ..m }
    } else if k == TagKind::Ins {
        end_ins_m(m)
    } else if k == TagKind::Del {
        end_del_m(m)
    } else if k == TagKind::P && body && m.ctx.contains(Ctx::Para) {
        end_p_m(m)
    } else if k == TagKind::Tc {
        end_tc_m(m)
    } else if k == TagKind::Tr {
        end_tr_m(m)
    } else if k == TagKind::Tbl {
        end_tbl_m(m)
    } else if k == TagKind::TxbxContent && body {
        end_txbx_m(m)
    } else if k == TagKind::Hyperlink && body {
        end_hyperlink_m(m)
    } else {
        m
    }
}

/// Whether a closing tag can be handled: closing an insertion or a
/// hyperlink takes the text written since it opened, which needs the
/// recorded start to be a character boundary within the buffer.
pub open spec fn end_ok(m: BodyModel, name: Seq<u8>) -> bool {
    let k = tag_kind(name);
    if k == TagKind::Ins {
        end_ins_ok(m)
    } else if k == TagKind::Hyperlink && m.ctx.contains(Ctx::Body) {
        end_hyperlink_ok(m)
    } else {
        true
    }
}

/// Character data, inside `<w:t>` / `<w:delText>` only.
pub open spec fn text_m(m: BodyModel, t: Option<Seq<char>>) -> BodyModel {
    if m.ctx.contains(Ctx::Text) {
        push_text_m(
            m,
            match t {
                Some(s) => s,
                None => Seq::empty(),
            },
        )
    } else {
        m
    }
}

/// One event.
pub open spec fn step_m(m: BodyModel, e: XmlEventModel, rels: RelsModel) -> BodyModel {
    match e {
        XmlEventModel::Start(t) => start_m(m, t, rels),
        XmlEventModel::Empty(t) => empty_m(m, t, rels),
        XmlEventModel::End(n) => end_m(m, n),
        XmlEventModel::Text(t) => text_m(m, t),
        _ => m,
    }
}

pub open spec fn step_ok(m: BodyModel, e: XmlEventModel) -> bool {
    match e {
        XmlEventModel::End(n) => end_ok(m, n),
        _ => true,
    }
}

/// The state after a sequence of events.
pub open spec fn run_body(evs: Seq<XmlEventModel>, rels: RelsModel) -> BodyModel
    decreases evs.len(),
{
    if evs.len() == 0 {
        initial_model()
    } else {
        step_m(run_body(evs.drop_last(), rels), evs.last(), rels)
    }
}

/// Whether every event of the sequence can be handled.
pub open spec fn run_ok(evs: Seq<XmlEventModel>, rels: RelsModel) -> bool
    decreases evs.len(),
{
    evs.len() == 0 || (run_ok(evs.drop_last(), rels) && step_ok(
        run_body(evs.drop_last(), rels),
        evs.last(),
    ))
}

/// What the body parser produces from a sequence of events.
pub open spec fn body_of(evs: Seq<XmlEventModel>, rels: RelsModel) -> ParsedBodyModel {
    run_body(evs, rels).out
}


// ── Executable transitions ────────────────────────────────────────────────────

/// Routes text to the right buffer by context: the open deletion collects
/// deleted text; otherwise the paragraph (outside tables), the cell (in a
/// table) or the nested-table cell (in a nested table).
pub fn push_text(
    s: &str,
    ctx: &Vec<Ctx>,
    para_text: &mut String,
    cell_text: &mut String,
    nested_cell: &mut String,
    del_stack: &mut Vec<DelState>,
)
    ensures
        old(del_stack).len() > 0 ==> {
            &&& final(del_stack).deep_view() == old(del_stack).deep_view().update(
                old(del_stack).len() - 1,
                DelModel {
                    buf: old(del_stack).deep_view().last().buf + s@,
                    ..old(del_stack).deep_view().last()
                },
            )
            &&& final(para_text)@ == old(para_text)@
            &&& final(cell_text)@ == old(cell_text)@
            &&& final(nested_cell)@ == old(nested_cell)@
        },
        old(del_stack).len() == 0 ==> {
            let d = depth(ctx@);
            &&& final(del_stack).deep_view() == old(del_stack).deep_view()
            &&& final(para_text)@ == (if d == 0 {
                old(para_text)@ + s@
            } else {
                old(para_text)@
            })
            &&& final(cell_text)@ == (if d == 1 && ctx@.contains(Ctx::Cell) {
                old(cell_text)@ + s@
            } else {
                old(cell_text)@
            })
            &&& final(nested_cell)@ == (if d >= 2 {
                old(nested_cell)@ + s@
            } else {
                old(nested_cell)@
            })
        },
{
    let n = del_stack.len();
    if n > 0 {
        let ghost before = del_stack.deep_view();
        let last = &mut del_stack[n - 1];
        last.buf.append(s);
        proof {
            assert forall|i: int| 0 <= i < n implies #[trigger] del_stack.deep_view()[i]
                == before.update(n - 1, DelModel { buf: before.last().buf + s@, ..before.last() })[i] by {}
        }
        assert(del_stack.deep_view() =~= before.update(
            n - 1,
            DelModel { buf: before.last().buf + s@, ..before.last() },
        ));
        return ;
    }
    let d = table_depth(ctx);
    if d == 0 {
        para_text.append(s);
    } else if d == 1 && has(ctx, Ctx::Cell) {
        cell_text.append(s);
    } else if d >= 2 {
        nested_cell.append(s);
    }
}

fn contains_string(v: &Vec<String>, x: &String) -> (r: bool)
    ensures
        r == v.deep_view().contains(x@),
{
    let mut i: usize = 0;
    while i < v.len()
        invariant
            i <= v.len(),
            forall|j: int| 0 <= j < i ==> v.deep_view()[j] != x@,
        decreases v.len() - i,
    {
        if v[i] == *x {
            assert(v.deep_view()[i as int] == x@);
            return true;
        }
        i = i + 1;
    }
    false
}

/// Records an image reference on the paragraph (outside tables) or on the
/// cell (inside one), once.
pub fn add_image_ref(
    ctx: &Vec<Ctx>,
    para_images: &mut Vec<String>,
    cell_images: &mut Vec<String>,
    name: String,
)
    ensures
        ({
            let d = depth(ctx@);
            &&& final(para_images).deep_view() == (if d == 0 && !old(
                para_images,
            ).deep_view().contains(name@) {
                old(para_images).deep_view().push(name@)
            } else {
                old(para_images).deep_view()
            })
            &&& final(cell_images).deep_view() == (if d != 0 && ctx@.contains(Ctx::Cell) && !old(
                cell_images,
            ).deep_view().contains(name@) {
                old(cell_images).deep_view().push(name@)
            } else {
                old(cell_images).deep_view()
            })
        }),
{
    let d = table_depth(ctx);
    if d == 0 {
        if !contains_string(para_images, &name) {
            let ghost before = para_images.deep_view();
            let ghost nm = name@;
            para_images.push(name);
            assert(para_images.deep_view() =~= before.push(nm));
        }
    } else if has(ctx, Ctx::Cell) {
        if !contains_string(cell_images, &name) {
            let ghost before = cell_images.deep_view();
            let ghost nm = name@;
            cell_images.push(name);
            assert(cell_images.deep_view() =~= before.push(nm));
        }
    }
}

/// The file name of the image an `<a:blip r:embed>` or `<v:imagedata r:id>`
/// refers to.
pub fn image_filename_for(attrs: &Vec<XmlAttr>, rels: &Rels) -> (r: Option<String>)
    ensures
        r.deep_view() == image_file_for(attrs.deep_view(), rels.images.deep_view()),
{
    let mut i: usize = 0;
    assert(attrs.deep_view().skip(0) =~= attrs.deep_view());
    while i < attrs.len()
        invariant
            i <= attrs.len(),
            image_file_for(attrs.deep_view(), rels.images.deep_view()) == image_file_for(
                attrs.deep_view().skip(i as int),
                rels.images.deep_view(),
            ),
        decreases attrs.len() - i,
    {
        let ghost rest = attrs.deep_view().skip(i as int);
        assert(rest[0] == attrs[i as int].deep_view());
        assert(rest.drop_first() =~= attrs.deep_view().skip(i + 1));
        let key = attrs[i].key.as_slice();
        if bytes_eq(key, "r:embed".as_bytes()) || bytes_eq(key, "r:id".as_bytes()) {
            let rid = lossy(attrs[i].value.as_slice());
            if let Some(path) = rels.images.get(rid.as_str()) {
                return file_name(path.as_str());
            }
        }
        i = i + 1;
    }
    None
}

fn hyperlink_target(attrs: &Vec<XmlAttr>, rels: &Rels) -> (r: Option<String>)
    ensures
        r.deep_view() == hyperlink_url_for(attrs.deep_view(), rels.hyperlinks.deep_view()),
{
    let mut i: usize = 0;
    assert(attrs.deep_view().skip(0) =~= attrs.deep_view());
    while i < attrs.len()
        invariant
            i <= attrs.len(),
            hyperlink_url_for(attrs.deep_view(), rels.hyperlinks.deep_view()) == hyperlink_url_for(
                attrs.deep_view().skip(i as int),
                rels.hyperlinks.deep_view(),
            ),
        decreases attrs.len() - i,
    {
        let ghost rest = attrs.deep_view().skip(i as int);
        assert(rest[0] == attrs[i as int].deep_view());
        assert(rest.drop_first() =~= attrs.deep_view().skip(i + 1));
        let key = attrs[i].key.as_slice();
        if bytes_eq(key, "r:id".as_bytes()) {
            let rid = lossy(attrs[i].value.as_slice());
            if let Some(url) = rels.hyperlinks.get(rid.as_str()) {
                return Some(url);
            }
        } else {
            let l = local_name(key);
            if bytes_eq(l.as_slice(), "anchor".as_bytes()) {
                let mut u = "#".to_owned();
                let v = lossy(attrs[i].value.as_slice());
                u.append(v.as_str());
                return Some(u);
            }
        }
        i = i + 1;
    }
    None
}


fn new_para() -> (p: ParaState)
    ensures
        p.deep_view() == empty_para(),
{
    let p = ParaState {
        style: None,
        outline_level: None,
        text: String::new(),
        images: Vec::new(),
        footnote_refs: Vec::new(),
        endnote_refs: Vec::new(),
        is_list: false,
        list_level: 0,
    };
    assert(p.images.deep_view() =~= Seq::<Seq<char>>::empty());
    p
}

fn new_output() -> (o: ParsedBody)
    ensures
        o.deep_view() == empty_output(),
{
    let o = ParsedBody {
        sections: Vec::new(),
        revisions: Vec::new(),
        comment_anchors: Vec::new(),
        header_refs: Vec::new(),
        footer_refs: Vec::new(),
    };
    assert(o.sections.deep_view() =~= Seq::<SectionModel>::empty());
    assert(o.revisions.deep_view() =~= Seq::<RevisionModel>::empty());
    assert(o.comment_anchors.deep_view() =~= Seq::<(u32, Anchor)>::empty());
    assert(o.header_refs.deep_view() =~= Seq::<(Seq<char>, Seq<char>)>::empty());
    assert(o.footer_refs.deep_view() =~= Seq::<(Seq<char>, Seq<char>)>::empty());
    o
}

fn empty_strings() -> (v: Vec<String>)
    ensures
        v.deep_view() == Seq::<Seq<char>>::empty(),
{
    let v: Vec<String> = Vec::new();
    assert(v.deep_view() =~= Seq::<Seq<char>>::empty());
    v
}

impl BodyState {
    pub fn new() -> (st: BodyState)
        ensures
            st.deep_view() == initial_model(),
    {
        let st = BodyState {
            ctx: Vec::new(),
            para: new_para(),
            cell_text: String::new(),
            cell_images: empty_strings(),
            current_row: Vec::new(),
            current_table: Vec::new(),
            txbx_depth: 0,
            saved_outer_para: None,
            hyperlink_url: None,
            hyperlink_text_start: 0,
            ins_stack: Vec::new(),
            del_stack: Vec::new(),
            open_comment_starts: Vec::new(),
            nested_cell: String::new(),
            nested_row: empty_strings(),
            nested_rows: Vec::new(),
            out: new_output(),
        };
        assert(st.current_row.deep_view() =~= Seq::<TableCellModel>::empty());
        assert(st.current_table.deep_view() =~= Seq::<Seq<TableCellModel>>::empty());
        assert(st.ins_stack.deep_view() =~= Seq::<InsModel>::empty());
        assert(st.del_stack.deep_view() =~= Seq::<DelModel>::empty());
        assert(st.open_comment_starts.deep_view() =~= Seq::<(u32, CommentStart)>::empty());
        assert(st.nested_rows.deep_view() =~= Seq::<Seq<Seq<char>>>::empty());
        st
    }

    fn push_ctx(&mut self, c: Ctx)
        ensures
            final(self).deep_view() == push_ctx(old(self).deep_view(), c),
    {
        self.ctx.push(c);
    }

    fn start_p(&mut self)
        ensures
            final(self).deep_view() == start_p_m(old(self).deep_view()),
    {
        let d = table_depth(&self.ctx);
        let in_cell = has(&self.ctx, Ctx::Cell);
        self.ctx.push(Ctx::Para);
        if d == 0 {
            self.para = new_para();
        } else if d == 1 && in_cell && !self.cell_text.as_str().is_empty() {
            push_char(&mut self.cell_text, '\n');
        } else if d >= 2 {
            if !self.nested_cell.as_str().is_empty() && !ends_with_newline(&self.nested_cell) {
                push_char(&mut self.nested_cell, '\n');
            }
        }
    }

    fn start_tbl(&mut self)
        ensures
            final(self).deep_view() == start_tbl_m(old(self).deep_view()),
    {
        proof {
            assert(self.ctx@.push(Ctx::Tbl).drop_last() =~= self.ctx@);
        }
        self.ctx.push(Ctx::Tbl);
        let d = table_depth(&self.ctx);
        if d == 1 {
            self.current_table = Vec::new();
            assert(self.current_table.deep_view() =~= Seq::<Seq<TableCellModel>>::empty());
        } else if d == 2 {
            self.nested_cell = String::new();
            self.nested_row = empty_strings();
            self.nested_rows = Vec::new();
            assert(self.nested_rows.deep_view() =~= Seq::<Seq<Seq<char>>>::empty());
        }
    }

    fn start_tr(&mut self)
        ensures
            final(self).deep_view() == start_tr_m(old(self).deep_view()),
    {
        let d = table_depth(&self.ctx);
        if d == 1 {
            self.ctx.push(Ctx::Row);
            self.current_row = Vec::new();
            assert(self.current_row.deep_view() =~= Seq::<TableCellModel>::empty());
        } else if d >= 2 {
            self.ctx.push(Ctx::Row);
        }
    }

    fn start_tc(&mut self)
        ensures
            final(self).deep_view() == start_tc_m(old(self).deep_view()),
    {
        let d = table_depth(&self.ctx);
        let row = has(&self.ctx, Ctx::Row);
        if d == 1 && row {
            self.ctx.push(Ctx::Cell);
            self.cell_text = String::new();
            self.cell_images = empty_strings();
        } else if d >= 2 && row {
            self.ctx.push(Ctx::Cell);
            self.nested_cell = String::new();
        }
    }

    fn text_pos(&self, in_table: bool) -> (n: usize)
        ensures
            n == text_pos(self.deep_view(), in_table),
    {
        if in_table {
            byte_len(&self.cell_text)
        } else {
            byte_len(&self.para.text)
        }
    }

    fn start_ins(&mut self, attrs: &Vec<XmlAttr>)
        ensures
            final(self).deep_view() == start_ins_m(old(self).deep_view(), attrs.deep_view()),
    {
        let in_table = table_depth(&self.ctx) >= 1;
        let start_pos = self.text_pos(in_table);
        let st = InsState {
            author: get_attr(attrs, "author"),
            date: get_attr(attrs, "date"),
            start_pos,
            in_table,
        };
        let ghost before = self.ins_stack.deep_view();
        let ghost sm = st.deep_view();
        self.ctx.push(Ctx::Ins);
        self.ins_stack.push(st);
        assert(self.ins_stack.deep_view() =~= before.push(sm));
    }

    fn start_del(&mut self, attrs: &Vec<XmlAttr>)
        ensures
            final(self).deep_view() == start_del_m(old(self).deep_view(), attrs.deep_view()),
    {
        let in_table = table_depth(&self.ctx) >= 1;
        let st = DelState {
            author: get_attr(attrs, "author"),
            date: get_attr(attrs, "date"),
            buf: String::new(),
            in_table,
        };
        let ghost before = self.del_stack.deep_view();
        let ghost sm = st.deep_view();
        self.ctx.push(Ctx::Del);
        self.del_stack.push(st);
        assert(self.del_stack.deep_view() =~= before.push(sm));
    }

    fn start_txbx(&mut self)
        requires
            old(self).txbx_depth < usize::MAX,
        ensures
            final(self).deep_view() == start_txbx_m(old(self).deep_view()),
    {
        self.txbx_depth = self.txbx_depth + 1;
        if self.txbx_depth == 1 {
            let mut text = String::new();
            std::mem::swap(&mut text, &mut self.para.text);
            let mut style: Option<String> = None;
            std::mem::swap(&mut style, &mut self.para.style);
            let mut images = empty_strings();
            std::mem::swap(&mut images, &mut self.para.images);
            let mut footnote_refs: Vec<u32> = Vec::new();
            std::mem::swap(&mut footnote_refs, &mut self.para.footnote_refs);
            let mut endnote_refs: Vec<u32> = Vec::new();
            std::mem::swap(&mut endnote_refs, &mut self.para.endnote_refs);
            self.saved_outer_para = Some(
                SavedPara {
                    text,
                    style,
                    is_list: self.para.is_list,
                    list_level: self.para.list_level,
                    images,
                    footnote_refs,
                    endnote_refs,
                },
            );
            self.para.is_list = false;
            self.para.list_level = 0;
            assert(self.para.footnote_refs@ =~= Seq::<u32>::empty());
            assert(self.para.endnote_refs@ =~= Seq::<u32>::empty());
        }
    }

    fn start_hyperlink(&mut self, attrs: &Vec<XmlAttr>, rels: &Rels)
        ensures
            final(self).deep_view() == start_hyperlink_m(
                old(self).deep_view(),
                attrs.deep_view(),
                rels.deep_view(),
            ),
    {
        if let Some(u) = hyperlink_target(attrs, rels) {
            let in_table = table_depth(&self.ctx) != 0;
            self.hyperlink_text_start = self.text_pos(in_table);
            self.hyperlink_url = Some(u);
        }
    }

    /// An opening tag.
    fn on_start(&mut self, t: &XmlTag, rels: &Rels)
        requires
            old(self).txbx_depth < usize::MAX,
        ensures
            final(self).deep_view() == start_m(old(self).deep_view(), t.deep_view(), rels.deep_view()),
    {
        let k = classify(t.name.as_slice());
        let body = has(&self.ctx, Ctx::Body);
        if (k == TagKind::Body || k == TagKind::Hdr || k == TagKind::Ftr || k == TagKind::Footnote
            || k == TagKind::Endnote || k == TagKind::Comment) && !body {
            self.push_ctx(Ctx::Body);
        } else if k == TagKind::P && body {
            self.start_p();
        } else if k == TagKind::PPr && (has(&self.ctx, Ctx::Para) || has(&self.ctx, Ctx::Cell)) {
            self.push_ctx(Ctx::ParaProps);
        } else if k == TagKind::NumPr && has(&self.ctx, Ctx::ParaProps) {
            self.push_ctx(Ctx::NumPr);
        } else if k == TagKind::R && self.run_allowed() {
            self.push_ctx(Ctx::Run);
        } else if k == TagKind::T && has(&self.ctx, Ctx::Run) {
            self.push_ctx(Ctx::Text);
        } else if k == TagKind::DelText && has(&self.ctx, Ctx::Run) && has(&self.ctx, Ctx::Del) {
            self.push_ctx(Ctx::Text);
        } else if k == TagKind::Tbl && body {
            self.start_tbl();
        } else if k == TagKind::Tr {
            self.start_tr();
        } else if k == TagKind::Tc {
            self.start_tc();
        } else if k == TagKind::Ins {
            self.start_ins(&t.attrs);
        } else if k == TagKind::Del {
            self.start_del(&t.attrs);
        } else if k == TagKind::TxbxContent && body {
            self.start_txbx();
        } else if k == TagKind::Hyperlink && body {
            self.start_hyperlink(&t.attrs, rels);
        }
    }

    fn run_allowed(&self) -> (r: bool)
        ensures
            r == run_allowed(self.ctx@),
    {
        let d = table_depth(&self.ctx);
        (d == 0 && has(&self.ctx, Ctx::Para)) || (d == 1 && has(&self.ctx, Ctx::Cell)) || (d >= 2
            && has(&self.ctx, Ctx::Body)) || has(&self.ctx, Ctx::Del)
    }
}

fn ends_with_newline(s: &String) -> (r: bool)
    ensures
        r == (s@.len() > 0 && s@.last() == '\n'),
{
    let cs = chars_of(s.as_str());
    cs.len() > 0 && cs[cs.len() - 1] == '\n'
}


proof fn lemma_starts_view(v: Vec<(u32, CommentStart)>)
    ensures
        v.deep_view() == v@,
{
    assert(v.deep_view() =~= v@);
}

proof fn lemma_anchors_view(v: Vec<(u32, Anchor)>)
    ensures
        v.deep_view() == v@,
{
    assert(v.deep_view() =~= v@);
}

fn outline_of(v: &String) -> (r: Option<u8>)
    ensures
        r == outline_value(v@),
{
    match parse_u8(v.as_str()) {
        Some(l) => if l <= 8 {
            Some(l)
        } else {
            None
        },
        None => None,
    }
}

fn id_of(attrs: &Vec<XmlAttr>) -> (r: Option<u32>)
    ensures
        r == id_attr(attrs.deep_view()),
{
    match get_attr(attrs, "id") {
        Some(v) => parse_u32(v.as_str()),
        None => None,
    }
}

fn part_ref_of(attrs: &Vec<XmlAttr>) -> (r: Option<(String, String)>)
    ensures
        r.deep_view() == part_ref(attrs.deep_view()),
{
    let kind = match get_attr(attrs, "type") {
        Some(k) => k,
        None => "default".to_owned(),
    };
    match get_attr_exact(attrs, "r:id") {
        Some(id) => Some((kind, id)),
        None => None,
    }
}

impl BodyState {
    fn push_text_here(&mut self, s: &str)
        ensures
            final(self).deep_view() == push_text_m(old(self).deep_view(), s@),
    {
        push_text(
            s,
            &self.ctx,
            &mut self.para.text,
            &mut self.cell_text,
            &mut self.nested_cell,
            &mut self.del_stack,
        );
    }

    fn add_image_here(&mut self, name: String)
        ensures
            final(self).deep_view() == add_image_m(old(self).deep_view(), name@),
    {
        add_image_ref(&self.ctx, &mut self.para.images, &mut self.cell_images, name);
    }

    fn comment_start(&mut self, attrs: &Vec<XmlAttr>)
        ensures
            final(self).deep_view() == comment_start_m(old(self).deep_view(), attrs.deep_view()),
    {
        if let Some(id) = id_of(attrs) {
            let in_table = table_depth(&self.ctx) >= 1;
            let cs = CommentStart {
                section_index: self.out.sections.len(),
                char_start: self.text_pos(in_table),
                in_table,
                finalized_end: None,
            };
            proof {
                lemma_starts_view(self.open_comment_starts);
            }
            insert_u32_key(&mut self.open_comment_starts, id, cs);
            proof {
                lemma_starts_view(self.open_comment_starts);
            }
        }
    }

    fn comment_end(&mut self, attrs: &Vec<XmlAttr>)
        ensures
            final(self).deep_view() == comment_end_m(old(self).deep_view(), attrs.deep_view()),
    {
        if let Some(id) = id_of(attrs) {
            proof {
                lemma_starts_view(self.open_comment_starts);
                lemma_anchors_view(self.out.comment_anchors);
            }
            let i = key_position(&self.open_comment_starts, id);
            if i < self.open_comment_starts.len() {
                let (_, st) = self.open_comment_starts.remove(i);
                let char_end = match st.finalized_end {
                    Some(e) => e,
                    None => self.text_pos(st.in_table),
                };
                let a = Anchor {
                    section_index: st.section_index,
                    char_start: st.char_start,
                    char_end,
                };
                insert_u32_key(&mut self.out.comment_anchors, id, a);
                proof {
                    lemma_starts_view(self.open_comment_starts);
                    lemma_anchors_view(self.out.comment_anchors);
                }
            }
        }
    }

    /// An empty-element tag.
    fn on_empty(&mut self, t: &XmlTag, rels: &Rels)
        ensures
            final(self).deep_view() == empty_m(old(self).deep_view(), t.deep_view(), rels.deep_view()),
    {
        let k = classify(t.name.as_slice());
        let a = &t.attrs;
        let body = has(&self.ctx, Ctx::Body);
        let run = has(&self.ctx, Ctx::Run);
        if k == TagKind::PStyle && has(&self.ctx, Ctx::ParaProps) {
            self.para.style = get_attr(a, "val");
        } else if k == TagKind::OutlineLvl && has(&self.ctx, Ctx::ParaProps) {
            if let Some(v) = get_attr(a, "val") {
                self.para.outline_level = outline_of(&v);
            }
        } else if k == TagKind::Ilvl && has(&self.ctx, Ctx::NumPr) {
            if let Some(v) = get_attr(a, "val") {
                self.para.list_level = match parse_u8(v.as_str()) {
                    Some(l) => l,
                    None => 0,
                };
            }
        } else if k == TagKind::NumId && has(&self.ctx, Ctx::NumPr) && match get_attr(a, "val") {
            Some(v) => !str_eq(v.as_str(), "0"),
            None => true,
        } {
            self.para.is_list = true;
        } else if k == TagKind::Tab && run {
            self.push_text_here("\t");
        } else if k == TagKind::Br && run {
            if table_depth(&self.ctx) == 0 {
                self.push_text_here("\n");
            } else {
                self.push_text_here(" ");
            }
        } else if (k == TagKind::Blip || k == TagKind::Imagedata) && run {
            if let Some(name) = image_filename_for(a, rels) {
                self.add_image_here(name);
            }
        } else if k == TagKind::FootnoteReference && run && table_depth(&self.ctx) == 0 {
            if let Some(id) = id_of(a) {
                self.para.footnote_refs.push(id);
            }
        } else if k == TagKind::EndnoteReference && run && table_depth(&self.ctx) == 0 {
            if let Some(id) = id_of(a) {
                self.para.endnote_refs.push(id);
            }
        } else if k == TagKind::CommentRangeStart && body {
            self.comment_start(a);
        } else if k == TagKind::CommentRangeEnd && body {
            self.comment_end(a);
        } else if k == TagKind::HeaderReference && body {
            if let Some(r) = part_ref_of(a) {
                let ghost before = self.out.header_refs.deep_view();
                let ghost rm = r.deep_view();
                self.out.header_refs.push(r);
                assert(self.out.header_refs.deep_view() =~= before.push(rm));
            }
        } else if k == TagKind::FooterReference && body {
            if let Some(r) = part_ref_of(a) {
                let ghost before = self.out.footer_refs.deep_view();
                let ghost rm = r.deep_view();
                self.out.footer_refs.push(r);
                assert(self.out.footer_refs.deep_view() =~= before.push(rm));
            }
        }
    }
}


fn sat(a: usize, b: usize) -> (r: usize)
    ensures
        r == sat_sub(a, b),
{
    if a >= b {
        a - b
    } else {
        0
    }
}

/// `items.join(sep)`.
pub fn join_strings(items: &Vec<String>, sep: &str) -> (r: String)
    ensures
        r@ == join(items.deep_view(), sep@),
{
    if items.len() == 0 {
        return String::new();
    }
    let mut r = items[0].clone();
    let mut i: usize = 1;
    assert(items.deep_view().take(1) =~= seq![items.deep_view()[0]]);
    while i < items.len()
        invariant
            1 <= i <= items.len(),
            r@ == join(items.deep_view().take(i as int), sep@),
        decreases items.len() - i,
    {
        let ghost t = items.deep_view().take(i + 1);
        assert(t.drop_last() =~= items.deep_view().take(i as int));
        assert(t.last() == items[i as int]@);
        r.append(sep);
        r.append(items[i].as_str());
        i = i + 1;
    }
    assert(items.deep_view().take(i as int) =~= items.deep_view());
    r
}

/// A nested table as text.
pub fn render_nested_rows(rows: &Vec<Vec<String>>) -> (r: String)
    ensures
        r@ == render_nested(rows.deep_view()),
{
    let mut lines: Vec<String> = Vec::new();
    let mut i: usize = 0;
    while i < rows.len()
        invariant
            i <= rows.len(),
            lines.deep_view() == rows.deep_view().take(i as int).map_values(
                |r: Seq<Seq<char>>| join(r, " | "@),
            ),
        decreases rows.len() - i,
    {
        let line = join_strings(&rows[i], " | ");
        let ghost before = lines.deep_view();
        lines.push(line);
        i = i + 1;
        assert(lines.deep_view() =~= rows.deep_view().take(i as int).map_values(
            |r: Seq<Seq<char>>| join(r, " | "@),
        )) by {
            assert(lines.deep_view() =~= before.push(line@));
        }
    }
    assert(rows.deep_view().take(i as int) =~= rows.deep_view());
    join_strings(&lines, "\n")
}

pub open spec fn starts_adjusted(m: BodyModel, n: usize, tlen: usize, leading: usize) -> BodyModel {
    BodyModel {
        open_comment_starts: m.open_comment_starts.map_values(
            |e: (u32, CommentStart)| (e.0, adjust_start(e.1, n, tlen, leading)),
        ),
        ..m
    }
}

pub open spec fn revisions_adjusted(m: BodyModel, n: usize, leading: usize, tlen: usize) -> BodyModel {
    BodyModel {
        out: ParsedBodyModel {
            revisions: m.out.revisions.map_values(
                |r: RevisionModel| adjust_revision(r, n, leading, tlen),
            ),
            ..m.out
        },
        ..m
    }
}

pub open spec fn anchors_adjusted(m: BodyModel, n: usize, leading: usize, tlen: usize) -> BodyModel {
    BodyModel {
        out: ParsedBodyModel {
            comment_anchors: m.out.comment_anchors.map_values(
                |e: (u32, Anchor)| (e.0, adjust_anchor(e.1, n, leading, tlen)),
            ),
            ..m.out
        },
        ..m
    }
}

pub open spec fn with_anchors(m: BodyModel, v: Seq<(u32, Anchor)>) -> BodyModel {
    BodyModel { out: ParsedBodyModel { comment_anchors: v, ..m.out }, ..m }
}

pub open spec fn with_starts(m: BodyModel, v: Seq<(u32, CommentStart)>) -> BodyModel {
    BodyModel { open_comment_starts: v, ..m }
}

pub open spec fn with_revisions(m: BodyModel, v: Seq<RevisionModel>) -> BodyModel {
    BodyModel { out: ParsedBodyModel { revisions: v, ..m.out }, ..m }
}

fn set_anchor(revs: &mut Vec<Revision>, i: usize, a: Anchor)
    requires
        i < old(revs).len(),
    ensures
        final(revs).len() == old(revs).len(),
        final(revs).deep_view() == old(revs).deep_view().update(
            i as int,
            RevisionModel { anchor: Some(a), ..old(revs).deep_view()[i as int] },
        ),
{
    let ghost before = revs.deep_view();
    revs[i].anchor = Some(a);
    assert(revs.deep_view() =~= before.update(
        i as int,
        RevisionModel { anchor: Some(a), ..before[i as int] },
    ));
}

pub open spec fn start_entry(e: (u32, CommentStart), n: usize, tlen: usize, leading: usize) -> (u32, CommentStart) {
    (e.0, adjust_start(e.1, n, tlen, leading))
}

fn clamp_pos(x: usize, leading: usize, tlen: usize) -> (r: usize)
    ensures
        r == clamp(x, leading, tlen),
{
    let y = sat(x, leading);
    if y > tlen {
        tlen
    } else {
        y
    }
}

pub open spec fn outline_wf(m: BodyModel) -> bool {
    m.para.outline_level matches Some(l) ==> l <= 8
}

fn para_level_of(p: &ParaState) -> (r: Option<u8>)
    requires
        p.outline_level matches Some(l) ==> l <= 8,
    ensures
        r == para_level(p.deep_view()),
{
    let from_style = match &p.style {
        Some(s) => heading_level(s.as_str()),
        None => None,
    };
    if from_style.is_some() {
        from_style
    } else {
        match p.outline_level {
            Some(l) => Some(l + 1),
            None => None,
        }
    }
}

impl BodyState {
    fn end_ins(&mut self) -> (ok: bool)
        ensures
            ok == end_ins_ok(old(self).deep_view()),
            ok ==> final(self).deep_view() == end_ins_m(old(self).deep_view()),
    {
        let n = self.ins_stack.len();
        if n > 0 {
            let in_table = self.ins_stack[n - 1].in_table;
            let start = self.ins_stack[n - 1].start_pos;
            let buf_len = if in_table {
                byte_len(&self.cell_text)
            } else {
                byte_len(&self.para.text)
            };
            let ok = start <= buf_len && if in_table {
                is_boundary(&self.cell_text, start)
            } else {
                is_boundary(&self.para.text, start)
            };
            if !ok {
                return false;
            }
            let ghost before = self.out.revisions.deep_view();
            let ghost ins_before = self.ins_stack.deep_view();
            let st = self.ins_stack.pop().unwrap();
            assert(self.ins_stack.deep_view() =~= ins_before.drop_last());
            let (_, text) = if in_table {
                split_at_byte(&self.cell_text, start)
            } else {
                split_at_byte(&self.para.text, start)
            };
            if !text.as_str().is_empty() {
                let rev = Revision {
                    kind: RevisionKind::Insert,
                    author: st.author,
                    date: st.date,
                    anchor: Some(
                        Anchor {
                            section_index: self.out.sections.len(),
                            char_start: start,
                            char_end: buf_len,
                        },
                    ),
                    text,
                };
                let ghost rm = rev.deep_view();
                self.out.revisions.push(rev);
                assert(self.out.revisions.deep_view() =~= before.push(rm));
            }
        }
        pop_tag(&mut self.ctx, Ctx::Ins);
        true
    }

    fn end_del(&mut self)
        ensures
            final(self).deep_view() == end_del_m(old(self).deep_view()),
    {
        let n = self.del_stack.len();
        if n > 0 {
            let ghost before = self.out.revisions.deep_view();
            let ghost del_before = self.del_stack.deep_view();
            let st = self.del_stack.pop().unwrap();
            assert(self.del_stack.deep_view() =~= del_before.drop_last());
            if !st.buf.as_str().is_empty() {
                let pos = self.text_pos(st.in_table);
                let rev = Revision {
                    kind: RevisionKind::Delete,
                    author: st.author,
                    date: st.date,
                    anchor: Some(
                        Anchor { section_index: self.out.sections.len(), char_start: pos, char_end: pos },
                    ),
                    text: st.buf,
                };
                let ghost rm = rev.deep_view();
                self.out.revisions.push(rev);
                assert(self.out.revisions.deep_view() =~= before.push(rm));
            }
        }
        pop_tag(&mut self.ctx, Ctx::Del);
    }

    fn adjust_comment_starts(&mut self, n: usize, tlen: usize, leading: usize)
        ensures
            final(self).deep_view() == starts_adjusted(old(self).deep_view(), n, tlen, leading),
    {
        let ghost orig = self.open_comment_starts@;
        let ghost m0 = self.deep_view();
        proof {
            lemma_starts_view(self.open_comment_starts);
        }
        let mut i: usize = 0;
        while i < self.open_comment_starts.len()
            invariant
                self.deep_view() == with_starts(m0, self.open_comment_starts.deep_view()),
                m0.open_comment_starts == orig,
                i <= self.open_comment_starts.len(),
                self.open_comment_starts.len() == orig.len(),
                forall|j: int|
                    0 <= j < i ==> #[trigger] self.open_comment_starts@[j] == start_entry(
                        orig[j],
                        n,
                        tlen,
                        leading,
                    ),
                forall|j: int| i <= j < orig.len() ==> #[trigger] self.open_comment_starts@[j] == orig[j],
            decreases orig.len() - i,
        {
            proof {
                lemma_starts_view(self.open_comment_starts);
            }
            let (id, cs) = self.open_comment_starts[i];
            if cs.section_index == n && cs.finalized_end.is_none() {
                let ncs = CommentStart {
                    section_index: cs.section_index,
                    char_start: clamp_pos(cs.char_start, leading, tlen),
                    in_table: cs.in_table,
                    finalized_end: Some(tlen),
                };
                self.open_comment_starts.set(i, (id, ncs));
            }
            proof {
                lemma_starts_view(self.open_comment_starts);
            }
            i = i + 1;
        }
        proof {
            lemma_starts_view(self.open_comment_starts);
            assert(self.open_comment_starts@ =~= orig.map_values(
                |e: (u32, CommentStart)| (e.0, adjust_start(e.1, n, tlen, leading)),
            ));
        }
    }

    fn adjust_revisions(&mut self, n: usize, leading: usize, tlen: usize)
        ensures
            final(self).deep_view() == revisions_adjusted(old(self).deep_view(), n, leading, tlen),
    {
        let ghost orig = self.out.revisions.deep_view();
        let ghost m0 = self.deep_view();
        let mut i: usize = 0;
        while i < self.out.revisions.len()
            invariant
                self.deep_view() == with_revisions(m0, self.out.revisions.deep_view()),
                m0.out.revisions == orig,
                i <= self.out.revisions.len(),
                self.out.revisions.len() == orig.len(),
                forall|j: int|
                    0 <= j < i ==> #[trigger] self.out.revisions.deep_view()[j] == adjust_revision(
                        orig[j],
                        n,
                        leading,
                        tlen,
                    ),
                forall|j: int|
                    i <= j < orig.len() ==> #[trigger] self.out.revisions.deep_view()[j] == orig[j],
            decreases orig.len() - i,
        {
            if let Some(a) = self.out.revisions[i].anchor {
                if a.section_index == n {
                    let na = Anchor {
                        section_index: a.section_index,
                        char_start: clamp_pos(a.char_start, leading, tlen),
                        char_end: clamp_pos(a.char_end, leading, tlen),
                    };
                    set_anchor(&mut self.out.revisions, i, na);
                }
            }
            i = i + 1;
        }
        assert(self.out.revisions.deep_view() =~= orig.map_values(
            |r: RevisionModel| adjust_revision(r, n, leading, tlen),
        ));
    }

    fn adjust_comment_anchors(&mut self, n: usize, leading: usize, tlen: usize)
        ensures
            final(self).deep_view() == anchors_adjusted(old(self).deep_view(), n, leading, tlen),
    {
        let ghost orig = self.out.comment_anchors@;
        let ghost m0 = self.deep_view();
        proof {
            lemma_anchors_view(self.out.comment_anchors);
        }
        let mut i: usize = 0;
        while i < self.out.comment_anchors.len()
            invariant
                self.deep_view() == with_anchors(m0, self.out.comment_anchors.deep_view()),
                m0.out.comment_anchors == orig,
                i <= self.out.comment_anchors.len(),
                self.out.comment_anchors.len() == orig.len(),
                forall|j: int|
                    0 <= j < i ==> #[trigger] self.out.comment_anchors@[j] == (
                        orig[j].0,
                        adjust_anchor(orig[j].1, n, leading, tlen),
                    ),
                forall|j: int| i <= j < orig.len() ==> #[trigger] self.out.comment_anchors@[j] == orig[j],
            decreases orig.len() - i,
        {
            proof {
                lemma_anchors_view(self.out.comment_anchors);
            }
            let (id, a) = self.out.comment_anchors[i];
            if a.section_index == n {
                let na = Anchor {
                    section_index: a.section_index,
                    char_start: clamp_pos(a.char_start, leading, tlen),
                    char_end: clamp_pos(a.char_end, leading, tlen),
                };
                self.out.comment_anchors.set(i, (id, na));
            }
            proof {
                lemma_anchors_view(self.out.comment_anchors);
            }
            i = i + 1;
        }
        proof {
            lemma_anchors_view(self.out.comment_anchors);
            assert(self.out.comment_anchors@ =~= orig.map_values(
                |e: (u32, Anchor)| (e.0, adjust_anchor(e.1, n, leading, tlen)),
            ));
        }
    }

    /// Emits the finished paragraph (when not blank) and resets it.
    fn emit_para(&mut self)
        requires
            outline_wf(old(self).deep_view()),
        ensures
            final(self).deep_view() == emit_para_m(old(self).deep_view()),
    {
        let trimmed = trim_str(self.para.text.as_str());
        if !trimmed.as_str().is_empty() || self.para.images.len() != 0 {
            let tlen = byte_len(&trimmed);
            let leading = leading_ws_bytes(&self.para.text);
            let n = self.out.sections.len();
            self.adjust_comment_starts(n, tlen, leading);
            self.adjust_revisions(n, leading, tlen);
            self.adjust_comment_anchors(n, leading, tlen);
            let level = para_level_of(&self.para);
            let mut images = empty_strings();
            std::mem::swap(&mut images, &mut self.para.images);
            let mut footnote_refs: Vec<u32> = Vec::new();
            std::mem::swap(&mut footnote_refs, &mut self.para.footnote_refs);
            let mut endnote_refs: Vec<u32> = Vec::new();
            std::mem::swap(&mut endnote_refs, &mut self.para.endnote_refs);
            let section = if self.para.is_list {
                Section::ListItem {
                    level: self.para.list_level,
                    text: trimmed,
                    images,
                    footnote_refs,
                    endnote_refs,
                }
            } else {
                match level {
                    Some(level) => Section::Heading {
                        level,
                        text: trimmed,
                        images,
                        footnote_refs,
                        endnote_refs,
                    },
                    None => Section::Paragraph { text: trimmed, images, footnote_refs, endnote_refs },
                }
            };
            let ghost before = self.out.sections.deep_view();
            let ghost sm = section.deep_view();
            self.out.sections.push(section);
            assert(self.out.sections.deep_view() =~= before.push(sm));
        }
        self.para = new_para();
    }

    fn end_p(&mut self)
        requires
            outline_wf(old(self).deep_view()),
        ensures
            final(self).deep_view() == end_p_m(old(self).deep_view()),
    {
        let d = table_depth(&self.ctx);
        pop_tag(&mut self.ctx, Ctx::Para);
        if d == 0 {
            self.emit_para();
        }
    }

    fn end_tc(&mut self)
        ensures
            final(self).deep_view() == end_tc_m(old(self).deep_view()),
    {
        let d = table_depth(&self.ctx);
        let row = has(&self.ctx, Ctx::Row);
        if d == 1 && row {
            pop_tag(&mut self.ctx, Ctx::Cell);
            let text = trim_str(self.cell_text.as_str());
            let mut images = empty_strings();
            std::mem::swap(&mut images, &mut self.cell_images);
            let cell = TableCell { text, images };
            let ghost before = self.current_row.deep_view();
            let ghost cm = cell.deep_view();
            self.current_row.push(cell);
            assert(self.current_row.deep_view() =~= before.push(cm));
            self.cell_text = String::new();
        } else if d >= 2 && row {
            pop_tag(&mut self.ctx, Ctx::Cell);
            let text = trim_str(self.nested_cell.as_str());
            let ghost before = self.nested_row.deep_view();
            let ghost tm = text@;
            self.nested_row.push(text);
            assert(self.nested_row.deep_view() =~= before.push(tm));
            self.nested_cell = String::new();
        }
    }

    fn end_tr(&mut self)
        ensures
            final(self).deep_view() == end_tr_m(old(self).deep_view()),
    {
        let d = table_depth(&self.ctx);
        if d == 1 {
            pop_tag(&mut self.ctx, Ctx::Row);
            if self.current_row.len() != 0 {
                let mut row: Vec<TableCell> = Vec::new();
                std::mem::swap(&mut row, &mut self.current_row);
                let ghost before = self.current_table.deep_view();
                let ghost rm = row.deep_view();
                self.current_table.push(row);
                assert(self.current_table.deep_view() =~= before.push(rm));
                assert(self.current_row.deep_view() =~= Seq::<TableCellModel>::empty());
            }
        } else if d >= 2 {
            pop_tag(&mut self.ctx, Ctx::Row);
            if self.nested_row.len() != 0 {
                let mut row = empty_strings();
                std::mem::swap(&mut row, &mut self.nested_row);
                let ghost before = self.nested_rows.deep_view();
                let ghost rm = row.deep_view();
                self.nested_rows.push(row);
                assert(self.nested_rows.deep_view() =~= before.push(rm));
            }
        }
    }

    fn end_tbl(&mut self)
        ensures
            final(self).deep_view() == end_tbl_m(old(self).deep_view()),
    {
        let d = table_depth(&self.ctx);
        pop_tag(&mut self.ctx, Ctx::Tbl);
        if d == 1 && self.current_table.len() != 0 {
            let mut rows: Vec<Vec<TableCell>> = Vec::new();
            std::mem::swap(&mut rows, &mut self.current_table);
            let section = Section::Table { rows };
            let ghost before = self.out.sections.deep_view();
            let ghost sm = section.deep_view();
            self.out.sections.push(section);
            assert(self.out.sections.deep_view() =~= before.push(sm));
            assert(self.current_table.deep_view() =~= Seq::<Seq<TableCellModel>>::empty());
        } else if d == 2 {
            let rendered = render_nested_rows(&self.nested_rows);
            self.nested_rows = Vec::new();
            assert(self.nested_rows.deep_view() =~= Seq::<Seq<Seq<char>>>::empty());
            if !rendered.as_str().is_empty() {
                if !self.cell_text.as_str().is_empty() && !ends_with_newline(&self.cell_text) {
                    push_char(&mut self.cell_text, '\n');
                }
                self.cell_text.append(rendered.as_str());
            }
        }
    }

    fn end_txbx(&mut self)
        ensures
            final(self).deep_view() == end_txbx_m(old(self).deep_view()),
    {
        if self.txbx_depth == 1 {
            if let Some(saved) = self.saved_outer_para.take() {
                self.para.text = saved.text;
                self.para.style = saved.style;
                self.para.is_list = saved.is_list;
                self.para.list_level = saved.list_level;
                self.para.images = saved.images;
                self.para.footnote_refs = saved.footnote_refs;
                self.para.endnote_refs = saved.endnote_refs;
            }
        }
        self.txbx_depth = sat(self.txbx_depth, 1);
    }

    fn end_hyperlink(&mut self) -> (ok: bool)
        ensures
            ok == end_hyperlink_ok(old(self).deep_view()),
            ok ==> final(self).deep_view() == end_hyperlink_m(old(self).deep_view()),
    {
        if self.hyperlink_url.is_none() {
            return true;
        }
        let in_table = table_depth(&self.ctx) != 0;
        let start = self.hyperlink_text_start;
        let (len, bound) = if in_table {
            (byte_len(&self.cell_text), is_boundary(&self.cell_text, start))
        } else {
            (byte_len(&self.para.text), is_boundary(&self.para.text, start))
        };
        if !(start <= len && bound) {
            return false;
        }
        let url = self.hyperlink_url.take().unwrap();
        let (head, link) = if in_table {
            split_at_byte(&self.cell_text, start)
        } else {
            split_at_byte(&self.para.text, start)
        };
        if !link.as_str().is_empty() {
            let mut nb = head;
            nb.append("[");
            nb.append(link.as_str());
            nb.append("](");
            nb.append(url.as_str());
            nb.append(")");
            if in_table {
                self.cell_text = nb;
            } else {
                self.para.text = nb;
            }
        }
        true
    }

    /// A closing tag; `false` where it would take text from a start that is
    /// out of range or not a character boundary (nothing is changed then).
    fn on_end(&mut self, name: &Vec<u8>) -> (ok: bool)
        requires
            outline_wf(old(self).deep_view()),
        ensures
            ok == end_ok(old(self).deep_view(), name@),
            ok ==> final(self).deep_view() == end_m(old(self).deep_view(), name@),
    {
        let k = classify(name.as_slice());
        let body = has(&self.ctx, Ctx::Body);
        if k == TagKind::Body || k == TagKind::Hdr || k == TagKind::Ftr || k == TagKind::Footnote
            || k == TagKind::Endnote || k == TagKind::Comment {
            pop_tag(&mut self.ctx, Ctx::Body);
        } else if k == TagKind::PPr {
            pop_tag(&mut self.ctx, Ctx::ParaProps);
        } else if k == TagKind::NumPr {
            pop_tag(&mut self.ctx, Ctx::NumPr);
        } else if k == TagKind::T || k == TagKind::DelText {
            pop_tag(&mut self.ctx, Ctx::Text);
        } else if k == TagKind::R {
            pop_tag(&mut self.ctx, Ctx::Run);
        } else if k == TagKind::Ins {
            return self.end_ins();
        } else if k == TagKind::Del {
            self.end_del();
        } else if k == TagKind::P && body && has(&self.ctx, Ctx::Para) {
            self.end_p();
        } else if k == TagKind::Tc {
            self.end_tc();
        } else if k == TagKind::Tr {
            self.end_tr();
        } else if k == TagKind::Tbl {
            self.end_tbl();
        } else if k == TagKind::TxbxContent && body {
            self.end_txbx();
        } else if k == TagKind::Hyperlink && body {
            return self.end_hyperlink();
        }
        true
    }

    /// Character data.
    fn on_text(&mut self, t: &Option<String>)
        ensures
            final(self).deep_view() == text_m(old(self).deep_view(), t.deep_view()),
    {
        if has(&self.ctx, Ctx::Text) {
            match t {
                Some(s) => self.push_text_here(s.as_str()),
                None => {
                    proof {
                        reveal_strlit("");
                    }
                    self.push_text_here("");
                    assert(""@ =~= Seq::<char>::empty());
                },
            }
        }
    }
}


// ── Running the parser ────────────────────────────────────────────────────────

proof fn lemma_start_bounds(m: BodyModel, t: XmlTagModel, rels: RelsModel)
    requires
        outline_wf(m),
    ensures
        outline_wf(start_m(m, t, rels)),
        start_m(m, t, rels).txbx_depth <= m.txbx_depth + 1,
{
}

proof fn lemma_empty_bounds(m: BodyModel, t: XmlTagModel, rels: RelsModel)
    requires
        outline_wf(m),
    ensures
        outline_wf(empty_m(m, t, rels)),
        empty_m(m, t, rels).txbx_depth == m.txbx_depth,
{
    let k = tag_kind(t.name);
    let r = empty_m(m, t, rels);
    if k == TagKind::OutlineLvl && m.ctx.contains(Ctx::ParaProps) {
        match attr_value(t.attrs, "val".spec_bytes()) {
            Some(v) => {
                assert(r.para.outline_level == outline_value(v));
            },
            None => {},
        }
    } else if k == TagKind::Tab || k == TagKind::Br {
        let s1 = push_text_m(m, "\t"@);
        let s2 = push_text_m(m, "\n"@);
        let s3 = push_text_m(m, " "@);
        assert(s1.para.outline_level == m.para.outline_level && s1.txbx_depth == m.txbx_depth);
        assert(s2.para.outline_level == m.para.outline_level && s2.txbx_depth == m.txbx_depth);
        assert(s3.para.outline_level == m.para.outline_level && s3.txbx_depth == m.txbx_depth);
    } else if k == TagKind::CommentRangeStart || k == TagKind::CommentRangeEnd {
        let c1 = comment_start_m(m, t.attrs);
        let c2 = comment_end_m(m, t.attrs);
        assert(c1.para == m.para && c1.txbx_depth == m.txbx_depth);
        assert(c2.para == m.para && c2.txbx_depth == m.txbx_depth);
    } else {
        assert(r.para.outline_level == m.para.outline_level);
    }
}

proof fn lemma_end_bounds(m: BodyModel, n: Seq<u8>)
    requires
        outline_wf(m),
    ensures
        outline_wf(end_m(m, n)),
        end_m(m, n).txbx_depth <= m.txbx_depth,
{
    let k = tag_kind(n);
    if k == TagKind::P {
        assert(outline_wf(end_p_m(m)));
    } else if k == TagKind::Hyperlink {
        assert(outline_wf(end_hyperlink_m(m)));
    } else if k == TagKind::TxbxContent {
        assert(outline_wf(end_txbx_m(m)));
    } else if k == TagKind::Ins {
        assert(outline_wf(end_ins_m(m)));
    } else if k == TagKind::Del {
        assert(outline_wf(end_del_m(m)));
    } else if k == TagKind::Tbl {
        assert(outline_wf(end_tbl_m(m)));
    }
}

proof fn lemma_step_bounds(m: BodyModel, e: XmlEventModel, rels: RelsModel)
    requires
        outline_wf(m),
    ensures
        outline_wf(step_m(m, e, rels)),
        step_m(m, e, rels).txbx_depth <= m.txbx_depth + 1,
{
    match e {
        XmlEventModel::Start(t) => lemma_start_bounds(m, t, rels),
        XmlEventModel::Empty(t) => lemma_empty_bounds(m, t, rels),
        XmlEventModel::End(n) => lemma_end_bounds(m, n),
        _ => {},
    }
}

proof fn lemma_run_ok_prefix(evs: Seq<XmlEventModel>, rels: RelsModel, k: int)
    requires
        0 <= k <= evs.len(),
        run_ok(evs, rels),
    ensures
        run_ok(evs.take(k), rels),
    decreases evs.len() - k,
{
    if k < evs.len() {
        assert(evs.drop_last().take(k) =~= evs.take(k));
        lemma_run_ok_prefix(evs.drop_last(), rels, k);
    } else {
        assert(evs.take(k) =~= evs);
    }
}

/// Runs the body parser over a sequence of events: `None` exactly where a
/// closing `</w:ins>` or `</w:hyperlink>` would slice its text buffer at a
/// position that is out of range or not a character boundary (a malformed
/// nesting of those elements); otherwise the sections, revisions, comment
/// anchors and header/footer references the events produce.
pub fn parse_body_events(events: &Vec<XmlEvent>, rels: &Rels) -> (r: Option<ParsedBody>)
    ensures
        r is Some <==> run_ok(events.deep_view(), rels.deep_view()),
        r matches Some(b) ==> b.deep_view() == body_of(events.deep_view(), rels.deep_view()),
{
    let ghost evs = events.deep_view();
    let mut st = BodyState::new();
    let mut i: usize = 0;
    assert(evs.take(0) =~= Seq::<XmlEventModel>::empty());
    while i < events.len()
        invariant
            i <= events.len(),
            evs == events.deep_view(),
            st.deep_view() == run_body(evs.take(i as int), rels.deep_view()),
            run_ok(evs.take(i as int), rels.deep_view()),
            outline_wf(st.deep_view()),
            st.txbx_depth <= i,
        decreases events.len() - i,
    {
        let ghost pre = evs.take(i + 1);
        assert(pre.drop_last() =~= evs.take(i as int));
        assert(pre.last() == events[i as int].deep_view());
        proof {
            lemma_step_bounds(st.deep_view(), events[i as int].deep_view(), rels.deep_view());
        }
        match &events[i] {
            XmlEvent::Start(t) => st.on_start(t, rels),
            XmlEvent::Empty(t) => st.on_empty(t, rels),
            XmlEvent::End(n) => {
                if !st.on_end(n) {
                    proof {
                        if run_ok(evs, rels.deep_view()) {
                            lemma_run_ok_prefix(evs, rels.deep_view(), i + 1);
                        }
                    }
                    return None;
                }
            },
            XmlEvent::Text(t) => st.on_text(t),
            _ => {},
        }
        i = i + 1;
    }
    assert(evs.take(i as int) =~= evs);
    Some(st.out)
}

/// Whether a body-like XML part can be parsed with the relationships: no
/// insertion or hyperlink in it closes where the text it covers cannot be
/// taken (see `parse_body_events`).
pub fn body_is_parsable(xml: &str, rels: &Rels) -> (b: bool)
    ensures
        b == run_ok(step_events(xml_parse(xml@)), rels.deep_view()),
{
    let stream = read_xml(xml);
    parse_body_events(&stream.events, rels).is_some()
}

/// Parses a body-like XML part (`<w:body>`, `<w:hdr>`, `<w:ftr>`,
/// `<w:footnote>`, `<w:endnote>` or `<w:comment>` as the container) with the
/// document's relationships. Reading stops at the first XML error; what was
/// read before it counts. The part must be parsable (`body_is_parsable`).
pub fn parse_body(xml: &str, rels: &Rels) -> (b: ParsedBody)
    requires
        run_ok(step_events(xml_parse(xml@)), rels.deep_view()),
    ensures
        b.deep_view() == body_of(step_events(xml_parse(xml@)), rels.deep_view()),
{
    let stream = read_xml(xml);
    match parse_body_events(&stream.events, rels) {
        Some(b) => b,
        None => {
            assert(false);
            new_output()
        },
    }
}

/// `parse_body` where the part is parsable, else `None`.
pub fn try_parse_body(xml: &str, rels: &Rels) -> (r: Option<ParsedBody>)
    ensures
        r is Some <==> run_ok(step_events(xml_parse(xml@)), rels.deep_view()),
        r matches Some(b) ==> b.deep_view() == body_of(
            step_events(xml_parse(xml@)),
            rels.deep_view(),
        ),
{
    if body_is_parsable(xml, rels) {
        Some(parse_body(xml, rels))
    } else {
        None
    }
}

} // verus!

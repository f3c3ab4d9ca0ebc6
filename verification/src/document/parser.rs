//! Turning Markdown source into a `Document`: an event-driven builder over the pulldown-cmark
//! event stream, and the source line of each top-level block.
use vstd::prelude::*;
use vstd::string::StringSliceAdditionalSpecFns;

use crate::document::cmark::{
    source_events, cmark_source_events, MdEvent, MdTag, MdTagEnd, SourceEvent, ENABLE_STRIKETHROUGH,
    ENABLE_TABLES, ENABLE_TASKLISTS,
};
use crate::document::model::{
    block_view, blocks_view, inline_view, inlines_view, cells_view, rows_view, items_view, block_lists_view,
    lemma_blocks_view, lemma_inlines_view, lemma_cells_view, lemma_rows_view, lemma_items_view,
    lemma_block_lists_view, plain_text_of, plain_text, opt_str, Block, BlockV, Document, DocumentV,
    Inline, InlineV, ListItem, ListItemV, RenderStateV, TableAlignment,
};
use crate::mermaid::renderer::MermaidRenderState;
use crate::text::{
    chars_of, eq_ignore_ascii_case, eq_ignore_ascii_case_seq, string_from_range, trim, trim_end, trim_start, trim_end_seq,
    trim_seq, trim_start_seq,
};

verus! {

// ===================== the model =====================

pub ghost enum ModeV {
    Idle,
    Paragraph,
    Heading(u8),
    Code(Option<Seq<char>>),
    HtmlBlock,
    List,
    Item,
    TableCell,
}

pub ghost enum FrameKindV {
    Emphasis,
    Strong,
    Strikethrough,
    Link { destination: Seq<char>, title: Option<Seq<char>> },
    Image { destination: Seq<char>, title: Option<Seq<char>> },
}

pub ghost struct FrameV {
    pub kind: FrameKindV,
    pub children: Seq<InlineV>,
}

/// The state of the document builder between two events.
pub ghost struct BuilderV {
    pub blocks: Seq<BlockV>,
    pub quote_stack: Seq<Seq<BlockV>>,
    pub mode: ModeV,
    pub text: Seq<char>,
    pub inlines: Seq<InlineV>,
    pub inline_stack: Seq<FrameV>,
    pub list_items: Seq<ListItemV>,
    pub list_ordered: bool,
    pub list_start: Option<u64>,
    pub current_item_checked: Option<bool>,
    pub table_alignments: Seq<TableAlignment>,
    pub table_header: Seq<Seq<InlineV>>,
    pub table_rows: Seq<Seq<Seq<InlineV>>>,
    pub table_row: Seq<Seq<InlineV>>,
    pub table_in_header: bool,
}

/// The options the document is parsed with: strikethrough, tables and task lists.
pub open spec fn parse_options() -> u32 {
    ENABLE_STRIKETHROUGH | ENABLE_TABLES | ENABLE_TASKLISTS
}

pub open spec fn initial_builder() -> BuilderV {
    BuilderV {
        blocks: seq![],
        quote_stack: seq![],
        mode: ModeV::Idle,
        text: seq![],
        inlines: seq![],
        inline_stack: seq![],
        list_items: seq![],
        list_ordered: false,
        list_start: None,
        current_item_checked: None,
        table_alignments: seq![],
        table_header: seq![],
        table_rows: seq![],
        table_row: seq![],
        table_in_header: false,
    }
}

/// A finished block goes into the innermost open block quote, or to the top level.
pub open spec fn push_block_spec(b: BuilderV, x: BlockV) -> BuilderV {
    if b.quote_stack.len() > 0 {
        BuilderV {
            quote_stack: b.quote_stack.update(
                b.quote_stack.len() - 1,
                b.quote_stack.last().push(x),
            ),
            ..b
        }
    } else {
        BuilderV { blocks: b.blocks.push(x), ..b }
    }
}

pub open spec fn clear_inline_spec(b: BuilderV) -> BuilderV {
    BuilderV { inlines: seq![], inline_stack: seq![], ..b }
}

/// An inline goes into the innermost open span, or to the current run.
pub open spec fn push_inline_spec(b: BuilderV, x: InlineV) -> BuilderV {
    if b.inline_stack.len() > 0 {
        let top = b.inline_stack.last();
        BuilderV {
            inline_stack: b.inline_stack.update(
                b.inline_stack.len() - 1,
                FrameV { kind: top.kind, children: top.children.push(x) },
            ),
            ..b
        }
    } else {
        BuilderV { inlines: b.inlines.push(x), ..b }
    }
}

/// Modes in which inline content is collected.
pub open spec fn collects_inlines(m: ModeV) -> bool {
    m is Paragraph || m is Heading || m is Item || m is TableCell
}

pub open spec fn start_inline_spec(b: BuilderV, kind: FrameKindV) -> BuilderV {
    if collects_inlines(b.mode) {
        BuilderV { inline_stack: b.inline_stack.push(FrameV { kind, children: seq![] }), ..b }
    } else {
        b
    }
}

/// The inline that a closed span becomes.
pub open spec fn frame_inline(f: FrameV) -> InlineV {
    match f.kind {
        FrameKindV::Emphasis => InlineV::Emphasis(f.children),
        FrameKindV::Strong => InlineV::Strong(f.children),
        FrameKindV::Strikethrough => InlineV::Strikethrough(f.children),
        FrameKindV::Link { destination, title } => InlineV::Link {
            destination,
            title,
            children: f.children,
        },
        FrameKindV::Image { destination, title } => InlineV::Image {
            destination,
            title,
            alt: f.children,
        },
    }
}

pub open spec fn finish_inline_spec(b: BuilderV) -> BuilderV {
    if b.inline_stack.len() == 0 {
        b
    } else {
        push_inline_spec(
            BuilderV { inline_stack: b.inline_stack.drop_last(), ..b },
            frame_inline(b.inline_stack.last()),
        )
    }
}

/// The run of inlines once every open span is closed, innermost first.
pub open spec fn close_spans(stack: Seq<FrameV>, inlines: Seq<InlineV>) -> Seq<InlineV>
    decreases stack.len(),
{
    if stack.len() == 0 {
        inlines
    } else if stack.len() == 1 {
        inlines.push(frame_inline(stack[0]))
    } else {
        let rest = stack.drop_last();
        let parent = rest.last();
        close_spans(
            rest.update(
                rest.len() - 1,
                FrameV { kind: parent.kind, children: parent.children.push(frame_inline(stack.last())) },
            ),
            inlines,
        )
    }
}

/// Drops leading white space of a leading text node, and the node if nothing is left.
pub open spec fn trim_inline_start_spec(s: Seq<InlineV>) -> Seq<InlineV> {
    if s.len() > 0 && s[0] is Text {
        let t = trim_start_seq(s[0]->Text_0);
        if t.len() == 0 {
            s.drop_first()
        } else {
            s.update(0, InlineV::Text(t))
        }
    } else {
        s
    }
}

/// Drops trailing white space of a trailing text node, and the node if nothing is left.
pub open spec fn trim_inline_end_spec(s: Seq<InlineV>) -> Seq<InlineV> {
    if s.len() > 0 && s.last() is Text {
        let t = trim_end_seq(s.last()->Text_0);
        if t.len() == 0 {
            s.drop_last()
        } else {
            s.update(s.len() - 1, InlineV::Text(t))
        }
    } else {
        s
    }
}

pub open spec fn trim_inlines_spec(s: Seq<InlineV>) -> Seq<InlineV> {
    trim_inline_end_spec(trim_inline_start_spec(s))
}

/// The content a text block or cell ends with.
pub open spec fn taken_inlines(b: BuilderV) -> Seq<InlineV> {
    trim_inlines_spec(close_spans(b.inline_stack, b.inlines))
}

pub open spec fn push_text_spec(b: BuilderV, v: Seq<char>) -> BuilderV {
    match b.mode {
        ModeV::Code(_) | ModeV::HtmlBlock => BuilderV { text: b.text + v, ..b },
        ModeV::Paragraph | ModeV::Heading(_) | ModeV::Item | ModeV::TableCell => push_inline_spec(
            b,
            InlineV::Text(v),
        ),
        ModeV::List | ModeV::Idle => b,
    }
}

pub open spec fn finish_text_block_spec(b: BuilderV, heading: bool) -> BuilderV {
    let content = taken_inlines(b);
    let b1 = clear_inline_spec(b);
    if content.len() == 0 {
        BuilderV { mode: ModeV::Idle, ..b1 }
    } else {
        let block = match b1.mode {
            ModeV::Heading(level) => if heading {
                BlockV::Heading { level, content, id: None }
            } else {
                BlockV::Paragraph { content }
            },
            _ => BlockV::Paragraph { content },
        };
        BuilderV { mode: ModeV::Idle, ..push_block_spec(b1, block) }
    }
}

pub open spec fn finish_html_block_spec(b: BuilderV) -> BuilderV {
    let html = b.text;
    let b1 = BuilderV { text: seq![], ..b };
    let b2 = if trim_seq(html).len() != 0 {
        push_block_spec(b1, BlockV::HtmlBlock { html })
    } else {
        b1
    };
    BuilderV { mode: ModeV::Idle, ..b2 }
}

/// The word that marks a fenced block as a Mermaid diagram.
pub open spec fn mermaid_word() -> Seq<char> {
    seq!['m', 'e', 'r', 'm', 'a', 'i', 'd']
}

pub open spec fn code_block_spec(language: Option<Seq<char>>, code: Seq<char>) -> BlockV {
    if language is Some && eq_ignore_ascii_case_seq(language->0, mermaid_word()) {
        BlockV::Mermaid { source: code, render_state: RenderStateV::Pending }
    } else {
        BlockV::CodeBlock { language, code }
    }
}

pub open spec fn finish_code_block_spec(b: BuilderV) -> BuilderV {
    let language = match b.mode {
        ModeV::Code(l) => l,
        _ => None,
    };
    let b1 = BuilderV { text: seq![], ..b };
    BuilderV { mode: ModeV::Idle, ..push_block_spec(b1, code_block_spec(language, b.text)) }
}

/// The language of a fenced block: its trimmed info string, if that is not empty.
pub open spec fn code_language(info: Option<String>) -> Option<Seq<char>> {
    match info {
        Some(s) => if trim_seq(s@).len() > 0 {
            Some(trim_seq(s@))
        } else {
            None
        },
        None => None,
    }
}

pub open spec fn non_empty(s: Seq<char>) -> Option<Seq<char>> {
    if s.len() > 0 {
        Some(s)
    } else {
        None
    }
}

pub open spec fn start_spec(b: BuilderV, tag: MdTag) -> BuilderV {
    match tag {
        MdTag::Paragraph => if b.mode is Item {
            b
        } else {
            clear_inline_spec(BuilderV { mode: ModeV::Paragraph, ..b })
        },
        MdTag::Heading(level) => clear_inline_spec(BuilderV { mode: ModeV::Heading(level), ..b }),
        MdTag::CodeBlock(info) => BuilderV {
            mode: ModeV::Code(code_language(info)),
            text: seq![],
            ..b
        },
        MdTag::HtmlBlock => BuilderV { mode: ModeV::HtmlBlock, text: seq![], ..b },
        MdTag::List(start) => BuilderV {
            mode: ModeV::List,
            list_items: seq![],
            list_ordered: start is Some,
            list_start: start,
            ..b
        },
        MdTag::Item => clear_inline_spec(
            BuilderV { mode: ModeV::Item, current_item_checked: None, ..b },
        ),
        MdTag::BlockQuote => BuilderV { quote_stack: b.quote_stack.push(seq![]), ..b },
        MdTag::Table(alignments) => BuilderV {
            table_alignments: alignments@,
            table_header: seq![],
            table_rows: seq![],
            table_row: seq![],
            table_in_header: false,
            ..b
        },
        MdTag::TableHead => BuilderV { table_in_header: true, table_row: seq![], ..b },
        MdTag::TableRow => BuilderV { table_row: seq![], ..b },
        MdTag::TableCell => clear_inline_spec(BuilderV { mode: ModeV::TableCell, ..b }),
        MdTag::Emphasis => start_inline_spec(b, FrameKindV::Emphasis),
        MdTag::Strong => start_inline_spec(b, FrameKindV::Strong),
        MdTag::Strikethrough => start_inline_spec(b, FrameKindV::Strikethrough),
        MdTag::Link { destination, title } => start_inline_spec(
            b,
            FrameKindV::Link { destination: destination@, title: non_empty(title@) },
        ),
        MdTag::Image { destination, title } => start_inline_spec(
            b,
            FrameKindV::Image { destination: destination@, title: non_empty(title@) },
        ),
        MdTag::Other => b,
    }
}

pub open spec fn end_item_spec(b: BuilderV) -> BuilderV {
    let content = taken_inlines(b);
    let b1 = clear_inline_spec(b);
    let b2 = if content.len() > 0 {
        BuilderV {
            list_items: b1.list_items.push(
                ListItemV {
                    checked: b1.current_item_checked,
                    blocks: seq![BlockV::Paragraph { content }],
                },
            ),
            current_item_checked: None,
            ..b1
        }
    } else {
        b1
    };
    BuilderV { mode: ModeV::List, ..b2 }
}

pub open spec fn end_spec(b: BuilderV, tag: MdTagEnd) -> BuilderV {
    match tag {
        MdTagEnd::Paragraph => if b.mode is Item {
            b
        } else {
            finish_text_block_spec(b, false)
        },
        MdTagEnd::Heading => finish_text_block_spec(b, true),
        MdTagEnd::CodeBlock => finish_code_block_spec(b),
        MdTagEnd::HtmlBlock => finish_html_block_spec(b),
        MdTagEnd::Item => end_item_spec(b),
        MdTagEnd::List => BuilderV {
            mode: ModeV::Idle,
            ..push_block_spec(
                BuilderV { list_items: seq![], list_start: None, ..b },
                BlockV::List { ordered: b.list_ordered, start: b.list_start, items: b.list_items },
            )
        },
        MdTagEnd::TableCell => {
            let cell = taken_inlines(b);
            let b1 = clear_inline_spec(b);
            BuilderV { table_row: b1.table_row.push(cell), mode: ModeV::Idle, ..b1 }
        },
        MdTagEnd::TableRow => if b.table_in_header {
            BuilderV { table_header: b.table_row, table_row: seq![], ..b }
        } else {
            BuilderV { table_rows: b.table_rows.push(b.table_row), table_row: seq![], ..b }
        },
        MdTagEnd::TableHead => if b.table_row.len() > 0 {
            BuilderV { table_header: b.table_row, table_row: seq![], table_in_header: false, ..b }
        } else {
            BuilderV { table_in_header: false, ..b }
        },
        MdTagEnd::Table => BuilderV {
            mode: ModeV::Idle,
            ..push_block_spec(
                BuilderV { table_alignments: seq![], table_header: seq![], table_rows: seq![], ..b },
                BlockV::Table {
                    alignments: b.table_alignments,
                    header: b.table_header,
                    rows: b.table_rows,
                },
            )
        },
        MdTagEnd::BlockQuote => if b.quote_stack.len() > 0 {
            push_block_spec(
                BuilderV { quote_stack: b.quote_stack.drop_last(), ..b },
                BlockV::Quote { blocks: b.quote_stack.last() },
            )
        } else {
            b
        },
        MdTagEnd::Emphasis | MdTagEnd::Strong | MdTagEnd::Strikethrough | MdTagEnd::Link
        | MdTagEnd::Image => finish_inline_spec(b),
        MdTagEnd::Other => b,
    }
}

/// What one event does to the builder.
pub open spec fn handle_spec(b: BuilderV, e: MdEvent) -> BuilderV {
    match e {
        MdEvent::Start(tag) => start_spec(b, tag),
        MdEvent::End(tag) => end_spec(b, tag),
        MdEvent::Text(t) => push_text_spec(b, t@),
        MdEvent::Code(t) => if b.mode is Code {
            push_text_spec(b, t@)
        } else {
            push_inline_spec(b, InlineV::Code(t@))
        },
        MdEvent::Html(t) => if b.mode is HtmlBlock {
            push_text_spec(b, t@)
        } else {
            push_inline_spec(b, InlineV::Html(t@))
        },
        MdEvent::InlineHtml(t) => push_inline_spec(b, InlineV::Html(t@)),
        MdEvent::SoftBreak => push_inline_spec(b, InlineV::SoftBreak),
        MdEvent::HardBreak => push_inline_spec(b, InlineV::HardBreak),
        MdEvent::Rule => push_block_spec(b, BlockV::HorizontalRule),
        MdEvent::TaskListMarker(checked) => BuilderV { current_item_checked: Some(checked), ..b },
        MdEvent::Other => b,
    }
}

/// The builder after a sequence of events, from the empty one.
pub open spec fn run_events(events: Seq<SourceEvent>) -> BuilderV
    decreases events.len(),
{
    if events.len() == 0 {
        initial_builder()
    } else {
        handle_spec(run_events(events.drop_last()), events.last().event)
    }
}

/// The plain text of the first level-one heading among `blocks`.
pub open spec fn first_title(blocks: Seq<BlockV>) -> Option<Seq<char>>
    decreases blocks.len(),
{
    if blocks.len() == 0 {
        None
    } else {
        match blocks[0] {
            BlockV::Heading { level, content, .. } => if level == 1 {
                Some(plain_text_of(content))
            } else {
                first_title(blocks.drop_first())
            },
            _ => first_title(blocks.drop_first()),
        }
    }
}

/// The number of newline bytes in `bytes`.
pub open spec fn newline_count(bytes: Seq<u8>) -> nat
    decreases bytes.len(),
{
    if bytes.len() == 0 {
        0
    } else {
        newline_count(bytes.drop_last()) + if bytes.last() == 10u8 {
            1nat
        } else {
            0nat
        }
    }
}

/// The one-based line on which a byte offset of the source falls.
pub open spec fn line_of_offset(bytes: Seq<u8>, offset: int) -> int {
    newline_count(bytes.take(offset)) + 1int
}

/// Tags that open a block the preview can scroll to.
pub open spec fn opens_top_level_block(tag: MdTag) -> bool {
    tag is Paragraph || tag is Heading || tag is CodeBlock || tag is HtmlBlock || tag is List
        || tag is BlockQuote || tag is Table
}

/// The source lines of the top-level blocks and the nesting depth, after some events.
pub open spec fn scan_lines(bytes: Seq<u8>, events: Seq<SourceEvent>) -> (Seq<usize>, nat)
    decreases events.len(),
{
    if events.len() == 0 {
        (seq![], 0)
    } else {
        let (lines, depth) = scan_lines(bytes, events.drop_last());
        let e = events.last();
        let line = line_of_offset(bytes, e.start as int) as usize;
        match e.event {
            MdEvent::Start(tag) => if depth == 0 {
                if opens_top_level_block(tag) {
                    (lines.push(line), 1)
                } else {
                    (lines, depth)
                }
            } else {
                (lines, depth + 1)
            },
            MdEvent::End(_) => if depth > 0 {
                (lines, (depth - 1) as nat)
            } else {
                (lines, depth)
            },
            MdEvent::Rule => if depth == 0 {
                (lines.push(line), depth)
            } else {
                (lines, depth)
            },
            _ => (lines, depth),
        }
    }
}

/// Whether an event opens or closes a list.
pub open spec fn list_event(e: MdEvent) -> bool {
    e matches MdEvent::Start(MdTag::List(_)) || e matches MdEvent::End(MdTagEnd::List)
}

/// The block the builder put down last: in the innermost open quote, or at the top level.
pub open spec fn last_block(b: BuilderV) -> BlockV {
    if b.quote_stack.len() > 0 {
        b.quote_stack.last().last()
    } else {
        b.blocks.last()
    }
}

proof fn lemma_other_events_keep_list_kind(b: BuilderV, e: MdEvent)
    requires
        !list_event(e),
    ensures
        handle_spec(b, e).list_ordered == b.list_ordered,
        handle_spec(b, e).list_start == b.list_start,
{
}

/// A list is numbered exactly when its opening tag gives a first number, and it keeps that
/// number: whatever the items between its start and its end, the block the end puts down is
/// a list whose `ordered` says whether the start tag had a number and whose `start` is it.
pub proof fn lemma_list_kind_follows_its_start_tag(events: Seq<SourceEvent>, i: int, j: int, first: Option<u64>)
    requires
        0 <= i < j < events.len(),
        events[i].event == MdEvent::Start(MdTag::List(first)),
        events[j].event == MdEvent::End(MdTagEnd::List),
        forall|k: int| i < k < j ==> !list_event(#[trigger] events[k].event),
    ensures
        last_block(run_events(events.take(j + 1))) is List,
        last_block(run_events(events.take(j + 1)))->List_ordered == (first is Some),
        last_block(run_events(events.take(j + 1)))->List_start == first,
    decreases j - i,
{
    lemma_list_kind_between(events, i, j, first, j);
    let b = run_events(events.take(j));
    assert(events.take(j + 1).drop_last() =~= events.take(j));
    assert(events.take(j + 1).last() == events[j]);
    let x = BlockV::List { ordered: b.list_ordered, start: b.list_start, items: b.list_items };
    let b1 = BuilderV { list_items: seq![], list_start: None, ..b };
    let pushed = push_block_spec(b1, x);
    if b1.quote_stack.len() > 0 {
        assert(pushed.quote_stack.last() == b1.quote_stack.last().push(x));
    }
}

proof fn lemma_list_kind_between(events: Seq<SourceEvent>, i: int, j: int, first: Option<u64>, k: int)
    requires
        0 <= i < k <= j < events.len(),
        events[i].event == MdEvent::Start(MdTag::List(first)),
        forall|m: int| i < m < j ==> !list_event(#[trigger] events[m].event),
    ensures
        run_events(events.take(k)).list_ordered == (first is Some),
        run_events(events.take(k)).list_start == first,
    decreases k - i,
{
    assert(events.take(k).drop_last() =~= events.take(k - 1));
    assert(events.take(k).last() == events[k - 1]);
    if k - 1 > i {
        lemma_list_kind_between(events, i, j, first, k - 1);
        lemma_other_events_keep_list_kind(run_events(events.take(k - 1)), events[k - 1].event);
    }
}

/// How far a run of events nests: each start one deeper, each end one shallower.
pub open spec fn nesting(events: Seq<SourceEvent>) -> int
    decreases events.len(),
{
    if events.len() == 0 {
        0
    } else {
        nesting(events.drop_last()) + match events.last().event {
            MdEvent::Start(_) => 1int,
            MdEvent::End(_) => -1int,
            _ => 0int,
        }
    }
}

/// The events inside one element: they close what they open, and never close more than that.
pub open spec fn balanced(events: Seq<SourceEvent>) -> bool {
    &&& nesting(events) == 0
    &&& forall|k: int| 0 <= k <= events.len() ==> nesting(#[trigger] events.take(k)) >= 0
}

proof fn lemma_scan_inside_block(bytes: Seq<u8>, before: Seq<SourceEvent>, inner: Seq<SourceEvent>, k: int)
    requires
        scan_lines(bytes, before).1 == 1,
        0 <= k <= inner.len(),
        forall|m: int| 0 <= m <= inner.len() ==> nesting(#[trigger] inner.take(m)) >= 0,
    ensures
        scan_lines(bytes, before + inner.take(k)).0 == scan_lines(bytes, before).0,
        scan_lines(bytes, before + inner.take(k)).1 == 1 + nesting(inner.take(k)),
    decreases k,
{
    if k == 0 {
        assert(before + inner.take(0) =~= before);
        assert(inner.take(0) =~= Seq::<SourceEvent>::empty());
    } else {
        lemma_scan_inside_block(bytes, before, inner, k - 1);
        assert((before + inner.take(k)).drop_last() =~= before + inner.take(k - 1));
        assert((before + inner.take(k)).last() == inner[k - 1]);
        assert(inner.take(k).drop_last() =~= inner.take(k - 1));
        assert(inner.take(k).last() == inner[k - 1]);
        assert(nesting(inner.take(k - 1)) >= 0);
        assert(nesting(inner.take(k)) >= 0);
    }
}

/// Each top-level block gives the preview exactly one source line, the line it starts on:
/// a paragraph, heading, code block, HTML block, list, quote or table that starts at the top
/// level and holds balanced events adds the line of its start tag and returns to the top
/// level when it ends.
pub proof fn lemma_top_level_block_has_one_line(
    bytes: Seq<u8>,
    before: Seq<SourceEvent>,
    open: SourceEvent,
    inner: Seq<SourceEvent>,
    close: SourceEvent,
    tag: MdTag,
)
    requires
        scan_lines(bytes, before).1 == 0,
        open.event == MdEvent::Start(tag),
        tag is Paragraph || tag is Heading || tag is CodeBlock || tag is HtmlBlock || tag is List
            || tag is BlockQuote || tag is Table,
        balanced(inner),
        close.event is End,
    ensures
        scan_lines(bytes, before + seq![open] + inner + seq![close]) == (
            scan_lines(bytes, before).0.push(line_of_offset(bytes, open.start as int) as usize),
            0nat,
        ),
{
    let opened = before + seq![open];
    assert(opened.drop_last() =~= before);
    assert(opened.last() == open);
    lemma_scan_inside_block(bytes, opened, inner, inner.len() as int);
    assert(inner.take(inner.len() as int) =~= inner);
    let all = opened + inner + seq![close];
    assert(before + seq![open] + inner + seq![close] =~= all);
    assert(all.drop_last() =~= opened + inner);
    assert(all.last() == close);
    assert(opened + inner.take(inner.len() as int) =~= opened + inner);
}

/// A rule at the top level gives the preview its line too.
pub proof fn lemma_top_level_rule_has_its_line(bytes: Seq<u8>, before: Seq<SourceEvent>, rule: SourceEvent)
    requires
        scan_lines(bytes, before).1 == 0,
        rule.event is Rule,
    ensures
        scan_lines(bytes, before.push(rule)) == (
            scan_lines(bytes, before).0.push(line_of_offset(bytes, rule.start as int) as usize),
            0nat,
        ),
{
    assert(before.push(rule).drop_last() =~= before);
}

/// The document that a source text and its event stream make.
pub open spec fn markdown_document(bytes: Seq<u8>, events: Seq<SourceEvent>) -> DocumentV {
    let b = run_events(events);
    DocumentV {
        blocks: b.blocks,
        block_source_lines: scan_lines(bytes, events).0,
        title: first_title(b.blocks),
        source_path: None,
        frontmatter: None,
    }
}


// ===================== the builder =====================

enum Mode {
    Idle,
    Paragraph,
    Heading(u8),
    Code(Option<String>),
    HtmlBlock,
    List,
    Item,
    TableCell,
}

enum InlineKind {
    Emphasis,
    Strong,
    Strikethrough,
    Link { destination: String, title: Option<String> },
    Image { destination: String, title: Option<String> },
}

struct InlineFrame {
    kind: InlineKind,
    children: Vec<Inline>,
}

struct Builder {
    blocks: Vec<Block>,
    quote_stack: Vec<Vec<Block>>,
    mode: Mode,
    text: String,
    inlines: Vec<Inline>,
    inline_stack: Vec<InlineFrame>,
    list_items: Vec<ListItem>,
    list_ordered: bool,
    list_start: Option<u64>,
    current_item_checked: Option<bool>,
    table_alignments: Vec<TableAlignment>,
    table_header: Vec<Vec<Inline>>,
    table_rows: Vec<Vec<Vec<Inline>>>,
    table_row: Vec<Vec<Inline>>,
    table_in_header: bool,
}

spec fn mode_view(m: Mode) -> ModeV {
    match m {
        Mode::Idle => ModeV::Idle,
        Mode::Paragraph => ModeV::Paragraph,
        Mode::Heading(level) => ModeV::Heading(level),
        Mode::Code(language) => ModeV::Code(opt_str(language)),
        Mode::HtmlBlock => ModeV::HtmlBlock,
        Mode::List => ModeV::List,
        Mode::Item => ModeV::Item,
        Mode::TableCell => ModeV::TableCell,
    }
}

spec fn kind_view(k: InlineKind) -> FrameKindV {
    match k {
        InlineKind::Emphasis => FrameKindV::Emphasis,
        InlineKind::Strong => FrameKindV::Strong,
        InlineKind::Strikethrough => FrameKindV::Strikethrough,
        InlineKind::Link { destination, title } => FrameKindV::Link {
            destination: destination@,
            title: opt_str(title),
        },
        InlineKind::Image { destination, title } => FrameKindV::Image {
            destination: destination@,
            title: opt_str(title),
        },
    }
}

spec fn frame_view(f: InlineFrame) -> FrameV {
    FrameV { kind: kind_view(f.kind), children: inlines_view(f.children@) }
}

spec fn frames_view(s: Seq<InlineFrame>) -> Seq<FrameV> {
    s.map_values(|f: InlineFrame| frame_view(f))
}

impl Builder {
    spec fn model(&self) -> BuilderV {
        BuilderV {
            blocks: blocks_view(self.blocks@),
            quote_stack: block_lists_view(self.quote_stack@),
            mode: mode_view(self.mode),
            text: self.text@,
            inlines: inlines_view(self.inlines@),
            inline_stack: frames_view(self.inline_stack@),
            list_items: items_view(self.list_items@),
            list_ordered: self.list_ordered,
            list_start: self.list_start,
            current_item_checked: self.current_item_checked,
            table_alignments: self.table_alignments@,
            table_header: cells_view(self.table_header@),
            table_rows: rows_view(self.table_rows@),
            table_row: cells_view(self.table_row@),
            table_in_header: self.table_in_header,
        }
    }

    fn new() -> (b: Builder)
        ensures
            b.model() == initial_builder(),
    {
        let b = Builder {
            blocks: Vec::new(),
            quote_stack: Vec::new(),
            mode: Mode::Idle,
            text: String::new(),
            inlines: Vec::new(),
            inline_stack: Vec::new(),
            list_items: Vec::new(),
            list_ordered: false,
            list_start: None,
            current_item_checked: None,
            table_alignments: Vec::new(),
            table_header: Vec::new(),
            table_rows: Vec::new(),
            table_row: Vec::new(),
            table_in_header: false,
        };
        assert(frames_view(b.inline_stack@) =~= seq![]);
        b
    }

    fn push_block(&mut self, block: Block)
        ensures
            final(self).model() == push_block_spec(old(self).model(), block_view(block)),
    {
        let ghost old_qs = self.quote_stack@;
        let ghost old_blocks = self.blocks@;
        match self.quote_stack.pop() {
            Some(mut quote) => {
                let ghost q0 = quote@;
                quote.push(block);
                self.quote_stack.push(quote);
                proof {
                    lemma_block_lists_view(old_qs);
                    lemma_block_lists_view(self.quote_stack@);
                    lemma_blocks_view(q0);
                    lemma_blocks_view(quote@);
                    assert(blocks_view(quote@) =~= blocks_view(q0).push(block_view(block)));
                    assert(block_lists_view(self.quote_stack@) =~= block_lists_view(old_qs).update(
                        old_qs.len() - 1,
                        blocks_view(q0).push(block_view(block)),
                    ));
                }
            },
            None => {
                self.blocks.push(block);
                proof {
                    lemma_blocks_view(old_blocks);
                    lemma_blocks_view(self.blocks@);
                    assert(blocks_view(self.blocks@) =~= blocks_view(old_blocks).push(block_view(block)));
                    assert(old_qs.len() == 0);
                    lemma_block_lists_view(old_qs);
                }
            },
        }
    }

    fn clear_inline_state(&mut self)
        ensures
            final(self).model() == clear_inline_spec(old(self).model()),
    {
        self.inlines.clear();
        self.inline_stack.clear();
        assert(frames_view(self.inline_stack@) =~= seq![]);
    }

    fn push_inline(&mut self, inline: Inline)
        ensures
            final(self).model() == push_inline_spec(old(self).model(), inline_view(inline)),
    {
        let ghost old_stack = self.inline_stack@;
        let ghost old_inlines = self.inlines@;
        match self.inline_stack.pop() {
            Some(mut frame) => {
                let ghost c0 = frame.children@;
                frame.children.push(inline);
                self.inline_stack.push(frame);
                proof {
                    lemma_inlines_view(c0);
                    lemma_inlines_view(frame.children@);
                    assert(inlines_view(frame.children@) =~= inlines_view(c0).push(inline_view(inline)));
                    let top = frames_view(old_stack).last();
                    assert(frames_view(self.inline_stack@) =~= frames_view(old_stack).update(
                        old_stack.len() - 1,
                        FrameV { kind: top.kind, children: top.children.push(inline_view(inline)) },
                    ));
                }
            },
            None => {
                self.inlines.push(inline);
                proof {
                    lemma_inlines_view(old_inlines);
                    lemma_inlines_view(self.inlines@);
                    assert(inlines_view(self.inlines@) =~= inlines_view(old_inlines).push(inline_view(inline)));
                }
            },
        }
    }

    fn collects_inlines(&self) -> (r: bool)
        ensures
            r == collects_inlines(self.model().mode),
    {
        match self.mode {
            Mode::Paragraph | Mode::Heading(_) | Mode::Item | Mode::TableCell => true,
            _ => false,
        }
    }

    fn start_inline(&mut self, kind: InlineKind)
        ensures
            final(self).model() == start_inline_spec(old(self).model(), kind_view(kind)),
    {
        if self.collects_inlines() {
            let ghost old_stack = self.inline_stack@;
            self.inline_stack.push(InlineFrame { kind, children: Vec::new() });
            assert(inlines_view(Seq::<Inline>::empty()) == Seq::<InlineV>::empty());
            assert(frames_view(self.inline_stack@) =~= frames_view(old_stack).push(
                FrameV { kind: kind_view(kind), children: seq![] },
            ));
        }
    }

    fn finish_inline(&mut self)
        ensures
            final(self).model() == finish_inline_spec(old(self).model()),
    {
        let ghost old_stack = self.inline_stack@;
        if let Some(frame) = self.inline_stack.pop() {
            proof {
                assert(frames_view(self.inline_stack@) =~= frames_view(old_stack).drop_last());
            }
            let inline = match frame.kind {
                InlineKind::Emphasis => Inline::Emphasis(frame.children),
                InlineKind::Strong => Inline::Strong(frame.children),
                InlineKind::Strikethrough => Inline::Strikethrough(frame.children),
                InlineKind::Link { destination, title } => Inline::Link {
                    destination,
                    title,
                    children: frame.children,
                },
                InlineKind::Image { destination, title } => Inline::Image {
                    destination,
                    title,
                    alt: frame.children,
                },
            };
            assert(inline_view(inline) == frame_inline(frame_view(frame)));
            self.push_inline(inline);
        }
    }
}


proof fn lemma_finish_inline_keeps_closing(b: BuilderV)
    requires
        b.inline_stack.len() > 0,
    ensures
        close_spans(finish_inline_spec(b).inline_stack, finish_inline_spec(b).inlines)
            == close_spans(b.inline_stack, b.inlines),
        finish_inline_spec(b).inline_stack.len() == b.inline_stack.len() - 1,
{
    let stack = b.inline_stack;
    if stack.len() == 1 {
        assert(stack.drop_last() =~= Seq::<FrameV>::empty());
        assert(stack.last() == stack[0]);
    } else {
        let rest = stack.drop_last();
        assert(rest.last() == stack[stack.len() - 2]);
    }
}

fn trim_inline_start(inlines: &mut Vec<Inline>)
    ensures
        inlines_view(final(inlines)@) == trim_inline_start_spec(inlines_view(old(inlines)@)),
{
    let ghost v0 = inlines@;
    proof {
        lemma_inlines_view(v0);
    }
    if inlines.len() > 0 {
        let is_text = match &inlines[0] {
            Inline::Text(_) => true,
            _ => false,
        };
        if is_text {
            let first = inlines.remove(0);
            if let Inline::Text(text) = first {
                let trimmed = trim_start(text.as_str());
                let empty = trimmed.as_str().is_empty();
                if !empty {
                    inlines.insert(0, Inline::Text(trimmed));
                    proof {
                        lemma_inlines_view(inlines@);
                        assert(inlines_view(inlines@) =~= inlines_view(v0).update(
                            0,
                            InlineV::Text(trim_start_seq(text@)),
                        ));
                    }
                } else {
                    proof {
                        lemma_inlines_view(inlines@);
                        assert(inlines_view(inlines@) =~= inlines_view(v0).drop_first());
                    }
                }
            }
        }
    }
}

fn trim_inline_end(inlines: &mut Vec<Inline>)
    ensures
        inlines_view(final(inlines)@) == trim_inline_end_spec(inlines_view(old(inlines)@)),
{
    let ghost v0 = inlines@;
    proof {
        lemma_inlines_view(v0);
    }
    let n = inlines.len();
    if n > 0 {
        let is_text = match &inlines[n - 1] {
            Inline::Text(_) => true,
            _ => false,
        };
        if is_text {
            let last = inlines.pop();
            if let Some(Inline::Text(text)) = last {
                let trimmed = trim_end(text.as_str());
                let empty = trimmed.as_str().is_empty();
                if !empty {
                    inlines.push(Inline::Text(trimmed));
                    proof {
                        lemma_inlines_view(inlines@);
                        assert(inlines_view(inlines@) =~= inlines_view(v0).update(
                            n - 1,
                            InlineV::Text(trim_end_seq(text@)),
                        ));
                    }
                } else {
                    proof {
                        lemma_inlines_view(inlines@);
                        assert(inlines_view(inlines@) =~= inlines_view(v0).drop_last());
                    }
                }
            }
        }
    }
}

fn trim_inlines(inlines: Vec<Inline>) -> (r: Vec<Inline>)
    ensures
        inlines_view(r@) == trim_inlines_spec(inlines_view(inlines@)),
{
    let mut inlines = inlines;
    trim_inline_start(&mut inlines);
    trim_inline_end(&mut inlines);
    inlines
}

impl Builder {
    fn take_inlines(&mut self) -> (r: Vec<Inline>)
        ensures
            inlines_view(r@) == taken_inlines(old(self).model()),
            final(self).model() == clear_inline_spec(old(self).model()),
    {
        let ghost m0 = self.model();
        while self.inline_stack.len() > 0
            invariant
                close_spans(self.model().inline_stack, self.model().inlines)
                    == close_spans(m0.inline_stack, m0.inlines),
                clear_inline_spec(self.model()) == clear_inline_spec(m0),
            decreases self.inline_stack.len(),
        {
            proof {
                lemma_finish_inline_keeps_closing(self.model());
            }
            self.finish_inline();
        }
        let mut inlines: Vec<Inline> = Vec::new();
        std::mem::swap(&mut inlines, &mut self.inlines);
        assert(frames_view(self.inline_stack@) =~= Seq::<FrameV>::empty());
        assert(close_spans(self.model().inline_stack, inlines_view(inlines@)) == inlines_view(inlines@));
        self.inline_stack = Vec::new();
        assert(frames_view(self.inline_stack@) =~= Seq::<FrameV>::empty());
        trim_inlines(inlines)
    }

    fn push_text(&mut self, value: String)
        ensures
            final(self).model() == push_text_spec(old(self).model(), value@),
    {
        match self.mode {
            Mode::Code(_) | Mode::HtmlBlock => {
                self.text.append(value.as_str());
            },
            Mode::Paragraph | Mode::Heading(_) | Mode::Item | Mode::TableCell => {
                self.push_inline(Inline::Text(value));
            },
            Mode::List | Mode::Idle => {},
        }
    }

    fn finish_text_block(&mut self, heading: bool)
        ensures
            final(self).model() == finish_text_block_spec(old(self).model(), heading),
    {
        let content = self.take_inlines();
        proof {
            lemma_inlines_view(content@);
        }
        if content.len() == 0 {
            self.mode = Mode::Idle;
            return;
        }
        let block = match self.mode {
            Mode::Heading(level) => if heading {
                Block::Heading { level, content, id: None }
            } else {
                Block::Paragraph { content }
            },
            _ => Block::Paragraph { content },
        };
        self.push_block(block);
        self.mode = Mode::Idle;
    }

    fn finish_html_block(&mut self)
        ensures
            final(self).model() == finish_html_block_spec(old(self).model()),
    {
        let mut html = String::new();
        std::mem::swap(&mut html, &mut self.text);
        let trimmed = trim(html.as_str());
        if !trimmed.as_str().is_empty() {
            self.push_block(Block::HtmlBlock { html });
        }
        self.mode = Mode::Idle;
    }

    fn finish_code_block(&mut self)
        ensures
            final(self).model() == finish_code_block_spec(old(self).model()),
    {
        let mut code = String::new();
        std::mem::swap(&mut code, &mut self.text);
        let mut mode = Mode::Idle;
        std::mem::swap(&mut mode, &mut self.mode);
        let language = match mode {
            Mode::Code(language) => language,
            _ => None,
        };
        let is_mermaid = match &language {
            Some(lang) => {
                proof {
                    reveal_strlit("mermaid");
                }
                eq_ignore_ascii_case(lang.as_str(), "mermaid")
            },
            None => false,
        };
        let block = if is_mermaid {
            Block::Mermaid { source: code, render_state: MermaidRenderState::Pending }
        } else {
            Block::CodeBlock { language, code }
        };
        self.push_block(block);
        self.mode = Mode::Idle;
    }
}


impl Builder {
    fn start(&mut self, tag: MdTag)
        ensures
            final(self).model() == start_spec(old(self).model(), tag),
    {
        let ghost t0 = tag;
        match tag {
            MdTag::Paragraph => {
                let in_item = match self.mode {
                    Mode::Item => true,
                    _ => false,
                };
                if !in_item {
                    self.mode = Mode::Paragraph;
                    self.clear_inline_state();
                }
            },
            MdTag::Heading(level) => {
                self.mode = Mode::Heading(level);
                self.clear_inline_state();
            },
            MdTag::CodeBlock(info) => {
                let language = match info {
                    Some(info) => {
                        let lang = trim(info.as_str());
                        if lang.as_str().is_empty() {
                            None
                        } else {
                            Some(lang)
                        }
                    },
                    None => None,
                };
                self.mode = Mode::Code(language);
                self.text = String::new();
            },
            MdTag::HtmlBlock => {
                self.mode = Mode::HtmlBlock;
                self.text = String::new();
            },
            MdTag::List(start) => {
                self.mode = Mode::List;
                self.list_items = Vec::new();
                self.list_ordered = start.is_some();
                self.list_start = start;
            },
            MdTag::Item => {
                self.mode = Mode::Item;
                self.current_item_checked = None;
                self.clear_inline_state();
            },
            MdTag::BlockQuote => {
                let ghost q0 = self.quote_stack@;
                self.quote_stack.push(Vec::new());
                proof {
                    lemma_block_lists_view(q0);
                    lemma_block_lists_view(self.quote_stack@);
                    assert(blocks_view(Seq::<Block>::empty()) == Seq::<BlockV>::empty());
                    assert(block_lists_view(self.quote_stack@) =~= block_lists_view(q0).push(seq![]));
                }
            },
            MdTag::Table(alignments) => {
                self.table_alignments = alignments;
                self.table_header = Vec::new();
                self.table_rows = Vec::new();
                self.table_row = Vec::new();
                self.table_in_header = false;
            },
            MdTag::TableHead => {
                self.table_in_header = true;
                self.table_row = Vec::new();
            },
            MdTag::TableRow => {
                self.table_row = Vec::new();
            },
            MdTag::TableCell => {
                self.mode = Mode::TableCell;
                self.clear_inline_state();
            },
            MdTag::Emphasis => self.start_inline(InlineKind::Emphasis),
            MdTag::Strong => self.start_inline(InlineKind::Strong),
            MdTag::Strikethrough => self.start_inline(InlineKind::Strikethrough),
            MdTag::Link { destination, title } => {
                let title = if title.as_str().is_empty() {
                    None
                } else {
                    Some(title)
                };
                self.start_inline(InlineKind::Link { destination, title });
            },
            MdTag::Image { destination, title } => {
                let title = if title.as_str().is_empty() {
                    None
                } else {
                    Some(title)
                };
                self.start_inline(InlineKind::Image { destination, title });
            },
            MdTag::Other => {},
        }
    }

    fn end_item(&mut self)
        ensures
            final(self).model() == end_item_spec(old(self).model()),
    {
        let inlines = self.take_inlines();
        proof {
            lemma_inlines_view(inlines@);
        }
        if inlines.len() > 0 {
            let checked = self.current_item_checked.take();
            let ghost items0 = self.list_items@;
            let mut blocks: Vec<Block> = Vec::new();
            blocks.push(Block::Paragraph { content: inlines });
            let ghost bl = blocks@;
            self.list_items.push(ListItem { checked, blocks });
            proof {
                lemma_blocks_view(bl);
                assert(blocks_view(bl) =~= seq![BlockV::Paragraph { content: inlines_view(inlines@) }]);
                lemma_items_view(items0);
                lemma_items_view(self.list_items@);
                assert(items_view(self.list_items@) =~= items_view(items0).push(
                    ListItemV {
                        checked,
                        blocks: seq![BlockV::Paragraph { content: inlines_view(inlines@) }],
                    },
                ));
            }
        }
        self.clear_inline_state();
        self.mode = Mode::List;
    }

    fn end(&mut self, tag: MdTagEnd)
        ensures
            final(self).model() == end_spec(old(self).model(), tag),
    {
        match tag {
            MdTagEnd::Paragraph => {
                let in_item = match self.mode {
                    Mode::Item => true,
                    _ => false,
                };
                if !in_item {
                    self.finish_text_block(false);
                }
            },
            MdTagEnd::Heading => self.finish_text_block(true),
            MdTagEnd::CodeBlock => self.finish_code_block(),
            MdTagEnd::HtmlBlock => self.finish_html_block(),
            MdTagEnd::Item => self.end_item(),
            MdTagEnd::List => {
                let mut items: Vec<ListItem> = Vec::new();
                std::mem::swap(&mut items, &mut self.list_items);
                let start = self.list_start.take();
                let ordered = self.list_ordered;
                self.push_block(Block::List { ordered, start, items });
                self.mode = Mode::Idle;
            },
            MdTagEnd::TableCell => {
                let cell = self.take_inlines();
                let ghost row0 = self.table_row@;
                self.table_row.push(cell);
                proof {
                    lemma_cells_view(row0);
                    lemma_cells_view(self.table_row@);
                    assert(cells_view(self.table_row@) =~= cells_view(row0).push(inlines_view(cell@)));
                }
                self.mode = Mode::Idle;
            },
            MdTagEnd::TableRow => {
                let mut row: Vec<Vec<Inline>> = Vec::new();
                std::mem::swap(&mut row, &mut self.table_row);
                if self.table_in_header {
                    self.table_header = row;
                } else {
                    let ghost rows0 = self.table_rows@;
                    self.table_rows.push(row);
                    proof {
                        lemma_rows_view(rows0);
                        lemma_rows_view(self.table_rows@);
                        assert(rows_view(self.table_rows@) =~= rows_view(rows0).push(cells_view(row@)));
                    }
                }
            },
            MdTagEnd::TableHead => {
                if self.table_row.len() > 0 {
                    let mut row: Vec<Vec<Inline>> = Vec::new();
                    std::mem::swap(&mut row, &mut self.table_row);
                    self.table_header = row;
                } else {
                    proof {
                        lemma_cells_view(self.table_row@);
                    }
                }
                self.table_in_header = false;
            },
            MdTagEnd::Table => {
                let mut alignments: Vec<TableAlignment> = Vec::new();
                std::mem::swap(&mut alignments, &mut self.table_alignments);
                let mut header: Vec<Vec<Inline>> = Vec::new();
                std::mem::swap(&mut header, &mut self.table_header);
                let mut rows: Vec<Vec<Vec<Inline>>> = Vec::new();
                std::mem::swap(&mut rows, &mut self.table_rows);
                self.push_block(Block::Table { alignments, header, rows });
                self.mode = Mode::Idle;
            },
            MdTagEnd::BlockQuote => {
                let ghost q0 = self.quote_stack@;
                proof {
                    lemma_block_lists_view(q0);
                }
                if let Some(blocks) = self.quote_stack.pop() {
                    proof {
                        lemma_block_lists_view(self.quote_stack@);
                        assert(block_lists_view(self.quote_stack@) =~= block_lists_view(q0).drop_last());
                    }
                    self.push_block(Block::Quote { blocks });
                }
            },
            MdTagEnd::Emphasis | MdTagEnd::Strong | MdTagEnd::Strikethrough | MdTagEnd::Link
            | MdTagEnd::Image => self.finish_inline(),
            MdTagEnd::Other => {},
        }
    }

    fn handle(&mut self, event: MdEvent)
        ensures
            final(self).model() == handle_spec(old(self).model(), event),
    {
        match event {
            MdEvent::Start(tag) => self.start(tag),
            MdEvent::End(tag) => self.end(tag),
            MdEvent::Text(text) => self.push_text(text),
            MdEvent::Code(code) => {
                let in_code = match self.mode {
                    Mode::Code(_) => true,
                    _ => false,
                };
                if in_code {
                    self.push_text(code);
                } else {
                    self.push_inline(Inline::Code(code));
                }
            },
            MdEvent::Html(html) => {
                let in_html = match self.mode {
                    Mode::HtmlBlock => true,
                    _ => false,
                };
                if in_html {
                    self.push_text(html);
                } else {
                    self.push_inline(Inline::Html(html));
                }
            },
            MdEvent::InlineHtml(html) => self.push_inline(Inline::Html(html)),
            MdEvent::SoftBreak => self.push_inline(Inline::SoftBreak),
            MdEvent::HardBreak => self.push_inline(Inline::HardBreak),
            MdEvent::Rule => self.push_block(Block::HorizontalRule),
            MdEvent::TaskListMarker(checked) => self.current_item_checked = Some(checked),
            MdEvent::Other => {},
        }
    }
}


proof fn lemma_first_title_step(blocks: Seq<BlockV>, i: int)
    requires
        0 <= i < blocks.len(),
    ensures
        first_title(blocks.subrange(i, blocks.len() as int)) == match blocks[i] {
            BlockV::Heading { level, content, .. } => if level == 1 {
                Some(plain_text_of(content))
            } else {
                first_title(blocks.subrange(i + 1, blocks.len() as int))
            },
            _ => first_title(blocks.subrange(i + 1, blocks.len() as int)),
        },
{
    let s = blocks.subrange(i, blocks.len() as int);
    assert(s[0] == blocks[i]);
    assert(s.drop_first() =~= blocks.subrange(i + 1, blocks.len() as int));
}

impl Builder {
    fn finish(self) -> (doc: Document)
        ensures
            doc@ == (DocumentV {
                blocks: self.model().blocks,
                block_source_lines: seq![],
                title: first_title(self.model().blocks),
                source_path: None,
                frontmatter: None,
            }),
    {
        let ghost bv = blocks_view(self.blocks@);
        proof {
            lemma_blocks_view(self.blocks@);
            assert(bv.subrange(0, bv.len() as int) =~= bv);
        }
        let mut title: Option<String> = None;
        let mut i: usize = 0;
        while i < self.blocks.len() && title.is_none()
            invariant
                i <= self.blocks.len(),
                bv == blocks_view(self.blocks@),
                bv.len() == self.blocks.len(),
                forall|k: int| 0 <= k < bv.len() ==> #[trigger] bv[k] == block_view(self.blocks@[k]),
                title is None ==> first_title(bv) == first_title(bv.subrange(i as int, bv.len() as int)),
                title is Some ==> opt_str(title) == first_title(bv),
            decreases (self.blocks.len() - i) * 2 + if title is None { 1int } else { 0int },
        {
            proof {
                lemma_first_title_step(bv, i as int);
            }
            let found = match &self.blocks[i] {
                Block::Heading { level, content, .. } => if *level == 1 {
                    Some(plain_text(content.as_slice()))
                } else {
                    None
                },
                _ => None,
            };
            if found.is_some() {
                title = found;
            } else {
                i += 1;
            }
        }
        if title.is_none() {
            assert(bv.subrange(i as int, bv.len() as int) =~= Seq::<BlockV>::empty());
        }
        let block_source_lines: Vec<usize> = Vec::new();
        assert(block_source_lines@ =~= Seq::<usize>::empty());
        Document { blocks: self.blocks, block_source_lines, title, source_path: None, frontmatter: None }
    }
}

/// Whether an opening tag starts a block the preview can scroll to.
fn starts_top_level_block(tag: &MdTag) -> (r: bool)
    ensures
        r == opens_top_level_block(*tag),
{
    match tag {
        MdTag::Paragraph | MdTag::Heading(_) | MdTag::CodeBlock(_) | MdTag::HtmlBlock
        | MdTag::List(_) | MdTag::BlockQuote | MdTag::Table(_) => true,
        _ => false,
    }
}

proof fn lemma_newline_count_bound(bytes: Seq<u8>)
    ensures
        newline_count(bytes) <= bytes.len(),
    decreases bytes.len(),
{
    if bytes.len() > 0 {
        lemma_newline_count_bound(bytes.drop_last());
    }
}

/// The one-based line of `source` on which the byte `offset` falls.
pub fn line_at_offset(source: &str, offset: usize) -> (line: usize)
    requires
        offset <= source.spec_bytes().len(),
        source.spec_bytes().len() < usize::MAX,
    ensures
        line == line_of_offset(source.spec_bytes(), offset as int),
{
    let bytes = source.as_bytes();
    let mut count: usize = 0;
    let mut i: usize = 0;
    while i < offset
        invariant
            i <= offset <= bytes@.len() < usize::MAX,
            bytes@ == source.spec_bytes(),
            count == newline_count(bytes@.take(i as int)),
            count <= i,
        decreases offset - i,
    {
        assert(bytes@.take(i + 1).drop_last() =~= bytes@.take(i as int));
        if bytes[i] == 10u8 {
            count += 1;
        }
        i += 1;
    }
    count + 1
}

/// The source line of every top-level block, in order.
fn top_level_block_lines(source: &str, events: &Vec<SourceEvent>) -> (lines: Vec<usize>)
    requires
        source.spec_bytes().len() < usize::MAX,
        forall|i: int| 0 <= i < events@.len() ==> #[trigger] events@[i].start <= source.spec_bytes().len(),
    ensures
        lines@ == scan_lines(source.spec_bytes(), events@).0,
{
    let mut lines: Vec<usize> = Vec::new();
    let mut active_depth: usize = 0;
    let mut i: usize = 0;
    while i < events.len()
        invariant
            i <= events.len(),
            source.spec_bytes().len() < usize::MAX,
            forall|k: int| 0 <= k < events@.len() ==> #[trigger] events@[k].start <= source.spec_bytes().len(),
            (lines@, active_depth as nat) == scan_lines(source.spec_bytes(), events@.take(i as int)),
            active_depth <= i,
        decreases events.len() - i,
    {
        assert(events@.take(i + 1).drop_last() =~= events@.take(i as int));
        assert(events@.take(i + 1).last() == events@[i as int]);
        let e = &events[i];
        match &e.event {
            MdEvent::Start(tag) => {
                if active_depth == 0 {
                    if starts_top_level_block(tag) {
                        lines.push(line_at_offset(source, e.start));
                        active_depth = 1;
                    }
                } else {
                    active_depth += 1;
                }
            },
            MdEvent::End(_) => {
                if active_depth > 0 {
                    active_depth -= 1;
                }
            },
            MdEvent::Rule => {
                if active_depth == 0 {
                    lines.push(line_at_offset(source, e.start));
                }
            },
            _ => {},
        }
        i += 1;
    }
    assert(events@.take(i as int) =~= events@);
    lines
}

/// The document that `source` makes, given the event stream pulldown-cmark yields for it.
pub fn document_from_events(source: &str, events: Vec<SourceEvent>) -> (doc: Document)
    requires
        source.spec_bytes().len() < usize::MAX,
        forall|i: int| 0 <= i < events@.len() ==> #[trigger] events@[i].start <= source.spec_bytes().len(),
    ensures
        doc@ == markdown_document(source.spec_bytes(), events@),
{
    let lines = top_level_block_lines(source, &events);
    let ghost all = events@;
    let mut builder = Builder::new();
    for event in it: events
        invariant
            it.seq() == all,
            builder.model() == run_events(all.take(it.index() as int)),
    {
        assert(all.take(it.index() + 1).drop_last() =~= all.take(it.index() as int));
        builder.handle(event.event);
    }
    assert(all.take(all.len() as int) =~= all);
    let mut document = builder.finish();
    document.block_source_lines = lines;
    document
}

/// Parses Markdown with strikethrough, tables and task lists enabled.
pub fn parse_markdown(source: &str) -> (doc: Document)
    requires
        source.spec_bytes().len() < usize::MAX,
    ensures
        doc@ == markdown_document(source.spec_bytes(), cmark_source_events(source@, parse_options())),
{
    let events = source_events(source, ENABLE_STRIKETHROUGH | ENABLE_TABLES | ENABLE_TASKLISTS);
    document_from_events(source, events)
}

} // verus!
//! The parsed document: blocks and inlines, their views as mathematical values, and their
//! plain text.
use vstd::prelude::*;

use crate::mermaid::renderer::MermaidRenderState;

verus! {

/// The whole parsed document.
#[derive(Debug)]
pub struct Document {
    pub blocks: Vec<Block>,
    pub block_source_lines: Vec<usize>,
    pub title: Option<String>,
    pub source_path: Option<String>,
    pub frontmatter: Option<Frontmatter>,
}

/// Block-level Markdown elements.
#[derive(Debug)]
pub enum Block {
    Heading { level: u8, content: Vec<Inline>, id: Option<String> },
    Paragraph { content: Vec<Inline> },
    CodeBlock { language: Option<String>, code: String },
    List { ordered: bool, start: Option<u64>, items: Vec<ListItem> },
    Quote { blocks: Vec<Block> },
    HorizontalRule,
    HtmlBlock { html: String },
    Table {
        alignments: Vec<TableAlignment>,
        header: Vec<Vec<Inline>>,
        rows: Vec<Vec<Vec<Inline>>>,
    },
    FootnoteDefinition { label: String, blocks: Vec<Block> },
    DefinitionList { items: Vec<DefinitionListItem> },
    MathBlock { expression: String },
    Mermaid { source: String, render_state: MermaidRenderState },
}

/// Inline Markdown elements used inside paragraph-like blocks.
#[derive(Debug)]
pub enum Inline {
    Text(String),
    Emphasis(Vec<Inline>),
    Strong(Vec<Inline>),
    Strikethrough(Vec<Inline>),
    Code(String),
    Link { destination: String, title: Option<String>, children: Vec<Inline> },
    Image { destination: String, title: Option<String>, alt: Vec<Inline> },
    Html(String),
    Math(String),
    SoftBreak,
    HardBreak,
}

#[derive(Debug)]
pub struct ListItem {
    pub checked: Option<bool>,
    pub blocks: Vec<Block>,
}

#[derive(Debug, Clone, Copy, PartialEq, Eq, Structural)]
pub enum TableAlignment {
    Unaligned,
    Left,
    Center,
    Right,
}

#[derive(Debug)]
pub struct DefinitionListItem {
    pub term: Vec<Inline>,
    pub definitions: Vec<Vec<Block>>,
}

#[derive(Debug, Clone)]
pub struct Frontmatter {
    pub format: FrontmatterFormat,
    pub raw: String,
}

#[derive(Debug, Clone, Copy, PartialEq, Eq, Structural)]
pub enum FrontmatterFormat {
    Yaml,
    Toml,
    Json,
}

// ----- mathematical model -----

pub ghost enum InlineV {
    Text(Seq<char>),
    Emphasis(Seq<InlineV>),
    Strong(Seq<InlineV>),
    Strikethrough(Seq<InlineV>),
    Code(Seq<char>),
    Link { destination: Seq<char>, title: Option<Seq<char>>, children: Seq<InlineV> },
    Image { destination: Seq<char>, title: Option<Seq<char>>, alt: Seq<InlineV> },
    Html(Seq<char>),
    Math(Seq<char>),
    SoftBreak,
    HardBreak,
}

pub ghost enum RenderStateV {
    Pending,
    Rendered { width: usize, height: usize, rgba: Seq<u8> },
    Failed { reason: Seq<char> },
}

pub ghost struct ListItemV {
    pub checked: Option<bool>,
    pub blocks: Seq<BlockV>,
}

pub ghost struct DefinitionListItemV {
    pub term: Seq<InlineV>,
    pub definitions: Seq<Seq<BlockV>>,
}

pub ghost enum BlockV {
    Heading { level: u8, content: Seq<InlineV>, id: Option<Seq<char>> },
    Paragraph { content: Seq<InlineV> },
    CodeBlock { language: Option<Seq<char>>, code: Seq<char> },
    List { ordered: bool, start: Option<u64>, items: Seq<ListItemV> },
    Quote { blocks: Seq<BlockV> },
    HorizontalRule,
    HtmlBlock { html: Seq<char> },
    Table { alignments: Seq<TableAlignment>, header: Seq<Seq<InlineV>>, rows: Seq<Seq<Seq<InlineV>>> },
    FootnoteDefinition { label: Seq<char>, blocks: Seq<BlockV> },
    DefinitionList { items: Seq<DefinitionListItemV> },
    MathBlock { expression: Seq<char> },
    Mermaid { source: Seq<char>, render_state: RenderStateV },
}

pub ghost struct FrontmatterV {
    pub format: FrontmatterFormat,
    pub raw: Seq<char>,
}

pub ghost struct DocumentV {
    pub blocks: Seq<BlockV>,
    pub block_source_lines: Seq<usize>,
    pub title: Option<Seq<char>>,
    pub source_path: Option<Seq<char>>,
    pub frontmatter: Option<FrontmatterV>,
}

pub open spec fn opt_str(o: Option<String>) -> Option<Seq<char>> {
    match o {
        Some(s) => Some(s@),
        None => None,
    }
}

pub open spec fn inline_view(x: Inline) -> InlineV
    decreases x,
{
    match x {
        Inline::Text(s) => InlineV::Text(s@),
        Inline::Emphasis(c) => InlineV::Emphasis(inlines_view(c@)),
        Inline::Strong(c) => InlineV::Strong(inlines_view(c@)),
        Inline::Strikethrough(c) => InlineV::Strikethrough(inlines_view(c@)),
        Inline::Code(s) => InlineV::Code(s@),
        Inline::Link { destination, title, children } => InlineV::Link {
            destination: destination@,
            title: opt_str(title),
            children: inlines_view(children@),
        },
        Inline::Image { destination, title, alt } => InlineV::Image {
            destination: destination@,
            title: opt_str(title),
            alt: inlines_view(alt@),
        },
        Inline::Html(s) => InlineV::Html(s@),
        Inline::Math(s) => InlineV::Math(s@),
        Inline::SoftBreak => InlineV::SoftBreak,
        Inline::HardBreak => InlineV::HardBreak,
    }
}

pub open spec fn inlines_view(s: Seq<Inline>) -> Seq<InlineV>
    decreases s,
{
    if s.len() == 0 {
        seq![]
    } else {
        inlines_view(s.drop_last()).push(inline_view(s.last()))
    }
}

pub open spec fn cells_view(s: Seq<Vec<Inline>>) -> Seq<Seq<InlineV>>
    decreases s.len(),
{
    if s.len() == 0 {
        seq![]
    } else {
        cells_view(s.drop_last()).push(inlines_view(s.last()@))
    }
}

pub open spec fn rows_view(s: Seq<Vec<Vec<Inline>>>) -> Seq<Seq<Seq<InlineV>>>
    decreases s.len(),
{
    if s.len() == 0 {
        seq![]
    } else {
        rows_view(s.drop_last()).push(cells_view(s.last()@))
    }
}

pub open spec fn render_state_view(r: MermaidRenderState) -> RenderStateV {
    match r {
        MermaidRenderState::Pending => RenderStateV::Pending,
        MermaidRenderState::Rendered { image } => RenderStateV::Rendered {
            width: image.width,
            height: image.height,
            rgba: image.rgba@,
        },
        MermaidRenderState::Failed { reason } => RenderStateV::Failed { reason: reason@ },
    }
}

pub open spec fn block_view(b: Block) -> BlockV
    decreases b,
{
    match b {
        Block::Heading { level, content, id } => BlockV::Heading {
            level,
            content: inlines_view(content@),
            id: opt_str(id),
        },
        Block::Paragraph { content } => BlockV::Paragraph { content: inlines_view(content@) },
        Block::CodeBlock { language, code } => BlockV::CodeBlock {
            language: opt_str(language),
            code: code@,
        },
        Block::List { ordered, start, items } => BlockV::List {
            ordered,
            start,
            items: items_view(items@),
        },
        Block::Quote { blocks } => BlockV::Quote { blocks: blocks_view(blocks@) },
        Block::HorizontalRule => BlockV::HorizontalRule,
        Block::HtmlBlock { html } => BlockV::HtmlBlock { html: html@ },
        Block::Table { alignments, header, rows } => BlockV::Table {
            alignments: alignments@,
            header: cells_view(header@),
            rows: rows_view(rows@),
        },
        Block::FootnoteDefinition { label, blocks } => BlockV::FootnoteDefinition {
            label: label@,
            blocks: blocks_view(blocks@),
        },
        Block::DefinitionList { items } => BlockV::DefinitionList {
            items: definition_items_view(items@),
        },
        Block::MathBlock { expression } => BlockV::MathBlock { expression: expression@ },
        Block::Mermaid { source, render_state } => BlockV::Mermaid {
            source: source@,
            render_state: render_state_view(render_state),
        },
    }
}

pub open spec fn blocks_view(s: Seq<Block>) -> Seq<BlockV>
    decreases s,
{
    if s.len() == 0 {
        seq![]
    } else {
        blocks_view(s.drop_last()).push(block_view(s.last()))
    }
}

pub open spec fn items_view(s: Seq<ListItem>) -> Seq<ListItemV>
    decreases s,
{
    if s.len() == 0 {
        seq![]
    } else {
        items_view(s.drop_last()).push(
            ListItemV { checked: s.last().checked, blocks: blocks_view(s.last().blocks@) },
        )
    }
}

pub open spec fn block_lists_view(s: Seq<Vec<Block>>) -> Seq<Seq<BlockV>>
    decreases s,
{
    if s.len() == 0 {
        seq![]
    } else {
        block_lists_view(s.drop_last()).push(blocks_view(s.last()@))
    }
}

pub open spec fn definition_items_view(s: Seq<DefinitionListItem>) -> Seq<DefinitionListItemV>
    decreases s,
{
    if s.len() == 0 {
        seq![]
    } else {
        definition_items_view(s.drop_last()).push(
            DefinitionListItemV {
                term: inlines_view(s.last().term@),
                definitions: block_lists_view(s.last().definitions@),
            },
        )
    }
}


pub open spec fn frontmatter_view(f: Option<Frontmatter>) -> Option<FrontmatterV> {
    match f {
        Some(f) => Some(FrontmatterV { format: f.format, raw: f.raw@ }),
        None => None,
    }
}

impl View for Document {
    type V = DocumentV;

    open spec fn view(&self) -> DocumentV {
        DocumentV {
            blocks: blocks_view(self.blocks@),
            block_source_lines: self.block_source_lines@,
            title: opt_str(self.title),
            source_path: opt_str(self.source_path),
            frontmatter: frontmatter_view(self.frontmatter),
        }
    }
}

impl Document {
    /// The index of the block that source `line` belongs to.
    pub fn block_index_for_line(&self, line: usize) -> (r: Option<usize>)
        ensures
            match r {
                Some(i) => {
                    ||| (i < self.block_source_lines@.len() && self.block_source_lines@[i as int] <= line
                        && forall|j: int| i < j < self.block_source_lines@.len()
                            ==> #[trigger] self.block_source_lines@[j] > line)
                    ||| (i == 0 && self.blocks@.len() > 0 && forall|j: int|
                        0 <= j < self.block_source_lines@.len() ==> #[trigger] self.block_source_lines@[j] > line)
                },
                None => self.blocks@.len() == 0 && forall|j: int|
                    0 <= j < self.block_source_lines@.len() ==> #[trigger] self.block_source_lines@[j] > line,
            },
    {
        let lines = &self.block_source_lines;
        let mut i = lines.len();
        while i > 0
            invariant
                i <= lines.len(),
                lines == &self.block_source_lines,
                forall|j: int| i <= j < lines@.len() ==> #[trigger] lines@[j] > line,
            decreases i,
        {
            if lines[i - 1] <= line {
                return Some(i - 1);
            }
            i -= 1;
        }
        if self.blocks.len() > 0 {
            Some(0)
        } else {
            None
        }
    }
}

// ----- lemmas on the views of sequences -----

pub proof fn lemma_inlines_view(s: Seq<Inline>)
    ensures
        inlines_view(s).len() == s.len(),
        forall|i: int| 0 <= i < s.len() ==> #[trigger] inlines_view(s)[i] == inline_view(s[i]),
    decreases s.len(),
{
    if s.len() > 0 {
        lemma_inlines_view(s.drop_last());
    }
}

pub proof fn lemma_blocks_view(s: Seq<Block>)
    ensures
        blocks_view(s).len() == s.len(),
        forall|i: int| 0 <= i < s.len() ==> #[trigger] blocks_view(s)[i] == block_view(s[i]),
    decreases s.len(),
{
    if s.len() > 0 {
        lemma_blocks_view(s.drop_last());
    }
}

pub proof fn lemma_cells_view(s: Seq<Vec<Inline>>)
    ensures
        cells_view(s).len() == s.len(),
        forall|i: int| 0 <= i < s.len() ==> #[trigger] cells_view(s)[i] == inlines_view(s[i]@),
    decreases s.len(),
{
    if s.len() > 0 {
        lemma_cells_view(s.drop_last());
    }
}

pub proof fn lemma_rows_view(s: Seq<Vec<Vec<Inline>>>)
    ensures
        rows_view(s).len() == s.len(),
        forall|i: int| 0 <= i < s.len() ==> #[trigger] rows_view(s)[i] == cells_view(s[i]@),
    decreases s.len(),
{
    if s.len() > 0 {
        lemma_rows_view(s.drop_last());
    }
}

pub proof fn lemma_items_view(s: Seq<ListItem>)
    ensures
        items_view(s).len() == s.len(),
        forall|i: int|
            0 <= i < s.len() ==> #[trigger] items_view(s)[i] == (ListItemV {
                checked: s[i].checked,
                blocks: blocks_view(s[i].blocks@),
            }),
    decreases s.len(),
{
    if s.len() > 0 {
        lemma_items_view(s.drop_last());
    }
}

pub proof fn lemma_block_lists_view(s: Seq<Vec<Block>>)
    ensures
        block_lists_view(s).len() == s.len(),
        forall|i: int| 0 <= i < s.len() ==> #[trigger] block_lists_view(s)[i] == blocks_view(s[i]@),
    decreases s.len(),
{
    if s.len() > 0 {
        lemma_block_lists_view(s.drop_last());
    }
}

pub proof fn lemma_definition_items_view(s: Seq<DefinitionListItem>)
    ensures
        definition_items_view(s).len() == s.len(),
        forall|i: int|
            0 <= i < s.len() ==> #[trigger] definition_items_view(s)[i] == (DefinitionListItemV {
                term: inlines_view(s[i].term@),
                definitions: block_lists_view(s[i].definitions@),
            }),
    decreases s.len(),
{
    if s.len() > 0 {
        lemma_definition_items_view(s.drop_last());
    }
}

// ----- plain text -----

/// The text of a run of inlines without its markup: text, code, HTML and math are kept as
/// they are, emphasis, links and images give the text of what they enclose, and a line break
/// gives a newline.
pub open spec fn plain_text_of(s: Seq<InlineV>) -> Seq<char>
    decreases s,
{
    if s.len() == 0 {
        seq![]
    } else {
        plain_text_of(s.drop_last()) + match s.last() {
            InlineV::Text(t) => t,
            InlineV::Code(t) => t,
            InlineV::Html(t) => t,
            InlineV::Math(t) => t,
            InlineV::Emphasis(c) => plain_text_of(c),
            InlineV::Strong(c) => plain_text_of(c),
            InlineV::Strikethrough(c) => plain_text_of(c),
            InlineV::Link { children, .. } => plain_text_of(children),
            InlineV::Image { alt, .. } => plain_text_of(alt),
            InlineV::SoftBreak => seq!['\n'],
            InlineV::HardBreak => seq!['\n'],
        }
    }
}

/// The plain text of inlines one after another is their plain texts one after another.
pub proof fn lemma_plain_text_concat(a: Seq<InlineV>, b: Seq<InlineV>)
    ensures
        plain_text_of(a + b) == plain_text_of(a) + plain_text_of(b),
    decreases b.len(),
{
    if b.len() == 0 {
        assert(a + b =~= a);
        assert(plain_text_of(a) + plain_text_of(b) =~= plain_text_of(a));
    } else {
        lemma_plain_text_concat(a, b.drop_last());
        assert((a + b).drop_last() =~= a + b.drop_last());
        assert((a + b).last() == b.last());
    }
}

/// Emphasis, strong text and strikethrough add no text of their own: a span has the plain
/// text of what it encloses, and no inlines have none.
pub proof fn lemma_plain_text_spans(a: Seq<InlineV>)
    ensures
        plain_text_of(Seq::<InlineV>::empty()) == Seq::<char>::empty(),
        plain_text_of(seq![InlineV::Emphasis(a)]) == plain_text_of(a),
        plain_text_of(seq![InlineV::Strong(a)]) == plain_text_of(a),
        plain_text_of(seq![InlineV::Strikethrough(a)]) == plain_text_of(a),
{
    assert(seq![InlineV::Emphasis(a)].drop_last() =~= Seq::<InlineV>::empty());
    assert(seq![InlineV::Strong(a)].drop_last() =~= Seq::<InlineV>::empty());
    assert(seq![InlineV::Strikethrough(a)].drop_last() =~= Seq::<InlineV>::empty());
    assert(Seq::<char>::empty() + plain_text_of(a) =~= plain_text_of(a));
}

/// The text of `inlines` without markup.
pub fn plain_text(inlines: &[Inline]) -> (text: String)
    ensures
        text@ == plain_text_of(inlines_view(inlines@)),
{
    let mut text = String::new();
    push_plain_text(inlines, &mut text);
    text
}

fn push_plain_text(inlines: &[Inline], out: &mut String)
    ensures
        final(out)@ == old(out)@ + plain_text_of(inlines_view(inlines@)),
    decreases inlines@,
{
    let ghost start = out@;
    let mut i: usize = 0;
    while i < inlines.len()
        invariant
            i <= inlines.len(),
            out@ == start + plain_text_of(inlines_view(inlines@.take(i as int))),
        decreases inlines.len() - i,
    {
        let ghost pre = inlines@.take(i as int);
        assert(inlines@.take(i + 1) == pre.push(inlines@[i as int]));
        assert(pre.push(inlines@[i as int]).drop_last() == pre);
        assert(inlines_view(pre).push(inline_view(inlines@[i as int])).drop_last() == inlines_view(pre));
        match &inlines[i] {
            Inline::Text(value) | Inline::Code(value) | Inline::Html(value) | Inline::Math(value) => {
                out.append(value.as_str());
            }
            Inline::Emphasis(children) | Inline::Strong(children) | Inline::Strikethrough(children) => {
                assert(decreases_to!(inlines@ => inlines@[i as int]));
                push_plain_text(children.as_slice(), out);
            }
            Inline::Link { children, .. } => {
                assert(decreases_to!(inlines@ => inlines@[i as int]));
                push_plain_text(children.as_slice(), out);
            }
            Inline::Image { alt, .. } => {
                assert(decreases_to!(inlines@ => inlines@[i as int]));
                push_plain_text(alt.as_slice(), out);
            }
            Inline::SoftBreak | Inline::HardBreak => {
                crate::text::push_char(out, '\n');
            }
        }
        i += 1;
    }
    assert(inlines@.take(i as int) == inlines@);
}

} // verus!

//! The decisions of drawing a document that hold no pixels: heading anchors, alert boxes,
//! the text shown for math, what a link click does, and how many diagrams there are.
use vstd::prelude::*;

use crate::app::TocEntry;
use crate::document::model::{
    block_view, blocks_view, lemma_blocks_view, lemma_items_view, lemma_block_lists_view,
    lemma_definition_items_view, items_view, block_lists_view, definition_items_view, plain_text,
    plain_text_of, inlines_view, cells_view, rows_view, lemma_cells_view, lemma_rows_view, Block,
    BlockV, Inline, InlineV, ListItem, ListItemV, DefinitionListItem, DefinitionListItemV,
};
use crate::input::{NavModel, NavigationState};
use crate::text::{
    alphanumeric, chars_of, is_alphanumeric, is_white_space, is_whitespace, join, join_seq,
    lowercase_char, lowercase_char_of, push_char, replace, replace_seq, same_text, split_words,
    starts_with, starts_with_seq, to_uppercase, trim, trim_seq, uppercase_of, words_of, push_chars,
};

verus! {

/// Whether a character of a heading is kept in its anchor: letters, digits, white space,
/// hyphens and underscores.
pub open spec fn kept_in_anchor(c: char) -> bool {
    alphanumeric(c) || is_white_space(c) || c == '-' || c == '_'
}

/// What a kept character of a heading becomes in its anchor: white space a hyphen, hyphens
/// and underscores themselves, anything else its lower case.
pub open spec fn anchor_char(c: char) -> char {
    if is_white_space(c) {
        '-'
    } else if c == '-' || c == '_' {
        c
    } else {
        lowercase_char_of(c)
    }
}

/// The GitHub-style anchor of a heading's text: letters, digits, hyphens and underscores,
/// lower-cased, with each white-space character turned into a hyphen and everything else
/// dropped.
pub open spec fn anchor_of(text: Seq<char>) -> Seq<char> {
    text.filter_map(|c: char| if kept_in_anchor(c) { Some(anchor_char(c)) } else { None })
}

/// The GitHub-style anchor ID of a heading's plain text.
pub fn heading_to_id(text: &str) -> (id: String)
    ensures
        id@ == anchor_of(text@),
{
    let chars = chars_of(text);
    let mut id = String::new();
    let mut i: usize = 0;
    while i < chars.len()
        invariant
            i <= chars.len(),
            chars@ == text@,
            id@ == anchor_of(chars@.take(i as int)),
        decreases chars.len() - i,
    {
        assert(chars@.take(i + 1).drop_last() =~= chars@.take(i as int));
        let c = chars[i];
        if is_alphanumeric(c) || is_whitespace(c) || c == '-' || c == '_' {
            let mapped = if is_whitespace(c) {
                '-'
            } else if c == '-' || c == '_' {
                c
            } else {
                lowercase_char(c)
            };
            push_char(&mut id, mapped);
            assert(id@ =~= anchor_of(chars@.take(i as int)) + seq![mapped]);
        }
        i += 1;
    }
    assert(chars@.take(i as int) =~= chars@);
    id
}

/// The first line of a text: what comes before its first line break, or all of it.
pub open spec fn first_line_of(text: Seq<char>) -> Seq<char> {
    match text.index_of_first('\n') {
        Some(i) => text.take(i),
        None => text,
    }
}

/// The marker line of a quote's first paragraph: its first line, trimmed and upper-cased.
pub open spec fn alert_marker(text: Seq<char>) -> Seq<char> {
    uppercase_of(trim_seq(first_line_of(text)))
}

/// The first line of `text`.
pub fn first_line(text: &str) -> (line: String)
    ensures
        line@ == first_line_of(text@),
{
    let chars = chars_of(text);
    let mut i: usize = 0;
    while i < chars.len() && chars[i] != '\n'
        invariant
            i <= chars.len(),
            chars@ == text@,
            forall|k: int| 0 <= k < i ==> chars@[k] != '\n',
        decreases chars.len() - i,
    {
        i += 1;
    }
    proof {
        text@.index_of_first_ensures('\n');
        match text@.index_of_first('\n') {
            Some(j) => {
                if j < i {
                    assert(chars@[j] != '\n');
                }
                if i < j {
                    assert(chars@[i as int] == '\n');
                }
                assert(j == i);
            },
            None => {
                if i < chars.len() {
                    assert(text@.contains(chars@[i as int]));
                }
            },
        }
    }
    assert(chars@.subrange(0, i as int) =~= chars@.take(i as int));
    assert(i == chars.len() ==> chars@.take(i as int) =~= chars@);
    crate::text::string_from_range(&chars, 0, i)
}

/// Whether an inline is a line break, soft or hard.
pub open spec fn is_line_break(x: InlineV) -> bool {
    x is SoftBreak || x is HardBreak
}

/// The position of the first line break among `inlines`: where the body of an alert's first
/// paragraph begins, after its marker line.
pub fn first_line_break(inlines: &[Inline]) -> (r: Option<usize>)
    ensures
        match r {
            Some(i) => i < inlines.len() && is_line_break(inlines_view(inlines@)[i as int])
                && forall|k: int| 0 <= k < i ==> !is_line_break(#[trigger] inlines_view(inlines@)[k]),
            None => forall|k: int| 0 <= k < inlines.len() ==> !is_line_break(#[trigger] inlines_view(inlines@)[k]),
        },
{
    proof {
        crate::document::model::lemma_inlines_view(inlines@);
    }
    let mut i: usize = 0;
    while i < inlines.len()
        invariant
            i <= inlines.len(),
            inlines_view(inlines@).len() == inlines.len(),
            forall|k: int| 0 <= k < inlines.len() ==> #[trigger] inlines_view(inlines@)[k] == crate::document::model::inline_view(inlines@[k]),
            forall|k: int| 0 <= k < i ==> !is_line_break(#[trigger] inlines_view(inlines@)[k]),
        decreases inlines.len() - i,
    {
        match &inlines[i] {
            Inline::SoftBreak | Inline::HardBreak => {
                return Some(i);
            },
            _ => {},
        }
        i += 1;
    }
    None
}

/// The label and kind of a GFM alert for its marker line, if it is one.
pub open spec fn alert_for(marker: Seq<char>) -> Option<(Seq<char>, Seq<char>)> {
    if marker == "[!NOTE]"@ {
        Some(("ℹ  Note"@, "note"@))
    } else if marker == "[!TIP]"@ {
        Some(("💡 Tip"@, "tip"@))
    } else if marker == "[!IMPORTANT]"@ {
        Some(("★  Important"@, "important"@))
    } else if marker == "[!WARNING]"@ {
        Some(("⚠  Warning"@, "warning"@))
    } else if marker == "[!CAUTION]"@ {
        Some(("✖  Caution"@, "caution"@))
    } else {
        None
    }
}

/// The alert a quote's blocks announce: decided by the first block when it is a paragraph.
pub open spec fn alert_of(blocks: Seq<BlockV>) -> Option<(Seq<char>, Seq<char>)> {
    if blocks.len() > 0 && blocks[0] is Paragraph {
        alert_for(alert_marker(plain_text_of(blocks[0]->Paragraph_content)))
    } else {
        None
    }
}

/// Detects a GFM alert prefix like `[!NOTE]` (in any case, with white space around it) as
/// the first line of a quote's first paragraph, and gives its label and kind.
pub fn detect_alert(blocks: &[Block]) -> (alert: Option<(&'static str, &'static str)>)
    ensures
        match alert {
            Some((label, kind)) => alert_of(blocks_view(blocks@)) == Some((label@, kind@)),
            None => alert_of(blocks_view(blocks@)) is None,
        },
{
    proof {
        lemma_blocks_view(blocks@);
    }
    if blocks.len() == 0 {
        return None;
    }
    match &blocks[0] {
        Block::Paragraph { content } => {
            let text = plain_text(content.as_slice());
            let line = first_line(text.as_str());
            let trimmed = trim(line.as_str());
            let marker = to_uppercase(trimmed.as_str());
            if same_text(marker.as_str(), "[!NOTE]") {
                Some(("ℹ  Note", "note"))
            } else if same_text(marker.as_str(), "[!TIP]") {
                Some(("💡 Tip", "tip"))
            } else if same_text(marker.as_str(), "[!IMPORTANT]") {
                Some(("★  Important", "important"))
            } else if same_text(marker.as_str(), "[!WARNING]") {
                Some(("⚠  Warning", "warning"))
            } else if same_text(marker.as_str(), "[!CAUTION]") {
                Some(("✖  Caution", "caution"))
            } else {
                None
            }
        },
        _ => None,
    }
}

/// The characters of a markup text that stand outside its tags, and whether the text ends
/// inside a tag.
pub open spec fn tag_scan(s: Seq<char>) -> (Seq<char>, bool)
    decreases s.len(),
{
    if s.len() == 0 {
        (seq![], false)
    } else {
        let (out, in_tag) = tag_scan(s.drop_last());
        let c = s.last();
        if c == '<' {
            (out, true)
        } else if c == '>' {
            (out, false)
        } else if !in_tag {
            (out.push(c), false)
        } else {
            (out, true)
        }
    }
}

/// A markup text with its common entities decoded, in this order: `&lt;`, `&gt;`, `&amp;`,
/// `&nbsp;`.
pub open spec fn decoded_entities(s: Seq<char>) -> Seq<char> {
    replace_seq(
        replace_seq(replace_seq(replace_seq(s, "&lt;"@, "<"@), "&gt;"@, ">"@), "&amp;"@, "&"@),
        "&nbsp;"@,
        " "@,
    )
}

/// The readable text of MathML: the characters outside its tags, entities decoded, and
/// white space collapsed to single spaces between words.
pub open spec fn mml_text_of(mml: Seq<char>) -> Seq<char> {
    join_seq(words_of(decoded_entities(tag_scan(mml).0)), " "@)
}

/// Converts MathML to readable text by stripping its tags, decoding common entities and
/// collapsing white space.
pub fn mml_to_text(mml: &str) -> (text: String)
    ensures
        text@ == mml_text_of(mml@),
{
    let chars = chars_of(mml);
    let mut out = String::new();
    let mut in_tag = false;
    let mut i: usize = 0;
    while i < chars.len()
        invariant
            i <= chars.len(),
            chars@ == mml@,
            (out@, in_tag) == tag_scan(chars@.take(i as int)),
        decreases chars.len() - i,
    {
        assert(chars@.take(i + 1).drop_last() =~= chars@.take(i as int));
        let c = chars[i];
        if c == '<' {
            in_tag = true;
        } else if c == '>' {
            in_tag = false;
        } else if !in_tag {
            push_char(&mut out, c);
        }
        i += 1;
    }
    assert(chars@.take(i as int) =~= chars@);
    proof {
        reveal_strlit("&lt;");
        reveal_strlit("&gt;");
        reveal_strlit("&amp;");
        reveal_strlit("&nbsp;");
    }
    let a = replace(out.as_str(), "&lt;", "<");
    let b = replace(a.as_str(), "&gt;", ">");
    let c = replace(b.as_str(), "&amp;", "&");
    let d = replace(c.as_str(), "&nbsp;", " ");
    let words = split_words(d.as_str());
    join(&words, " ")
}

/// The readable text of MathML has its white space collapsed already: single spaces
/// between words, none at the ends, so collapsing it again changes nothing.
pub proof fn lemma_mml_text_is_collapsed(mml: Seq<char>)
    ensures
        join_seq(words_of(mml_text_of(mml)), " "@) == mml_text_of(mml),
{
    reveal_strlit(" ");
    assert(" "@ =~= seq![' ']);
    crate::text::lemma_collapse_spaces_idempotent(decoded_entities(tag_scan(mml).0));
}

/// How a formula is set: on a line of its own, or inside a paragraph.
#[derive(Debug, Clone, Copy, PartialEq, Eq)]
pub enum MathDisplay {
    Block,
    Inline,
}

#[verifier::external_type_specification]
#[verifier::external_body]
pub struct ExLatexError(latex2mathml::LatexError);

/// What `latex2mathml::latex_to_mathml` gives for a LaTeX text, set as a block or not: the
/// MathML, or `None` where it reports an error.
pub uninterp spec fn latex_mathml_of(latex: Seq<char>, block: bool) -> Option<Seq<char>>;

/// Calls `latex2mathml::latex_to_mathml`; whether it succeeds and the MathML it gives are
/// named `latex_mathml_of`.
#[verifier::external_body]
fn latex_to_mathml(latex: &str, display: MathDisplay) -> (r: Result<String, latex2mathml::LatexError>)
    ensures
        match r {
            Ok(mml) => latex_mathml_of(latex@, display is Block) == Some(mml@),
            Err(_) => latex_mathml_of(latex@, display is Block) is None,
        },
{
    let style = match display {
        MathDisplay::Block => latex2mathml::DisplayStyle::Block,
        MathDisplay::Inline => latex2mathml::DisplayStyle::Inline,
    };
    latex2mathml::latex_to_mathml(latex, style)
}

/// The text shown for a formula: its MathML as readable text, or the LaTeX itself where it
/// does not convert.
pub open spec fn math_text_of(expression: Seq<char>, block: bool) -> Seq<char> {
    match latex_mathml_of(expression, block) {
        Some(mml) => mml_text_of(mml),
        None => expression,
    }
}

/// The text shown for a formula: its MathML as readable text, or the LaTeX itself where it
/// does not convert.
pub fn math_text(expression: &str, display: MathDisplay) -> (text: String)
    ensures
        text@ == math_text_of(expression@, display is Block),
{
    match latex_to_mathml(expression, display) {
        Ok(mml) => mml_to_text(mml.as_str()),
        Err(_) => expression.to_owned(),
    }
}

/// The position in `toc` of the first entry whose heading has the anchor `target`.
pub open spec fn first_anchor_match(toc: Seq<TocEntry>, target: Seq<char>) -> Option<int>
    decreases toc.len(),
{
    if toc.len() == 0 {
        None
    } else {
        match first_anchor_match(toc.drop_last(), target) {
            Some(k) => Some(k),
            None => if anchor_of(toc.last().text@) == target {
                Some(toc.len() - 1)
            } else {
                None
            },
        }
    }
}

/// Whether a link leaves the document: a web or mail address.
pub open spec fn external_link(url: Seq<char>) -> bool {
    starts_with_seq(url, "http://"@) || starts_with_seq(url, "https://"@) || starts_with_seq(url, "mailto:"@)
}

/// Dispatches a link click: a `#fragment` asks to scroll to the first heading whose anchor
/// is the fragment's; for a web or mail address the result says to open it outside.
pub fn handle_link_click(url: &str, toc_entries: &[TocEntry], navigation: &mut NavigationState) -> (open_external: bool)
    ensures
        open_external == (!starts_with_seq(url@, "#"@) && external_link(url@)),
        starts_with_seq(url@, "#"@) ==> final(navigation)@ == match first_anchor_match(
            toc_entries@,
            anchor_of(url@.drop_first()),
        ) {
            Some(k) => NavModel { source_block: Some(toc_entries@[k].block_index), ..old(navigation)@ },
            None => old(navigation)@,
        },
        !starts_with_seq(url@, "#"@) ==> final(navigation)@ == old(navigation)@,
{
    proof {
        reveal_strlit("#");
    }
    if starts_with(url, "#") {
        let chars = chars_of(url);
        let fragment = crate::text::string_from_range(&chars, 1, chars.len());
        assert(fragment@ =~= url@.drop_first());
        let target = heading_to_id(fragment.as_str());
        let mut found: Option<usize> = None;
        let mut k: usize = 0;
        while k < toc_entries.len()
            invariant
                k <= toc_entries.len(),
                target@ == anchor_of(url@.drop_first()),
                match found {
                    Some(j) => first_anchor_match(toc_entries@.take(k as int), target@) == Some(j as int),
                    None => first_anchor_match(toc_entries@.take(k as int), target@) is None,
                },
                found matches Some(j) ==> j < k,
            decreases toc_entries.len() - k,
        {
            assert(toc_entries@.take(k + 1).drop_last() =~= toc_entries@.take(k as int));
            if found.is_none() {
                let anchor = heading_to_id(toc_entries[k].text.as_str());
                if same_text(anchor.as_str(), target.as_str()) {
                    found = Some(k);
                }
            }
            k += 1;
        }
        assert(toc_entries@.take(k as int) =~= toc_entries@);
        if let Some(j) = found {
            navigation.request_source_block(toc_entries[j].block_index);
        }
        false
    } else {
        starts_with(url, "http://") || starts_with(url, "https://") || starts_with(url, "mailto:")
    }
}

/// How many Mermaid blocks a block is or holds.
pub open spec fn mermaid_count(b: BlockV) -> nat
    decreases b,
{
    match b {
        BlockV::Mermaid { .. } => 1,
        BlockV::Quote { blocks } => blocks_mermaid_count(blocks),
        BlockV::FootnoteDefinition { blocks, .. } => blocks_mermaid_count(blocks),
        BlockV::List { items, .. } => items_mermaid_count(items),
        BlockV::DefinitionList { items } => definitions_mermaid_count(items),
        _ => 0,
    }
}

pub open spec fn blocks_mermaid_count(s: Seq<BlockV>) -> nat
    decreases s,
{
    if s.len() == 0 {
        0
    } else {
        blocks_mermaid_count(s.drop_last()) + mermaid_count(s.last())
    }
}

pub open spec fn items_mermaid_count(s: Seq<ListItemV>) -> nat
    decreases s,
{
    if s.len() == 0 {
        0
    } else {
        items_mermaid_count(s.drop_last()) + blocks_mermaid_count(s.last().blocks)
    }
}

pub open spec fn block_lists_mermaid_count(s: Seq<Seq<BlockV>>) -> nat
    decreases s,
{
    if s.len() == 0 {
        0
    } else {
        block_lists_mermaid_count(s.drop_last()) + blocks_mermaid_count(s.last())
    }
}

pub open spec fn definitions_mermaid_count(s: Seq<DefinitionListItemV>) -> nat
    decreases s,
{
    if s.len() == 0 {
        0
    } else {
        definitions_mermaid_count(s.drop_last()) + block_lists_mermaid_count(s.last().definitions)
    }
}

proof fn lemma_block_pending_bounded(b: BlockV)
    ensures
        crate::app::block_pending(b).len() <= mermaid_count(b),
    decreases b,
{
    match b {
        BlockV::Quote { blocks } => lemma_blocks_pending_bounded(blocks),
        BlockV::FootnoteDefinition { blocks, .. } => lemma_blocks_pending_bounded(blocks),
        BlockV::List { items, .. } => lemma_items_pending_bounded(items),
        BlockV::DefinitionList { items } => lemma_definitions_pending_bounded(items),
        _ => {},
    }
}

/// There are no more diagrams waiting to be rendered than there are Mermaid blocks.
pub proof fn lemma_blocks_pending_bounded(s: Seq<BlockV>)
    ensures
        crate::app::blocks_pending(s).len() <= blocks_mermaid_count(s),
    decreases s,
{
    if s.len() > 0 {
        lemma_blocks_pending_bounded(s.drop_last());
        lemma_block_pending_bounded(s.last());
    }
}

proof fn lemma_items_pending_bounded(s: Seq<ListItemV>)
    ensures
        crate::app::items_pending(s).len() <= items_mermaid_count(s),
    decreases s,
{
    if s.len() > 0 {
        lemma_items_pending_bounded(s.drop_last());
        assert(decreases_to!(s => s.last()));
        lemma_blocks_pending_bounded(s.last().blocks);
    }
}

proof fn lemma_block_lists_pending_bounded(s: Seq<Seq<BlockV>>)
    ensures
        crate::app::block_lists_pending(s).len() <= block_lists_mermaid_count(s),
    decreases s,
{
    if s.len() > 0 {
        lemma_block_lists_pending_bounded(s.drop_last());
        lemma_blocks_pending_bounded(s.last());
    }
}

proof fn lemma_definitions_pending_bounded(s: Seq<DefinitionListItemV>)
    ensures
        crate::app::definitions_pending(s).len() <= definitions_mermaid_count(s),
    decreases s,
{
    if s.len() > 0 {
        lemma_definitions_pending_bounded(s.drop_last());
        assert(decreases_to!(s => s.last()));
        lemma_block_lists_pending_bounded(s.last().definitions);
    }
}

/// One step of a sum over a sequence that adds `f` of the last element.
pub open spec fn sum_step<T>(sum: spec_fn(Seq<T>) -> nat, f: spec_fn(T) -> nat, t: Seq<T>) -> bool {
    sum(t) == if t.len() == 0 {
        0
    } else {
        sum(t.drop_last()) + f(t.last())
    }
}

/// A sum over any prefix of a sequence is at most the sum over the whole sequence.
proof fn lemma_prefix_sum_bounded<T>(sum: spec_fn(Seq<T>) -> nat, f: spec_fn(T) -> nat, s: Seq<T>, i: int)
    requires
        forall|t: Seq<T>| #[trigger] sum_step(sum, f, t),
        0 <= i <= s.len(),
    ensures
        sum(s.take(i)) <= sum(s),
        i < s.len() ==> sum(s.take(i + 1)) == sum(s.take(i)) + f(s[i]),
    decreases s.len() - i,
{
    if i < s.len() {
        assert(sum_step(sum, f, s.take(i + 1)));
        assert(s.take(i + 1).drop_last() =~= s.take(i));
        lemma_prefix_sum_bounded(sum, f, s, i + 1);
    } else {
        assert(s.take(i) =~= s);
    }
}

/// How many Mermaid blocks `blocks` holds, inside quotes, lists, footnotes and definition
/// lists too.
pub fn count_mermaid_blocks(blocks: &[Block]) -> (n: usize)
    requires
        blocks_mermaid_count(blocks_view(blocks@)) <= usize::MAX,
    ensures
        n == blocks_mermaid_count(blocks_view(blocks@)),
    decreases blocks@, 1nat,
{
    proof {
        lemma_blocks_view(blocks@);
    }
    let n = count_mermaid_blocks_before(blocks, blocks.len());
    assert(blocks_view(blocks@).take(blocks.len() as int) =~= blocks_view(blocks@));
    n
}

/// How many Mermaid blocks the first `end` of `blocks` hold, nested ones too.
fn count_mermaid_blocks_before(blocks: &[Block], end: usize) -> (n: usize)
    requires
        end <= blocks.len(),
        blocks_mermaid_count(blocks_view(blocks@)) <= usize::MAX,
    ensures
        n == blocks_mermaid_count(blocks_view(blocks@).take(end as int)),
    decreases blocks@, 0nat,
{
    let ghost bv = blocks_view(blocks@);
    let ghost sum = |t: Seq<BlockV>| blocks_mermaid_count(t);
    let ghost f = |b: BlockV| mermaid_count(b);
    proof {
        lemma_blocks_view(blocks@);
        assert forall|t: Seq<BlockV>| #[trigger] sum_step(sum, f, t) by {}
    }
    let mut n: usize = 0;
    let mut i: usize = 0;
    while i < end
        invariant
            i <= end,
            end <= blocks.len(),
            bv == blocks_view(blocks@),
            bv.len() == blocks.len(),
            forall|k: int| 0 <= k < bv.len() ==> #[trigger] bv[k] == block_view(blocks@[k]),
            sum == (|t: Seq<BlockV>| blocks_mermaid_count(t)),
            f == (|b: BlockV| mermaid_count(b)),
            forall|t: Seq<BlockV>| #[trigger] sum_step(sum, f, t),
            blocks_mermaid_count(bv) <= usize::MAX,
            n == blocks_mermaid_count(bv.take(i as int)),
        decreases end - i,
    {
        proof {
            lemma_prefix_sum_bounded(sum, f, bv, i as int);
            lemma_prefix_sum_bounded(sum, f, bv, i + 1);
        }
        assert(decreases_to!(blocks@ => blocks@[i as int]));
        let here: usize = match &blocks[i] {
            Block::Mermaid { .. } => 1,
            Block::Quote { blocks } => count_mermaid_blocks(blocks.as_slice()),
            Block::FootnoteDefinition { blocks, .. } => count_mermaid_blocks(blocks.as_slice()),
            Block::List { items, .. } => count_in_items(items),
            Block::DefinitionList { items } => count_in_definitions(items),
            _ => 0,
        };
        n = n + here;
        i += 1;
    }
    n
}

/// The number of the diagram that top-level block `index` is, counting the diagrams of the
/// blocks before it, nested ones too; none when the block is not a Mermaid block.
pub fn synced_mermaid_index(blocks: &[Block], index: usize) -> (r: Option<usize>)
    requires
        index < blocks.len(),
        blocks_mermaid_count(blocks_view(blocks@)) <= usize::MAX,
    ensures
        r == if blocks_view(blocks@)[index as int] is Mermaid {
            Some(blocks_mermaid_count(blocks_view(blocks@).take(index as int)) as usize)
        } else {
            None::<usize>
        },
{
    proof {
        lemma_blocks_view(blocks@);
    }
    match &blocks[index] {
        Block::Mermaid { .. } => Some(count_mermaid_blocks_before(blocks, index)),
        _ => None,
    }
}

fn count_in_items(items: &Vec<ListItem>) -> (n: usize)
    requires
        items_mermaid_count(items_view(items@)) <= usize::MAX,
    ensures
        n == items_mermaid_count(items_view(items@)),
    decreases items@,
{
    let ghost iv = items_view(items@);
    let ghost sum = |t: Seq<ListItemV>| items_mermaid_count(t);
    let ghost f = |it: ListItemV| blocks_mermaid_count(it.blocks);
    proof {
        lemma_items_view(items@);
        assert forall|t: Seq<ListItemV>| #[trigger] sum_step(sum, f, t) by {}
    }
    let mut n: usize = 0;
    let mut i: usize = 0;
    while i < items.len()
        invariant
            i <= items.len(),
            iv == items_view(items@),
            iv.len() == items.len(),
            forall|k: int| 0 <= k < iv.len() ==> (#[trigger] iv[k]).blocks == blocks_view(items@[k].blocks@),
            sum == (|t: Seq<ListItemV>| items_mermaid_count(t)),
            f == (|it: ListItemV| blocks_mermaid_count(it.blocks)),
            forall|t: Seq<ListItemV>| #[trigger] sum_step(sum, f, t),
            items_mermaid_count(iv) <= usize::MAX,
            n == items_mermaid_count(iv.take(i as int)),
        decreases items.len() - i,
    {
        proof {
            lemma_prefix_sum_bounded(sum, f, iv, i as int);
            lemma_prefix_sum_bounded(sum, f, iv, i + 1);
        }
        assert(decreases_to!(items@ => items@[i as int]));
        let here = count_mermaid_blocks(items[i].blocks.as_slice());
        n = n + here;
        i += 1;
    }
    assert(iv.take(i as int) =~= iv);
    n
}

fn count_in_block_lists(lists: &Vec<Vec<Block>>) -> (n: usize)
    requires
        block_lists_mermaid_count(block_lists_view(lists@)) <= usize::MAX,
    ensures
        n == block_lists_mermaid_count(block_lists_view(lists@)),
    decreases lists@,
{
    let ghost lv = block_lists_view(lists@);
    let ghost sum = |t: Seq<Seq<BlockV>>| block_lists_mermaid_count(t);
    let ghost f = |b: Seq<BlockV>| blocks_mermaid_count(b);
    proof {
        lemma_block_lists_view(lists@);
        assert forall|t: Seq<Seq<BlockV>>| #[trigger] sum_step(sum, f, t) by {}
    }
    let mut n: usize = 0;
    let mut i: usize = 0;
    while i < lists.len()
        invariant
            i <= lists.len(),
            lv == block_lists_view(lists@),
            lv.len() == lists.len(),
            forall|k: int| 0 <= k < lv.len() ==> #[trigger] lv[k] == blocks_view(lists@[k]@),
            sum == (|t: Seq<Seq<BlockV>>| block_lists_mermaid_count(t)),
            f == (|b: Seq<BlockV>| blocks_mermaid_count(b)),
            forall|t: Seq<Seq<BlockV>>| #[trigger] sum_step(sum, f, t),
            block_lists_mermaid_count(lv) <= usize::MAX,
            n == block_lists_mermaid_count(lv.take(i as int)),
        decreases lists.len() - i,
    {
        proof {
            lemma_prefix_sum_bounded(sum, f, lv, i as int);
            lemma_prefix_sum_bounded(sum, f, lv, i + 1);
        }
        assert(decreases_to!(lists@ => lists@[i as int]));
        let here = count_mermaid_blocks(lists[i].as_slice());
        n = n + here;
        i += 1;
    }
    assert(lv.take(i as int) =~= lv);
    n
}

fn count_in_definitions(items: &Vec<DefinitionListItem>) -> (n: usize)
    requires
        definitions_mermaid_count(definition_items_view(items@)) <= usize::MAX,
    ensures
        n == definitions_mermaid_count(definition_items_view(items@)),
    decreases items@,
{
    let ghost dv = definition_items_view(items@);
    let ghost sum = |t: Seq<DefinitionListItemV>| definitions_mermaid_count(t);
    let ghost f = |it: DefinitionListItemV| block_lists_mermaid_count(it.definitions);
    proof {
        lemma_definition_items_view(items@);
        assert forall|t: Seq<DefinitionListItemV>| #[trigger] sum_step(sum, f, t) by {}
    }
    let mut n: usize = 0;
    let mut i: usize = 0;
    while i < items.len()
        invariant
            i <= items.len(),
            dv == definition_items_view(items@),
            dv.len() == items.len(),
            forall|k: int| 0 <= k < dv.len() ==> (#[trigger] dv[k]).definitions == block_lists_view(items@[k].definitions@),
            sum == (|t: Seq<DefinitionListItemV>| definitions_mermaid_count(t)),
            f == (|it: DefinitionListItemV| block_lists_mermaid_count(it.definitions)),
            forall|t: Seq<DefinitionListItemV>| #[trigger] sum_step(sum, f, t),
            definitions_mermaid_count(dv) <= usize::MAX,
            n == definitions_mermaid_count(dv.take(i as int)),
        decreases items.len() - i,
    {
        proof {
            lemma_prefix_sum_bounded(sum, f, dv, i as int);
            lemma_prefix_sum_bounded(sum, f, dv, i + 1);
        }
        assert(decreases_to!(items@ => items@[i as int]));
        let here = count_in_block_lists(&items[i].definitions);
        n = n + here;
        i += 1;
    }
    assert(dv.take(i as int) =~= dv);
    n
}

/// The narrowest a table column is weighed, in characters.
pub const MIN_COLUMN_CHARS: usize = 6;

/// The length in characters of the plain text of cell `col` of a row; zero where the row
/// has no such cell.
pub open spec fn cell_chars(row: Seq<Seq<InlineV>>, col: int) -> nat {
    if 0 <= col < row.len() {
        plain_text_of(row[col]).len()
    } else {
        0
    }
}

pub open spec fn max_nat(a: nat, b: nat) -> nat {
    if a >= b { a } else { b }
}

/// The number of cells of the longest row.
pub open spec fn longest_row(rows: Seq<Seq<Seq<InlineV>>>) -> nat
    decreases rows.len(),
{
    if rows.len() == 0 {
        0
    } else {
        max_nat(longest_row(rows.drop_last()), rows.last().len())
    }
}

/// The longest plain text, in characters, of column `col` over the rows.
pub open spec fn longest_in_column(rows: Seq<Seq<Seq<InlineV>>>, col: int) -> nat
    decreases rows.len(),
{
    if rows.len() == 0 {
        0
    } else {
        max_nat(longest_in_column(rows.drop_last(), col), cell_chars(rows.last(), col))
    }
}

/// How many columns a table has: as many as its header or its longest row.
pub open spec fn column_count(header: Seq<Seq<InlineV>>, rows: Seq<Seq<Seq<InlineV>>>) -> nat {
    max_nat(header.len(), longest_row(rows))
}

/// The weight of a table column when the width is shared out: the longest plain text of
/// the column, header included, and at least `MIN_COLUMN_CHARS`.
pub open spec fn column_weight(header: Seq<Seq<InlineV>>, rows: Seq<Seq<Seq<InlineV>>>, col: int) -> nat {
    max_nat(max_nat(cell_chars(header, col), longest_in_column(rows, col)), MIN_COLUMN_CHARS as nat)
}

fn cell_length(row: &Vec<Vec<Inline>>, col: usize) -> (n: usize)
    ensures
        n == cell_chars(cells_view(row@), col as int),
{
    proof {
        lemma_cells_view(row@);
    }
    if col < row.len() {
        let text = plain_text(row[col].as_slice());
        chars_of(text.as_str()).len()
    } else {
        0
    }
}

/// The weights by which a table's columns share its width: one per column, each the
/// longest plain text of the column in characters, and at least `MIN_COLUMN_CHARS`.
pub fn table_column_weights(header: &Vec<Vec<Inline>>, rows: &Vec<Vec<Vec<Inline>>>) -> (weights: Vec<usize>)
    ensures
        weights@.len() == column_count(cells_view(header@), rows_view(rows@)),
        forall|col: int| 0 <= col < weights@.len() ==> #[trigger] weights@[col] == column_weight(
            cells_view(header@),
            rows_view(rows@),
            col,
        ),
{
    let ghost hv = cells_view(header@);
    let ghost rv = rows_view(rows@);
    proof {
        lemma_cells_view(header@);
        lemma_rows_view(rows@);
    }
    let mut n = header.len();
    let mut r: usize = 0;
    while r < rows.len()
        invariant
            r <= rows.len(),
            rv == rows_view(rows@),
            rv.len() == rows.len(),
            forall|k: int| 0 <= k < rv.len() ==> #[trigger] rv[k] == cells_view(rows@[k]@),
            hv == cells_view(header@),
            hv.len() == header.len(),
            n == max_nat(hv.len(), longest_row(rv.take(r as int))),
        decreases rows.len() - r,
    {
        assert(rv.take(r + 1).drop_last() =~= rv.take(r as int));
        proof {
            lemma_cells_view(rows@[r as int]@);
        }
        if rows[r].len() > n {
            n = rows[r].len();
        }
        r += 1;
    }
    assert(rv.take(r as int) =~= rv);
    let mut weights: Vec<usize> = Vec::new();
    let mut col: usize = 0;
    while col < n
        invariant
            col <= n,
            n == column_count(hv, rv),
            rv == rows_view(rows@),
            rv.len() == rows.len(),
            forall|k: int| 0 <= k < rv.len() ==> #[trigger] rv[k] == cells_view(rows@[k]@),
            hv == cells_view(header@),
            weights@.len() == col,
            forall|c: int| 0 <= c < col ==> #[trigger] weights@[c] == column_weight(hv, rv, c),
        decreases n - col,
    {
        let mut longest = cell_length(header, col);
        let mut k: usize = 0;
        while k < rows.len()
            invariant
                k <= rows.len(),
                rv == rows_view(rows@),
                rv.len() == rows.len(),
                forall|j: int| 0 <= j < rv.len() ==> #[trigger] rv[j] == cells_view(rows@[j]@),
                longest == max_nat(cell_chars(hv, col as int), longest_in_column(rv.take(k as int), col as int)),
            decreases rows.len() - k,
        {
            assert(rv.take(k + 1).drop_last() =~= rv.take(k as int));
            let here = cell_length(&rows[k], col);
            if here > longest {
                longest = here;
            }
            k += 1;
        }
        assert(rv.take(k as int) =~= rv);
        if longest < MIN_COLUMN_CHARS {
            longest = MIN_COLUMN_CHARS;
        }
        weights.push(longest);
        col += 1;
    }
    weights
}

/// The text shown in place of an image that is not there: while it loads, or when it
/// failed with `failure`; the alternative text stands in when there is one.
pub open spec fn image_placeholder_of(alt: Seq<char>, failure: Option<Seq<char>>) -> Seq<char> {
    match failure {
        Some(reason) => if alt.len() == 0 {
            "[image failed: "@ + reason + "]"@
        } else {
            "["@ + alt + "]"@
        },
        None => if alt.len() == 0 {
            "[loading image…]"@
        } else {
            "[loading: "@ + alt + "]"@
        },
    }
}

/// The text shown in place of an image while it loads (`failure` is `None`) or after it
/// failed to load.
pub fn image_placeholder(alt: &str, failure: Option<&str>) -> (text: String)
    ensures
        text@ == image_placeholder_of(alt@, match failure {
            Some(f) => Some(f@),
            None => None,
        }),
{
    let alt_chars = chars_of(alt);
    let mut text = String::new();
    match failure {
        Some(reason) => {
            if alt_chars.len() == 0 {
                push_chars(&mut text, &chars_of("[image failed: "));
                push_chars(&mut text, &chars_of(reason));
            } else {
                push_chars(&mut text, &chars_of("["));
                push_chars(&mut text, &alt_chars);
            }
            push_chars(&mut text, &chars_of("]"));
        },
        None => {
            if alt_chars.len() == 0 {
                push_chars(&mut text, &chars_of("[loading image…]"));
            } else {
                push_chars(&mut text, &chars_of("[loading: "));
                push_chars(&mut text, &alt_chars);
                push_chars(&mut text, &chars_of("]"));
            }
        },
    }
    proof {
        assert(Seq::<char>::empty() + "[loading image…]"@ =~= "[loading image…]"@);
    }
    text
}

/// The decimal digits of a number, most significant first.
pub open spec fn decimal_of(n: nat) -> Seq<char>
    decreases n,
{
    if n < 10 {
        seq![((n + 48) as u8) as char]
    } else {
        decimal_of(n / 10) + seq![(((n % 10) + 48) as u8) as char]
    }
}

fn push_decimal(s: &mut String, n: u64)
    ensures
        final(s)@ == old(s)@ + decimal_of(n as nat),
    decreases n,
{
    if n >= 10 {
        push_decimal(s, n / 10);
    }
    let digit = ((n % 10) as u8 + 48) as char;
    push_char(s, digit);
    assert(final(s)@ == old(s)@ + decimal_of(n as nat)) by {
        if n >= 10 {
            assert(old(s)@ + decimal_of((n / 10) as nat) + seq![digit] =~= old(s)@ + decimal_of(n as nat));
        } else {
            assert(old(s)@ + seq![digit] =~= old(s)@ + decimal_of(n as nat));
        }
    }
}

/// The marker of a list item: its number and a full stop in an ordered list (counting from
/// `start`, or 1), else a tick for a done task, a circle for an open one, and a dot.
pub open spec fn list_marker_of(ordered: bool, start: Option<u64>, index: usize, checked: Option<bool>) -> Seq<char> {
    if ordered {
        decimal_of(((match start { Some(s) => s as int, None => 1int }) + index) as nat) + seq!['.']
    } else {
        match checked {
            Some(true) => seq!['✓'],
            Some(false) => seq!['○'],
            None => seq!['·'],
        }
    }
}

/// The marker drawn before list item `index`.
pub fn list_marker(ordered: bool, start: Option<u64>, index: usize, checked: Option<bool>) -> (marker: String)
    requires
        ordered ==> (match start { Some(s) => s as int, None => 1int }) + index <= u64::MAX,
    ensures
        marker@ == list_marker_of(ordered, start, index, checked),
{
    let mut marker = String::new();
    if ordered {
        let first: u64 = match start {
            Some(s) => s,
            None => 1,
        };
        push_decimal(&mut marker, first + index as u64);
        push_char(&mut marker, '.');
        assert(marker@ =~= list_marker_of(ordered, start, index, checked));
    } else {
        let c = match checked {
            Some(true) => '✓',
            Some(false) => '○',
            None => '·',
        };
        push_char(&mut marker, c);
        assert(marker@ =~= list_marker_of(ordered, start, index, checked));
    }
    marker
}

} // verus!

//! The viewer's decisions that hold no pixels: the search over blocks, the command palette,
//! the table of contents, which file to reload, and the Mermaid jobs of a document.
use vstd::prelude::*;

pub mod jobs;
pub mod keys;

use crate::config::{path_file_name, path_file_name_of, path_parent, path_parent_of, Config};
use crate::document::model::{
    block_view, blocks_view, inlines_view, lemma_blocks_view, lemma_items_view, lemma_block_lists_view,
    lemma_definition_items_view, items_view, block_lists_view, definition_items_view, plain_text,
    plain_text_of, Block, BlockV, Document, ListItem, ListItemV, DefinitionListItem, DefinitionListItemV, cells_view, rows_view, lemma_cells_view, lemma_rows_view, Inline, InlineV,
};
use crate::input::{
    open_selected_spec, select_target_spec, DocumentJump, MermaidViewportCommand, NavModel,
    NavigationMode, NavigationState,
};
use crate::render::settings::MarkdownPreset;
use crate::mermaid::cache::{mermaid_key_of, MermaidCache};
use crate::mermaid::renderer::{MermaidRenderState, RasterImage};
use crate::document::model::{render_state_view, DocumentV, RenderStateV};
use crate::document::cmark::cmark_source_events;
use crate::document::parser::{markdown_document, parse_markdown, parse_options};
use vstd::string::StringSliceAdditionalSpecFns;
use crate::text::{
    strings_view, chars_of, contains, contains_seq, lowercase_of, string_from_range, to_lowercase, trim, trim_seq,
};

verus! {

#[derive(Debug, Clone)]
pub struct AppOptions {
    pub render_mermaid: bool,
    pub cursor_file: Option<String>,
    pub content_file: Option<String>,
}

/// The file a reload reads: the editor's content snapshot when there is one, else the document.
pub fn reload_path<'a>(config: &'a Config, options: &'a AppOptions) -> (p: &'a String)
    ensures
        p@ == match options.content_file {
            Some(file) => file@,
            None => config.path_of(),
        },
{
    match &options.content_file {
        Some(file) => file,
        None => config.path(),
    }
}

/// What `Path == Path` says of two paths: whether their components are equal.
pub uninterp spec fn paths_equal(a: Seq<char>, b: Seq<char>) -> bool;

/// Compares two paths with `Path`'s equality; the answer is named `paths_equal`.
#[verifier::external_body]
fn path_eq(a: &str, b: &str) -> (r: bool)
    ensures
        r == paths_equal(a@, b@),
{
    std::path::Path::new(a) == std::path::Path::new(b)
}

/// Whether two paths have equal parents, or both have none.
pub open spec fn same_parent(a: Seq<char>, b: Seq<char>) -> bool {
    match (path_parent_of(a), path_parent_of(b)) {
        (Some(x), Some(y)) => paths_equal(x, y),
        (None, None) => true,
        _ => false,
    }
}

/// Whether a changed path reported by the watcher is the file being previewed: the same path,
/// or the same file name in the same directory.
pub open spec fn same_file(event_path: Seq<char>, target_path: Seq<char>) -> bool {
    paths_equal(event_path, target_path) || (path_file_name_of(event_path) is Some
        && path_file_name_of(event_path) == path_file_name_of(target_path)
        && same_parent(event_path, target_path))
}

pub fn same_file_event(event_path: &str, target_path: &str) -> (b: bool)
    ensures
        b == same_file(event_path@, target_path@),
{
    if path_eq(event_path, target_path) {
        return true;
    }
    let event_name = path_file_name(event_path);
    let target_name = path_file_name(target_path);
    let names_match = match (&event_name, &target_name) {
        (Some(a), Some(b)) => a.eq(b),
        _ => false,
    };
    if !names_match {
        return false;
    }
    match (path_parent(event_path), path_parent(target_path)) {
        (Some(a), Some(b)) => path_eq(a.as_str(), b.as_str()),
        (None, None) => true,
        _ => false,
    }
}

/// Whether any of the paths the watcher reported changed is the previewed file.
pub fn any_same_file(paths: &Vec<String>, target_path: &str) -> (b: bool)
    ensures
        b == exists|i: int| 0 <= i < paths@.len() && #[trigger] same_file(paths@[i]@, target_path@),
{
    let mut k: usize = 0;
    while k < paths.len()
        invariant
            k <= paths.len(),
            forall|i: int| 0 <= i < k ==> !#[trigger] same_file(paths@[i]@, target_path@),
        decreases paths.len() - k,
    {
        if same_file_event(paths[k].as_str(), target_path) {
            return true;
        }
        k += 1;
    }
    false
}

/// How long the viewer waits after a change of the file before it reloads, in milliseconds.
pub const RELOAD_DEBOUNCE_MS: u64 = 200;

/// The wait for a reload after the watcher's report at time `now_ms`, and whether to reload
/// now: a change of the file starts the wait again, and a wait that has lasted
/// `RELOAD_DEBOUNCE_MS` ends in a reload.
pub open spec fn reload_decision(pending_since: Option<u64>, changed: bool, now_ms: u64) -> (Option<u64>, bool) {
    let pending = if changed { Some(now_ms) } else { pending_since };
    match pending {
        Some(at) => if now_ms >= at && now_ms - at >= RELOAD_DEBOUNCE_MS {
            (None, true)
        } else {
            (pending, false)
        },
        None => (None, false),
    }
}

/// Decides a reload from the watcher's report at time `now_ms`: a change of the previewed
/// file starts the wait again; once the wait has lasted `RELOAD_DEBOUNCE_MS`, the document
/// reloads and the wait ends.
pub fn reload_step(pending_since: &mut Option<u64>, changed: bool, now_ms: u64) -> (reload: bool)
    ensures
        (*final(pending_since), reload) == reload_decision(*old(pending_since), changed, now_ms),
{
    if changed {
        *pending_since = Some(now_ms);
    }
    match *pending_since {
        Some(at) => if now_ms >= at && now_ms - at >= RELOAD_DEBOUNCE_MS {
            *pending_since = None;
            true
        } else {
            false
        },
        None => false,
    }
}

/// A change of the file never reloads at once: the reload waits for the debounce time
/// after the last change.
pub proof fn lemma_change_postpones_reload(pending_since: Option<u64>, now_ms: u64)
    ensures
        reload_decision(pending_since, true, now_ms) == (Some(now_ms), false),
{
}



// ===================== search =====================

/// Whether the lower-cased text of some cell holds the query.
pub open spec fn cells_match(cells: Seq<Seq<InlineV>>, q: Seq<char>) -> bool {
    exists|k: int| 0 <= k < cells.len() && contains_seq(lowercase_of(plain_text_of(#[trigger] cells[k])), q)
}

/// Whether some cell of some row holds the query.
pub open spec fn rows_match(rows: Seq<Seq<Seq<InlineV>>>, q: Seq<char>) -> bool {
    exists|k: int| 0 <= k < rows.len() && cells_match(#[trigger] rows[k], q)
}

/// Whether a block holds the (lower-case) query: in the lower-cased text of a heading or
/// paragraph, the lower-cased code of a code block, the lower-cased text of a header or body
/// cell of a table, the lower-cased source of a Mermaid diagram, or any block of a list or
/// quote.
pub open spec fn block_matches(b: BlockV, q: Seq<char>) -> bool
    decreases b,
{
    match b {
        BlockV::Heading { content, .. } => contains_seq(lowercase_of(plain_text_of(content)), q),
        BlockV::Paragraph { content } => contains_seq(lowercase_of(plain_text_of(content)), q),
        BlockV::CodeBlock { code, .. } => contains_seq(lowercase_of(code), q),
        BlockV::Table { header, rows, .. } => cells_match(header, q) || rows_match(rows, q),
        BlockV::Mermaid { source, .. } => contains_seq(lowercase_of(source), q),
        BlockV::List { items, .. } => items_match(items, q),
        BlockV::Quote { blocks } => blocks_match(blocks, q),
        _ => false,
    }
}

pub open spec fn blocks_match(s: Seq<BlockV>, q: Seq<char>) -> bool
    decreases s,
{
    s.len() > 0 && (blocks_match(s.drop_last(), q) || block_matches(s.last(), q))
}

pub open spec fn items_match(s: Seq<ListItemV>, q: Seq<char>) -> bool
    decreases s,
{
    s.len() > 0 && (items_match(s.drop_last(), q) || blocks_match(s.last().blocks, q))
}

proof fn lemma_blocks_match(s: Seq<BlockV>, q: Seq<char>)
    ensures
        blocks_match(s, q) <==> exists|k: int| 0 <= k < s.len() && #[trigger] block_matches(s[k], q),
    decreases s.len(),
{
    if s.len() > 0 {
        lemma_blocks_match(s.drop_last(), q);
        if blocks_match(s.drop_last(), q) {
            let k = choose|k: int| 0 <= k < s.drop_last().len() && #[trigger] block_matches(s.drop_last()[k], q);
            assert(s.drop_last()[k] == s[k]);
            assert(block_matches(s[k], q));
        }
        if block_matches(s.last(), q) {
            assert(block_matches(s[s.len() - 1], q));
        }
        if exists|k: int| 0 <= k < s.len() && #[trigger] block_matches(s[k], q) {
            let k = choose|k: int| 0 <= k < s.len() && #[trigger] block_matches(s[k], q);
            if k < s.len() - 1 {
                assert(s.drop_last()[k] == s[k]);
                assert(block_matches(s.drop_last()[k], q));
            }
        }
    }
}

proof fn lemma_items_match(s: Seq<ListItemV>, q: Seq<char>)
    ensures
        items_match(s, q) <==> exists|k: int| 0 <= k < s.len() && #[trigger] blocks_match(s[k].blocks, q),
    decreases s.len(),
{
    if s.len() > 0 {
        lemma_items_match(s.drop_last(), q);
        if items_match(s.drop_last(), q) {
            let k = choose|k: int| 0 <= k < s.drop_last().len() && #[trigger] blocks_match(s.drop_last()[k].blocks, q);
            assert(s.drop_last()[k] == s[k]);
            assert(blocks_match(s[k].blocks, q));
        }
        if blocks_match(s.last().blocks, q) {
            assert(blocks_match(s[s.len() - 1].blocks, q));
        }
        if exists|k: int| 0 <= k < s.len() && #[trigger] blocks_match(s[k].blocks, q) {
            let k = choose|k: int| 0 <= k < s.len() && #[trigger] blocks_match(s[k].blocks, q);
            if k < s.len() - 1 {
                assert(s.drop_last()[k] == s[k]);
                assert(blocks_match(s.drop_last()[k].blocks, q));
            }
        }
    }
}

fn blocks_contain_query(blocks: &Vec<Block>, query: &str) -> (b: bool)
    ensures
        b == blocks_match(blocks_view(blocks@), query@),
    decreases blocks@,
{
    proof {
        lemma_blocks_view(blocks@);
        lemma_blocks_match(blocks_view(blocks@), query@);
    }
    let ghost matched = blocks_match(blocks_view(blocks@), query@);
    let mut i: usize = 0;
    while i < blocks.len()
        invariant
            i <= blocks.len(),
            blocks_view(blocks@).len() == blocks.len(),
            forall|k: int| 0 <= k < blocks.len() ==> #[trigger] blocks_view(blocks@)[k] == block_view(blocks@[k]),
            forall|k: int| 0 <= k < i ==> !block_matches(#[trigger] blocks_view(blocks@)[k], query@),
            matched == blocks_match(blocks_view(blocks@), query@),
            matched <==> exists|k: int| 0 <= k < blocks_view(blocks@).len() && #[trigger] block_matches(blocks_view(blocks@)[k], query@),
        decreases blocks.len() - i,
    {
        assert(decreases_to!(blocks@ => blocks@[i as int]));
        if block_contains_query(&blocks[i], query) {
            assert(block_matches(blocks_view(blocks@)[i as int], query@));
            return true;
        }
        i += 1;
    }
    false
}

fn items_contain_query(items: &Vec<ListItem>, query: &str) -> (b: bool)
    ensures
        b == items_match(items_view(items@), query@),
    decreases items@,
{
    proof {
        lemma_items_view(items@);
        lemma_items_match(items_view(items@), query@);
    }
    let ghost matched = items_match(items_view(items@), query@);
    let mut i: usize = 0;
    while i < items.len()
        invariant
            i <= items.len(),
            items_view(items@).len() == items.len(),
            forall|k: int| 0 <= k < items.len() ==> (#[trigger] items_view(items@)[k]).blocks == blocks_view(items@[k].blocks@),
            forall|k: int| 0 <= k < i ==> !blocks_match(#[trigger] items_view(items@)[k].blocks, query@),
            matched == items_match(items_view(items@), query@),
            matched <==> exists|k: int| 0 <= k < items_view(items@).len() && #[trigger] blocks_match(items_view(items@)[k].blocks, query@),
        decreases items.len() - i,
    {
        assert(decreases_to!(items@ => items@[i as int]));
        if blocks_contain_query(&items[i].blocks, query) {
            assert(blocks_match(items_view(items@)[i as int].blocks, query@));
            return true;
        }
        i += 1;
    }
    false
}

fn cells_contain_query(cells: &Vec<Vec<Inline>>, query: &str) -> (b: bool)
    ensures
        b == cells_match(cells_view(cells@), query@),
{
    proof {
        lemma_cells_view(cells@);
    }
    let mut i: usize = 0;
    while i < cells.len()
        invariant
            i <= cells.len(),
            cells_view(cells@).len() == cells.len(),
            forall|k: int| 0 <= k < cells.len() ==> #[trigger] cells_view(cells@)[k] == inlines_view(cells@[k]@),
            forall|k: int| 0 <= k < i ==> !contains_seq(lowercase_of(plain_text_of(#[trigger] cells_view(cells@)[k])), query@),
        decreases cells.len() - i,
    {
        let text = plain_text(cells[i].as_slice());
        let lower = to_lowercase(text.as_str());
        if contains(lower.as_str(), query) {
            assert(contains_seq(lowercase_of(plain_text_of(cells_view(cells@)[i as int])), query@));
            return true;
        }
        i += 1;
    }
    false
}

fn rows_contain_query(rows: &Vec<Vec<Vec<Inline>>>, query: &str) -> (b: bool)
    ensures
        b == rows_match(rows_view(rows@), query@),
{
    proof {
        lemma_rows_view(rows@);
    }
    let mut i: usize = 0;
    while i < rows.len()
        invariant
            i <= rows.len(),
            rows_view(rows@).len() == rows.len(),
            forall|k: int| 0 <= k < rows.len() ==> #[trigger] rows_view(rows@)[k] == cells_view(rows@[k]@),
            forall|k: int| 0 <= k < i ==> !cells_match(#[trigger] rows_view(rows@)[k], query@),
        decreases rows.len() - i,
    {
        if cells_contain_query(&rows[i], query) {
            assert(cells_match(rows_view(rows@)[i as int], query@));
            return true;
        }
        i += 1;
    }
    false
}

/// Whether `block` holds the lower-case `query`.
pub fn block_contains_query(block: &Block, query: &str) -> (b: bool)
    ensures
        b == block_matches(block_view(*block), query@),
    decreases block,
{
    match block {
        Block::Heading { content, .. } | Block::Paragraph { content } => {
            let text = plain_text(content.as_slice());
            let lower = to_lowercase(text.as_str());
            contains(lower.as_str(), query)
        },
        Block::CodeBlock { code, .. } => {
            let lower = to_lowercase(code.as_str());
            contains(lower.as_str(), query)
        },
        Block::Table { header, rows, .. } => {
            cells_contain_query(header, query) || rows_contain_query(rows, query)
        },
        Block::Mermaid { source, .. } => {
            let lower = to_lowercase(source.as_str());
            contains(lower.as_str(), query)
        },
        Block::List { items, .. } => items_contain_query(items, query),
        Block::Quote { blocks } => {
            assert(decreases_to!(*block => *blocks));
            blocks_contain_query(blocks, query)
        },
        _ => false,
    }
}

/// The indices of the blocks that hold the lower-case query.
pub open spec fn matching_indices(blocks: Seq<BlockV>, q: Seq<char>) -> Seq<usize>
    decreases blocks.len(),
{
    if blocks.len() == 0 {
        seq![]
    } else {
        matching_indices(blocks.drop_last(), q) + if block_matches(blocks.last(), q) {
            seq![(blocks.len() - 1) as usize]
        } else {
            seq![]
        }
    }
}

/// The search bar: its query, the blocks that match it and the one selected.
#[derive(Debug, Default)]
pub struct SearchState {
    pub active: bool,
    pub query: String,
    pub matches: Vec<usize>,
    pub selected: usize,
    pub request_focus: bool,
}

impl SearchState {
    pub fn open(&mut self)
        ensures
            final(self).active,
            final(self).request_focus,
            final(self).query@ == old(self).query@,
            final(self).matches@ == old(self).matches@,
            final(self).selected == old(self).selected,
    {
        self.active = true;
        self.request_focus = true;
    }

    pub fn close(&mut self)
        ensures
            !final(self).active,
            final(self).query@.len() == 0,
            final(self).matches@.len() == 0,
            final(self).selected == 0,
            final(self).request_focus == old(self).request_focus,
    {
        self.active = false;
        self.query = String::new();
        self.matches.clear();
        self.selected = 0;
    }

    /// Finds the blocks of `document` that hold the query, ignoring case; the first is selected.
    pub fn update_matches(&mut self, document: &Document)
        ensures
            final(self).matches@ == if old(self).query@.len() == 0 {
                Seq::<usize>::empty()
            } else {
                matching_indices(blocks_view(document.blocks@), lowercase_of(old(self).query@))
            },
            final(self).selected == 0,
            final(self).query@ == old(self).query@,
            final(self).active == old(self).active,
            final(self).request_focus == old(self).request_focus,
    {
        self.matches.clear();
        self.selected = 0;
        if self.query.as_str().is_empty() {
            return;
        }
        let q = to_lowercase(self.query.as_str());
        let ghost bv = blocks_view(document.blocks@);
        proof {
            lemma_blocks_view(document.blocks@);
        }
        let mut i: usize = 0;
        while i < document.blocks.len()
            invariant
                i <= document.blocks.len(),
                bv == blocks_view(document.blocks@),
                bv.len() == document.blocks.len(),
                forall|k: int| 0 <= k < bv.len() ==> #[trigger] bv[k] == block_view(document.blocks@[k]),
                self.matches@ == matching_indices(bv.take(i as int), q@),
                self.selected == 0,
                self.query@ == old(self).query@,
                self.active == old(self).active,
                self.request_focus == old(self).request_focus,
            decreases document.blocks.len() - i,
        {
            assert(bv.take(i + 1).drop_last() =~= bv.take(i as int));
            assert(bv.take(i + 1).last() == bv[i as int]);
            if block_contains_query(&document.blocks[i], q.as_str()) {
                self.matches.push(i);
            }
            i += 1;
        }
        assert(bv.take(i as int) =~= bv);
    }

    /// The block of the selected match.
    pub fn current_match(&self) -> (m: Option<usize>)
        ensures
            m == if self.selected < self.matches@.len() {
                Some(self.matches@[self.selected as int])
            } else {
                None
            },
    {
        if self.selected < self.matches.len() {
            Some(self.matches[self.selected])
        } else {
            None
        }
    }

    /// Selects the next match, after the last the first.
    pub fn next(&mut self)
        ensures
            final(self).selected == if old(self).matches@.len() > 0 {
                ((old(self).selected + 1) % (old(self).matches@.len() as int)) as usize
            } else {
                old(self).selected
            },
            final(self).matches@ == old(self).matches@,
            final(self).query@ == old(self).query@,
            final(self).active == old(self).active,
            final(self).request_focus == old(self).request_focus,
    {
        let n = self.matches.len();
        if n > 0 {
            self.selected = step_forward(self.selected, n);
        }
    }

    /// Selects the previous match, before the first the last.
    pub fn prev(&mut self)
        ensures
            final(self).selected == if old(self).matches@.len() > 0 {
                ((old(self).selected + old(self).matches@.len() - 1) % (old(self).matches@.len() as int)) as usize
            } else {
                old(self).selected
            },
            final(self).matches@ == old(self).matches@,
            final(self).query@ == old(self).query@,
            final(self).active == old(self).active,
            final(self).request_focus == old(self).request_focus,
    {
        let n = self.matches.len();
        if n > 0 {
            self.selected = step_back(self.selected, n);
        }
    }
}

/// The position before `selected` among `n`, counted round: `(selected + n - 1) % n`.
pub fn step_back(selected: usize, n: usize) -> (r: usize)
    requires
        n > 0,
    ensures
        r == (selected + n - 1) % (n as int),
{
    let m = selected % n;
    proof {
        vstd::arithmetic::div_mod::lemma_add_mod_noop(selected as int, (n - 1) as int, n as int);
        vstd::arithmetic::div_mod::lemma_small_mod((n - 1) as nat, n as nat);
        vstd::arithmetic::div_mod::lemma_small_mod(m as nat, n as nat);
        if m > 0 {
            assert((m + (n - 1)) % (n as int) == m - 1) by {
                vstd::arithmetic::div_mod::lemma_fundamental_div_mod_converse(
                    (m + n - 1) as int, n as int, 1, (m - 1) as int);
            }
        } else {
            vstd::arithmetic::div_mod::lemma_small_mod((n - 1) as nat, n as nat);
        }
    }
    if m == 0 {
        n - 1
    } else {
        m - 1
    }
}

/// The position after `selected` among `n`, counted round: `(selected + 1) % n`.
pub fn step_forward(selected: usize, n: usize) -> (r: usize)
    requires
        n > 0,
    ensures
        r == (selected + 1) % (n as int),
{
    let m = selected % n;
    proof {
        vstd::arithmetic::div_mod::lemma_add_mod_noop(selected as int, 1, n as int);
        vstd::arithmetic::div_mod::lemma_mod_twice(selected as int, n as int);
        if n > 1 {
            vstd::arithmetic::div_mod::lemma_small_mod(1, n as nat);
        } else {
            assert(1int % 1 == 0);
        }
        vstd::arithmetic::div_mod::lemma_mod_bound(selected as int, n as int);
    }
    (m + 1) % n
}


// ===================== command palette =====================

#[derive(Debug, Default)]
pub struct CommandPalette {
    pub open: bool,
    pub query: String,
    pub selected: usize,
    pub request_focus: bool,
    pub status: Option<String>,
}

impl CommandPalette {
    pub fn open(&mut self)
        ensures
            final(self).open,
            final(self).query@.len() == 0,
            final(self).selected == 0,
            final(self).request_focus,
            final(self).status is None,
    {
        self.open = true;
        self.query = String::new();
        self.selected = 0;
        self.request_focus = true;
        self.status = None;
    }

    pub fn close(&mut self)
        ensures
            !final(self).open,
            final(self).query@.len() == 0,
            final(self).selected == 0,
            final(self).request_focus == old(self).request_focus,
            final(self).status is None,
    {
        self.open = false;
        self.query = String::new();
        self.selected = 0;
        self.status = None;
    }
}

#[derive(Debug, Clone, Copy, PartialEq, Eq, Structural)]
pub enum PaletteCommand {
    Help,
    Settings,
    Reload,
    Top,
    Bottom,
    MermaidNext,
    MermaidPrevious,
    MermaidOpen,
    Fit,
    ZoomIn,
    ZoomOut,
    Toc,
    Search,
    ToggleTheme,
    Quit,
}

#[derive(Debug, Clone, Copy)]
pub struct PaletteEntry {
    pub name: &'static str,
    pub description: &'static str,
    pub command: PaletteCommand,
}

/// The commands of the palette, in the order they are listed.
pub open spec fn palette_table() -> Seq<PaletteEntry> {
    seq![
        PaletteEntry { name: "help", description: "show commands and keyboard shortcuts", command: PaletteCommand::Help },
        PaletteEntry { name: "settings", description: "toggle viewer settings", command: PaletteCommand::Settings },
        PaletteEntry { name: "reload", description: "reload the current Markdown document", command: PaletteCommand::Reload },
        PaletteEntry { name: "top", description: "scroll to the start of the document", command: PaletteCommand::Top },
        PaletteEntry { name: "bottom", description: "scroll to the end of the document", command: PaletteCommand::Bottom },
        PaletteEntry { name: "mnext", description: "select the next Mermaid diagram", command: PaletteCommand::MermaidNext },
        PaletteEntry { name: "mprev", description: "select the previous Mermaid diagram", command: PaletteCommand::MermaidPrevious },
        PaletteEntry { name: "mopen", description: "open or enlarge the selected Mermaid diagram", command: PaletteCommand::MermaidOpen },
        PaletteEntry { name: "fit", description: "fit the selected Mermaid diagram", command: PaletteCommand::Fit },
        PaletteEntry { name: "zoom-in", description: "zoom into the selected Mermaid diagram", command: PaletteCommand::ZoomIn },
        PaletteEntry { name: "zoom-out", description: "zoom out of the selected Mermaid diagram", command: PaletteCommand::ZoomOut },
        PaletteEntry { name: "toc", description: "toggle the table of contents sidebar", command: PaletteCommand::Toc },
        PaletteEntry { name: "search", description: "search within the document", command: PaletteCommand::Search },
        PaletteEntry { name: "theme", description: "toggle between dark and light theme", command: PaletteCommand::ToggleTheme },
        PaletteEntry { name: "q", description: "close the viewer window", command: PaletteCommand::Quit },
    ]
}

/// The commands of the palette.
pub fn palette_entries() -> (entries: Vec<PaletteEntry>)
    ensures
        entries@ == palette_table(),
{
    let mut entries: Vec<PaletteEntry> = Vec::new();
    entries.push(PaletteEntry { name: "help", description: "show commands and keyboard shortcuts", command: PaletteCommand::Help });
    entries.push(PaletteEntry { name: "settings", description: "toggle viewer settings", command: PaletteCommand::Settings });
    entries.push(PaletteEntry { name: "reload", description: "reload the current Markdown document", command: PaletteCommand::Reload });
    entries.push(PaletteEntry { name: "top", description: "scroll to the start of the document", command: PaletteCommand::Top });
    entries.push(PaletteEntry { name: "bottom", description: "scroll to the end of the document", command: PaletteCommand::Bottom });
    entries.push(PaletteEntry { name: "mnext", description: "select the next Mermaid diagram", command: PaletteCommand::MermaidNext });
    entries.push(PaletteEntry { name: "mprev", description: "select the previous Mermaid diagram", command: PaletteCommand::MermaidPrevious });
    entries.push(PaletteEntry { name: "mopen", description: "open or enlarge the selected Mermaid diagram", command: PaletteCommand::MermaidOpen });
    entries.push(PaletteEntry { name: "fit", description: "fit the selected Mermaid diagram", command: PaletteCommand::Fit });
    entries.push(PaletteEntry { name: "zoom-in", description: "zoom into the selected Mermaid diagram", command: PaletteCommand::ZoomIn });
    entries.push(PaletteEntry { name: "zoom-out", description: "zoom out of the selected Mermaid diagram", command: PaletteCommand::ZoomOut });
    entries.push(PaletteEntry { name: "toc", description: "toggle the table of contents sidebar", command: PaletteCommand::Toc });
    entries.push(PaletteEntry { name: "search", description: "search within the document", command: PaletteCommand::Search });
    entries.push(PaletteEntry { name: "theme", description: "toggle between dark and light theme", command: PaletteCommand::ToggleTheme });
    entries.push(PaletteEntry { name: "q", description: "close the viewer window", command: PaletteCommand::Quit });
    assert(entries@ =~= palette_table());
    entries
}

/// `s` without its leading colons.
pub open spec fn strip_colons(s: Seq<char>) -> Seq<char>
    decreases s.len(),
{
    if s.len() > 0 && s[0] == ':' {
        strip_colons(s.drop_first())
    } else {
        s
    }
}

/// The palette query as it is matched: trimmed, without leading colons, in lower case.
pub open spec fn palette_query(query: Seq<char>) -> Seq<char> {
    lowercase_of(strip_colons(trim_seq(query)))
}

/// Whether a command matches a prepared query: by name, or by its lower-cased description.
pub open spec fn entry_matches(e: PaletteEntry, q: Seq<char>) -> bool {
    q.len() == 0 || contains_seq(e.name@, q) || contains_seq(lowercase_of(e.description@), q)
}

/// The entries of `s` that match `q`, in order.
pub open spec fn matching_entries(s: Seq<PaletteEntry>, q: Seq<char>) -> Seq<PaletteEntry>
    decreases s.len(),
{
    if s.len() == 0 {
        seq![]
    } else {
        matching_entries(s.drop_last(), q) + if entry_matches(s.last(), q) {
            seq![s.last()]
        } else {
            seq![]
        }
    }
}

proof fn lemma_strip_colons(s: Seq<char>, i: int)
    requires
        0 <= i <= s.len(),
        forall|j: int| 0 <= j < i ==> s[j] == ':',
    ensures
        strip_colons(s) == strip_colons(s.subrange(i, s.len() as int)),
    decreases i,
{
    if i == 0 {
        assert(s.subrange(0, s.len() as int) =~= s);
    } else {
        let t = s.drop_first();
        assert forall|j: int| 0 <= j < i - 1 implies t[j] == ':' by {
            assert(t[j] == s[j + 1]);
        }
        lemma_strip_colons(t, i - 1);
        assert(t.subrange(i - 1, t.len() as int) =~= s.subrange(i, s.len() as int));
    }
}

/// The query with its leading colons removed, as `str::trim_start_matches(':')` gives it.
fn trim_leading_colons(s: &str) -> (r: String)
    ensures
        r@ == strip_colons(s@),
{
    let chars = chars_of(s);
    let mut i: usize = 0;
    while i < chars.len() && chars[i] == ':'
        invariant
            i <= chars.len(),
            chars@ == s@,
            forall|j: int| 0 <= j < i ==> chars@[j] == ':',
        decreases chars.len() - i,
    {
        i += 1;
    }
    proof {
        lemma_strip_colons(chars@, i as int);
        let rest = chars@.subrange(i as int, chars.len() as int);
        if rest.len() > 0 {
            assert(rest[0] == chars@[i as int]);
        }
    }
    string_from_range(&chars, i, chars.len())
}

proof fn lemma_all_entries_match(s: Seq<PaletteEntry>, q: Seq<char>)
    requires
        q.len() == 0,
    ensures
        matching_entries(s, q) == s,
    decreases s.len(),
{
    if s.len() > 0 {
        lemma_all_entries_match(s.drop_last(), q);
        assert(s.drop_last() + seq![s.last()] =~= s);
    }
}

/// A run that occurs in a run of `s` occurs in `s`.
proof fn lemma_contains_transitive(s: Seq<char>, mid: Seq<char>, q: Seq<char>)
    requires
        contains_seq(s, mid),
        contains_seq(mid, q),
    ensures
        contains_seq(s, q),
{
    let i = choose|i: int| 0 <= i && i + mid.len() <= s.len() && #[trigger] s.subrange(i, i + mid.len()) == mid;
    let j = choose|j: int| 0 <= j && j + q.len() <= mid.len() && #[trigger] mid.subrange(j, j + q.len()) == q;
    assert(s.subrange(i + j, i + j + q.len()) =~= mid.subrange(j, j + q.len()));
}

/// The palette keeps only commands that match the query, each taken from the table.
pub proof fn lemma_kept_entries_match(s: Seq<PaletteEntry>, q: Seq<char>)
    ensures
        forall|k: int| 0 <= k < matching_entries(s, q).len() ==> entry_matches(#[trigger] matching_entries(s, q)[k], q)
            && s.contains(matching_entries(s, q)[k]),
    decreases s.len(),
{
    if s.len() > 0 {
        lemma_kept_entries_match(s.drop_last(), q);
        let m = matching_entries(s, q);
        let before = matching_entries(s.drop_last(), q);
        assert forall|k: int| 0 <= k < m.len() implies entry_matches(#[trigger] m[k], q) && s.contains(m[k]) by {
            if k < before.len() {
                assert(m[k] == before[k]);
                let j = choose|j: int| 0 <= j < s.drop_last().len() && s.drop_last()[j] == before[k];
                assert(s[j] == before[k]);
            } else {
                assert(m[k] == s.last());
                assert(s[s.len() - 1] == s.last());
            }
        }
    }
}

/// Narrowing a query never brings a command back: a command a query selects is selected by
/// every part of that query.
pub proof fn lemma_query_part_keeps_entry(e: PaletteEntry, part: Seq<char>, query: Seq<char>)
    requires
        contains_seq(query, part),
        entry_matches(e, query),
    ensures
        entry_matches(e, part),
{
    if part.len() > 0 {
        if contains_seq(e.name@, query) {
            lemma_contains_transitive(e.name@, query, part);
        } else {
            lemma_contains_transitive(lowercase_of(e.description@), query, part);
        }
    }
}

/// A colon before a query, as the palette's prompt shows it, selects the same commands as
/// the query alone, for a query that does not begin with white space.
pub proof fn lemma_leading_colon_ignored(query: Seq<char>)
    requires
        query.len() == 0 || !crate::text::is_white_space(query[0]),
    ensures
        palette_query(seq![':'] + query) == palette_query(query),
{
    let with = seq![':'] + query;
    assert(with[0] == ':');
    assert(crate::text::trim_start_seq(with) == with);
    assert(crate::text::trim_start_seq(query) == query);
    crate::text::lemma_trim_end_prepend(':', query);
    let t = crate::text::trim_end_seq(query);
    assert((seq![':'] + t).drop_first() =~= t);
    assert(strip_colons(seq![':'] + t) == strip_colons(t));
}

/// The palette commands a query selects, ignoring case and leading colons.
pub fn filtered_palette_entries(query: &str) -> (r: Vec<PaletteEntry>)
    ensures
        r@ == matching_entries(palette_table(), palette_query(query@)),
        strip_colons(trim_seq(query@)).len() == 0 ==> r@ == palette_table(),
{
    let trimmed = trim(query);
    let stripped = trim_leading_colons(trimmed.as_str());
    let q = to_lowercase(stripped.as_str());
    let all = palette_entries();
    let mut r: Vec<PaletteEntry> = Vec::new();
    let mut i: usize = 0;
    while i < all.len()
        invariant
            i <= all.len(),
            all@ == palette_table(),
            q@ == palette_query(query@),
            r@ == matching_entries(all@.take(i as int), q@),
        decreases all.len() - i,
    {
        assert(all@.take(i + 1).drop_last() =~= all@.take(i as int));
        assert(all@.take(i + 1).last() == all@[i as int]);
        let entry = all[i];
        let matches = q.as_str().is_empty() || contains(entry.name, q.as_str()) || {
            let description = to_lowercase(entry.description);
            contains(description.as_str(), q.as_str())
        };
        if matches {
            r.push(entry);
        }
        i += 1;
    }
    assert(all@.take(i as int) =~= all@);
    proof {
        if stripped@.len() == 0 {
            lemma_all_entries_match(palette_table(), q@);
        }
    }
    r
}

// ===================== table of contents =====================

#[derive(Debug, Clone)]
pub struct TocEntry {
    pub block_index: usize,
    pub level: u8,
    pub text: String,
}

/// The headings of a block sequence: their index, level and plain text.
pub open spec fn toc_of(blocks: Seq<BlockV>) -> Seq<(usize, u8, Seq<char>)>
    decreases blocks.len(),
{
    if blocks.len() == 0 {
        seq![]
    } else {
        toc_of(blocks.drop_last()) + match blocks.last() {
            BlockV::Heading { level, content, .. } => seq![((blocks.len() - 1) as usize, level, plain_text_of(content))],
            _ => seq![],
        }
    }
}

/// The table of contents lists every heading, of any level, once and in order: each entry
/// names a heading block by its index, with that heading's level and plain text, the indices
/// rise, and every heading block has an entry.
pub proof fn lemma_toc_lists_every_heading(blocks: Seq<BlockV>)
    requires
        blocks.len() <= usize::MAX,
    ensures
        forall|k: int| 0 <= k < toc_of(blocks).len() ==> {
            let e = #[trigger] toc_of(blocks)[k];
            &&& e.0 < blocks.len()
            &&& blocks[e.0 as int] is Heading
            &&& blocks[e.0 as int]->Heading_level == e.1
            &&& plain_text_of(blocks[e.0 as int]->Heading_content) == e.2
        },
        forall|k1: int, k2: int|
            0 <= k1 < k2 < toc_of(blocks).len() ==> (#[trigger] toc_of(blocks)[k1]).0 < (#[trigger] toc_of(blocks)[k2]).0,
        forall|i: int|
            0 <= i < blocks.len() && (#[trigger] blocks[i]) is Heading ==> exists|k: int|
                0 <= k < toc_of(blocks).len() && (#[trigger] toc_of(blocks)[k]).0 == i,
    decreases blocks.len(),
{
    if blocks.len() > 0 {
        let prev = blocks.drop_last();
        lemma_toc_lists_every_heading(prev);
        let t = toc_of(prev);
        let r = toc_of(blocks);
        let n = blocks.len() - 1;
        assert(forall|i: int| 0 <= i < prev.len() ==> prev[i] == blocks[i]);
        assert forall|k: int| 0 <= k < r.len() implies {
            let e = #[trigger] r[k];
            &&& e.0 < blocks.len()
            &&& blocks[e.0 as int] is Heading
            &&& blocks[e.0 as int]->Heading_level == e.1
            &&& plain_text_of(blocks[e.0 as int]->Heading_content) == e.2
        } by {
            if k < t.len() {
                assert(r[k] == t[k]);
            } else {
                assert(r[k].0 == n);
            }
        }
        assert forall|k1: int, k2: int| 0 <= k1 < k2 < r.len() implies (#[trigger] r[k1]).0 < (#[trigger] r[k2]).0 by {
            if k2 < t.len() {
                assert(r[k1] == t[k1] && r[k2] == t[k2]);
            } else {
                assert(r[k1] == t[k1]);
                assert(t[k1].0 < prev.len());
            }
        }
        assert forall|i: int| 0 <= i < blocks.len() && (#[trigger] blocks[i]) is Heading implies exists|k: int|
            0 <= k < r.len() && (#[trigger] r[k]).0 == i by {
            if i < n {
                assert(prev[i] is Heading);
                let k = choose|k: int| 0 <= k < t.len() && (#[trigger] t[k]).0 == i;
                assert(r[k] == t[k]);
            } else {
                assert(r[t.len() as int].0 == n);
            }
        }
    }
}

pub open spec fn toc_view(entries: Seq<TocEntry>) -> Seq<(usize, u8, Seq<char>)> {
    entries.map_values(|e: TocEntry| (e.block_index, e.level, e.text@))
}

/// The table of contents of a document: its top-level headings.
pub fn extract_toc(document: &Document) -> (toc: Vec<TocEntry>)
    ensures
        toc_view(toc@) == toc_of(blocks_view(document.blocks@)),
{
    let ghost bv = blocks_view(document.blocks@);
    proof {
        lemma_blocks_view(document.blocks@);
    }
    let mut toc: Vec<TocEntry> = Vec::new();
    let mut i: usize = 0;
    while i < document.blocks.len()
        invariant
            i <= document.blocks.len(),
            bv == blocks_view(document.blocks@),
            bv.len() == document.blocks.len(),
            forall|k: int| 0 <= k < bv.len() ==> #[trigger] bv[k] == block_view(document.blocks@[k]),
            toc_view(toc@) == toc_of(bv.take(i as int)),
        decreases document.blocks.len() - i,
    {
        assert(bv.take(i + 1).drop_last() =~= bv.take(i as int));
        assert(bv.take(i + 1).last() == bv[i as int]);
        let ghost before = toc@;
        match &document.blocks[i] {
            Block::Heading { level, content, .. } => {
                let text = plain_text(content.as_slice());
                toc.push(TocEntry { block_index: i, level: *level, text });
                assert(toc_view(toc@) =~= toc_view(before) + seq![(i, *level, text@)]);
            },
            _ => {},
        }
        i += 1;
    }
    assert(bv.take(i as int) =~= bv);
    toc
}


// ===================== palette commands =====================

/// Which side panels and windows of the viewer are shown.
#[derive(Debug, Clone, Copy, PartialEq, Eq, Structural, Default)]
pub struct Panels {
    pub show_help: bool,
    pub show_settings: bool,
    pub show_toc: bool,
}

/// What the viewer has to do after a palette command, beyond the state it changed.
#[derive(Debug, Clone, Copy, PartialEq, Eq, Structural)]
pub enum PaletteEffect {
    Nothing,
    /// Drop any pending reload and reload the document now.
    Reload,
    /// Apply the theme of the (new) preset.
    ApplyTheme,
    CloseWindow,
}

/// Why a palette command could not run, given the navigation state.
pub open spec fn command_error(command: PaletteCommand, nav: NavModel) -> Option<Seq<char>> {
    match command {
        PaletteCommand::MermaidNext | PaletteCommand::MermaidPrevious => if nav.targets.len() == 0 {
            Some("No rendered Mermaid diagrams are available."@)
        } else {
            None
        },
        PaletteCommand::MermaidOpen => if nav.mode is Document {
            Some("Select a Mermaid diagram before using :mopen."@)
        } else {
            None
        },
        PaletteCommand::Fit => if nav.mode is Document {
            Some("Select a Mermaid diagram before using :fit."@)
        } else {
            None
        },
        PaletteCommand::ZoomIn => if nav.mode is Document {
            Some("Select a Mermaid diagram before using :zoom-in."@)
        } else {
            None
        },
        PaletteCommand::ZoomOut => if nav.mode is Document {
            Some("Select a Mermaid diagram before using :zoom-out."@)
        } else {
            None
        },
        _ => None,
    }
}

/// The panels after a palette command.
pub open spec fn panels_after(command: PaletteCommand, p: Panels) -> Panels {
    match command {
        PaletteCommand::Help => Panels { show_help: true, ..p },
        PaletteCommand::Settings => Panels { show_settings: !p.show_settings, ..p },
        PaletteCommand::Toc => Panels { show_toc: !p.show_toc, ..p },
        _ => p,
    }
}

/// The navigation state after a palette command.
pub open spec fn navigation_after(command: PaletteCommand, m: NavModel) -> NavModel {
    match command {
        PaletteCommand::Top => NavModel { document_jump: Some(DocumentJump::Top), ..m },
        PaletteCommand::Bottom => NavModel { document_jump: Some(DocumentJump::Bottom), ..m },
        PaletteCommand::MermaidNext => select_target_spec(m, 1i32),
        PaletteCommand::MermaidPrevious => select_target_spec(m, -1i32),
        PaletteCommand::MermaidOpen => open_selected_spec(m).0,
        PaletteCommand::Fit => command_requested(m, MermaidViewportCommand::Fit),
        PaletteCommand::ZoomIn => command_requested(m, MermaidViewportCommand::ZoomIn),
        PaletteCommand::ZoomOut => command_requested(m, MermaidViewportCommand::ZoomOut),
        _ => m,
    }
}

pub open spec fn command_requested(m: NavModel, command: MermaidViewportCommand) -> NavModel {
    match m.mode {
        NavigationMode::MermaidControl { index } => NavModel { mermaid_command: Some((index, command)), ..m },
        NavigationMode::Document => m,
    }
}

pub open spec fn effect_of(command: PaletteCommand) -> PaletteEffect {
    match command {
        PaletteCommand::Reload => PaletteEffect::Reload,
        PaletteCommand::ToggleTheme => PaletteEffect::ApplyTheme,
        PaletteCommand::Quit => PaletteEffect::CloseWindow,
        _ => PaletteEffect::Nothing,
    }
}

/// Runs a palette command: it changes the panels, the search, the navigation state or the
/// preset, says what else the viewer has to do, and closes the palette; a command that cannot
/// run leaves the palette open with a message.
pub fn execute_palette_command(
    command: PaletteCommand,
    panels: &mut Panels,
    search: &mut SearchState,
    navigation: &mut NavigationState,
    preset: &mut MarkdownPreset,
    palette: &mut CommandPalette,
) -> (effect: PaletteEffect)
    ensures
        effect == effect_of(command),
        *final(panels) == panels_after(command, *old(panels)),
        final(navigation)@ == navigation_after(command, old(navigation)@),
        *final(preset) == if command == PaletteCommand::ToggleTheme {
            if *old(preset) == MarkdownPreset::Light {
                MarkdownPreset::Dark
            } else {
                MarkdownPreset::Light
            }
        } else {
            *old(preset)
        },
        final(search).active == (old(search).active || command == PaletteCommand::Search),
        final(search).request_focus == (old(search).request_focus || command == PaletteCommand::Search),
        final(search).query@ == old(search).query@,
        final(search).matches@ == old(search).matches@,
        final(search).selected == old(search).selected,
        match command_error(command, old(navigation)@) {
            None => !final(palette).open && final(palette).query@.len() == 0 && final(palette).selected == 0
                && final(palette).status is None,
            Some(message) => {
                &&& final(palette).open == old(palette).open
                &&& final(palette).query@ == old(palette).query@
                &&& final(palette).selected == old(palette).selected
                &&& final(palette).status matches Some(s) && s@ == message
            },
        },
{
    let mut effect = PaletteEffect::Nothing;
    let error: Option<&str> = match command {
        PaletteCommand::Help => {
            panels.show_help = true;
            None
        },
        PaletteCommand::Settings => {
            panels.show_settings = !panels.show_settings;
            None
        },
        PaletteCommand::Reload => {
            effect = PaletteEffect::Reload;
            None
        },
        PaletteCommand::Top => {
            navigation.request_document_jump(DocumentJump::Top);
            None
        },
        PaletteCommand::Bottom => {
            navigation.request_document_jump(DocumentJump::Bottom);
            None
        },
        PaletteCommand::MermaidNext => if navigation.select_relative_target(1) {
            None
        } else {
            Some("No rendered Mermaid diagrams are available.")
        },
        PaletteCommand::MermaidPrevious => if navigation.select_relative_target(-1) {
            None
        } else {
            Some("No rendered Mermaid diagrams are available.")
        },
        PaletteCommand::MermaidOpen => if navigation.open_selected_mermaid() {
            None
        } else {
            Some("Select a Mermaid diagram before using :mopen.")
        },
        PaletteCommand::Fit => if navigation.request_mermaid_command(MermaidViewportCommand::Fit) {
            None
        } else {
            Some("Select a Mermaid diagram before using :fit.")
        },
        PaletteCommand::ZoomIn => if navigation.request_mermaid_command(MermaidViewportCommand::ZoomIn) {
            None
        } else {
            Some("Select a Mermaid diagram before using :zoom-in.")
        },
        PaletteCommand::ZoomOut => if navigation.request_mermaid_command(MermaidViewportCommand::ZoomOut) {
            None
        } else {
            Some("Select a Mermaid diagram before using :zoom-out.")
        },
        PaletteCommand::Toc => {
            panels.show_toc = !panels.show_toc;
            None
        },
        PaletteCommand::Search => {
            search.open();
            None
        },
        PaletteCommand::ToggleTheme => {
            *preset = preset.toggled();
            effect = PaletteEffect::ApplyTheme;
            None
        },
        PaletteCommand::Quit => {
            effect = PaletteEffect::CloseWindow;
            None
        },
    };
    match error {
        None => palette.close(),
        Some(message) => palette.status = Some(message.to_owned()),
    }
    effect
}


// ===================== Mermaid jobs =====================

/// The sources of the Mermaid blocks still waiting to be rendered, in document order, looking
/// inside quotes, list items, footnotes and definitions.
pub open spec fn block_pending(b: BlockV) -> Seq<Seq<char>>
    decreases b,
{
    match b {
        BlockV::Mermaid { source, render_state } => if render_state is Pending {
            seq![source]
        } else {
            seq![]
        },
        BlockV::Quote { blocks } => blocks_pending(blocks),
        BlockV::List { items, .. } => items_pending(items),
        BlockV::FootnoteDefinition { blocks, .. } => blocks_pending(blocks),
        BlockV::DefinitionList { items } => definitions_pending(items),
        _ => seq![],
    }
}

pub open spec fn blocks_pending(s: Seq<BlockV>) -> Seq<Seq<char>>
    decreases s,
{
    if s.len() == 0 {
        seq![]
    } else {
        blocks_pending(s.drop_last()) + block_pending(s.last())
    }
}

pub open spec fn items_pending(s: Seq<ListItemV>) -> Seq<Seq<char>>
    decreases s,
{
    if s.len() == 0 {
        seq![]
    } else {
        items_pending(s.drop_last()) + blocks_pending(s.last().blocks)
    }
}

pub open spec fn block_lists_pending(s: Seq<Seq<BlockV>>) -> Seq<Seq<char>>
    decreases s,
{
    if s.len() == 0 {
        seq![]
    } else {
        block_lists_pending(s.drop_last()) + blocks_pending(s.last())
    }
}

pub open spec fn definitions_pending(s: Seq<DefinitionListItemV>) -> Seq<Seq<char>>
    decreases s,
{
    if s.len() == 0 {
        seq![]
    } else {
        definitions_pending(s.drop_last()) + block_lists_pending(s.last().definitions)
    }
}

proof fn lemma_strings_view_append(a: Seq<String>, b: Seq<String>)
    ensures
        strings_view(a + b) == strings_view(a) + strings_view(b),
{
    assert(strings_view(a + b) =~= strings_view(a) + strings_view(b));
}

/// The sources of the pending Mermaid blocks among `blocks`.
pub fn pending_mermaid_sources(blocks: &[Block]) -> (sources: Vec<String>)
    ensures
        strings_view(sources@) == blocks_pending(blocks_view(blocks@)),
    decreases blocks@,
{
    let ghost bv = blocks_view(blocks@);
    proof {
        lemma_blocks_view(blocks@);
    }
    let mut sources: Vec<String> = Vec::new();
    let mut i: usize = 0;
    while i < blocks.len()
        invariant
            i <= blocks.len(),
            bv == blocks_view(blocks@),
            bv.len() == blocks.len(),
            forall|k: int| 0 <= k < bv.len() ==> #[trigger] bv[k] == block_view(blocks@[k]),
            strings_view(sources@) == blocks_pending(bv.take(i as int)),
        decreases blocks.len() - i,
    {
        assert(bv.take(i + 1).drop_last() =~= bv.take(i as int));
        assert(bv.take(i + 1).last() == bv[i as int]);
        assert(decreases_to!(blocks@ => blocks@[i as int]));
        let ghost before = sources@;
        let mut found: Vec<String> = match &blocks[i] {
            Block::Mermaid { source, render_state } => {
                let mut v: Vec<String> = Vec::new();
                if render_state.is_pending() {
                    v.push(source.clone());
                    assert(strings_view(v@) =~= seq![source@]);
                } else {
                    assert(strings_view(v@) =~= Seq::<Seq<char>>::empty());
                }
                v
            },
            Block::Quote { blocks } => pending_mermaid_sources(blocks.as_slice()),
            Block::List { items, .. } => items_pending_sources(items),
            Block::FootnoteDefinition { blocks, .. } => pending_mermaid_sources(blocks.as_slice()),
            Block::DefinitionList { items } => definitions_pending_sources(items),
            _ => {
                let v: Vec<String> = Vec::new();
                assert(strings_view(v@) =~= Seq::<Seq<char>>::empty());
                v
            },
        };
        assert(strings_view(found@) == block_pending(bv[i as int]));
        let ghost f = found@;
        sources.append(&mut found);
        proof {
            lemma_strings_view_append(before, f);
        }
        i += 1;
    }
    assert(bv.take(i as int) =~= bv);
    sources
}

fn items_pending_sources(items: &Vec<ListItem>) -> (sources: Vec<String>)
    ensures
        strings_view(sources@) == items_pending(items_view(items@)),
    decreases items@,
{
    let ghost iv = items_view(items@);
    proof {
        lemma_items_view(items@);
    }
    let mut sources: Vec<String> = Vec::new();
    let mut i: usize = 0;
    while i < items.len()
        invariant
            i <= items.len(),
            iv == items_view(items@),
            iv.len() == items.len(),
            forall|k: int| 0 <= k < iv.len() ==> (#[trigger] iv[k]).blocks == blocks_view(items@[k].blocks@),
            strings_view(sources@) == items_pending(iv.take(i as int)),
        decreases items.len() - i,
    {
        assert(iv.take(i + 1).drop_last() =~= iv.take(i as int));
        assert(iv.take(i + 1).last() == iv[i as int]);
        assert(decreases_to!(items@ => items@[i as int]));
        let ghost before = sources@;
        let mut found = pending_mermaid_sources(items[i].blocks.as_slice());
        let ghost f = found@;
        sources.append(&mut found);
        proof {
            lemma_strings_view_append(before, f);
        }
        i += 1;
    }
    assert(iv.take(i as int) =~= iv);
    sources
}

fn block_lists_pending_sources(lists: &Vec<Vec<Block>>) -> (sources: Vec<String>)
    ensures
        strings_view(sources@) == block_lists_pending(block_lists_view(lists@)),
    decreases lists@,
{
    let ghost lv = block_lists_view(lists@);
    proof {
        lemma_block_lists_view(lists@);
    }
    let mut sources: Vec<String> = Vec::new();
    let mut i: usize = 0;
    while i < lists.len()
        invariant
            i <= lists.len(),
            lv == block_lists_view(lists@),
            lv.len() == lists.len(),
            forall|k: int| 0 <= k < lv.len() ==> #[trigger] lv[k] == blocks_view(lists@[k]@),
            strings_view(sources@) == block_lists_pending(lv.take(i as int)),
        decreases lists.len() - i,
    {
        assert(lv.take(i + 1).drop_last() =~= lv.take(i as int));
        assert(lv.take(i + 1).last() == lv[i as int]);
        assert(decreases_to!(lists@ => lists@[i as int]));
        let ghost before = sources@;
        let mut found = pending_mermaid_sources(lists[i].as_slice());
        let ghost f = found@;
        sources.append(&mut found);
        proof {
            lemma_strings_view_append(before, f);
        }
        i += 1;
    }
    assert(lv.take(i as int) =~= lv);
    sources
}

fn definitions_pending_sources(items: &Vec<DefinitionListItem>) -> (sources: Vec<String>)
    ensures
        strings_view(sources@) == definitions_pending(definition_items_view(items@)),
    decreases items@,
{
    let ghost dv = definition_items_view(items@);
    proof {
        lemma_definition_items_view(items@);
    }
    let mut sources: Vec<String> = Vec::new();
    let mut i: usize = 0;
    while i < items.len()
        invariant
            i <= items.len(),
            dv == definition_items_view(items@),
            dv.len() == items.len(),
            forall|k: int| 0 <= k < dv.len() ==> (#[trigger] dv[k]).definitions == block_lists_view(items@[k].definitions@),
            strings_view(sources@) == definitions_pending(dv.take(i as int)),
        decreases items.len() - i,
    {
        assert(dv.take(i + 1).drop_last() =~= dv.take(i as int));
        assert(dv.take(i + 1).last() == dv[i as int]);
        assert(decreases_to!(items@ => items@[i as int]));
        let ghost before = sources@;
        let mut found = block_lists_pending_sources(&items[i].definitions);
        let ghost f = found@;
        sources.append(&mut found);
        proof {
            lemma_strings_view_append(before, f);
        }
        i += 1;
    }
    assert(dv.take(i as int) =~= dv);
    sources
}


/// The document a reload shows: `source` parsed, with the path it was read for, and its
/// table of contents; an active search looks for its query again in it.
pub fn loaded_document(source: &str, path: &String, search: &mut SearchState) -> (r: (Document, Vec<TocEntry>))
    requires
        source.spec_bytes().len() < usize::MAX,
    ensures
        r.0@ == (DocumentV {
            source_path: Some(path@),
            ..markdown_document(source.spec_bytes(), cmark_source_events(source@, parse_options()))
        }),
        toc_view(r.1@) == toc_of(r.0@.blocks),
        final(search).active == old(search).active,
        final(search).query@ == old(search).query@,
        final(search).request_focus == old(search).request_focus,
        old(search).active ==> {
            &&& final(search).matches@ == if old(search).query@.len() == 0 {
                Seq::<usize>::empty()
            } else {
                matching_indices(r.0@.blocks, lowercase_of(old(search).query@))
            }
            &&& final(search).selected == 0
        },
        !old(search).active ==> final(search).matches@ == old(search).matches@
            && final(search).selected == old(search).selected,
{
    let mut document = parse_markdown(source);
    document.source_path = Some(path.clone());
    let toc = extract_toc(&document);
    if search.active {
        search.update_matches(&document);
    }
    (document, toc)
}

/// A finished rendering job: the cache key of the diagram source, the reload generation it
/// was started in, and the image or the reason it failed.
#[derive(Debug)]
pub struct MermaidJobResult {
    pub key: String,
    pub generation: u64,
    pub result: Result<RasterImage, String>,
}

/// The block with the render state set, if it is the Mermaid block whose key is `key`, or a
/// container of one; the first such block in document order is the one changed.
pub open spec fn apply_block(b: BlockV, key: Seq<char>, state: RenderStateV) -> (BlockV, bool)
    decreases b,
{
    match b {
        BlockV::Mermaid { source, render_state } => if mermaid_key_of(source) == key {
            (BlockV::Mermaid { source, render_state: state }, true)
        } else {
            (b, false)
        },
        BlockV::Quote { blocks } => {
            let (blocks2, found) = apply_blocks(blocks, key, state);
            (BlockV::Quote { blocks: blocks2 }, found)
        },
        BlockV::List { ordered, start, items } => {
            let (items2, found) = apply_items(items, key, state);
            (BlockV::List { ordered, start, items: items2 }, found)
        },
        BlockV::FootnoteDefinition { label, blocks } => {
            let (blocks2, found) = apply_blocks(blocks, key, state);
            (BlockV::FootnoteDefinition { label, blocks: blocks2 }, found)
        },
        BlockV::DefinitionList { items } => {
            let (items2, found) = apply_definitions(items, key, state);
            (BlockV::DefinitionList { items: items2 }, found)
        },
        _ => (b, false),
    }
}

pub open spec fn apply_blocks(s: Seq<BlockV>, key: Seq<char>, state: RenderStateV) -> (Seq<BlockV>, bool)
    decreases s,
{
    if s.len() == 0 {
        (s, false)
    } else {
        let (b, found) = apply_block(s[0], key, state);
        if found {
            (s.update(0, b), true)
        } else {
            let (rest, found2) = apply_blocks(s.drop_first(), key, state);
            (seq![s[0]] + rest, found2)
        }
    }
}

pub open spec fn apply_items(s: Seq<ListItemV>, key: Seq<char>, state: RenderStateV) -> (Seq<ListItemV>, bool)
    decreases s,
{
    if s.len() == 0 {
        (s, false)
    } else {
        let (blocks, found) = apply_blocks(s[0].blocks, key, state);
        if found {
            (s.update(0, ListItemV { checked: s[0].checked, blocks }), true)
        } else {
            let (rest, found2) = apply_items(s.drop_first(), key, state);
            (seq![s[0]] + rest, found2)
        }
    }
}

pub open spec fn apply_block_lists(s: Seq<Seq<BlockV>>, key: Seq<char>, state: RenderStateV) -> (Seq<Seq<BlockV>>, bool)
    decreases s,
{
    if s.len() == 0 {
        (s, false)
    } else {
        let (blocks, found) = apply_blocks(s[0], key, state);
        if found {
            (s.update(0, blocks), true)
        } else {
            let (rest, found2) = apply_block_lists(s.drop_first(), key, state);
            (seq![s[0]] + rest, found2)
        }
    }
}

pub open spec fn apply_definitions(s: Seq<DefinitionListItemV>, key: Seq<char>, state: RenderStateV) -> (Seq<DefinitionListItemV>, bool)
    decreases s,
{
    if s.len() == 0 {
        (s, false)
    } else {
        let (lists, found) = apply_block_lists(s[0].definitions, key, state);
        if found {
            (s.update(0, DefinitionListItemV { term: s[0].term, definitions: lists }), true)
        } else {
            let (rest, found2) = apply_definitions(s.drop_first(), key, state);
            (seq![s[0]] + rest, found2)
        }
    }
}

/// The render state a finished job gives its block.
pub open spec fn job_state(result: Result<RasterImage, String>) -> RenderStateV {
    match result {
        Ok(image) => RenderStateV::Rendered { width: image.width, height: image.height, rgba: image.rgba@ },
        Err(reason) => RenderStateV::Failed { reason: reason@ },
    }
}

/// One step of a sequence rewrite that changes the first element that `f` reports, as `g`
/// does on `t`.
pub open spec fn rewrite_step<T>(g: spec_fn(Seq<T>) -> (Seq<T>, bool), f: spec_fn(T) -> (T, bool), t: Seq<T>) -> bool {
    g(t) == if t.len() == 0 {
        (t, false)
    } else if f(t[0]).1 {
        (t.update(0, f(t[0]).0), true)
    } else {
        (seq![t[0]] + g(t.drop_first()).0, g(t.drop_first()).1)
    }
}

/// `g` rewrites the first element of a sequence that `f` reports, and only that one.
pub open spec fn rewrites_first<T>(g: spec_fn(Seq<T>) -> (Seq<T>, bool), f: spec_fn(T) -> (T, bool)) -> bool {
    forall|t: Seq<T>| #[trigger] rewrite_step(g, f, t)
}

proof fn lemma_rewrites_first_split<T>(
    g: spec_fn(Seq<T>) -> (Seq<T>, bool),
    f: spec_fn(T) -> (T, bool),
    s: Seq<T>,
    i: int,
)
    requires
        rewrites_first(g, f),
        0 <= i <= s.len(),
        forall|k: int| 0 <= k < i ==> !(#[trigger] f(s[k])).1,
    ensures
        g(s) == (s.take(i) + g(s.skip(i)).0, g(s.skip(i)).1),
    decreases i,
{
    if i == 0 {
        assert(s.skip(0) =~= s);
        assert(s.take(0) + g(s).0 =~= g(s).0);
    } else {
        lemma_rewrites_first_split(g, f, s, i - 1);
        let t = s.skip(i - 1);
        assert(rewrite_step(g, f, t));
        assert(t[0] == s[i - 1]);
        assert(!f(s[i - 1]).1);
        assert(t.drop_first() =~= s.skip(i));
        assert(g(t) == (seq![t[0]] + g(t.drop_first()).0, g(t.drop_first()).1));
        assert(s.take(i - 1) + (seq![s[i - 1]] + g(s.skip(i)).0) =~= s.take(i) + g(s.skip(i)).0);
    }
}

/// When `f` reports no element, the rewrite leaves the sequence as it is.
proof fn lemma_rewrites_first_none<T>(g: spec_fn(Seq<T>) -> (Seq<T>, bool), f: spec_fn(T) -> (T, bool), s: Seq<T>)
    requires
        rewrites_first(g, f),
        forall|k: int| 0 <= k < s.len() ==> !(#[trigger] f(s[k])).1,
    ensures
        g(s) == (s, false),
{
    lemma_rewrites_first_split(g, f, s, s.len() as int);
    assert(s.skip(s.len() as int) =~= Seq::<T>::empty());
    assert(rewrite_step(g, f, Seq::<T>::empty()));
    assert(g(Seq::<T>::empty()) == (Seq::<T>::empty(), false));
    assert(s.take(s.len() as int) + Seq::<T>::empty() =~= s);
}

/// When `f` first reports the element at `i`, the rewrite replaces that element alone.
proof fn lemma_rewrites_first_at<T>(
    g: spec_fn(Seq<T>) -> (Seq<T>, bool),
    f: spec_fn(T) -> (T, bool),
    s: Seq<T>,
    i: int,
)
    requires
        rewrites_first(g, f),
        0 <= i < s.len(),
        forall|k: int| 0 <= k < i ==> !(#[trigger] f(s[k])).1,
        f(s[i]).1,
    ensures
        g(s) == (s.update(i, f(s[i]).0), true),
{
    lemma_rewrites_first_split(g, f, s, i);
    let t = s.skip(i);
    assert(rewrite_step(g, f, t));
    assert(t[0] == s[i]);
    assert(g(t) == (t.update(0, f(t[0]).0), true));
    assert(s.take(i) + t.update(0, f(s[i]).0) =~= s.update(i, f(s[i]).0));
}

proof fn lemma_apply_blocks_rewrites(key: Seq<char>, state: RenderStateV)
    ensures
        rewrites_first(
            |t: Seq<BlockV>| apply_blocks(t, key, state),
            |b: BlockV| apply_block(b, key, state),
        ),
{
}

proof fn lemma_apply_items_rewrites(key: Seq<char>, state: RenderStateV)
    ensures
        rewrites_first(
            |t: Seq<ListItemV>| apply_items(t, key, state),
            |it: ListItemV| (
                ListItemV { checked: it.checked, blocks: apply_blocks(it.blocks, key, state).0 },
                apply_blocks(it.blocks, key, state).1,
            ),
        ),
{
}

proof fn lemma_apply_block_lists_rewrites(key: Seq<char>, state: RenderStateV)
    ensures
        rewrites_first(
            |t: Seq<Seq<BlockV>>| apply_block_lists(t, key, state),
            |b: Seq<BlockV>| apply_blocks(b, key, state),
        ),
{
}

proof fn lemma_apply_definitions_rewrites(key: Seq<char>, state: RenderStateV)
    ensures
        rewrites_first(
            |t: Seq<DefinitionListItemV>| apply_definitions(t, key, state),
            |it: DefinitionListItemV| (
                DefinitionListItemV {
                    term: it.term,
                    definitions: apply_block_lists(it.definitions, key, state).0,
                },
                apply_block_lists(it.definitions, key, state).1,
            ),
        ),
{
}

fn apply_to_block(block: Block, key: &String, state: MermaidRenderState) -> (r: (Block, Option<MermaidRenderState>))
    ensures
        block_view(r.0) == apply_block(block_view(block), key@, render_state_view(state)).0,
        r.1 is None <==> apply_block(block_view(block), key@, render_state_view(state)).1,
        r.1 matches Some(back) ==> back == state && block_view(r.0) == block_view(block),
    decreases block,
{
    match block {
        Block::Mermaid { source, render_state } => {
            let k = MermaidCache::key(source.as_str());
            if k.eq(key) {
                (Block::Mermaid { source, render_state: state }, None)
            } else {
                (Block::Mermaid { source, render_state }, Some(state))
            }
        },
        Block::Quote { blocks } => {
            let mut blocks = blocks;
            let back = apply_to_blocks(&mut blocks, key, state);
            (Block::Quote { blocks }, back)
        },
        Block::List { ordered, start, items } => {
            let mut items = items;
            let back = apply_to_items(&mut items, key, state);
            (Block::List { ordered, start, items }, back)
        },
        Block::FootnoteDefinition { label, blocks } => {
            let mut blocks = blocks;
            let back = apply_to_blocks(&mut blocks, key, state);
            (Block::FootnoteDefinition { label, blocks }, back)
        },
        Block::DefinitionList { items } => {
            let mut items = items;
            let back = apply_to_definitions(&mut items, key, state);
            (Block::DefinitionList { items }, back)
        },
        other => (other, Some(state)),
    }
}

fn apply_to_blocks(blocks: &mut Vec<Block>, key: &String, state: MermaidRenderState) -> (r: Option<MermaidRenderState>)
    ensures
        blocks_view(final(blocks)@) == apply_blocks(blocks_view(old(blocks)@), key@, render_state_view(state)).0,
        r is None <==> apply_blocks(blocks_view(old(blocks)@), key@, render_state_view(state)).1,
        r matches Some(back) ==> back == state && blocks_view(final(blocks)@) == blocks_view(old(blocks)@),
    decreases old(blocks)@,
{
    let ghost rs = render_state_view(state);
    let ghost orig = blocks@;
    let ghost s0 = blocks_view(blocks@);
    let ghost st = state;
    let ghost f = |b: BlockV| apply_block(b, key@, rs);
    let ghost g = |t: Seq<BlockV>| apply_blocks(t, key@, rs);
    proof {
        lemma_blocks_view(blocks@);
        lemma_apply_blocks_rewrites(key@, rs);
    }
    let mut carried = state;
    let mut i: usize = 0;
    while i < blocks.len()
        invariant
            i <= blocks.len(),
            blocks.len() == orig.len(),
            orig == old(blocks)@,
            s0 == blocks_view(orig),
            s0.len() == orig.len(),
            rs == render_state_view(st),
            st == state,
            carried == st,
            f == (|b: BlockV| apply_block(b, key@, rs)),
            g == (|t: Seq<BlockV>| apply_blocks(t, key@, rs)),
            rewrites_first(g, f),
            forall|k: int| i <= k < blocks.len() ==> blocks@[k] == orig[k],
            forall|k: int| 0 <= k < blocks.len() ==> block_view(#[trigger] blocks@[k]) == s0[k],
            forall|k: int| 0 <= k < i ==> !(#[trigger] f(s0[k])).1,
            forall|k: int| 0 <= k < orig.len() ==> #[trigger] s0[k] == block_view(orig[k]),
        decreases blocks.len() - i,
    {
        let mut b = Block::HorizontalRule;
        std::mem::swap(&mut b, &mut blocks[i]);
        assert(b == orig[i as int]);
        assert(decreases_to!(old(blocks)@ => b));
        let (nb, back) = apply_to_block(b, key, carried);
        let mut nb = nb;
        std::mem::swap(&mut nb, &mut blocks[i]);
        match back {
            None => {
                proof {
                    lemma_rewrites_first_at(g, f, s0, i as int);
                    lemma_blocks_view(blocks@);
                    assert(blocks_view(blocks@) =~= s0.update(i as int, f(s0[i as int]).0));
                }
                return None;
            },
            Some(s) => {
                carried = s;
            },
        }
        i += 1;
    }
    proof {
        lemma_rewrites_first_none(g, f, s0);
        lemma_blocks_view(blocks@);
        assert(blocks_view(blocks@) =~= s0);
    }
    Some(carried)
}

fn apply_to_items(items: &mut Vec<ListItem>, key: &String, state: MermaidRenderState) -> (r: Option<MermaidRenderState>)
    ensures
        items_view(final(items)@) == apply_items(items_view(old(items)@), key@, render_state_view(state)).0,
        r is None <==> apply_items(items_view(old(items)@), key@, render_state_view(state)).1,
        r matches Some(back) ==> back == state && items_view(final(items)@) == items_view(old(items)@),
    decreases old(items)@,
{
    let ghost rs = render_state_view(state);
    let ghost orig = items@;
    let ghost s0 = items_view(items@);
    let ghost st = state;
    let ghost f = |it: ListItemV| (
        ListItemV { checked: it.checked, blocks: apply_blocks(it.blocks, key@, rs).0 },
        apply_blocks(it.blocks, key@, rs).1,
    );
    let ghost g = |t: Seq<ListItemV>| apply_items(t, key@, rs);
    proof {
        lemma_items_view(items@);
        lemma_apply_items_rewrites(key@, rs);
    }
    let mut carried = state;
    let mut i: usize = 0;
    while i < items.len()
        invariant
            i <= items.len(),
            items.len() == orig.len(),
            orig == old(items)@,
            s0 == items_view(orig),
            s0.len() == orig.len(),
            rs == render_state_view(st),
            st == state,
            carried == st,
            f == (|it: ListItemV| (
                ListItemV { checked: it.checked, blocks: apply_blocks(it.blocks, key@, rs).0 },
                apply_blocks(it.blocks, key@, rs).1,
            )),
            g == (|t: Seq<ListItemV>| apply_items(t, key@, rs)),
            rewrites_first(g, f),
            forall|k: int| i <= k < items.len() ==> items@[k] == orig[k],
            forall|k: int| 0 <= k < items.len() ==> (ListItemV {
                checked: (#[trigger] items@[k]).checked,
                blocks: blocks_view(items@[k].blocks@),
            }) == s0[k],
            forall|k: int| 0 <= k < i ==> !(#[trigger] f(s0[k])).1,
        decreases items.len() - i,
    {
        let mut item = ListItem { checked: None, blocks: Vec::new() };
        std::mem::swap(&mut item, &mut items[i]);
        assert(item == orig[i as int]);
        let ListItem { checked, blocks } = item;
        let mut blocks = blocks;
        assert(decreases_to!(old(items)@ => blocks@)) by {
            assert(decreases_to!(old(items)@ => orig[i as int]));
            assert(decreases_to!(orig[i as int] => orig[i as int].blocks));
            assert(decreases_to!(orig[i as int].blocks => orig[i as int].blocks@));
        }
        let back = apply_to_blocks(&mut blocks, key, carried);
        let mut new_item = ListItem { checked, blocks };
        std::mem::swap(&mut new_item, &mut items[i]);
        match back {
            None => {
                proof {
                    lemma_rewrites_first_at(g, f, s0, i as int);
                    lemma_items_view(items@);
                    assert(items_view(items@) =~= s0.update(i as int, f(s0[i as int]).0));
                }
                return None;
            },
            Some(s) => {
                carried = s;
            },
        }
        i += 1;
    }
    proof {
        lemma_rewrites_first_none(g, f, s0);
        lemma_items_view(items@);
        assert(items_view(items@) =~= s0);
    }
    Some(carried)
}

fn apply_to_block_lists(lists: &mut Vec<Vec<Block>>, key: &String, state: MermaidRenderState) -> (r: Option<MermaidRenderState>)
    ensures
        block_lists_view(final(lists)@) == apply_block_lists(block_lists_view(old(lists)@), key@, render_state_view(state)).0,
        r is None <==> apply_block_lists(block_lists_view(old(lists)@), key@, render_state_view(state)).1,
        r matches Some(back) ==> back == state && block_lists_view(final(lists)@) == block_lists_view(old(lists)@),
    decreases old(lists)@,
{
    let ghost rs = render_state_view(state);
    let ghost orig = lists@;
    let ghost s0 = block_lists_view(lists@);
    let ghost st = state;
    let ghost f = |b: Seq<BlockV>| apply_blocks(b, key@, rs);
    let ghost g = |t: Seq<Seq<BlockV>>| apply_block_lists(t, key@, rs);
    proof {
        lemma_block_lists_view(lists@);
        lemma_apply_block_lists_rewrites(key@, rs);
    }
    let mut carried = state;
    let mut i: usize = 0;
    while i < lists.len()
        invariant
            i <= lists.len(),
            lists.len() == orig.len(),
            orig == old(lists)@,
            s0 == block_lists_view(orig),
            s0.len() == orig.len(),
            rs == render_state_view(st),
            st == state,
            carried == st,
            f == (|b: Seq<BlockV>| apply_blocks(b, key@, rs)),
            g == (|t: Seq<Seq<BlockV>>| apply_block_lists(t, key@, rs)),
            rewrites_first(g, f),
            forall|k: int| i <= k < lists.len() ==> lists@[k] == orig[k],
            forall|k: int| 0 <= k < lists.len() ==> blocks_view((#[trigger] lists@[k])@) == s0[k],
            forall|k: int| 0 <= k < i ==> !(#[trigger] f(s0[k])).1,
        decreases lists.len() - i,
    {
        let mut blocks: Vec<Block> = Vec::new();
        std::mem::swap(&mut blocks, &mut lists[i]);
        assert(blocks == orig[i as int]);
        assert(decreases_to!(old(lists)@ => blocks@)) by {
            assert(decreases_to!(old(lists)@ => orig[i as int]));
            assert(decreases_to!(orig[i as int] => orig[i as int]@));
        }
        let back = apply_to_blocks(&mut blocks, key, carried);
        std::mem::swap(&mut blocks, &mut lists[i]);
        match back {
            None => {
                proof {
                    lemma_rewrites_first_at(g, f, s0, i as int);
                    lemma_block_lists_view(lists@);
                    assert(block_lists_view(lists@) =~= s0.update(i as int, f(s0[i as int]).0));
                }
                return None;
            },
            Some(s) => {
                carried = s;
            },
        }
        i += 1;
    }
    proof {
        lemma_rewrites_first_none(g, f, s0);
        lemma_block_lists_view(lists@);
        assert(block_lists_view(lists@) =~= s0);
    }
    Some(carried)
}

fn apply_to_definitions(items: &mut Vec<DefinitionListItem>, key: &String, state: MermaidRenderState) -> (r: Option<MermaidRenderState>)
    ensures
        definition_items_view(final(items)@) == apply_definitions(definition_items_view(old(items)@), key@, render_state_view(state)).0,
        r is None <==> apply_definitions(definition_items_view(old(items)@), key@, render_state_view(state)).1,
        r matches Some(back) ==> back == state && definition_items_view(final(items)@) == definition_items_view(old(items)@),
    decreases old(items)@,
{
    let ghost rs = render_state_view(state);
    let ghost orig = items@;
    let ghost s0 = definition_items_view(items@);
    let ghost st = state;
    let ghost f = |it: DefinitionListItemV| (
        DefinitionListItemV { term: it.term, definitions: apply_block_lists(it.definitions, key@, rs).0 },
        apply_block_lists(it.definitions, key@, rs).1,
    );
    let ghost g = |t: Seq<DefinitionListItemV>| apply_definitions(t, key@, rs);
    proof {
        lemma_definition_items_view(items@);
        lemma_apply_definitions_rewrites(key@, rs);
    }
    let mut carried = state;
    let mut i: usize = 0;
    while i < items.len()
        invariant
            i <= items.len(),
            items.len() == orig.len(),
            orig == old(items)@,
            s0 == definition_items_view(orig),
            s0.len() == orig.len(),
            rs == render_state_view(st),
            st == state,
            carried == st,
            f == (|it: DefinitionListItemV| (
                DefinitionListItemV { term: it.term, definitions: apply_block_lists(it.definitions, key@, rs).0 },
                apply_block_lists(it.definitions, key@, rs).1,
            )),
            g == (|t: Seq<DefinitionListItemV>| apply_definitions(t, key@, rs)),
            rewrites_first(g, f),
            forall|k: int| i <= k < items.len() ==> items@[k] == orig[k],
            forall|k: int| 0 <= k < items.len() ==> (DefinitionListItemV {
                term: inlines_view((#[trigger] items@[k]).term@),
                definitions: block_lists_view(items@[k].definitions@),
            }) == s0[k],
            forall|k: int| 0 <= k < i ==> !(#[trigger] f(s0[k])).1,
        decreases items.len() - i,
    {
        let mut item = DefinitionListItem { term: Vec::new(), definitions: Vec::new() };
        std::mem::swap(&mut item, &mut items[i]);
        assert(item == orig[i as int]);
        let DefinitionListItem { term, definitions } = item;
        let mut definitions = definitions;
        assert(decreases_to!(old(items)@ => definitions@)) by {
            assert(decreases_to!(old(items)@ => orig[i as int]));
            assert(decreases_to!(orig[i as int] => orig[i as int].definitions));
            assert(decreases_to!(orig[i as int].definitions => orig[i as int].definitions@));
        }
        let back = apply_to_block_lists(&mut definitions, key, carried);
        let mut new_item = DefinitionListItem { term, definitions };
        std::mem::swap(&mut new_item, &mut items[i]);
        match back {
            None => {
                proof {
                    lemma_rewrites_first_at(g, f, s0, i as int);
                    lemma_definition_items_view(items@);
                    assert(definition_items_view(items@) =~= s0.update(i as int, f(s0[i as int]).0));
                }
                return None;
            },
            Some(s) => {
                carried = s;
            },
        }
        i += 1;
    }
    proof {
        lemma_rewrites_first_none(g, f, s0);
        lemma_definition_items_view(items@);
        assert(definition_items_view(items@) =~= s0);
    }
    Some(carried)
}

/// Stores a finished job's image, or the reason it failed, in the first Mermaid block of
/// `blocks` (looking inside quotes, lists, footnotes and definition lists) whose source has
/// the job's key; says whether there was one.
pub fn apply_mermaid_result(blocks: &mut Vec<Block>, result: MermaidJobResult) -> (applied: bool)
    ensures
        blocks_view(final(blocks)@) == apply_blocks(blocks_view(old(blocks)@), result.key@, job_state(result.result)).0,
        applied == apply_blocks(blocks_view(old(blocks)@), result.key@, job_state(result.result)).1,
        !applied ==> blocks_view(final(blocks)@) == blocks_view(old(blocks)@),
{
    let MermaidJobResult { key, generation: _, result: outcome } = result;
    let state = match outcome {
        Ok(image) => MermaidRenderState::Rendered { image },
        Err(reason) => MermaidRenderState::Failed { reason },
    };
    let back = apply_to_blocks(blocks, &key, state);
    back.is_none()
}

} // verus!

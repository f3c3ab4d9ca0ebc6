//! What the viewer does with one frame's keys and clicks: the search keys, the panel
//! toggles, the command palette's selection, and the search bar's buttons.
use vstd::prelude::*;

use crate::app::{
    filtered_palette_entries, matching_entries, palette_query, palette_table, step_back,
    step_forward, CommandPalette, PaletteCommand, Panels, SearchState, matching_indices,
};
use crate::document::model::{blocks_view, Document};
use crate::input::{InputAction, NavModel, NavigationState};
use crate::text::lowercase_of;

verus! {

/// The keys of one frame that the viewer handles before the navigation keys.
#[derive(Debug, Clone, Copy)]
pub struct ViewerKeys {
    pub escape: bool,
    pub n: bool,
    pub shift: bool,
    pub t: bool,
    pub slash: bool,
    /// A text field has the keyboard.
    pub wants_keyboard_input: bool,
}

/// The selection after moving one match forward or back among `n` matches.
pub open spec fn moved_selection(selected: usize, n: nat, forward: bool) -> usize {
    if n == 0 {
        selected
    } else if forward {
        ((selected + 1) % (n as int)) as usize
    } else {
        ((selected + n - 1) % (n as int)) as usize
    }
}

/// The block of the selected match, if the selection is on one.
pub open spec fn selected_match(matches: Seq<usize>, selected: usize) -> Option<usize> {
    if selected < matches.len() {
        Some(matches[selected as int])
    } else {
        None
    }
}

/// The navigation state after asking to show a block, if there is one to show.
pub open spec fn reveal_block(nav: NavModel, block: Option<usize>) -> NavModel {
    match block {
        Some(b) => NavModel { source_block: Some(b), ..nav },
        None => nav,
    }
}

/// Moves the search selection one match forward or back, and asks to show the block of the
/// newly selected match.
fn step_search(search: &mut SearchState, forward: bool, navigation: &mut NavigationState)
    ensures
        final(search).selected == moved_selection(old(search).selected, old(search).matches@.len(), forward),
        final(search).matches@ == old(search).matches@,
        final(search).query@ == old(search).query@,
        final(search).active == old(search).active,
        final(search).request_focus == old(search).request_focus,
        final(navigation)@ == reveal_block(old(navigation)@, selected_match(final(search).matches@, final(search).selected)),
{
    if forward {
        search.next();
    } else {
        search.prev();
    }
    if let Some(index) = search.current_match() {
        navigation.request_source_block(index);
    }
}

/// Handles the viewer's own keys for one frame, before the navigation keys: nothing while
/// the palette is open; Escape closes the help; while searching, `n` and `N` move through the
/// matches; else `t` toggles the table of contents and `/` opens the search. Says whether
/// the navigation keys are to be handled after.
pub fn handle_viewer_keys(
    keys: &ViewerKeys,
    palette_open: bool,
    panels: &mut Panels,
    search: &mut SearchState,
    navigation: &mut NavigationState,
) -> (collect_actions: bool)
    ensures
        collect_actions == (!palette_open && !(old(panels).show_help && keys.escape) && !old(search).active
            && (keys.wants_keyboard_input || (!keys.t && !keys.slash))),
        final(panels).show_help == (old(panels).show_help && !(!palette_open && keys.escape)),
        final(panels).show_settings == old(panels).show_settings,
        final(panels).show_toc == (old(panels).show_toc != (!palette_open && !(old(panels).show_help && keys.escape)
            && !old(search).active && !keys.wants_keyboard_input && keys.t)),
        ({
            let moves = !palette_open && !(old(panels).show_help && keys.escape) && old(search).active
                && !keys.wants_keyboard_input && keys.n;
            &&& final(search).selected == if moves {
                moved_selection(old(search).selected, old(search).matches@.len(), !keys.shift)
            } else {
                old(search).selected
            }
            &&& final(navigation)@ == if moves {
                reveal_block(old(navigation)@, selected_match(final(search).matches@, final(search).selected))
            } else {
                old(navigation)@
            }
        }),
        final(search).matches@ == old(search).matches@,
        final(search).query@ == old(search).query@,
        final(search).active == (old(search).active || (!palette_open && !(old(panels).show_help && keys.escape)
            && !keys.wants_keyboard_input && !keys.t && keys.slash)),
        final(search).request_focus == (old(search).request_focus || (!palette_open && !(old(panels).show_help
            && keys.escape) && !old(search).active && !keys.wants_keyboard_input && !keys.t && keys.slash)),
{
    if palette_open {
        return false;
    }
    if panels.show_help && keys.escape {
        panels.show_help = false;
        return false;
    }
    if search.active {
        if !keys.wants_keyboard_input && keys.n {
            step_search(search, !keys.shift, navigation);
        }
        return false;
    }
    if !keys.wants_keyboard_input {
        if keys.t {
            panels.show_toc = !panels.show_toc;
            return false;
        }
        if keys.slash {
            search.open();
            return false;
        }
    }
    true
}

/// How many times `action` occurs in `actions`.
pub open spec fn action_count(actions: Seq<InputAction>, action: InputAction) -> nat
    decreases actions.len(),
{
    if actions.len() == 0 {
        0
    } else {
        action_count(actions.drop_last(), action) + if actions.last() == action {
            1nat
        } else {
            0nat
        }
    }
}

/// Carries out the viewer's part of the collected actions: the palette opens, the settings
/// panel toggles once per request, and the window is to close if asked. Heading jumps and
/// zoom steps are the document view's to carry out.
pub fn apply_input_actions(actions: &Vec<InputAction>, palette: &mut CommandPalette, panels: &mut Panels) -> (close_window: bool)
    ensures
        close_window == (action_count(actions@, InputAction::CloseWindow) > 0),
        final(panels).show_settings == (old(panels).show_settings != (action_count(actions@, InputAction::ToggleSettings) % 2 == 1)),
        final(panels).show_help == old(panels).show_help,
        final(panels).show_toc == old(panels).show_toc,
        action_count(actions@, InputAction::OpenPalette) > 0 ==> {
            &&& final(palette).open
            &&& final(palette).query@.len() == 0
            &&& final(palette).selected == 0
            &&& final(palette).request_focus
            &&& final(palette).status is None
        },
        action_count(actions@, InputAction::OpenPalette) == 0 ==> *final(palette) == *old(palette),
{
    let mut close = false;
    let mut i: usize = 0;
    let ghost settings0 = panels.show_settings;
    while i < actions.len()
        invariant
            i <= actions.len(),
            close == (action_count(actions@.take(i as int), InputAction::CloseWindow) > 0),
            panels.show_settings == (settings0 != (action_count(actions@.take(i as int), InputAction::ToggleSettings) % 2 == 1)),
            settings0 == old(panels).show_settings,
            panels.show_help == old(panels).show_help,
            panels.show_toc == old(panels).show_toc,
            action_count(actions@.take(i as int), InputAction::OpenPalette) > 0 ==> {
                &&& palette.open
                &&& palette.query@.len() == 0
                &&& palette.selected == 0
                &&& palette.request_focus
                &&& palette.status is None
            },
            action_count(actions@.take(i as int), InputAction::OpenPalette) == 0 ==> *palette == *old(palette),
        decreases actions.len() - i,
    {
        assert(actions@.take(i + 1).drop_last() =~= actions@.take(i as int));
        assert(actions@.take(i + 1).last() == actions@[i as int]);
        match actions[i] {
            InputAction::OpenPalette => palette.open(),
            InputAction::ToggleSettings => {
                panels.show_settings = !panels.show_settings;
            },
            InputAction::CloseWindow => {
                close = true;
            },
            _ => {},
        }
        i += 1;
    }
    assert(actions@.take(i as int) =~= actions@);
    close
}

/// The keys of one frame while the command palette is open.
#[derive(Debug, Clone, Copy)]
pub struct PaletteKeys {
    pub down: bool,
    pub up: bool,
    pub escape: bool,
    pub enter: bool,
}

/// What the palette asks of the viewer after a frame.
#[derive(Debug, Clone, Copy, PartialEq, Eq, Structural)]
pub enum PaletteOutcome {
    /// Stay open.
    Stay,
    /// Close without running a command.
    Close,
    /// Run the command (which closes the palette when it succeeds).
    Run(PaletteCommand),
}

/// The selection after a frame's arrow keys among `n` listed commands: one down, one up,
/// each round, then kept on the list.
pub open spec fn palette_selection(selected: usize, n: nat, down: bool, up: bool) -> usize {
    if n == 0 {
        selected
    } else {
        let a = if down { ((selected + 1) % (n as int)) as usize } else { selected };
        let b = if up { ((a + n - 1) % (n as int)) as usize } else { a };
        if b < n - 1 { b } else { (n - 1) as usize }
    }
}

/// The message shown when Enter finds no command.
pub open spec fn no_match_message() -> Seq<char> {
    "No matching command. Use :help for the list."@
}

/// Handles one frame of the open command palette: an edited query resets the selection and
/// the status; the arrow keys move the selection round the listed commands; Escape closes;
/// Enter runs the selected command or says that none matches; a click on a listed command
/// runs it.
pub fn palette_frame(
    palette: &mut CommandPalette,
    query_changed: bool,
    keys: &PaletteKeys,
    clicked: Option<usize>,
) -> (outcome: PaletteOutcome)
    ensures
        ({
            let entries = matching_entries(palette_table(), palette_query(old(palette).query@));
            let sel0 = if query_changed { 0usize } else { old(palette).selected };
            let sel = palette_selection(sel0, entries.len(), keys.down, keys.up);
            let enter_runs = !keys.escape && keys.enter && sel < entries.len();
            let click_runs = clicked matches Some(c) && c < entries.len();
            &&& final(palette).selected == sel
            &&& (if !keys.escape && keys.enter && !(sel < entries.len()) {
                final(palette).status matches Some(m) && m@ == no_match_message()
            } else if query_changed {
                final(palette).status is None
            } else {
                final(palette).status == old(palette).status
            })
            &&& final(palette).open == old(palette).open
            &&& final(palette).query@ == old(palette).query@
            &&& final(palette).request_focus == old(palette).request_focus
            &&& outcome == if keys.escape {
                PaletteOutcome::Close
            } else if click_runs {
                PaletteOutcome::Run(entries[clicked.unwrap() as int].command)
            } else if enter_runs {
                PaletteOutcome::Run(entries[sel as int].command)
            } else {
                PaletteOutcome::Stay
            }
        }),
{
    if query_changed {
        palette.selected = 0;
        palette.status = None;
    }
    let entries = filtered_palette_entries(palette.query.as_str());
    let n = entries.len();
    if n > 0 {
        if keys.down {
            palette.selected = step_forward(palette.selected, n);
        }
        if keys.up {
            palette.selected = step_back(palette.selected, n);
        }
        if palette.selected > n - 1 {
            palette.selected = n - 1;
        }
    }
    let mut run: Option<PaletteCommand> = None;
    if keys.escape {
        return PaletteOutcome::Close;
    } else if keys.enter {
        if palette.selected < n {
            run = Some(entries[palette.selected].command);
        } else {
            proof {
                reveal_strlit("No matching command. Use :help for the list.");
            }
            palette.status = Some("No matching command. Use :help for the list.".to_owned());
        }
    }
    if let Some(c) = clicked {
        if c < n {
            run = Some(entries[c].command);
        }
    }
    match run {
        Some(command) => PaletteOutcome::Run(command),
        None => PaletteOutcome::Stay,
    }
}

/// What the search bar reported in one frame.
#[derive(Debug, Clone, Copy)]
pub struct SearchBarInput {
    pub query_changed: bool,
    pub next: bool,
    pub prev: bool,
    pub close: bool,
}

/// Handles one frame of the search bar: closing clears the search; else an edited query is
/// searched for again in the document, the next and previous buttons move the selection,
/// and after such a move the block of the selected match is shown.
pub fn search_bar_frame(
    search: &mut SearchState,
    document: Option<&Document>,
    input: &SearchBarInput,
    navigation: &mut NavigationState,
)
    ensures
        !old(search).active ==> *final(search) == *old(search) && final(navigation)@ == old(navigation)@,
        old(search).active && input.close ==> {
            &&& !final(search).active
            &&& final(search).query@.len() == 0
            &&& final(search).matches@.len() == 0
            &&& final(search).selected == 0
            &&& final(navigation)@ == old(navigation)@
        },
        old(search).active && !input.close ==> {
            let refreshed = input.query_changed && document is Some;
            let matches = if refreshed {
                if old(search).query@.len() == 0 {
                    Seq::<usize>::empty()
                } else {
                    matching_indices(blocks_view(document.unwrap().blocks@), lowercase_of(old(search).query@))
                }
            } else {
                old(search).matches@
            };
            let sel0 = if refreshed { 0usize } else { old(search).selected };
            let sel1 = if input.next { moved_selection(sel0, matches.len(), true) } else { sel0 };
            let sel2 = if input.prev { moved_selection(sel1, matches.len(), false) } else { sel1 };
            &&& final(search).active
            &&& final(search).query@ == old(search).query@
            &&& final(search).matches@ == matches
            &&& final(search).selected == sel2
            &&& final(navigation)@ == if input.next || input.prev {
                reveal_block(old(navigation)@, selected_match(matches, sel2))
            } else {
                old(navigation)@
            }
        },
{
    if !search.active {
        return;
    }
    if input.close {
        search.close();
        return;
    }
    if input.query_changed {
        if let Some(doc) = document {
            search.update_matches(doc);
        }
    }
    if input.next {
        search.next();
    }
    if input.prev {
        search.prev();
    }
    if input.next || input.prev {
        if let Some(block_index) = search.current_match() {
            navigation.request_source_block(block_index);
        }
    }
}

/// Follows the editor's cursor: a changed cursor line asks to show the block that holds it,
/// when there is a document and a block there.
pub fn follow_cursor_line(line: Option<usize>, document: Option<&Document>, navigation: &mut NavigationState)
    ensures
        match (line, document) {
            (Some(l), Some(doc)) => {
                ||| final(navigation)@ == old(navigation)@ && doc.blocks@.len() == 0 && forall|j: int|
                    0 <= j < doc.block_source_lines@.len() ==> #[trigger] doc.block_source_lines@[j] > l
                ||| exists|i: usize| final(navigation)@ == (NavModel { source_block: Some(i), ..old(navigation)@ }) && {
                    ||| (i < doc.block_source_lines@.len() && doc.block_source_lines@[i as int] <= l
                        && forall|j: int| i < j < doc.block_source_lines@.len()
                            ==> #[trigger] doc.block_source_lines@[j] > l)
                    ||| (i == 0 && doc.blocks@.len() > 0 && forall|j: int|
                        0 <= j < doc.block_source_lines@.len() ==> #[trigger] doc.block_source_lines@[j] > l)
                }
            },
            _ => final(navigation)@ == old(navigation)@,
        },
{
    if let Some(l) = line {
        if let Some(doc) = document {
            if let Some(index) = doc.block_index_for_line(l) {
                navigation.request_source_block(index);
            }
        }
    }
}

/// Moving the search selection forward and then back, or the reverse, returns to the same
/// match.
pub proof fn lemma_search_steps_undo(selected: usize, n: nat)
    requires
        selected < n,
        n <= usize::MAX,
    ensures
        moved_selection(moved_selection(selected, n, true), n, false) == selected,
        moved_selection(moved_selection(selected, n, false), n, true) == selected,
{
    let s = selected as int;
    let m = n as int;
    let f = (s + 1) % m;
    let b = (s + m - 1) % m;
    assert(0 <= f < m && (f + m - 1) % m == s) by (nonlinear_arith)
        requires 0 <= s < m, f == (s + 1) % m;
    assert(0 <= b < m && (b + 1) % m == s) by (nonlinear_arith)
        requires 0 <= s < m, b == (s + m - 1) % m;
}

/// In the palette, Down and Up pressed in the same frame leave the selection where it was.
pub proof fn lemma_palette_down_up_cancel(selected: usize, n: nat)
    requires
        selected < n,
        n <= usize::MAX,
    ensures
        palette_selection(selected, n, true, true) == selected,
{
    lemma_search_steps_undo(selected, n);
}

} // verus!

use nvmd::app::jobs::{MermaidJobs, MAX_CONCURRENT_MERMAID_JOBS};
use nvmd::app::keys::{
    apply_input_actions, follow_cursor_line, handle_viewer_keys, palette_frame, search_bar_frame,
    PaletteKeys, PaletteOutcome, SearchBarInput, ViewerKeys,
};
use nvmd::app::{
    apply_mermaid_result, block_contains_query, execute_palette_command, extract_toc,
    any_same_file, filtered_palette_entries, loaded_document, pending_mermaid_sources, reload_path, reload_step,
    same_file_event, AppOptions, RELOAD_DEBOUNCE_MS,
    CommandPalette, MermaidJobResult, PaletteCommand, PaletteEffect, Panels, SearchState,
};
use nvmd::config::Config;
use nvmd::document::model::Block;
use nvmd::document::parser::parse_markdown;
use nvmd::input::{InputAction, NavigationMode, NavigationState};
use nvmd::mermaid::cache::MermaidCache;
use nvmd::mermaid::renderer::{MermaidRenderState, RasterImage};
use nvmd::render::settings::MarkdownPreset;

#[test]
fn command_palette_filters_names_and_descriptions_case_insensitively() {
    assert_eq!(
        filtered_palette_entries(":ZOOM").len(),
        2,
        "both zoom commands should match"
    );
    assert_eq!(
        filtered_palette_entries("current Markdown")[0].command,
        PaletteCommand::Reload
    );
}

#[test]
fn content_snapshot_overrides_disk_reload_source() {
    let config = Config::new("/tmp/document.md".to_owned(), None).expect("config");
    let snapshot = "/tmp/document-live.md".to_owned();
    let options = AppOptions {
        render_mermaid: true,
        cursor_file: None,
        content_file: Some(snapshot.clone()),
    };

    assert_eq!(reload_path(&config, &options), &snapshot);

    let saved_only = AppOptions {
        render_mermaid: true,
        cursor_file: None,
        content_file: None,
    };
    assert_eq!(reload_path(&config, &saved_only), &config.markdown_path);
}

#[test]
fn empty_palette_query_lists_every_command() {
    let all = filtered_palette_entries("");
    assert_eq!(filtered_palette_entries(":").len(), all.len());
    assert_eq!(filtered_palette_entries("   ").len(), all.len());
    assert_eq!(all[0].command, PaletteCommand::Help);
}

#[test]
fn leading_colon_is_ignored_by_the_palette() {
    let plain: Vec<PaletteCommand> = filtered_palette_entries("top").iter().map(|e| e.command).collect();
    let colon: Vec<PaletteCommand> = filtered_palette_entries(":top").iter().map(|e| e.command).collect();
    assert_eq!(plain, colon);
    assert!(plain.contains(&PaletteCommand::Top));
}

#[test]
fn palette_query_without_match_lists_nothing() {
    assert!(filtered_palette_entries("no such command at all").is_empty());
}

#[test]
fn palette_arrows_wrap_around_the_list() {
    let mut palette = CommandPalette::default();
    palette.open();
    palette.query = "zoom".to_owned();
    let keys_up = PaletteKeys { down: false, up: true, escape: false, enter: false };
    assert_eq!(palette_frame(&mut palette, true, &keys_up, None), PaletteOutcome::Stay);
    assert_eq!(palette.selected, 1);
    let keys_down = PaletteKeys { down: true, up: false, escape: false, enter: false };
    assert_eq!(palette_frame(&mut palette, false, &keys_down, None), PaletteOutcome::Stay);
    assert_eq!(palette.selected, 0);
}

#[test]
fn palette_enter_runs_the_selected_command() {
    let mut palette = CommandPalette::default();
    palette.open();
    palette.query = "reload".to_owned();
    let enter = PaletteKeys { down: false, up: false, escape: false, enter: true };
    assert_eq!(
        palette_frame(&mut palette, true, &enter, None),
        PaletteOutcome::Run(PaletteCommand::Reload)
    );
}

#[test]
fn palette_enter_without_match_explains() {
    let mut palette = CommandPalette::default();
    palette.open();
    palette.query = "xyzzy".to_owned();
    let enter = PaletteKeys { down: false, up: false, escape: false, enter: true };
    assert_eq!(palette_frame(&mut palette, true, &enter, None), PaletteOutcome::Stay);
    assert_eq!(
        palette.status.as_deref(),
        Some("No matching command. Use :help for the list.")
    );
}

#[test]
fn palette_escape_closes_and_click_runs() {
    let mut palette = CommandPalette::default();
    palette.open();
    let escape = PaletteKeys { down: false, up: false, escape: true, enter: true };
    assert_eq!(palette_frame(&mut palette, false, &escape, Some(0)), PaletteOutcome::Close);
    let none = PaletteKeys { down: false, up: false, escape: false, enter: false };
    assert_eq!(
        palette_frame(&mut palette, false, &none, Some(0)),
        PaletteOutcome::Run(PaletteCommand::Help)
    );
}

#[test]
fn palette_commands_on_mermaid_need_a_selection() {
    let mut panels = Panels::default();
    let mut search = SearchState::default();
    let mut navigation = NavigationState::default();
    let mut preset = MarkdownPreset::Dark;
    let mut palette = CommandPalette::default();
    palette.open();

    let effect = execute_palette_command(
        PaletteCommand::MermaidNext,
        &mut panels,
        &mut search,
        &mut navigation,
        &mut preset,
        &mut palette,
    );
    assert_eq!(effect, PaletteEffect::Nothing);
    assert!(palette.open);
    assert_eq!(
        palette.status.as_deref(),
        Some("No rendered Mermaid diagrams are available.")
    );

    let effect = execute_palette_command(
        PaletteCommand::ToggleTheme,
        &mut panels,
        &mut search,
        &mut navigation,
        &mut preset,
        &mut palette,
    );
    assert_eq!(effect, PaletteEffect::ApplyTheme);
    assert_eq!(preset, MarkdownPreset::Light);
    assert!(!palette.open);
}

#[test]
fn palette_help_and_toc_commands_show_panels() {
    let mut panels = Panels::default();
    let mut search = SearchState::default();
    let mut navigation = NavigationState::default();
    let mut preset = MarkdownPreset::Dark;
    let mut palette = CommandPalette::default();
    execute_palette_command(PaletteCommand::Help, &mut panels, &mut search, &mut navigation, &mut preset, &mut palette);
    execute_palette_command(PaletteCommand::Toc, &mut panels, &mut search, &mut navigation, &mut preset, &mut palette);
    assert!(panels.show_help && panels.show_toc && !panels.show_settings);
    let effect = execute_palette_command(PaletteCommand::Quit, &mut panels, &mut search, &mut navigation, &mut preset, &mut palette);
    assert_eq!(effect, PaletteEffect::CloseWindow);
}

#[test]
fn search_finds_blocks_ignoring_case_and_cycles() {
    let document = parse_markdown("# Alpha\n\nbeta text\n\n```\nALPHA code\n```\n\nnothing here\n");
    let mut search = SearchState::default();
    search.open();
    search.query = "alpha".to_owned();
    search.update_matches(&document);
    assert_eq!(search.matches, vec![0, 2]);
    assert_eq!(search.current_match(), Some(0));
    search.next();
    assert_eq!(search.current_match(), Some(2));
    search.next();
    assert_eq!(search.current_match(), Some(0));
    search.prev();
    assert_eq!(search.current_match(), Some(2));
    search.close();
    assert!(!search.active && search.matches.is_empty() && search.query.is_empty());
}

#[test]
fn search_bar_moves_and_reveals_the_match() {
    let document = parse_markdown("one\n\ntwo one\n");
    let mut search = SearchState::default();
    let mut navigation = NavigationState::default();
    search.open();
    search.query = "one".to_owned();
    let typed = SearchBarInput { query_changed: true, next: false, prev: false, close: false };
    search_bar_frame(&mut search, Some(&document), &typed, &mut navigation);
    assert_eq!(search.matches, vec![0, 1]);
    let next = SearchBarInput { query_changed: false, next: true, prev: false, close: false };
    search_bar_frame(&mut search, Some(&document), &next, &mut navigation);
    assert_eq!(navigation.take_source_block(), Some(1));
    let close = SearchBarInput { query_changed: false, next: false, prev: false, close: true };
    search_bar_frame(&mut search, Some(&document), &close, &mut navigation);
    assert!(!search.active);
}

#[test]
fn block_query_looks_into_lists_and_quotes() {
    let document = parse_markdown("- item with Needle\n\n> quoted needle\n");
    assert!(block_contains_query(&document.blocks[0], "needle"));
    assert!(block_contains_query(&document.blocks[1], "needle"));
    assert!(!block_contains_query(&document.blocks[0], "haystack"));
}

#[test]
fn slash_opens_search_and_n_moves_through_matches() {
    let document = parse_markdown("x\n\ny x\n");
    let mut panels = Panels::default();
    let mut search = SearchState::default();
    let mut navigation = NavigationState::default();
    let slash = ViewerKeys { escape: false, n: false, shift: false, t: false, slash: true, wants_keyboard_input: false };
    assert!(!handle_viewer_keys(&slash, false, &mut panels, &mut search, &mut navigation));
    assert!(search.active);
    search.query = "x".to_owned();
    search.update_matches(&document);
    let n = ViewerKeys { escape: false, n: true, shift: false, t: false, slash: false, wants_keyboard_input: false };
    handle_viewer_keys(&n, false, &mut panels, &mut search, &mut navigation);
    assert_eq!(navigation.take_source_block(), Some(1));
    let shift_n = ViewerKeys { escape: false, n: true, shift: true, t: false, slash: false, wants_keyboard_input: false };
    handle_viewer_keys(&shift_n, false, &mut panels, &mut search, &mut navigation);
    assert_eq!(navigation.take_source_block(), Some(0));
}

#[test]
fn t_toggles_the_outline_and_palette_blocks_keys() {
    let mut panels = Panels::default();
    let mut search = SearchState::default();
    let mut navigation = NavigationState::default();
    let t = ViewerKeys { escape: false, n: false, shift: false, t: true, slash: false, wants_keyboard_input: false };
    assert!(!handle_viewer_keys(&t, false, &mut panels, &mut search, &mut navigation));
    assert!(panels.show_toc);
    assert!(!handle_viewer_keys(&t, true, &mut panels, &mut search, &mut navigation));
    assert!(panels.show_toc);
    let none = ViewerKeys { escape: false, n: false, shift: false, t: false, slash: false, wants_keyboard_input: false };
    assert!(handle_viewer_keys(&none, false, &mut panels, &mut search, &mut navigation));
}

#[test]
fn escape_closes_help_first() {
    let mut panels = Panels { show_help: true, show_settings: false, show_toc: false };
    let mut search = SearchState::default();
    let mut navigation = NavigationState::default();
    let escape = ViewerKeys { escape: true, n: false, shift: false, t: false, slash: false, wants_keyboard_input: false };
    assert!(!handle_viewer_keys(&escape, false, &mut panels, &mut search, &mut navigation));
    assert!(!panels.show_help);
}

#[test]
fn input_actions_open_palette_toggle_settings_and_close() {
    let mut palette = CommandPalette::default();
    let mut panels = Panels::default();
    let actions = vec![InputAction::ToggleSettings, InputAction::OpenPalette, InputAction::ZoomIn];
    assert!(!apply_input_actions(&actions, &mut palette, &mut panels));
    assert!(palette.open && panels.show_settings);
    let twice = vec![InputAction::ToggleSettings, InputAction::ToggleSettings, InputAction::CloseWindow];
    assert!(apply_input_actions(&twice, &mut palette, &mut panels));
    assert!(panels.show_settings);
}

#[test]
fn table_of_contents_lists_headings_with_their_blocks() {
    let document = parse_markdown("# One\n\ntext\n\n## Two *em*\n");
    let toc = extract_toc(&document);
    assert_eq!(toc.len(), 2);
    assert_eq!((toc[0].block_index, toc[0].level, toc[0].text.as_str()), (0, 1, "One"));
    assert_eq!((toc[1].block_index, toc[1].level, toc[1].text.as_str()), (2, 2, "Two em"));
}

#[test]
fn cursor_line_reveals_its_block() {
    let document = parse_markdown("# Title\n\ntext\n\nmore\n");
    let mut navigation = NavigationState::default();
    follow_cursor_line(Some(4), Some(&document), &mut navigation);
    assert_eq!(navigation.take_source_block(), Some(1));
    follow_cursor_line(None, Some(&document), &mut navigation);
    assert_eq!(navigation.take_source_block(), None);
}

#[test]
fn watcher_events_match_the_previewed_file() {
    assert!(same_file_event("/tmp/notes/doc.md", "/tmp/notes/doc.md"));
    assert!(!same_file_event("/tmp/notes/other.md", "/tmp/notes/doc.md"));
    assert!(!same_file_event("/tmp/elsewhere/doc.md", "/tmp/notes/doc.md"));
}

fn mermaid_document() -> nvmd::document::model::Document {
    parse_markdown("```mermaid\ngraph TD\n  A --> B\n```\n\n> ```mermaid\n> graph LR\n>   C --> D\n> ```\n")
}

#[test]
fn pending_diagrams_are_found_inside_quotes() {
    let document = mermaid_document();
    let sources = pending_mermaid_sources(&document.blocks);
    assert_eq!(sources.len(), 2);
    assert!(sources[0].contains("A --> B"));
    assert!(sources[1].contains("C --> D"));
}

#[test]
fn finished_job_updates_the_matching_diagram_only() {
    let mut document = mermaid_document();
    let sources = pending_mermaid_sources(&document.blocks);
    let key = MermaidCache::key(&sources[1]);
    let applied = apply_mermaid_result(
        &mut document.blocks,
        MermaidJobResult {
            key,
            generation: 0,
            result: Ok(RasterImage { width: 1, height: 1, rgba: vec![0, 0, 0, 255] }),
        },
    );
    assert!(applied);
    let still_pending = pending_mermaid_sources(&document.blocks);
    assert_eq!(still_pending.len(), 1);
    assert!(still_pending[0].contains("A --> B"));

    let missed = apply_mermaid_result(
        &mut document.blocks,
        MermaidJobResult { key: "no such key".to_owned(), generation: 0, result: Err("boom".to_owned()) },
    );
    assert!(!missed);
}

#[test]
fn failed_job_records_its_reason() {
    let mut document = parse_markdown("```mermaid\ngraph TD\n```\n");
    let sources = pending_mermaid_sources(&document.blocks);
    let key = MermaidCache::key(&sources[0]);
    apply_mermaid_result(
        &mut document.blocks,
        MermaidJobResult { key, generation: 0, result: Err("parse error".to_owned()) },
    );
    match &document.blocks[0] {
        Block::Mermaid { render_state: MermaidRenderState::Failed { reason }, .. } => {
            assert_eq!(reason, "parse error")
        }
        other => panic!("unexpected block {other:?}"),
    }
}

#[test]
fn jobs_start_once_per_key_and_respect_the_limit() {
    let mut source = String::new();
    for i in 0..6 {
        source.push_str(&format!("```mermaid\ngraph TD\n  N{i} --> M\n```\n\n"));
    }
    source.push_str("```mermaid\ngraph TD\n  N0 --> M\n```\n");
    let document = parse_markdown(&source);
    let mut jobs = MermaidJobs::new();
    assert!(jobs.schedule(false, &document.blocks).is_empty());
    let started = jobs.schedule(true, &document.blocks);
    assert_eq!(started.len(), MAX_CONCURRENT_MERMAID_JOBS);
    assert_eq!(jobs.len(), MAX_CONCURRENT_MERMAID_JOBS);
    assert!(jobs.schedule(true, &document.blocks).is_empty());
    jobs.finish(&started[0].key);
    assert_eq!(jobs.len(), MAX_CONCURRENT_MERMAID_JOBS - 1);
    let again = jobs.schedule(true, &document.blocks);
    assert_eq!(again.len(), 1);
    assert_eq!(again[0].key, started[0].key);
}

#[test]
fn stale_job_results_are_ignored_after_a_reload() {
    let mut document = Some(parse_markdown("```mermaid\ngraph TD\n```\n"));
    let mut jobs = MermaidJobs::new();
    let started = jobs.schedule(true, &document.as_ref().unwrap().blocks);
    assert_eq!(started.len(), 1);
    jobs.restart();
    assert_eq!(jobs.len(), 0);
    let stale = MermaidJobResult { key: started[0].key.clone(), generation: 0, result: Err("late".to_owned()) };
    assert!(!jobs.collect(stale, &mut document));
    assert_eq!(pending_mermaid_sources(&document.as_ref().unwrap().blocks).len(), 1);
    let current = MermaidJobResult { key: started[0].key.clone(), generation: jobs.generation(), result: Err("now".to_owned()) };
    assert!(jobs.collect(current, &mut document));
    assert!(pending_mermaid_sources(&document.as_ref().unwrap().blocks).is_empty());
}

#[test]
fn synced_mermaid_selection_switches_modes() {
    let mut navigation = NavigationState::default();
    navigation.apply_synced_block_mode(Some(0));
    assert_eq!(navigation.mode, NavigationMode::MermaidControl { index: 0 });
}

#[test]
fn watcher_reports_are_checked_path_by_path() {
    let paths = vec!["/tmp/notes/other.md".to_owned(), "/tmp/notes/doc.md".to_owned()];
    assert!(any_same_file(&paths, "/tmp/notes/doc.md"));
    assert!(!any_same_file(&paths[..1].to_vec(), "/tmp/notes/doc.md"));
    assert!(!any_same_file(&Vec::new(), "/tmp/notes/doc.md"));
}

#[test]
fn reload_waits_for_the_debounce_after_the_last_change() {
    let mut pending = None;
    assert!(!reload_step(&mut pending, true, 1_000));
    assert_eq!(pending, Some(1_000));
    assert!(!reload_step(&mut pending, false, 1_000 + RELOAD_DEBOUNCE_MS - 1));
    assert!(!reload_step(&mut pending, true, 1_100));
    assert!(!reload_step(&mut pending, false, 1_100 + RELOAD_DEBOUNCE_MS - 1));
    assert!(reload_step(&mut pending, false, 1_100 + RELOAD_DEBOUNCE_MS));
    assert_eq!(pending, None);
    assert!(!reload_step(&mut pending, false, 5_000));
}

#[test]
fn reload_keeps_the_path_and_refreshes_an_active_search() {
    let path = "/tmp/notes.md".to_owned();
    let mut search = SearchState::default();
    search.open();
    search.query = "beta".to_owned();
    search.selected = 3;
    let (document, toc) = loaded_document("# Alpha\n\nbeta\n", &path, &mut search);
    assert_eq!(document.source_path.as_deref(), Some("/tmp/notes.md"));
    assert_eq!(toc.len(), 1);
    assert_eq!(search.matches, vec![1]);
    assert_eq!(search.selected, 0);

    let mut idle = SearchState::default();
    idle.query = "alpha".to_owned();
    loaded_document("# Alpha\n", &path, &mut idle);
    assert!(idle.matches.is_empty());
}

#[test]
fn block_query_looks_into_tables_and_diagrams() {
    let document = parse_markdown("| Name |\n| --- |\n| Alpha |\n\n```mermaid\ngraph TD; Start-->Finish\n```\n");
    assert!(block_contains_query(&document.blocks[0], "alpha"));
    assert!(block_contains_query(&document.blocks[0], "name"));
    assert!(!block_contains_query(&document.blocks[0], "beta"));
    assert!(block_contains_query(&document.blocks[1], "finish"));
    assert!(!block_contains_query(&document.blocks[1], "omega"));
}

#[test]
fn a_part_of_a_query_keeps_every_command_the_query_keeps() {
    let narrow = filtered_palette_entries("toggle the");
    let wide = filtered_palette_entries("toggle");
    assert!(!narrow.is_empty());
    for entry in &narrow {
        assert!(wide.iter().any(|e| e.name == entry.name));
    }
    assert!(filtered_palette_entries("xyzzy-nothing").is_empty());
}

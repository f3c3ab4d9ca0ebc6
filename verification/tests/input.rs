use nvmd::input::{
    collect_actions, parse_key, DocumentJump, FrameInput, InputAction, Key, KeyMap, MermaidViewportCommand,
    NavigationMode, NavigationState, MAX_EXPANDED_SIZE_STEP,
};
use nvmd::render::settings::KeyConfig;

#[test]
fn cycles_targets_with_wrap() {
    let mut state = NavigationState::default();
    state.register_target(2, 20, 30);
    state.register_target(5, 40, 50);
    state.mode = NavigationMode::MermaidControl { index: 5 };

    state.select_target(1);
    assert_eq!(state.mode, NavigationMode::MermaidControl { index: 2 });
    state.select_target(-1);
    assert_eq!(state.mode, NavigationMode::MermaidControl { index: 5 });
}

#[test]
fn selects_next_target_at_or_below_document_viewport() {
    let mut state = NavigationState::default();
    state.register_target(1, 10, 30);
    state.register_target(2, 90, 120);
    state.set_viewport(60, 160);

    state.select_target(1);

    assert_eq!(state.mode, NavigationMode::MermaidControl { index: 2 });
}

#[test]
fn selects_previous_target_visible_above_document_position() {
    let mut state = NavigationState::default();
    state.register_target(1, 10, 30);
    state.register_target(2, 190, 220);
    state.set_viewport(60, 160);

    state.select_target(-1);

    assert_eq!(state.mode, NavigationMode::MermaidControl { index: 1 });
}

#[test]
fn leader_chord_can_select_without_a_second_frame() {
    let mut state = NavigationState::default();
    state.register_target(4, 40, 80);

    assert!(state.apply_leader_keys(true, Some(1), 0));

    assert_eq!(state.mode, NavigationMode::MermaidControl { index: 4 });
}

#[test]
fn leader_prefix_selects_on_following_direction_key() {
    let mut state = NavigationState::default();
    state.register_target(4, 40, 80);

    assert!(state.apply_leader_keys(true, None, 0));
    assert_eq!(state.mode, NavigationMode::Document);
    assert!(state.apply_leader_keys(false, None, 10));
    assert_eq!(state.mode, NavigationMode::Document);
    assert!(state.apply_leader_keys(false, Some(1), 20));

    assert_eq!(state.mode, NavigationMode::MermaidControl { index: 4 });
}

#[test]
fn queues_document_jump_until_document_consumes_it() {
    let mut state = NavigationState::default();

    state.request_document_jump(DocumentJump::Bottom);

    assert_eq!(state.take_document_jump(), Some(DocumentJump::Bottom));
    assert_eq!(state.take_document_jump(), None);
}

#[test]
fn synced_source_blocks_switch_between_document_and_mermaid_modes() {
    let mut state = NavigationState::default();

    state.request_source_block(4);
    assert_eq!(state.take_source_block(), Some(4));
    state.apply_synced_block_mode(Some(2));
    assert_eq!(state.mode, NavigationMode::MermaidControl { index: 2 });

    state.apply_synced_block_mode(None);
    assert_eq!(state.mode, NavigationMode::Document);
}

#[test]
fn queues_viewport_command_only_for_selected_mermaid() {
    let mut state = NavigationState::default();
    assert!(!state.request_mermaid_command(MermaidViewportCommand::Fit));

    state.mode = NavigationMode::MermaidControl { index: 3 };
    assert!(state.request_mermaid_command(MermaidViewportCommand::ZoomIn));
    assert_eq!(state.take_mermaid_command(2), None);
    assert_eq!(
        state.take_mermaid_command(3),
        Some(MermaidViewportCommand::ZoomIn)
    );
}

#[test]
fn opens_and_closes_expanded_view_for_selected_mermaid() {
    let mut state = NavigationState::default();
    assert!(!state.open_selected_mermaid());

    state.mode = NavigationMode::MermaidControl { index: 3 };
    assert!(state.open_selected_mermaid());
    assert!(state.is_expanded(3));
    assert_eq!(state.expanded_size_step(3), Some(0));
    assert!(state.open_selected_mermaid());
    assert_eq!(state.expanded_size_step(3), Some(1));
    assert!(state.close_expanded_mermaid());
    assert!(!state.is_expanded(3));
}

#[test]
fn switching_target_keeps_expanded_view_open_on_new_diagram() {
    let mut state = NavigationState::default();
    state.register_target(2, 20, 30);
    state.register_target(5, 40, 50);
    state.mode = NavigationMode::MermaidControl { index: 2 };
    state.open_selected_mermaid();

    state.select_target(1);

    assert!(state.is_expanded(5));
}

#[test]
fn expanded_mermaid_size_stops_at_the_maximum_step() {
    let mut state = NavigationState::default();
    state.mode = NavigationMode::MermaidControl { index: 2 };
    for _ in 0..10 {
        state.open_selected_mermaid();
    }

    assert_eq!(state.expanded_size_step(2), Some(MAX_EXPANDED_SIZE_STEP));
}

#[test]
fn targets_registered_out_of_order_are_kept_by_top_edge() {
    let mut state = NavigationState::default();
    state.register_target(7, 300, 340);
    state.register_target(3, 100, 140);
    state.register_target(5, 200, 240);
    state.mode = NavigationMode::MermaidControl { index: 3 };

    state.select_target(1);
    assert_eq!(state.mode, NavigationMode::MermaidControl { index: 5 });
    state.select_target(1);
    assert_eq!(state.mode, NavigationMode::MermaidControl { index: 7 });
    state.select_target(1);
    assert_eq!(state.mode, NavigationMode::MermaidControl { index: 3 });
}

#[test]
fn next_then_previous_returns_to_the_same_diagram() {
    let mut state = NavigationState::default();
    state.register_target(1, 0, 10);
    state.register_target(2, 20, 30);
    state.register_target(3, 40, 50);
    state.mode = NavigationMode::MermaidControl { index: 3 };

    state.select_target(1);
    assert_eq!(state.mode, NavigationMode::MermaidControl { index: 1 });
    state.select_target(-1);
    assert_eq!(state.mode, NavigationMode::MermaidControl { index: 3 });
}

#[test]
fn selecting_without_targets_changes_nothing() {
    let mut state = NavigationState::default();
    assert!(!state.select_relative_target(1));
    assert_eq!(state.mode, NavigationMode::Document);
}

#[test]
fn selected_diagram_is_revealed_once() {
    let mut state = NavigationState::default();
    state.register_target(4, 40, 80);
    state.select_target(1);

    assert!(state.should_reveal(4));
    assert!(!state.should_reveal(4));
}

#[test]
fn parses_key_names_ignoring_case() {
    assert_eq!(parse_key("J"), Some(Key::J));
    assert_eq!(parse_key("Escape"), Some(Key::Escape));
    assert_eq!(parse_key("esc"), Some(Key::Escape));
    assert_eq!(parse_key("slash"), Some(Key::Slash));
    assert_eq!(parse_key("no-such-key"), None);
}

#[test]
fn default_key_config_gives_default_key_map() {
    assert_eq!(KeyMap::from_config(&KeyConfig::default()), KeyMap::default());
}

#[test]
fn unknown_key_names_keep_default_bindings() {
    let mut config = KeyConfig::default();
    config.scroll_down = "???".to_owned();
    config.quit = "x".to_owned();
    let keys = KeyMap::from_config(&config);
    assert_eq!(keys.scroll_down, Key::J);
    assert_eq!(keys.quit, Key::X);
}

#[test]
fn colon_key_opens_the_palette() {
    let mut navigation = NavigationState::default();
    let input = FrameInput {
        wants_keyboard_input: false,
        pressed: vec![Key::Colon],
        down: vec![],
    };
    let (actions, _) = collect_actions(&input, &mut navigation, &KeyMap::default(), 0);
    assert!(actions.contains(&InputAction::OpenPalette));
}

#[test]
fn typing_in_a_text_field_collects_no_actions() {
    let mut navigation = NavigationState::default();
    let input = FrameInput {
        wants_keyboard_input: true,
        pressed: vec![Key::Colon, Key::Q],
        down: vec![Key::J],
    };
    let (actions, scroll) = collect_actions(&input, &mut navigation, &KeyMap::default(), 0);
    assert!(actions.is_empty());
    assert!(!scroll.down && !scroll.up);
}

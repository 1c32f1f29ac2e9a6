//! Editor input, the unit template, mode handling and the application
//! state machine.

use game::{
    parse_u32, Action, AppRequest, AppState, ApplicationState, BuildTool, EditorInput, EditorMode, EntitySpec,
    GameMap, GameMode, GameTool, InputTarget, MapPosition, MenuSelection, Notice, WorldState,
};

fn chars(s: &str) -> Vec<char> {
    s.chars().collect()
}

#[test]
fn parse_u32_reads_decimal_numbers_exactly() {
    assert_eq!(parse_u32(&chars("0")), Some(0));
    assert_eq!(parse_u32(&chars("42")), Some(42));
    assert_eq!(parse_u32(&chars("0042")), Some(42));
    assert_eq!(parse_u32(&chars("4294967295")), Some(u32::MAX));
}

#[test]
fn parse_u32_rejects_empty_nondigit_and_overflow() {
    assert_eq!(parse_u32(&chars("")), None);
    assert_eq!(parse_u32(&chars("12a")), None);
    assert_eq!(parse_u32(&chars("-3")), None);
    assert_eq!(parse_u32(&chars("4294967296")), None);
}

#[test]
fn team_symbol_follows_the_team_number() {
    let mut spec = EntitySpec::starting();
    assert_eq!(spec.symbol, '@');
    spec.team = 2;
    spec.update_symbol();
    assert_eq!(spec.symbol, 'C');
    assert!(spec.is_ai);
    spec.team = 27;
    spec.update_symbol();
    assert_eq!(spec.symbol, 'B');
    spec.team = 1;
    spec.update_symbol();
    assert_eq!(spec.symbol, '@');
    assert!(!spec.is_ai);
}

#[test]
fn typed_digits_are_committed_into_the_template() {
    let mut editor = EditorMode::new();
    assert!(editor.handle_keypress('h').is_none());
    assert_eq!(editor.input_target(), InputTarget::Hp);
    editor.handle_typing('7');
    editor.handle_typing('x');  // ignored: not a digit
    editor.handle_typing('5');
    assert_eq!(editor.input_buffer().len(), 2);
    editor.confirm_input();
    assert_eq!(editor.entity_spec().hp, 75);
    assert_eq!(editor.input_target(), InputTarget::Idle);
    assert_eq!(editor.debug_message(), Notice::SetHp(75));
}

#[test]
fn backspace_and_cancel_leave_the_template_alone() {
    let mut editor = EditorMode::new();
    editor.handle_keypress('d');
    editor.handle_typing('9');
    editor.handle_backspace();
    editor.handle_typing('3');
    editor.cancel_input();
    assert_eq!(editor.entity_spec().damage, EntitySpec::starting().damage);
    assert_eq!(editor.debug_message(), Notice::EditCancelled);
}

#[test]
fn editor_tools_cycle_and_build() {
    let mut editor = EditorMode::new();
    assert_eq!(editor.current_tool(), BuildTool::Wall);
    editor.cycle_tool();
    assert_eq!(editor.current_tool(), BuildTool::Floor);
    editor.cycle_tool();
    assert_eq!(editor.current_tool(), BuildTool::Unit);
    editor.cycle_tool();
    assert_eq!(editor.current_tool(), BuildTool::Wall);
    editor.handle_click(MapPosition::new(2, 2));
    assert!(editor.world().map.get_tile(MapPosition::new(2, 2)).unwrap().is_solid());
    assert_eq!(editor.debug_message(), Notice::BuiltWall(MapPosition::new(2, 2)));
}

#[test]
fn editor_places_units_from_the_template() {
    let mut editor = EditorMode::new();
    editor.handle_keypress('u');
    editor.handle_click(MapPosition::new(3, 3));
    let id = editor.world().get_entity_id_at(MapPosition::new(3, 3)).unwrap();
    let e = editor.world().get_entity(id).unwrap();
    assert_eq!(e.max_health(), 50);
    assert_eq!(e.team(), 1);
    assert_eq!(editor.debug_message(), Notice::SpawnedUnit(id));
}

#[test]
fn app_state_menu_transitions() {
    let mut app = ApplicationState::new();
    assert!(matches!(app.state, AppState::Menu));
    let r = app.apply_action(Action::MenuSelect(MenuSelection::EnterPlayMode));
    assert_eq!(r, Some(AppRequest::LoadStandardWorld));
    assert!(matches!(app.state, AppState::Menu));
    let r = app.apply_action(Action::MenuSelect(MenuSelection::EnterBuildMode));
    assert_eq!(r, None);
    assert!(matches!(app.state, AppState::Editor(_)));
    let r = app.apply_action(Action::BackToMenu);
    assert_eq!(r, None);
    assert!(matches!(app.state, AppState::Menu));
    app.apply_action(Action::QuitApp);
    assert!(matches!(app.state, AppState::Exiting));
}

#[test]
fn app_state_save_and_load_round() {
    let mut app = ApplicationState::new();
    app.apply_action(Action::MenuSelect(MenuSelection::EnterBuildMode));
    let r = app.apply_action(Action::SaveMap);
    assert_eq!(r, Some(AppRequest::SaveEditorWorld));
    app.finish_save(true);
    if let AppState::Editor(editor) = &app.state {
        assert_eq!(editor.debug_message(), Notice::SaveDone);
    } else {
        panic!("expected the editor");
    }
    app.apply_action(Action::BackToMenu);
    let r = app.apply_action(Action::MenuSelect(MenuSelection::LoadLatest));
    assert_eq!(r, Some(AppRequest::LoadLatestWorld));
    // a failed load leaves the menu untouched
    app.finish_load(None);
    assert!(matches!(app.state, AppState::Menu));
    // a successful load enters play mode
    app.finish_load(Some(WorldState::new()));
    assert!(matches!(app.state, AppState::Game(_)));
}

#[test]
fn game_mode_tools_and_selection() {
    let mut w = WorldState {
        map: GameMap::new(5, 5),
        entities: Vec::new(),
        next_entity_id: 0,
        current_team_turn: 1,
    };
    let id = w
        .spawn_entity(MapPosition::new(1, 1), '@', String::from("Player"), 10, 10, 2, 1, 1, false)
        .unwrap();
    let mut mode = GameMode::new(w);
    assert_eq!(mode.current_tool(), GameTool::Select);
    mode.handle_click(MapPosition::new(1, 1));
    assert_eq!(mode.selected_entity_id(), Some(id));
    assert!(mode.world().get_entity(id).unwrap().is_selected());
    assert!(mode.handle_keypress('2').is_none());
    assert_eq!(mode.current_tool(), GameTool::Move);
    mode.handle_click(MapPosition::new(1, 3));
    assert_eq!(mode.world().get_entity(id).unwrap().position(), MapPosition::new(1, 3));
    assert_eq!(mode.debug_message(), Notice::Moved);
    assert_eq!(mode.handle_keypress('q'), Some(Action::BackToMenu));
}

#[test]
fn game_mode_attack_without_selection_asks_for_one() {
    let w = WorldState::new();
    let mut mode = GameMode::new(w);
    mode.handle_keypress('3');
    mode.handle_click(MapPosition::new(0, 0));
    assert_eq!(mode.debug_message(), Notice::SelectFirst);
}

#[test]
fn entity_spec_to_entity_copies_the_template() {
    let mut spec = EntitySpec::starting();
    spec.team = 3;
    spec.update_symbol();
    spec.hp = 33;
    let e = spec.to_entity(7, MapPosition::new(2, 1));
    assert_eq!(e.id(), 7);
    assert_eq!(e.team(), 3);
    assert_eq!(e.max_health(), 33);
    assert_eq!(e.health(), 33);
    assert_eq!(e.display_name(), "Enemy");
    assert!(e.is_ai());
    assert_eq!(e.position(), MapPosition::new(2, 1));
}

#[test]
fn editor_refuses_to_spawn_on_an_occupied_tile() {
    let mut editor = EditorMode::new();
    editor.handle_keypress('u');
    editor.handle_click(MapPosition::new(3, 3));
    editor.handle_click(MapPosition::new(3, 3));
    assert_eq!(editor.debug_message(), Notice::SpawnBlocked);
}

#[test]
fn confirm_with_no_target_keeps_a_parseable_buffer_pending() {
    let mut input = EditorInput::new();
    let mut template = EntitySpec::starting();
    input.handle_typing('5');
    assert_eq!(input.confirm(&mut template), None);
    assert_eq!(input.input_buffer.len(), 1);
    assert_eq!(template, EntitySpec::starting());
    // an unparsable pending number is reported and discarded
    let mut odd = EditorInput::new();
    odd.input_buffer = vec!['x'];
    assert_eq!(odd.confirm(&mut template), Some(Notice::InvalidNumber));
    assert_eq!(odd.input_buffer.len(), 0);
    assert_eq!(template, EntitySpec::starting());
}

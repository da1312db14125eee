use voxel_engine::components::{self, InputState};
use voxel_engine::keys::{click_action, handle_key, look_allowed, ClickAction, KeyAction, KeyCode, MouseButton};
use voxel_engine::navigation::{handle_ecs_ui_message, NavCommand, Navigator};
use voxel_engine::ui_state::{UiMessage, UiScreen};

fn nav_at(screen: UiScreen) -> Navigator {
    let mut n = Navigator::new();
    n.ui_screen = screen;
    n
}

#[test]
fn escape_pauses_and_resumes_game() {
    let mut n = nav_at(UiScreen::InGame);
    assert_eq!(n.handle_escape(), Some(false));
    assert_eq!(n.ui_screen, UiScreen::PauseMenu);
    assert_eq!(n.handle_escape(), Some(true));
    assert_eq!(n.ui_screen, UiScreen::InGame);
}

#[test]
fn escape_on_menus() {
    let mut n = nav_at(UiScreen::Matchmaking);
    assert_eq!(n.handle_escape(), None);
    assert_eq!(n.ui_screen, UiScreen::MainMenu);
    let mut n = nav_at(UiScreen::MapSelect);
    n.handle_escape();
    assert_eq!(n.ui_screen, UiScreen::MainMenu);
    let mut n = nav_at(UiScreen::MainMenu);
    assert_eq!(n.handle_escape(), None);
    assert_eq!(n.ui_screen, UiScreen::MainMenu);
    let mut n = nav_at(UiScreen::WorldSelect);
    n.handle_escape();
    assert_eq!(n.ui_screen, UiScreen::DevTools);
    n.handle_escape();
    assert_eq!(n.ui_screen, UiScreen::MainMenu);
    let mut n = nav_at(UiScreen::Loading);
    assert_eq!(n.handle_escape(), None);
    assert_eq!(n.ui_screen, UiScreen::Loading);
}

#[test]
fn editor_pause_and_resume() {
    let mut n = nav_at(UiScreen::Editor);
    assert_eq!(n.handle_escape(), Some(false));
    assert_eq!(n.ui_screen, UiScreen::EditorPause);
    assert_eq!(n.prev_screen, UiScreen::Editor);
    let e = n.handle_ui_message(UiMessage::Resume);
    assert_eq!(e.grab, Some(true));
    assert_eq!(n.ui_screen, UiScreen::Editor);
}

#[test]
fn settings_then_back_returns() {
    let mut n = nav_at(UiScreen::PauseMenu);
    n.handle_ui_message(UiMessage::Settings);
    assert_eq!(n.ui_screen, UiScreen::Settings);
    n.handle_ui_message(UiMessage::Back);
    assert_eq!(n.ui_screen, UiScreen::PauseMenu);
    let mut n = nav_at(UiScreen::MainMenu);
    n.handle_ui_message(UiMessage::Settings);
    n.handle_escape();
    assert_eq!(n.ui_screen, UiScreen::MainMenu);
}

#[test]
fn select_map_then_find_match_loads_it_once() {
    let mut n = Navigator::new();
    let e = n.handle_ui_message(UiMessage::OpenMapSelect);
    assert_eq!(e.command, NavCommand::ScanPlayableWorlds);
    assert_eq!(n.ui_screen, UiScreen::MapSelect);
    n.handle_ui_message(UiMessage::SelectMap("maps/a.world".to_string()));
    assert_eq!(n.ui_screen, UiScreen::Matchmaking);
    let e = n.handle_ui_message(UiMessage::FindMatch);
    assert_eq!(e.command, NavCommand::LoadWorld("maps/a.world".to_string()));
    let e = n.handle_ui_message(UiMessage::FindMatch);
    assert_eq!(e.command, NavCommand::Nothing);
}

#[test]
fn quit_and_exit_messages() {
    let mut n = nav_at(UiScreen::PauseMenu);
    let e = n.handle_ui_message(UiMessage::QuitToMenu);
    assert_eq!(e.grab, Some(false));
    assert!(e.drop_regions);
    assert_eq!(n.ui_screen, UiScreen::MainMenu);
    let e = n.handle_ui_message(UiMessage::Exit);
    assert_eq!(e.command, NavCommand::Exit);
    let mut n = nav_at(UiScreen::PauseMenu);
    let e = n.handle_ui_message(UiMessage::Resume);
    assert_eq!(n.ui_screen, UiScreen::InGame);
    assert_eq!(e.grab, Some(true));
}

#[test]
fn dev_messages() {
    let mut n = Navigator::new();
    n.handle_ui_message(UiMessage::OpenDevTools);
    assert_eq!(n.ui_screen, UiScreen::DevTools);
    let e = n.handle_ui_message(UiMessage::OpenWorldSelect);
    assert_eq!(e.command, NavCommand::ScanWorlds);
    assert_eq!(n.prev_screen, UiScreen::DevTools);
    let e = n.handle_ui_message(UiMessage::EditWorld("maps/w".to_string()));
    assert!(n.enter_editor_after_gen);
    assert_eq!(e.command, NavCommand::LoadWorld("maps/w".to_string()));
    n.handle_ui_message(UiMessage::PlayWorld("maps/w".to_string()));
    assert!(!n.enter_editor_after_gen);
    let e = n.handle_ui_message(UiMessage::CreateNewMap("new".to_string()));
    assert_eq!(e.command, NavCommand::CreateWorld("new".to_string()));
    assert_eq!(n.handle_ui_message(UiMessage::SaveBigWorld).command, NavCommand::SaveWorld);
    let e = n.handle_ui_message(UiMessage::EditorQuitToMenu);
    assert!(e.drop_regions);
    assert_eq!(n.ui_screen, UiScreen::MainMenu);
    let mut n = nav_at(UiScreen::Editor);
    assert_eq!(n.begin_saving(), Some(false));
    assert_eq!(n.ui_screen, UiScreen::Loading);
    assert_eq!(n.prev_screen, UiScreen::Editor);
    assert_eq!(n.begin_loading(), Some(false));
}

#[test]
fn render_and_move_predicates() {
    assert!(nav_at(UiScreen::InGame).should_render_3d());
    assert!(nav_at(UiScreen::EditorPause).should_render_3d());
    assert!(!nav_at(UiScreen::MainMenu).should_render_3d());
    assert!(nav_at(UiScreen::Editor).can_move_editor());
    assert!(!nav_at(UiScreen::InGame).editor_active());
    assert_eq!(nav_at(UiScreen::EditorPause).dev_resume_target(), Some(UiScreen::Editor));
    assert_eq!(nav_at(UiScreen::PauseMenu).dev_resume_target(), None);
}

#[test]
fn movement_keys_press_and_release() {
    let mut keys = InputState::default();
    let mut n = nav_at(UiScreen::InGame);
    assert_eq!(handle_key(&mut keys, &mut n, KeyCode::KeyW, true, false), KeyAction::Nothing);
    assert!(keys.forward);
    handle_key(&mut keys, &mut n, KeyCode::ShiftLeft, true, false);
    assert!(keys.down && keys.sprint);
    handle_key(&mut keys, &mut n, KeyCode::ShiftLeft, false, false);
    assert!(!keys.down && !keys.sprint);
    handle_key(&mut keys, &mut n, KeyCode::KeyW, false, false);
    assert!(!keys.forward);
    handle_key(&mut keys, &mut n, KeyCode::KeyQ, true, false);
    assert!(keys.up);
    handle_key(&mut keys, &mut n, KeyCode::KeyE, true, false);
    assert!(keys.down);
}

#[test]
fn movement_keys_ignored_in_menus() {
    let mut keys = InputState::default();
    let mut n = nav_at(UiScreen::MainMenu);
    assert_eq!(handle_key(&mut keys, &mut n, KeyCode::KeyW, true, false), KeyAction::Nothing);
    assert_eq!(keys, InputState::default());
    assert_eq!(handle_key(&mut keys, &mut n, KeyCode::F3, true, false), KeyAction::Nothing);
}

#[test]
fn ctrl_escape_and_special_keys() {
    let mut keys = InputState::default();
    let mut n = nav_at(UiScreen::InGame);
    handle_key(&mut keys, &mut n, KeyCode::ControlLeft, true, false);
    assert!(keys.ctrl);
    handle_key(&mut keys, &mut n, KeyCode::ControlRight, false, false);
    assert!(!keys.ctrl);
    assert_eq!(handle_key(&mut keys, &mut n, KeyCode::F3, true, false), KeyAction::ToggleDebug);
    assert_eq!(handle_key(&mut keys, &mut n, KeyCode::F5, true, false), KeyAction::ToggleFreeCam);
    assert_eq!(handle_key(&mut keys, &mut n, KeyCode::Escape, true, false), KeyAction::Grab(false));
    assert_eq!(n.ui_screen, UiScreen::PauseMenu);
}

#[test]
fn editor_save_shortcut() {
    let mut keys = InputState::default();
    let mut n = nav_at(UiScreen::Editor);
    assert_eq!(handle_key(&mut keys, &mut n, KeyCode::KeyS, true, true), KeyAction::SaveWorld);
    assert!(!keys.backward);
    assert_eq!(handle_key(&mut keys, &mut n, KeyCode::KeyS, true, false), KeyAction::Nothing);
    assert!(keys.backward);
}

#[test]
fn clicks() {
    let game = nav_at(UiScreen::InGame);
    let editor = nav_at(UiScreen::Editor);
    let menu = nav_at(UiScreen::MainMenu);
    assert_eq!(click_action(&game, false, MouseButton::Left, true), ClickAction::GrabMouse);
    assert_eq!(click_action(&game, false, MouseButton::Right, true), ClickAction::Nothing);
    assert_eq!(click_action(&game, true, MouseButton::Left, true), ClickAction::Break);
    assert_eq!(click_action(&game, true, MouseButton::Right, true), ClickAction::Nothing);
    assert_eq!(click_action(&editor, true, MouseButton::Right, true), ClickAction::Place);
    assert_eq!(click_action(&menu, true, MouseButton::Left, true), ClickAction::Nothing);
    assert_eq!(click_action(&game, true, MouseButton::Left, false), ClickAction::Nothing);
    assert!(look_allowed(&game, true));
    assert!(!look_allowed(&game, false));
    assert!(!look_allowed(&menu, true));
}

#[test]
fn ecs_navigation() {
    let mut screen = components::UiScreen::default();
    let mut editor = false;
    assert!(!handle_ecs_ui_message(&mut screen, &mut editor, &UiMessage::OpenDevTools));
    assert!(editor);
    assert_eq!(screen, components::UiScreen::MapSelect);
    assert!(handle_ecs_ui_message(&mut screen, &mut editor, &UiMessage::SelectMap("x".to_string())));
    assert_eq!(screen, components::UiScreen::Editor);
    handle_ecs_ui_message(&mut screen, &mut editor, &UiMessage::OpenMapSelect);
    assert!(!editor);
    handle_ecs_ui_message(&mut screen, &mut editor, &UiMessage::SelectMap("x".to_string()));
    assert_eq!(screen, components::UiScreen::InGame);
    handle_ecs_ui_message(&mut screen, &mut editor, &UiMessage::Settings);
    assert_eq!(screen, components::UiScreen::Settings);
    handle_ecs_ui_message(&mut screen, &mut editor, &UiMessage::Back);
    assert_eq!(screen, components::UiScreen::MainMenu);
    handle_ecs_ui_message(&mut screen, &mut editor, &UiMessage::Exit);
    assert_eq!(screen, components::UiScreen::MainMenu);
}

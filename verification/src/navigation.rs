//! Screen navigation: how the UI screen, the remembered previous screen and
//! the selected map react to UI messages and to the Escape key, and which
//! side effects the application has to perform in response.

use vstd::prelude::*;

use crate::ui_state::{UiMessage, UiScreen};

verus! {

/// Work the application performs after a navigation step.
#[derive(Debug, Clone, PartialEq, Eq)]
pub enum NavCommand {
    /// Nothing beyond the state change.
    Nothing,
    /// Refresh the list of playable worlds shown on the map select screen.
    ScanPlayableWorlds,
    /// Refresh the world list and reset the world select form.
    ScanWorlds,
    /// Load the world stored at the given path.
    LoadWorld(String),
    /// Name the level and start generating a new world.
    CreateWorld(String),
    /// Save the current world.
    SaveWorld,
    /// Terminate the process.
    Exit,
}

/// Side effects of a navigation step.
#[derive(Debug, Clone)]
pub struct NavEffect {
    /// `Some(g)`: grab (`true`) or release (`false`) the mouse.
    pub grab: Option<bool>,
    /// Drop the region manager of the current world.
    pub drop_regions: bool,
    pub command: NavCommand,
}

/// Navigation state of the application.
#[derive(Debug, Clone)]
pub struct Navigator {
    pub ui_screen: UiScreen,
    pub prev_screen: UiScreen,
    pub selected_map_path: Option<String>,
    pub enter_editor_after_gen: bool,
}

/// Spec-level navigation state.
pub struct NavState {
    pub screen: UiScreen,
    pub prev: UiScreen,
    pub selected: Option<Seq<char>>,
    pub enter_editor: bool,
}

/// Spec-level effect.
pub enum SpecCommand {
    Nothing,
    ScanPlayableWorlds,
    ScanWorlds,
    LoadWorld(Seq<char>),
    CreateWorld(Seq<char>),
    SaveWorld,
    Exit,
}

pub struct SpecEffect {
    pub grab: Option<bool>,
    pub drop_regions: bool,
    pub command: SpecCommand,
}

/// Spec-level UI message.
pub enum SpecMessage {
    OpenMapSelect,
    SelectMap(Seq<char>),
    FindMatch,
    CancelMatchmaking,
    Settings,
    Exit,
    Back,
    Resume,
    QuitToMenu,
    EditorQuitToMenu,
    OpenDevTools,
    OpenWorldSelect,
    PlayWorld(Seq<char>),
    EditWorld(Seq<char>),
    CreateNewMap(Seq<char>),
    SaveBigWorld,
}

pub open spec fn message_view(m: UiMessage) -> SpecMessage {
    match m {
        UiMessage::OpenMapSelect => SpecMessage::OpenMapSelect,
        UiMessage::SelectMap(p) => SpecMessage::SelectMap(p@),
        UiMessage::FindMatch => SpecMessage::FindMatch,
        UiMessage::CancelMatchmaking => SpecMessage::CancelMatchmaking,
        UiMessage::Settings => SpecMessage::Settings,
        UiMessage::Exit => SpecMessage::Exit,
        UiMessage::Back => SpecMessage::Back,
        UiMessage::Resume => SpecMessage::Resume,
        UiMessage::QuitToMenu => SpecMessage::QuitToMenu,
        UiMessage::EditorQuitToMenu => SpecMessage::EditorQuitToMenu,
        UiMessage::OpenDevTools => SpecMessage::OpenDevTools,
        UiMessage::OpenWorldSelect => SpecMessage::OpenWorldSelect,
        UiMessage::PlayWorld(p) => SpecMessage::PlayWorld(p@),
        UiMessage::EditWorld(p) => SpecMessage::EditWorld(p@),
        UiMessage::CreateNewMap(n) => SpecMessage::CreateNewMap(n@),
        UiMessage::SaveBigWorld => SpecMessage::SaveBigWorld,
    }
}

pub open spec fn command_view(c: NavCommand) -> SpecCommand {
    match c {
        NavCommand::Nothing => SpecCommand::Nothing,
        NavCommand::ScanPlayableWorlds => SpecCommand::ScanPlayableWorlds,
        NavCommand::ScanWorlds => SpecCommand::ScanWorlds,
        NavCommand::LoadWorld(p) => SpecCommand::LoadWorld(p@),
        NavCommand::CreateWorld(n) => SpecCommand::CreateWorld(n@),
        NavCommand::SaveWorld => SpecCommand::SaveWorld,
        NavCommand::Exit => SpecCommand::Exit,
    }
}

impl View for NavEffect {
    type V = SpecEffect;

    open spec fn view(&self) -> SpecEffect {
        SpecEffect { grab: self.grab, drop_regions: self.drop_regions, command: command_view(self.command) }
    }
}

impl View for Navigator {
    type V = NavState;

    open spec fn view(&self) -> NavState {
        NavState {
            screen: self.ui_screen,
            prev: self.prev_screen,
            selected: match self.selected_map_path {
                Some(p) => Some(p@),
                None => None,
            },
            enter_editor: self.enter_editor_after_gen,
        }
    }
}

pub open spec fn effect(grab: Option<bool>, drop_regions: bool, command: SpecCommand) -> SpecEffect {
    SpecEffect { grab, drop_regions, command }
}

/// Where `Resume` returns to: the editor when it was paused, else `None`.
pub open spec fn spec_resume_target(s: NavState) -> Option<UiScreen> {
    if s.prev == UiScreen::Editor || s.screen == UiScreen::EditorPause {
        Some(UiScreen::Editor)
    } else {
        None
    }
}

/// The navigation step for a UI message: new state and effect.
pub open spec fn spec_handle_message(s: NavState, m: SpecMessage) -> (NavState, SpecEffect) {
    let none = effect(None, false, SpecCommand::Nothing);
    match m {
        SpecMessage::EditorQuitToMenu => (
            NavState { screen: UiScreen::MainMenu, ..s },
            effect(Some(false), true, SpecCommand::Nothing),
        ),
        SpecMessage::OpenDevTools => (
            NavState { screen: UiScreen::DevTools, prev: UiScreen::MainMenu, ..s },
            none,
        ),
        SpecMessage::OpenWorldSelect => (
            NavState { screen: UiScreen::WorldSelect, prev: UiScreen::DevTools, ..s },
            effect(None, false, SpecCommand::ScanWorlds),
        ),
        SpecMessage::PlayWorld(p) => (
            NavState { enter_editor: false, ..s },
            effect(None, false, SpecCommand::LoadWorld(p)),
        ),
        SpecMessage::EditWorld(p) => (
            NavState { enter_editor: true, ..s },
            effect(None, false, SpecCommand::LoadWorld(p)),
        ),
        SpecMessage::CreateNewMap(n) => (
            NavState { enter_editor: true, ..s },
            effect(None, false, SpecCommand::CreateWorld(n)),
        ),
        SpecMessage::SaveBigWorld => (s, effect(None, false, SpecCommand::SaveWorld)),
        SpecMessage::OpenMapSelect => (
            NavState { screen: UiScreen::MapSelect, prev: UiScreen::MainMenu, ..s },
            effect(None, false, SpecCommand::ScanPlayableWorlds),
        ),
        SpecMessage::SelectMap(p) => (
            NavState { screen: UiScreen::Matchmaking, prev: UiScreen::MapSelect, selected: Some(p), ..s },
            none,
        ),
        SpecMessage::FindMatch => match s.selected {
            Some(p) => (NavState { selected: None, ..s }, effect(None, false, SpecCommand::LoadWorld(p))),
            None => (s, none),
        },
        SpecMessage::CancelMatchmaking => (NavState { screen: UiScreen::MapSelect, ..s }, none),
        SpecMessage::Settings => (NavState { screen: UiScreen::Settings, prev: s.screen, ..s }, none),
        SpecMessage::Exit => (s, effect(None, false, SpecCommand::Exit)),
        SpecMessage::Back => (NavState { screen: s.prev, ..s }, none),
        SpecMessage::Resume => (
            NavState {
                screen: match spec_resume_target(s) {
                    Some(t) => t,
                    None => UiScreen::InGame,
                },
                ..s
            },
            effect(Some(true), false, SpecCommand::Nothing),
        ),
        SpecMessage::QuitToMenu => (
            NavState { screen: UiScreen::MainMenu, ..s },
            effect(Some(false), true, SpecCommand::Nothing),
        ),
    }
}

/// The navigation step for a press of Escape: new state and mouse grab change.
pub open spec fn spec_handle_escape(s: NavState) -> (NavState, Option<bool>) {
    match s.screen {
        UiScreen::InGame => (NavState { screen: UiScreen::PauseMenu, ..s }, Some(false)),
        UiScreen::PauseMenu => (NavState { screen: UiScreen::InGame, ..s }, Some(true)),
        UiScreen::Matchmaking => (NavState { screen: UiScreen::MainMenu, ..s }, None),
        UiScreen::MapSelect => (NavState { screen: UiScreen::MainMenu, ..s }, None),
        UiScreen::Settings => (NavState { screen: s.prev, ..s }, None),
        UiScreen::Editor => (NavState { screen: UiScreen::EditorPause, prev: UiScreen::Editor, ..s }, Some(false)),
        UiScreen::EditorPause => (NavState { screen: UiScreen::Editor, ..s }, Some(true)),
        UiScreen::DevTools => (NavState { screen: UiScreen::MainMenu, ..s }, None),
        UiScreen::WorldSelect => (NavState { screen: UiScreen::DevTools, ..s }, None),
        _ => (s, None),
    }
}

impl Navigator {
    pub fn new() -> (r: Self)
        ensures
            r.ui_screen == UiScreen::MainMenu,
            r.prev_screen == UiScreen::MainMenu,
            r.selected_map_path.is_none(),
            !r.enter_editor_after_gen,
    {
        Navigator {
            ui_screen: UiScreen::MainMenu,
            prev_screen: UiScreen::MainMenu,
            selected_map_path: None,
            enter_editor_after_gen: false,
        }
    }

    /// Where `Resume` returns to, if not to the game.
    pub fn dev_resume_target(&self) -> (r: Option<UiScreen>)
        ensures
            r == spec_resume_target(self@),
    {
        if self.prev_screen == UiScreen::Editor || self.ui_screen == UiScreen::EditorPause {
            Some(UiScreen::Editor)
        } else {
            None
        }
    }

    /// Whether the player may fly around in the editor.
    pub fn can_move_editor(&self) -> (b: bool)
        ensures
            b == (self.ui_screen == UiScreen::Editor),
    {
        self.ui_screen == UiScreen::Editor
    }

    /// Whether the editor is the active screen.
    pub fn editor_active(&self) -> (b: bool)
        ensures
            b == (self.ui_screen == UiScreen::Editor),
    {
        self.ui_screen == UiScreen::Editor
    }

    /// Whether the 3D world is drawn behind the current screen.
    pub fn should_render_3d(&self) -> (b: bool)
        ensures
            b == (self.ui_screen == UiScreen::InGame || self.ui_screen == UiScreen::PauseMenu
                || self.ui_screen == UiScreen::Editor || self.ui_screen == UiScreen::EditorPause),
    {
        match self.ui_screen {
            UiScreen::InGame | UiScreen::PauseMenu | UiScreen::Editor | UiScreen::EditorPause => true,
            _ => false,
        }
    }

    /// The world started loading: show the loading screen.
    pub fn begin_loading(&mut self) -> (grab: Option<bool>)
        ensures
            final(self)@ == (NavState { screen: UiScreen::Loading, ..old(self)@ }),
            grab == Some(false),
    {
        self.ui_screen = UiScreen::Loading;
        Some(false)
    }

    /// A save started: remember the screen and show the loading screen.
    pub fn begin_saving(&mut self) -> (grab: Option<bool>)
        ensures
            final(self)@ == (NavState { screen: UiScreen::Loading, prev: old(self)@.screen, ..old(self)@ }),
            grab == Some(false),
    {
        self.prev_screen = self.ui_screen;
        self.ui_screen = UiScreen::Loading;
        Some(false)
    }

    /// Applies a press of Escape; returns the mouse grab change.
    pub fn handle_escape(&mut self) -> (grab: Option<bool>)
        ensures
            (final(self)@, grab) == spec_handle_escape(old(self)@),
    {
        match self.ui_screen {
            UiScreen::InGame => {
                self.ui_screen = UiScreen::PauseMenu;
                Some(false)
            },
            UiScreen::PauseMenu => {
                self.ui_screen = UiScreen::InGame;
                Some(true)
            },
            UiScreen::Matchmaking => {
                self.ui_screen = UiScreen::MainMenu;
                None
            },
            UiScreen::MapSelect => {
                self.ui_screen = UiScreen::MainMenu;
                None
            },
            UiScreen::Settings => {
                self.ui_screen = self.prev_screen;
                None
            },
            UiScreen::MainMenu => None,
            _ => self.handle_dev_escape(),
        }
    }

    /// Escape on the editor and developer screens.
    fn handle_dev_escape(&mut self) -> (grab: Option<bool>)
        requires
            old(self).ui_screen != UiScreen::InGame,
            old(self).ui_screen != UiScreen::PauseMenu,
            old(self).ui_screen != UiScreen::Matchmaking,
            old(self).ui_screen != UiScreen::MapSelect,
            old(self).ui_screen != UiScreen::Settings,
        ensures
            (final(self)@, grab) == spec_handle_escape(old(self)@),
    {
        match self.ui_screen {
            UiScreen::Editor => {
                self.prev_screen = UiScreen::Editor;
                self.ui_screen = UiScreen::EditorPause;
                Some(false)
            },
            UiScreen::EditorPause => {
                self.ui_screen = UiScreen::Editor;
                Some(true)
            },
            UiScreen::DevTools => {
                self.ui_screen = UiScreen::MainMenu;
                None
            },
            UiScreen::WorldSelect => {
                self.ui_screen = UiScreen::DevTools;
                None
            },
            _ => None,
        }
    }

    /// Applies a UI message; returns the side effects to perform.
    pub fn handle_ui_message(&mut self, msg: UiMessage) -> (e: NavEffect)
        ensures
            (final(self)@, e@) == spec_handle_message(old(self)@, message_view(msg)),
    {
        let none = NavEffect { grab: None, drop_regions: false, command: NavCommand::Nothing };
        match msg {
            UiMessage::EditorQuitToMenu => {
                self.ui_screen = UiScreen::MainMenu;
                NavEffect { grab: Some(false), drop_regions: true, command: NavCommand::Nothing }
            },
            UiMessage::OpenDevTools => {
                self.prev_screen = UiScreen::MainMenu;
                self.ui_screen = UiScreen::DevTools;
                none
            },
            UiMessage::OpenWorldSelect => {
                self.prev_screen = UiScreen::DevTools;
                self.ui_screen = UiScreen::WorldSelect;
                NavEffect { grab: None, drop_regions: false, command: NavCommand::ScanWorlds }
            },
            UiMessage::PlayWorld(path) => {
                self.enter_editor_after_gen = false;
                NavEffect { grab: None, drop_regions: false, command: NavCommand::LoadWorld(path) }
            },
            UiMessage::EditWorld(path) => {
                self.enter_editor_after_gen = true;
                NavEffect { grab: None, drop_regions: false, command: NavCommand::LoadWorld(path) }
            },
            UiMessage::CreateNewMap(name) => {
                self.enter_editor_after_gen = true;
                NavEffect { grab: None, drop_regions: false, command: NavCommand::CreateWorld(name) }
            },
            UiMessage::SaveBigWorld => {
                NavEffect { grab: None, drop_regions: false, command: NavCommand::SaveWorld }
            },
            UiMessage::OpenMapSelect => {
                self.prev_screen = UiScreen::MainMenu;
                self.ui_screen = UiScreen::MapSelect;
                NavEffect { grab: None, drop_regions: false, command: NavCommand::ScanPlayableWorlds }
            },
            UiMessage::SelectMap(path) => {
                self.selected_map_path = Some(path);
                self.prev_screen = UiScreen::MapSelect;
                self.ui_screen = UiScreen::Matchmaking;
                none
            },
            UiMessage::FindMatch => {
                match self.selected_map_path.take() {
                    Some(path) => NavEffect {
                        grab: None,
                        drop_regions: false,
                        command: NavCommand::LoadWorld(path),
                    },
                    None => none,
                }
            },
            UiMessage::CancelMatchmaking => {
                self.ui_screen = UiScreen::MapSelect;
                none
            },
            UiMessage::Settings => {
                self.prev_screen = self.ui_screen;
                self.ui_screen = UiScreen::Settings;
                none
            },
            UiMessage::Exit => {
                NavEffect { grab: None, drop_regions: false, command: NavCommand::Exit }
            },
            UiMessage::Back => {
                self.ui_screen = self.prev_screen;
                none
            },
            UiMessage::Resume => {
                self.ui_screen = match self.dev_resume_target() {
                    Some(t) => t,
                    None => UiScreen::InGame,
                };
                NavEffect { grab: Some(true), drop_regions: false, command: NavCommand::Nothing }
            },
            UiMessage::QuitToMenu => {
                self.ui_screen = UiScreen::MainMenu;
                NavEffect { grab: Some(false), drop_regions: true, command: NavCommand::Nothing }
            },
        }
    }
}


/// The entity-system navigation step for a UI message: the screen, whether
/// the editor is enabled, and whether to grab the mouse. Opening the map
/// list leaves editor mode, opening the developer tools enters it, picking
/// a map starts the editor or the game, and the settings and back buttons
/// switch screens; other messages change nothing.
pub open spec fn spec_ecs_message(screen: crate::components::UiScreen, editor: bool, m: SpecMessage)
    -> (crate::components::UiScreen, bool, bool)
{
    match m {
        SpecMessage::OpenMapSelect => (crate::components::UiScreen::MapSelect, false, false),
        SpecMessage::OpenDevTools => (crate::components::UiScreen::MapSelect, true, false),
        SpecMessage::SelectMap(_) => (
            if editor { crate::components::UiScreen::Editor } else { crate::components::UiScreen::InGame },
            editor,
            true,
        ),
        SpecMessage::Settings => (crate::components::UiScreen::Settings, editor, false),
        SpecMessage::Back => (crate::components::UiScreen::MainMenu, editor, false),
        _ => (screen, editor, false),
    }
}

/// Apply a UI message to the entity-system screen state; returns whether
/// the mouse must be grabbed.
pub fn handle_ecs_ui_message(screen: &mut crate::components::UiScreen, editor_enabled: &mut bool, msg: &UiMessage)
    -> (grab: bool)
    ensures
        (*final(screen), *final(editor_enabled), grab)
            == spec_ecs_message(*old(screen), *old(editor_enabled), message_view(*msg)),
{
    match msg {
        UiMessage::OpenMapSelect => {
            *editor_enabled = false;
            *screen = crate::components::UiScreen::MapSelect;
            false
        },
        UiMessage::OpenDevTools => {
            *editor_enabled = true;
            *screen = crate::components::UiScreen::MapSelect;
            false
        },
        UiMessage::SelectMap(_) => {
            *screen = if *editor_enabled {
                crate::components::UiScreen::Editor
            } else {
                crate::components::UiScreen::InGame
            };
            true
        },
        UiMessage::Settings => {
            *screen = crate::components::UiScreen::Settings;
            false
        },
        UiMessage::Back => {
            *screen = crate::components::UiScreen::MainMenu;
            false
        },
        _ => false,
    }
}


/// Escape pauses the game and a second Escape resumes it, releasing and
/// then grabbing the mouse.
pub proof fn law_escape_pause_resume(s: NavState)
    requires
        s.screen == UiScreen::InGame,
    ensures
        spec_handle_escape(s).0.screen == UiScreen::PauseMenu,
        spec_handle_escape(s).1 == Some(false),
        spec_handle_escape(spec_handle_escape(s).0).0 == s,
        spec_handle_escape(spec_handle_escape(s).0).1 == Some(true),
{
}

/// Escape pauses the editor and a second Escape returns to it; resuming
/// from the editor's pause menu also returns to the editor.
pub proof fn law_editor_pause_returns_to_editor(s: NavState)
    requires
        s.screen == UiScreen::Editor,
    ensures
        spec_handle_escape(s).0.screen == UiScreen::EditorPause,
        spec_handle_escape(spec_handle_escape(s).0).0.screen == UiScreen::Editor,
        spec_handle_message(spec_handle_escape(s).0, SpecMessage::Resume).0.screen == UiScreen::Editor,
{
}

/// Opening the settings and going back returns to the screen the settings
/// were opened from.
pub proof fn law_settings_back_returns(s: NavState)
    ensures
        spec_handle_message(spec_handle_message(s, SpecMessage::Settings).0, SpecMessage::Back).0.screen == s.screen,
{
}

/// Selecting a map and then finding a match loads exactly that map, once.
pub proof fn law_select_then_find_match_loads(s: NavState, path: Seq<char>)
    ensures
        ({
            let s1 = spec_handle_message(s, SpecMessage::SelectMap(path)).0;
            let (s2, e) = spec_handle_message(s1, SpecMessage::FindMatch);
            &&& s1.screen == UiScreen::Matchmaking
            &&& e.command == SpecCommand::LoadWorld(path)
            &&& s2.selected.is_none()
            &&& spec_handle_message(s2, SpecMessage::FindMatch).1.command == SpecCommand::Nothing
        }),
{
}


/// Cancelling matchmaking, from any state, goes back to the map list: only
/// the screen changes, the selected map and the rest stay, and nothing else
/// is asked of the application.
pub proof fn law_cancel_matchmaking_returns_to_map_list(s: NavState)
    ensures
        spec_handle_message(s, SpecMessage::CancelMatchmaking).0.screen == UiScreen::MapSelect,
        spec_handle_message(s, SpecMessage::CancelMatchmaking).0.prev == s.prev,
        spec_handle_message(s, SpecMessage::CancelMatchmaking).0.selected == s.selected,
        spec_handle_message(s, SpecMessage::CancelMatchmaking).0.enter_editor == s.enter_editor,
        spec_handle_message(s, SpecMessage::CancelMatchmaking).1.grab.is_none(),
        !spec_handle_message(s, SpecMessage::CancelMatchmaking).1.drop_regions,
        spec_handle_message(s, SpecMessage::CancelMatchmaking).1.command == SpecCommand::Nothing,
        // Selecting a map and cancelling lands on the map list with the map
        // still selected.
        ({
            let s1 = spec_handle_message(s, SpecMessage::OpenMapSelect).0;
            let s2 = spec_handle_message(s1, SpecMessage::SelectMap("maps/a.world"@)).0;
            let s3 = spec_handle_message(s2, SpecMessage::CancelMatchmaking).0;
            s3.screen == UiScreen::MapSelect && s3.selected == Some("maps/a.world"@)
        }),
{
}

/// Escape on the settings screen goes back to the screen recorded as the
/// one before it, changing nothing else and leaving the mouse alone; so
/// opening the settings from any screen and then pressing Escape returns
/// to that screen.
pub proof fn law_settings_escape_returns(s: NavState)
    ensures
        s.screen == UiScreen::Settings ==> spec_handle_escape(s).0 == (NavState { screen: s.prev, ..s }),
        s.screen == UiScreen::Settings ==> spec_handle_escape(s).1.is_none(),
        spec_handle_escape(spec_handle_message(s, SpecMessage::Settings).0).0.screen == s.screen,
        spec_handle_message(s, SpecMessage::Settings).0.screen == UiScreen::Settings,
{
}
} // verus!

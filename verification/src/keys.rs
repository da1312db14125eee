//! Keyboard handling: how key presses and releases change the movement
//! flags and the screen, and which actions they ask of the application.

use vstd::prelude::*;

use crate::components::InputState;
use crate::navigation::{Navigator, NavState, spec_handle_escape};
use crate::ui_state::UiScreen;

verus! {

/// The keys the game reacts to.
#[derive(Debug, Clone, Copy, PartialEq, Eq, Structural)]
pub enum KeyCode {
    KeyW,
    KeyS,
    KeyA,
    KeyD,
    Space,
    ShiftLeft,
    ShiftRight,
    KeyQ,
    KeyE,
    ControlLeft,
    ControlRight,
    Escape,
    F3,
    F5,
    Other,
}

/// What the application does after a key event, beyond the state change.
#[derive(Debug, Clone, Copy, PartialEq, Eq, Structural)]
pub enum KeyAction {
    Nothing,
    /// Grab (`true`) or release (`false`) the mouse.
    Grab(bool),
    /// Save the edited world.
    SaveWorld,
    /// Show or hide the debug overlay.
    ToggleDebug,
    /// Enter or leave the free camera.
    ToggleFreeCam,
}

/// Movement flags after releasing `code`.
pub open spec fn spec_release(k: InputState, code: KeyCode) -> InputState {
    match code {
        KeyCode::KeyW => InputState { forward: false, ..k },
        KeyCode::KeyS => InputState { backward: false, ..k },
        KeyCode::KeyA => InputState { left: false, ..k },
        KeyCode::KeyD => InputState { right: false, ..k },
        KeyCode::Space => InputState { jump: false, ..k },
        KeyCode::ShiftLeft | KeyCode::ShiftRight => InputState { down: false, sprint: false, ..k },
        KeyCode::KeyQ => InputState { up: false, ..k },
        KeyCode::KeyE => InputState { down: false, ..k },
        KeyCode::ControlLeft | KeyCode::ControlRight => InputState { ctrl: false, ..k },
        _ => k,
    }
}

/// Movement flags after pressing `code` while movement is allowed.
pub open spec fn spec_press(k: InputState, code: KeyCode) -> InputState {
    match code {
        KeyCode::KeyW => InputState { forward: true, ..k },
        KeyCode::KeyS => InputState { backward: true, ..k },
        KeyCode::KeyA => InputState { left: true, ..k },
        KeyCode::KeyD => InputState { right: true, ..k },
        KeyCode::Space => InputState { jump: true, ..k },
        KeyCode::ShiftLeft | KeyCode::ShiftRight => InputState { down: true, sprint: true, ..k },
        KeyCode::KeyQ => InputState { up: true, ..k },
        KeyCode::KeyE => InputState { down: true, ..k },
        _ => k,
    }
}

pub open spec fn is_ctrl(code: KeyCode) -> bool {
    code == KeyCode::ControlLeft || code == KeyCode::ControlRight
}

/// Whether movement keys act on the current screen.
pub open spec fn movement_allowed(s: NavState) -> bool {
    s.screen == UiScreen::InGame || s.screen == UiScreen::Editor
}

/// A key event: new movement flags, new navigation state and the action
/// asked of the application. `editor_ctrl` is the editor's own Ctrl flag,
/// which the save shortcut reads.
pub open spec fn spec_handle_key(k: InputState, s: NavState, code: KeyCode, pressed: bool, editor_ctrl: bool)
    -> (InputState, NavState, KeyAction)
{
    if !pressed {
        (spec_release(k, code), s, KeyAction::Nothing)
    } else if code == KeyCode::Escape {
        let (s2, grab) = spec_handle_escape(s);
        (k, s2, match grab {
            Some(g) => KeyAction::Grab(g),
            None => KeyAction::Nothing,
        })
    } else if is_ctrl(code) {
        (InputState { ctrl: true, ..k }, s, KeyAction::Nothing)
    } else if s.screen == UiScreen::Editor && editor_ctrl && code == KeyCode::KeyS {
        (k, s, KeyAction::SaveWorld)
    } else if movement_allowed(s) {
        (spec_press(k, code), s, match code {
            KeyCode::F3 => KeyAction::ToggleDebug,
            KeyCode::F5 => KeyAction::ToggleFreeCam,
            _ => KeyAction::Nothing,
        })
    } else {
        (k, s, KeyAction::Nothing)
    }
}

fn release_key(keys: &mut InputState, code: KeyCode)
    ensures
        *final(keys) == spec_release(*old(keys), code),
{
    match code {
        KeyCode::KeyW => keys.forward = false,
        KeyCode::KeyS => keys.backward = false,
        KeyCode::KeyA => keys.left = false,
        KeyCode::KeyD => keys.right = false,
        KeyCode::Space => keys.jump = false,
        KeyCode::ShiftLeft | KeyCode::ShiftRight => {
            keys.down = false;
            keys.sprint = false;
        },
        KeyCode::KeyQ => keys.up = false,
        KeyCode::KeyE => keys.down = false,
        KeyCode::ControlLeft | KeyCode::ControlRight => keys.ctrl = false,
        _ => {},
    }
}

fn press_key(keys: &mut InputState, code: KeyCode)
    ensures
        *final(keys) == spec_press(*old(keys), code),
{
    match code {
        KeyCode::KeyW => keys.forward = true,
        KeyCode::KeyS => keys.backward = true,
        KeyCode::KeyA => keys.left = true,
        KeyCode::KeyD => keys.right = true,
        KeyCode::Space => keys.jump = true,
        KeyCode::ShiftLeft | KeyCode::ShiftRight => {
            keys.down = true;
            keys.sprint = true;
        },
        KeyCode::KeyQ => keys.up = true,
        KeyCode::KeyE => keys.down = true,
        _ => {},
    }
}

/// Handle a key press or release.
pub fn handle_key(keys: &mut InputState, nav: &mut Navigator, code: KeyCode, is_pressed: bool, editor_ctrl: bool)
    -> (action: KeyAction)
    ensures
        (*final(keys), final(nav)@, action) == spec_handle_key(*old(keys), old(nav)@, code, is_pressed, editor_ctrl),
{
    if !is_pressed {
        release_key(keys, code);
        return KeyAction::Nothing;
    }
    if code == KeyCode::Escape {
        return match nav.handle_escape() {
            Some(g) => KeyAction::Grab(g),
            None => KeyAction::Nothing,
        };
    }
    if code == KeyCode::ControlLeft || code == KeyCode::ControlRight {
        keys.ctrl = true;
        return KeyAction::Nothing;
    }
    if nav.ui_screen == UiScreen::Editor && editor_ctrl && code == KeyCode::KeyS {
        return KeyAction::SaveWorld;
    }
    if nav.ui_screen == UiScreen::InGame || nav.can_move_editor() {
        press_key(keys, code);
        match code {
            KeyCode::F3 => KeyAction::ToggleDebug,
            KeyCode::F5 => KeyAction::ToggleFreeCam,
            _ => KeyAction::Nothing,
        }
    } else {
        KeyAction::Nothing
    }
}

/// Mouse buttons the game reacts to.
#[derive(Debug, Clone, Copy, PartialEq, Eq, Structural)]
pub enum MouseButton {
    Left,
    Right,
    Other,
}

/// What a mouse press asks of the application.
#[derive(Debug, Clone, Copy, PartialEq, Eq, Structural)]
pub enum ClickAction {
    Nothing,
    /// The mouse was free: grab it.
    GrabMouse,
    /// Play the attack animation and break voxels at the aimed block.
    Break,
    /// Place voxels next to the aimed block (editor only).
    Place,
}

pub open spec fn spec_click(pressed: bool, grabbed: bool, screen: UiScreen, button: MouseButton) -> ClickAction {
    if !pressed {
        ClickAction::Nothing
    } else if !grabbed {
        if button == MouseButton::Left { ClickAction::GrabMouse } else { ClickAction::Nothing }
    } else if !(screen == UiScreen::InGame || screen == UiScreen::Editor) {
        ClickAction::Nothing
    } else {
        match button {
            MouseButton::Left => ClickAction::Break,
            MouseButton::Right => if screen == UiScreen::Editor { ClickAction::Place } else { ClickAction::Nothing },
            MouseButton::Other => ClickAction::Nothing,
        }
    }
}

/// Decide what a mouse button event does: a press with a free mouse grabs
/// it (left button only); with a grabbed mouse, in the game or the editor,
/// left breaks and right places (editor only).
pub fn click_action(nav: &Navigator, mouse_grabbed: bool, button: MouseButton, is_pressed: bool) -> (a: ClickAction)
    ensures
        a == spec_click(is_pressed, mouse_grabbed, nav.ui_screen, button),
{
    if !is_pressed {
        return ClickAction::Nothing;
    }
    if !mouse_grabbed {
        if button == MouseButton::Left {
            return ClickAction::GrabMouse;
        }
        return ClickAction::Nothing;
    }
    let can_interact = nav.ui_screen == UiScreen::InGame || nav.can_move_editor();
    if !can_interact {
        return ClickAction::Nothing;
    }
    match button {
        MouseButton::Left => ClickAction::Break,
        MouseButton::Right => {
            if nav.editor_active() {
                ClickAction::Place
            } else {
                ClickAction::Nothing
            }
        },
        MouseButton::Other => ClickAction::Nothing,
    }
}

/// Whether mouse motion turns the camera: only with a grabbed mouse in the
/// game or the editor.
pub fn look_allowed(nav: &Navigator, mouse_grabbed: bool) -> (b: bool)
    ensures
        b == (mouse_grabbed && (nav.ui_screen == UiScreen::InGame || nav.ui_screen == UiScreen::Editor)),
{
    let allow_look = nav.ui_screen == UiScreen::InGame || nav.can_move_editor();
    mouse_grabbed && allow_look
}


/// Releasing a key undoes pressing it: the flags end as if only the
/// release had happened.
pub proof fn law_release_undoes_press(k: InputState, code: KeyCode)
    ensures
        spec_release(spec_press(k, code), code) == spec_release(k, code),
{
}

/// Releasing a key never changes the screen and asks for nothing.
pub proof fn law_release_keeps_screen(k: InputState, s: NavState, code: KeyCode, editor_ctrl: bool)
    ensures
        spec_handle_key(k, s, code, false, editor_ctrl).1 == s,
        spec_handle_key(k, s, code, false, editor_ctrl).2 == KeyAction::Nothing,
{
}

/// Movement keys do nothing on menu screens.
pub proof fn law_no_movement_in_menus(k: InputState, s: NavState, code: KeyCode, editor_ctrl: bool)
    requires
        !movement_allowed(s),
        code != KeyCode::Escape,
        !is_ctrl(code),
    ensures
        spec_handle_key(k, s, code, true, editor_ctrl) == (k, s, KeyAction::Nothing),
{
}


/// Where movement is allowed, pressing a movement key raises exactly the
/// flag named for the key: W forward, S backward, A left, D right, Space
/// jump, Q up, E down, Shift down and sprint; every other flag keeps its
/// value, and the screen does not change. (Escape, which changes screens,
/// and S with the editor's Ctrl held, which saves, are the exceptions.)
pub proof fn law_press_sets_named_flag(k: InputState, s: NavState, code: KeyCode, editor_ctrl: bool)
    requires
        movement_allowed(s),
        code != KeyCode::Escape,
        !(s.screen == UiScreen::Editor && editor_ctrl && code == KeyCode::KeyS),
    ensures
        ({
            let (k2, s2, _a) = spec_handle_key(k, s, code, true, editor_ctrl);
            &&& s2 == s
            &&& k2.forward == (k.forward || code == KeyCode::KeyW)
            &&& k2.backward == (k.backward || code == KeyCode::KeyS)
            &&& k2.left == (k.left || code == KeyCode::KeyA)
            &&& k2.right == (k.right || code == KeyCode::KeyD)
            &&& k2.jump == (k.jump || code == KeyCode::Space)
            &&& k2.up == (k.up || code == KeyCode::KeyQ)
            &&& k2.down == (k.down || code == KeyCode::KeyE || code == KeyCode::ShiftLeft
                || code == KeyCode::ShiftRight)
            &&& k2.sprint == (k.sprint || code == KeyCode::ShiftLeft || code == KeyCode::ShiftRight)
            &&& k2.ctrl == (k.ctrl || is_ctrl(code))
        }),
{
}

/// Pressing a key where movement is allowed and then releasing it leaves
/// the flags as releasing alone would: press and release touch the same
/// flags.
pub proof fn law_press_then_release_same_flags(k: InputState, s: NavState, code: KeyCode, editor_ctrl: bool)
    requires
        movement_allowed(s),
        code != KeyCode::Escape,
        !is_ctrl(code),
    ensures
        ({
            let (k2, s2, _a) = spec_handle_key(k, s, code, true, editor_ctrl);
            spec_handle_key(k2, s2, code, false, editor_ctrl).0 == spec_handle_key(k, s, code, false, editor_ctrl).0
        }),
{
}

/// A press with a grabbed mouse in the game or the editor: the left button
/// breaks on both screens, the right button places in the editor only.
/// With a free mouse the left button grabs it, on any screen.
pub proof fn law_click_break_and_place(screen: UiScreen)
    ensures
        (screen == UiScreen::InGame || screen == UiScreen::Editor)
            ==> spec_click(true, true, screen, MouseButton::Left) == ClickAction::Break,
        spec_click(true, true, UiScreen::Editor, MouseButton::Right) == ClickAction::Place,
        spec_click(true, true, UiScreen::InGame, MouseButton::Right) == ClickAction::Nothing,
        spec_click(true, false, screen, MouseButton::Left) == ClickAction::GrabMouse,
        !(screen == UiScreen::InGame || screen == UiScreen::Editor)
            ==> spec_click(true, true, screen, MouseButton::Left) == ClickAction::Nothing,
{
}
} // verus!

//! Entity components: input flags, network identity, markers, held items
//! and UI state attached to entities.

use vstd::prelude::*;

verus! {

/// Input state for movement controls
#[derive(Debug, Clone, Copy, PartialEq, Eq, Structural)]
pub struct InputState {
    pub forward: bool,
    pub backward: bool,
    pub left: bool,
    pub right: bool,
    pub jump: bool,
    pub up: bool,
    pub down: bool,
    pub ctrl: bool,
    pub sprint: bool,
}

pub open spec fn no_input() -> InputState {
    InputState {
        forward: false,
        backward: false,
        left: false,
        right: false,
        jump: false,
        up: false,
        down: false,
        ctrl: false,
        sprint: false,
    }
}

impl Default for InputState {
    fn default() -> (r: Self)
        ensures
            r == no_input(),
    {
        InputState {
            forward: false,
            backward: false,
            left: false,
            right: false,
            jump: false,
            up: false,
            down: false,
            ctrl: false,
            sprint: false,
        }
    }
}

pub open spec fn axis(pos: bool, neg: bool) -> int {
    (if pos { 1int } else { 0int }) - (if neg { 1int } else { 0int })
}

impl InputState {
    /// Movement direction before normalisation: x is right minus left, z is
    /// forward minus backward, each -1, 0 or 1.
    pub fn movement_axes(&self) -> (r: (i32, i32))
        ensures
            r.0 == axis(self.right, self.left),
            r.1 == axis(self.forward, self.backward),
    {
        let x: i32 = (if self.right { 1i32 } else { 0i32 }) - (if self.left { 1i32 } else { 0i32 });
        let z: i32 = (if self.forward { 1i32 } else { 0i32 }) - (if self.backward { 1i32 } else { 0i32 });
        (x, z)
    }

    /// Check if any movement key is pressed
    pub fn is_moving(&self) -> (r: bool)
        ensures
            r == (self.forward || self.backward || self.left || self.right),
    {
        self.forward || self.backward || self.left || self.right
    }

    /// Check if player wants to move upward (jump or fly up)
    pub fn wants_up(&self) -> (r: bool)
        ensures
            r == (self.jump || self.up),
    {
        self.jump || self.up
    }

    /// Check if player wants to move downward
    pub fn wants_down(&self) -> (r: bool)
        ensures
            r == self.down,
    {
        self.down
    }
}

/// Marker for entities that should respond to input
#[derive(Debug, Default, Clone, Copy)]
pub struct InputControlled;

/// Marker component for entities that sync over network
#[derive(Debug, Default, Clone, Copy)]
pub struct Networked;

/// Marker for static entities that don't move
#[derive(Debug, Default, Clone, Copy)]
pub struct Static;

/// Marker for kinematic entities (moved by code, not physics)
#[derive(Debug, Default, Clone, Copy)]
pub struct Kinematic;

/// Marker component for free camera mode
#[derive(Debug, Default, Clone, Copy)]
pub struct FreeCam;

/// BVH dirty marker - triggers BVH rebuild when present
#[derive(Debug, Default, Clone, Copy)]
pub struct BvhDirty;

/// Component indicating ownership of an entity
/// Used to determine which client can control/modify an entity
#[derive(Debug, Clone, Copy, PartialEq, Eq, Structural)]
pub struct Owner {
    /// Client/player ID that owns this entity
    pub player_id: u64,
    /// Whether this is the local owner
    pub is_local: bool,
}

impl Owner {
    pub fn new(player_id: u64, is_local: bool) -> (r: Self)
        ensures
            r == (Owner { player_id, is_local }),
    {
        Owner { player_id, is_local }
    }

    pub fn local(player_id: u64) -> (r: Self)
        ensures
            r == (Owner { player_id, is_local: true }),
    {
        Self::new(player_id, true)
    }

    pub fn remote(player_id: u64) -> (r: Self)
        ensures
            r == (Owner { player_id, is_local: false }),
    {
        Self::new(player_id, false)
    }
}

/// Entity ID for network synchronization
/// Maps local entity to network entity ID
#[derive(Debug, Clone, Copy, PartialEq, Eq, Hash, Structural)]
pub struct NetEntityId {
    pub id: u64,
}

impl NetEntityId {
    pub fn new(id: u64) -> (r: Self)
        ensures
            r.id == id,
    {
        NetEntityId { id }
    }
}

/// Network priority for entity updates
/// Higher priority entities get sent more frequently
#[derive(Debug, Clone, Copy, PartialEq, Eq, Structural)]
pub enum NetworkPriority {
    /// Every frame (local player)
    Critical,
    /// 30Hz (nearby players, projectiles)
    High,
    /// 10Hz (distant players)
    Medium,
    /// 5Hz (environmental objects)
    Low,
    /// Never (static world geometry)
    Static,
}

impl Default for NetworkPriority {
    fn default() -> (r: Self)
        ensures
            r == NetworkPriority::Medium,
    {
        NetworkPriority::Medium
    }
}

/// Types of items the player can hold
#[derive(Debug, Clone, Copy, PartialEq, Eq, Structural)]
pub enum HeldItem {
    Empty,
    Pickaxe,
    Rifle,
    Pistol,
    Melee,
}

pub open spec fn spec_hidden_meshes(item: HeldItem) -> Seq<Seq<char>> {
    match item {
        HeldItem::Empty => seq!["weapon"@],
        HeldItem::Pickaxe => seq!["rifle"@, "pistol"@],
        HeldItem::Rifle => seq!["pickaxe"@, "pistol"@],
        HeldItem::Pistol => seq!["pickaxe"@, "rifle"@],
        HeldItem::Melee => seq!["pickaxe"@, "rifle"@, "pistol"@],
    }
}

pub open spec fn names_of(v: Seq<String>) -> Seq<Seq<char>> {
    v.map_values(|s: String| s@)
}

fn owned(s: &str) -> (r: String)
    ensures
        r@ == s@,
{
    s.to_owned()
}

impl HeldItem {
    /// Get mesh names to hide for this item
    pub fn hidden_meshes(&self) -> (r: Vec<String>)
        ensures
            names_of(r@) == spec_hidden_meshes(*self),
    {
        let r = match self {
            HeldItem::Empty => vec![owned("weapon")],
            HeldItem::Pickaxe => vec![owned("rifle"), owned("pistol")],
            HeldItem::Rifle => vec![owned("pickaxe"), owned("pistol")],
            HeldItem::Pistol => vec![owned("pickaxe"), owned("rifle")],
            HeldItem::Melee => vec![owned("pickaxe"), owned("rifle"), owned("pistol")],
        };
        assert(names_of(r@) =~= spec_hidden_meshes(*self));
        r
    }
}

/// UI screen state component
#[derive(Debug, Clone, Copy, PartialEq, Eq, Structural)]
pub enum UiScreen {
    MainMenu,
    MapSelect,
    Matchmaking,
    Settings,
    InGame,
    PauseMenu,
    Loading,
    Editor,
    DevTools,
    WorldSelect,
}

impl Default for UiScreen {
    fn default() -> (r: Self)
        ensures
            r == UiScreen::MainMenu,
    {
        UiScreen::MainMenu
    }
}

/// Debug display settings
#[derive(Debug, Clone, Copy, PartialEq, Eq, Structural)]
pub struct DebugDisplay {
    pub enabled: bool,
    pub show_chunks: bool,
    pub show_physics: bool,
    pub show_network: bool,
}

impl Default for DebugDisplay {
    fn default() -> (r: Self)
        ensures
            r == (DebugDisplay { enabled: false, show_chunks: false, show_physics: false, show_network: false }),
    {
        DebugDisplay { enabled: false, show_chunks: false, show_physics: false, show_network: false }
    }
}

/// Map selection state
#[derive(Debug, Clone)]
pub struct MapSelectState {
    pub available_maps: Vec<String>,
    pub selected_index: Option<usize>,
    pub selected_path: Option<String>,
}

impl Default for MapSelectState {
    fn default() -> (r: Self)
        ensures
            r.available_maps@.len() == 0,
            r.selected_index.is_none(),
            r.selected_path.is_none(),
    {
        MapSelectState { available_maps: Vec::new(), selected_index: None, selected_path: None }
    }
}

/// Mouse grab state for camera control
#[derive(Debug, Clone, Copy, PartialEq, Eq, Structural)]
pub struct MouseGrabbed {
    pub grabbed: bool,
}

impl Default for MouseGrabbed {
    fn default() -> (r: Self)
        ensures
            !r.grabbed,
    {
        MouseGrabbed { grabbed: false }
    }
}

/// Loading screen state; the progress fraction is derived from the counts.
#[derive(Debug, Clone)]
pub struct LoadingState {
    pub message: String,
    pub total_items: usize,
    pub completed_items: usize,
}

impl LoadingState {
    pub fn new(message: String) -> (r: Self)
        ensures
            r.message@ == message@,
            r.total_items == 0,
            r.completed_items == 0,
    {
        LoadingState { message, total_items: 0, completed_items: 0 }
    }

    /// Record progress; returns whether the progress fraction is defined
    /// (the total is not zero), in which case it is `completed / total`.
    pub fn update_progress(&mut self, completed: usize, total: usize) -> (fraction_defined: bool)
        ensures
            final(self).completed_items == completed,
            final(self).total_items == total,
            final(self).message@ == old(self).message@,
            fraction_defined == (total > 0),
    {
        self.completed_items = completed;
        self.total_items = total;
        total > 0
    }
}

/// Walking state for animation blending (the walk clock is kept as a float
/// beside it).
#[derive(Debug, Clone, Copy, PartialEq, Eq, Structural)]
pub struct WalkingState {
    pub is_walking: bool,
    pub is_sprinting: bool,
}

} // verus!

//! First-person held items and the choice of arm/weapon animations.

use vstd::prelude::*;

verus! {

/// Currently held item type
#[derive(Debug, Clone, Copy, PartialEq, Eq, Structural)]
pub enum HeldItem {
    Empty,
    Pickaxe,
    Pistol,
    Sword,
}

impl Default for HeldItem {
    fn default() -> (r: Self)
        ensures
            r == HeldItem::Empty,
    {
        HeldItem::Empty
    }
}

pub open spec fn spec_hidden_meshes(item: HeldItem) -> Seq<Seq<char>> {
    match item {
        HeldItem::Empty => seq!["item_pickaxe"@, "item_pistol"@, "item_sword"@, "pick"@, "pistol"@, "sword"@],
        HeldItem::Pickaxe => seq!["item_pistol"@, "item_sword"@, "pistol"@, "sword"@],
        HeldItem::Pistol => seq!["item_pickaxe"@, "item_sword"@, "pick"@, "sword"@],
        HeldItem::Sword => seq!["item_pickaxe"@, "item_pistol"@, "pick"@, "pistol"@],
    }
}

pub open spec fn str_views(s: Seq<&'static str>) -> Seq<Seq<char>> {
    s.map_values(|x: &'static str| x@)
}

impl HeldItem {
    /// Get mesh names to hide for this item (all other items)
    pub fn hidden_meshes(&self) -> (r: Vec<&'static str>)
        ensures
            str_views(r@) == spec_hidden_meshes(*self),
    {
        let r = match self {
            HeldItem::Empty => vec!["item_pickaxe", "item_pistol", "item_sword", "pick", "pistol", "sword"],
            HeldItem::Pickaxe => vec!["item_pistol", "item_sword", "pistol", "sword"],
            HeldItem::Pistol => vec!["item_pickaxe", "item_sword", "pick", "sword"],
            HeldItem::Sword => vec!["item_pickaxe", "item_pistol", "pick", "pistol"],
        };
        assert(str_views(r@) =~= spec_hidden_meshes(*self));
        r
    }

    /// Get idle animation name for this item
    pub fn idle_animation(&self) -> (r: &'static str)
        ensures
            r@ == spec_idle_animation(*self),
    {
        match self {
            HeldItem::Empty => "idle",
            HeldItem::Pickaxe => "pickaxe_idle",
            HeldItem::Pistol => "pistol_idle",
            HeldItem::Sword => "sword_idle",
        }
    }

    /// Get walk animation name for this item
    pub fn walk_animation(&self) -> (r: &'static str)
        ensures
            r@ == spec_walk_animation(*self),
    {
        match self {
            HeldItem::Empty => "walk",
            HeldItem::Pickaxe => "pickaxe_walk",
            HeldItem::Pistol => "pistol_walk",
            HeldItem::Sword => "sword_walk",
        }
    }

    /// Get attack/use animation name for this item
    pub fn attack_animation(&self) -> (r: &'static str)
        ensures
            r@ == spec_attack_animation(*self),
    {
        match self {
            HeldItem::Empty => "hands_punch",
            HeldItem::Pickaxe => "pickaxe_swing",
            HeldItem::Pistol => "pistol_fire",
            HeldItem::Sword => "sword_slash",
        }
    }

    /// Generic attack animation used when the item-specific one is missing.
    pub fn fallback_attack_animation(&self) -> (r: &'static str)
        ensures
            r@ == spec_fallback_attack(*self),
    {
        match self {
            HeldItem::Empty => "punch",
            HeldItem::Pickaxe => "swing",
            HeldItem::Pistol => "fire",
            HeldItem::Sword => "slash",
        }
    }
}

pub open spec fn spec_idle_animation(item: HeldItem) -> Seq<char> {
    match item {
        HeldItem::Empty => "idle"@,
        HeldItem::Pickaxe => "pickaxe_idle"@,
        HeldItem::Pistol => "pistol_idle"@,
        HeldItem::Sword => "sword_idle"@,
    }
}

pub open spec fn spec_walk_animation(item: HeldItem) -> Seq<char> {
    match item {
        HeldItem::Empty => "walk"@,
        HeldItem::Pickaxe => "pickaxe_walk"@,
        HeldItem::Pistol => "pistol_walk"@,
        HeldItem::Sword => "sword_walk"@,
    }
}

pub open spec fn spec_attack_animation(item: HeldItem) -> Seq<char> {
    match item {
        HeldItem::Empty => "hands_punch"@,
        HeldItem::Pickaxe => "pickaxe_swing"@,
        HeldItem::Pistol => "pistol_fire"@,
        HeldItem::Sword => "sword_slash"@,
    }
}

pub open spec fn spec_fallback_attack(item: HeldItem) -> Seq<char> {
    match item {
        HeldItem::Empty => "punch"@,
        HeldItem::Pickaxe => "swing"@,
        HeldItem::Pistol => "fire"@,
        HeldItem::Sword => "slash"@,
    }
}

/// Index of the first clip called `name`, if any.
pub open spec fn is_first_match(names: Seq<Seq<char>>, name: Seq<char>, i: int) -> bool {
    0 <= i < names.len() && names[i] == name && forall|j: int| 0 <= j < i ==> names[j] != name
}

pub open spec fn spec_find_clip(names: Seq<Seq<char>>, name: Seq<char>) -> Option<int> {
    if exists|i: int| is_first_match(names, name, i) {
        Some(choose|i: int| is_first_match(names, name, i))
    } else {
        None
    }
}

/// Abstract state of the clip selection of an animation player.
pub struct AnimState {
    pub names: Seq<Seq<char>>,
    pub current: Option<usize>,
    pub looping: bool,
    pub playing: bool,
}

/// Which clip an animation player plays and whether it plays; the playback
/// clock itself lives with the clips' keyframe data.
#[derive(Debug)]
pub struct AnimationPlayer {
    pub clip_names: Vec<String>,
    pub current_clip: Option<usize>,
    pub looping: bool,
    pub playing: bool,
}

pub open spec fn string_views(s: Seq<String>) -> Seq<Seq<char>> {
    s.map_values(|x: String| x@)
}

impl View for AnimationPlayer {
    type V = AnimState;

    open spec fn view(&self) -> AnimState {
        AnimState {
            names: string_views(self.clip_names@),
            current: self.current_clip,
            looping: self.looping,
            playing: self.playing,
        }
    }
}

/// Playing clip `i`: selected and running when it exists, else no change.
pub open spec fn spec_play(s: AnimState, i: int) -> AnimState {
    if 0 <= i < s.names.len() {
        AnimState { current: Some(i as usize), playing: true, ..s }
    } else {
        s
    }
}

/// Playing a clip by name: the new state and whether a clip was found.
pub open spec fn spec_play_by_name(s: AnimState, name: Seq<char>) -> (AnimState, bool) {
    match spec_find_clip(s.names, name) {
        Some(i) => (spec_play(s, i), true),
        None => (s, false),
    }
}

impl AnimationPlayer {
    pub fn new() -> (r: Self)
        ensures
            r@ == (AnimState { names: Seq::empty(), current: None, looping: true, playing: false }),
    {
        let r = AnimationPlayer { clip_names: Vec::new(), current_clip: None, looping: true, playing: false };
        assert(string_views(r.clip_names@) =~= Seq::<Seq<char>>::empty());
        r
    }

    /// Add an animation clip; returns its index.
    pub fn add_clip(&mut self, name: String) -> (index: usize)
        ensures
            index == old(self)@.names.len(),
            final(self)@ == (AnimState { names: old(self)@.names.push(name@), ..old(self)@ }),
    {
        let index = self.clip_names.len();
        self.clip_names.push(name);
        assert(string_views(self.clip_names@) =~= string_views(old(self).clip_names@).push(name@));
        index
    }

    /// Play a specific clip by index
    pub fn play(&mut self, clip_index: usize) -> (started: bool)
        ensures
            final(self)@ == spec_play(old(self)@, clip_index as int),
            started == (clip_index < old(self)@.names.len()),
    {
        if clip_index < self.clip_names.len() {
            self.current_clip = Some(clip_index);
            self.playing = true;
            true
        } else {
            false
        }
    }

    /// Index of the first clip called `name`.
    pub fn find_clip(&self, name: &str) -> (r: Option<usize>)
        ensures
            match r {
                Some(i) => spec_find_clip(self@.names, name@) == Some(i as int),
                None => spec_find_clip(self@.names, name@).is_none(),
            },
    {
        let target = name.to_owned();
        let mut i: usize = 0;
        while i < self.clip_names.len()
            invariant
                0 <= i <= self.clip_names@.len(),
                target@ == name@,
                forall|j: int| 0 <= j < i ==> self@.names[j] != name@,
            decreases self.clip_names@.len() - i,
        {
            if self.clip_names[i] == target {
                assert(is_first_match(self@.names, name@, i as int));
                proof {
                    let k = choose|k: int| is_first_match(self@.names, name@, k);
                    assert(k == i);
                }
                return Some(i);
            }
            i = i + 1;
        }
        None
    }

    /// Play a clip by name, returns true if found
    pub fn play_by_name(&mut self, name: &str) -> (found: bool)
        ensures
            (final(self)@, found) == spec_play_by_name(old(self)@, name@),
    {
        match self.find_clip(name) {
            Some(idx) => {
                proof {
                    let k = choose|k: int| is_first_match(self@.names, name@, k);
                }
                self.play(idx);
                true
            },
            None => false,
        }
    }

    /// Stop playback
    pub fn stop(&mut self)
        ensures
            final(self)@ == (AnimState { playing: false, ..old(self)@ }),
    {
        self.playing = false;
    }

    /// Pause playback
    pub fn pause(&mut self)
        ensures
            final(self)@ == (AnimState { playing: false, ..old(self)@ }),
    {
        self.playing = false;
    }

    /// Resume playback
    pub fn resume(&mut self)
        ensures
            final(self)@ == (AnimState { playing: true, ..old(self)@ }),
    {
        self.playing = true;
    }

    /// Get the current animation name
    pub fn current_animation_name(&self) -> (r: Option<&str>)
        ensures
            match r {
                Some(n) => self.current_clip.is_some() && self.current_clip.unwrap() < self@.names.len()
                    && n@ == self@.names[self.current_clip.unwrap() as int],
                None => self.current_clip.is_none() || self.current_clip.unwrap() >= self@.names.len(),
            },
    {
        match self.current_clip {
            Some(idx) => {
                if idx < self.clip_names.len() {
                    Some(self.clip_names[idx].as_str())
                } else {
                    None
                }
            },
            None => None,
        }
    }
}

} // verus!

verus! {

/// `needle` occurs as a contiguous run of characters inside `hay`.
pub open spec fn contains_sub(hay: Seq<char>, needle: Seq<char>) -> bool {
    exists|i: int| 0 <= i && i + needle.len() <= hay.len() && #[trigger] hay.subrange(i, i + needle.len()) == needle
}

/// A mesh is visible when no hidden name occurs inside its name.
pub open spec fn spec_mesh_visible(hidden: Seq<Seq<char>>, name: Seq<char>) -> bool {
    forall|k: int| 0 <= k < hidden.len() ==> !contains_sub(name, #[trigger] hidden[k])
}

/// Abstract state of the first-person view model.
pub struct FpState {
    pub anim: AnimState,
    pub held: HeldItem,
    pub hidden: Seq<Seq<char>>,
    pub attacking: bool,
    pub walking: bool,
    pub detached: bool,
}

/// Play the clip called `first`, or else the one called `fallback`.
pub open spec fn spec_play_either(s: AnimState, first: Seq<char>, fallback: Seq<char>) -> AnimState {
    let (s1, found) = spec_play_by_name(s, first);
    if found {
        s1
    } else {
        spec_play_by_name(s, fallback).0
    }
}

pub open spec fn spec_play_idle(st: FpState) -> FpState {
    let a = spec_play_either(st.anim, spec_idle_animation(st.held), "idle"@);
    FpState { anim: AnimState { looping: true, ..a }, attacking: false, ..st }
}

pub open spec fn spec_play_walk(st: FpState) -> FpState {
    if st.attacking {
        st
    } else {
        let a = spec_play_either(st.anim, spec_walk_animation(st.held), "walk"@);
        FpState { anim: AnimState { looping: true, ..a }, ..st }
    }
}

pub open spec fn spec_play_attack(st: FpState) -> FpState {
    let a = spec_play_either(st.anim, spec_attack_animation(st.held), spec_fallback_attack(st.held));
    FpState { anim: AnimState { looping: false, ..a }, attacking: true, ..st }
}

pub open spec fn spec_set_held_item(st: FpState, item: HeldItem) -> FpState {
    if st.held == item {
        st
    } else {
        spec_play_idle(FpState { held: item, hidden: spec_hidden_meshes(item), ..st })
    }
}

/// One frame of the walk/idle/attack state machine.
pub open spec fn spec_update(st: FpState, walking: bool) -> FpState {
    let was = st.walking;
    let s1 = FpState { walking, ..st };
    let s2 = if s1.attacking && !s1.anim.playing {
        let t = FpState { attacking: false, ..s1 };
        if walking {
            spec_play_walk(t)
        } else {
            spec_play_idle(t)
        }
    } else {
        s1
    };
    if !s2.attacking {
        if walking && !was {
            spec_play_walk(s2)
        } else if !walking && was {
            spec_play_idle(s2)
        } else {
            s2
        }
    } else {
        s2
    }
}

/// First-person view model: which item is held, which of its meshes are
/// hidden, and which arm animation runs. Placement in the world (offsets,
/// scale, camera shake) is computed with floats outside this type.
#[derive(Debug)]
pub struct FirstPersonView {
    pub animation_player: AnimationPlayer,
    pub held_item: HeldItem,
    pub hidden_meshes: Vec<String>,
    is_attacking: bool,
    is_walking: bool,
    pub debug_detached: bool,
}

impl View for FirstPersonView {
    type V = FpState;

    closed spec fn view(&self) -> FpState {
        FpState {
            anim: self.animation_player@,
            held: self.held_item,
            hidden: string_views(self.hidden_meshes@),
            attacking: self.is_attacking,
            walking: self.is_walking,
            detached: self.debug_detached,
        }
    }
}

fn chars_of(s: &str) -> (r: Vec<char>)
    ensures
        r@ == s@,
{
    let n = s.unicode_len();
    let mut r: Vec<char> = Vec::new();
    let mut i: usize = 0;
    while i < n
        invariant
            n == s@.len(),
            i <= n,
            r@ == s@.subrange(0, i as int),
        decreases n - i,
    {
        r.push(s.get_char(i));
        i = i + 1;
    }
    r
}

fn occurs_in(hay: &Vec<char>, needle: &Vec<char>) -> (r: bool)
    ensures
        r == contains_sub(hay@, needle@),
{
    if needle.len() > hay.len() {
        return false;
    }
    if needle.len() == 0 {
        assert(hay@.subrange(0int, 0int + needle@.len()) =~= needle@);
        return true;
    }
    let bound = hay.len() - needle.len() + 1;
    let mut i: usize = 0;
    while i < bound
        invariant
            1 <= needle@.len() <= hay@.len(),
            bound == hay@.len() - needle@.len() + 1,
            hay@.len() <= usize::MAX,
            i <= bound,
            forall|p: int| 0 <= p < i ==> #[trigger] hay@.subrange(p, p + needle@.len()) != needle@,
        decreases bound - i,
    {
        let mut j: usize = 0;
        let mut same = true;
        while j < needle.len()
            invariant
                1 <= needle@.len() <= hay@.len(),
                bound == hay@.len() - needle@.len() + 1,
                i < bound,
                hay@.len() <= usize::MAX,
                j <= needle@.len(),
                same == (forall|q: int| 0 <= q < j ==> hay@[i + q] == needle@[q]),
            decreases needle@.len() - j,
        {
            if hay[i + j] != needle[j] {
                same = false;
            }
            j = j + 1;
        }
        if same {
            assert(hay@.subrange(i as int, i + needle@.len()) =~= needle@);
            return true;
        }
        assert(hay@.subrange(i as int, i + needle@.len()) != needle@) by {
            let q = choose|q: int| 0 <= q < needle@.len() && hay@[i + q] != needle@[q];
            assert(hay@.subrange(i as int, i + needle@.len())[q] == hay@[i + q]);
        }
        i = i + 1;
    }
    proof {
        if contains_sub(hay@, needle@) {
            let p = choose|p: int| 0 <= p && p + needle@.len() <= hay@.len() && #[trigger] hay@.subrange(p, p + needle@.len()) == needle@;
            assert(hay@.subrange(p, p + needle@.len()) != needle@);
        }
    }
    false
}

impl FirstPersonView {
    pub fn new() -> (r: Self)
        ensures
            r@ == (FpState {
                anim: AnimState { names: Seq::empty(), current: None, looping: true, playing: false },
                held: HeldItem::Empty,
                hidden: Seq::empty(),
                attacking: false,
                walking: false,
                detached: false,
            }),
    {
        let r = FirstPersonView {
            animation_player: AnimationPlayer::new(),
            held_item: HeldItem::Empty,
            hidden_meshes: Vec::new(),
            is_attacking: false,
            is_walking: false,
            debug_detached: false,
        };
        assert(string_views(r.hidden_meshes@) =~= Seq::<Seq<char>>::empty());
        r
    }

    /// Toggle debug detach mode; returns whether the view is now detached,
    /// in which case the caller saves the camera pose.
    pub fn toggle_detach(&mut self) -> (detached: bool)
        ensures
            detached == !old(self)@.detached,
            final(self)@ == (FpState { detached: !old(self)@.detached, ..old(self)@ }),
    {
        self.debug_detached = !self.debug_detached;
        self.debug_detached
    }

    /// Install the clips of a newly loaded model, then show the current item
    /// and start its idle animation.
    pub fn set_clips(&mut self, clip_names: Vec<String>)
        ensures
            final(self)@ == spec_play_idle(FpState {
                anim: AnimState { names: string_views(clip_names@), current: None, looping: true, playing: false },
                hidden: spec_hidden_meshes(old(self)@.held),
                ..old(self)@
            }),
    {
        let mut player = AnimationPlayer::new();
        let mut i: usize = 0;
        assert(string_views(clip_names@.subrange(0, 0)) =~= Seq::<Seq<char>>::empty());
        while i < clip_names.len()
            invariant
                i <= clip_names@.len(),
                player.clip_names@.len() == i,
                player@ == (AnimState {
                    names: string_views(clip_names@.subrange(0, i as int)),
                    current: None,
                    looping: true,
                    playing: false,
                }),
            decreases clip_names@.len() - i,
        {
            let name = clip_names[i].clone();
            player.add_clip(name);
            assert(string_views(clip_names@.subrange(0, i + 1)) =~= string_views(clip_names@.subrange(0, i as int)).push(clip_names@[i as int]@));
            i = i + 1;
        }
        assert(clip_names@.subrange(0, clip_names@.len() as int) =~= clip_names@);
        self.animation_player = player;
        self.update_item_visibility();
        self.play_idle();
    }

    /// Set the currently held item
    pub fn set_held_item(&mut self, item: HeldItem)
        ensures
            final(self)@ == spec_set_held_item(old(self)@, item),
    {
        if self.held_item == item {
            return;
        }
        self.held_item = item;
        self.update_item_visibility();
        self.play_idle();
    }

    /// Update which meshes are hidden based on held item
    fn update_item_visibility(&mut self)
        ensures
            final(self)@ == (FpState { hidden: spec_hidden_meshes(old(self)@.held), ..old(self)@ }),
    {
        let names = self.held_item.hidden_meshes();
        let mut hidden: Vec<String> = Vec::new();
        let mut i: usize = 0;
        while i < names.len()
            invariant
                i <= names@.len(),
                string_views(hidden@) == str_views(names@).subrange(0, i as int),
            decreases names@.len() - i,
        {
            let h = names[i].to_owned();
            proof {
                assert(h@ == str_views(names@)[i as int]);
            }
            let ghost before = hidden@;
            hidden.push(h);
            assert(hidden@ == before.push(h));
            assert(string_views(hidden@) =~= str_views(names@).subrange(0, i + 1)) by {
                assert(string_views(before.push(h)) =~= string_views(before).push(h@));
            }
            i = i + 1;
        }
        assert(str_views(names@).subrange(0, names@.len() as int) =~= str_views(names@));
        self.hidden_meshes = hidden;
    }

    /// Check if a mesh should be visible
    pub fn is_mesh_visible(&self, mesh_name: &str) -> (r: bool)
        ensures
            r == spec_mesh_visible(self@.hidden, mesh_name@),
    {
        let hay = chars_of(mesh_name);
        let mut k: usize = 0;
        while k < self.hidden_meshes.len()
            invariant
                k <= self.hidden_meshes@.len(),
                hay@ == mesh_name@,
                forall|m: int| 0 <= m < k ==> !contains_sub(mesh_name@, #[trigger] self@.hidden[m]),
            decreases self.hidden_meshes@.len() - k,
        {
            let needle = chars_of(self.hidden_meshes[k].as_str());
            assert(self@.hidden[k as int] == needle@);
            if occurs_in(&hay, &needle) {
                return false;
            }
            k = k + 1;
        }
        true
    }

    fn play_either(&mut self, first: &str, fallback: &str)
        ensures
            final(self)@ == (FpState {
                anim: spec_play_either(old(self)@.anim, first@, fallback@),
                ..old(self)@
            }),
    {
        if !self.animation_player.play_by_name(first) {
            self.animation_player.play_by_name(fallback);
        }
    }

    /// Play idle animation for current item
    pub fn play_idle(&mut self)
        ensures
            final(self)@ == spec_play_idle(old(self)@),
    {
        let first = self.held_item.idle_animation();
        let fallback = "idle";
        proof {
            reveal_strlit("idle");
        }
        self.play_either(first, fallback);
        self.animation_player.looping = true;
        self.is_attacking = false;
    }

    /// Play walk animation for current item
    pub fn play_walk(&mut self)
        ensures
            final(self)@ == spec_play_walk(old(self)@),
    {
        if self.is_attacking {
            return;
        }
        let first = self.held_item.walk_animation();
        self.play_either(first, "walk");
        self.animation_player.looping = true;
    }

    /// Play attack animation for current item
    pub fn play_attack(&mut self)
        ensures
            final(self)@ == spec_play_attack(old(self)@),
    {
        let first = self.held_item.attack_animation();
        let fallback = self.held_item.fallback_attack_animation();
        self.play_either(first, fallback);
        self.animation_player.looping = false;
        self.is_attacking = true;
    }

    /// Advance the walk/idle/attack state for one frame.
    pub fn update(&mut self, is_walking: bool)
        ensures
            final(self)@ == spec_update(old(self)@, is_walking),
    {
        let was_walking = self.is_walking;
        self.is_walking = is_walking;
        if self.is_attacking && !self.animation_player.playing {
            self.is_attacking = false;
            if is_walking {
                self.play_walk();
            } else {
                self.play_idle();
            }
        }
        if !self.is_attacking {
            if is_walking && !was_walking {
                self.play_walk();
            } else if !is_walking && was_walking {
                self.play_idle();
            }
        }
    }

    /// Play an animation by name
    pub fn play_animation(&mut self, name: &str)
        ensures
            final(self)@ == (FpState { anim: spec_play_by_name(old(self)@.anim, name@).0, ..old(self)@ }),
    {
        self.animation_player.play_by_name(name);
    }

    /// Check if currently attacking
    pub fn is_attacking(&self) -> (r: bool)
        ensures
            r == self@.attacking,
    {
        self.is_attacking
    }
}


/// Walking never interrupts an attack.
pub proof fn law_walk_keeps_attack(st: FpState)
    requires
        st.attacking,
    ensures
        spec_play_walk(st) == st,
{
}

/// While the attack clip still plays, a frame keeps the attack and leaves
/// the animation alone.
pub proof fn law_running_attack_continues(st: FpState, walking: bool)
    requires
        st.attacking,
        st.anim.playing,
    ensures
        spec_update(st, walking).attacking,
        spec_update(st, walking).anim == st.anim,
{
}

/// Once the attack clip has stopped, the next frame ends the attack and
/// loops the walk or idle animation.
pub proof fn law_finished_attack_ends(st: FpState, walking: bool)
    requires
        st.attacking,
        !st.anim.playing,
    ensures
        !spec_update(st, walking).attacking,
        spec_update(st, walking).anim.looping,
{
}

/// Selecting the held item twice is the same as selecting it once, and the
/// hidden meshes always follow the held item.
pub proof fn law_set_held_item_idempotent(st: FpState, item: HeldItem)
    ensures
        spec_set_held_item(spec_set_held_item(st, item), item) == spec_set_held_item(st, item),
        st.held != item ==> spec_set_held_item(st, item).hidden == spec_hidden_meshes(item),
        spec_set_held_item(st, item).held == item,
{
}


/// A name that occurs in the clip list has a first occurrence.
proof fn lemma_first_match_exists(names: Seq<Seq<char>>, name: Seq<char>, j: int)
    requires
        0 <= j < names.len(),
        names[j] == name,
    ensures
        exists|i: int| is_first_match(names, name, i),
    decreases j,
{
    if forall|k: int| 0 <= k < j ==> names[k] != name {
        assert(is_first_match(names, name, j));
    } else {
        let k = choose|k: int| 0 <= k < j && names[k] == name;
        lemma_first_match_exists(names, name, k);
    }
}

/// Playing a clip by name, when the name is in the list, plays a clip of
/// that name; otherwise nothing changes.
proof fn lemma_play_by_name(s: AnimState, name: Seq<char>)
    requires
        s.names.len() <= usize::MAX,
    ensures
        s.names.contains(name) ==> ({
            let (t, found) = spec_play_by_name(s, name);
            &&& found
            &&& t.playing
            &&& t.names == s.names
            &&& t.looping == s.looping
            &&& t.current matches Some(i) && i < s.names.len() && s.names[i as int] == name
        }),
        !s.names.contains(name) ==> spec_play_by_name(s, name) == (s, false),
{
    if s.names.contains(name) {
        let j = choose|j: int| 0 <= j < s.names.len() && s.names[j] == name;
        lemma_first_match_exists(s.names, name, j);
        let i = choose|i: int| is_first_match(s.names, name, i);
        assert(spec_find_clip(s.names, name) == Some(i));
        assert((i as usize) as int == i);
    } else {
        if exists|i: int| is_first_match(s.names, name, i) {
            let i = choose|i: int| is_first_match(s.names, name, i);
            assert(s.names[i] == name);
        }
    }
}

/// Starting to walk when not attacking plays the walk animation, looping:
/// the held item's walk clip if the model has one, else a clip called
/// "walk"; with neither, the current clip stays. The view is then walking
/// and not attacking, and the clip list is unchanged.
pub proof fn law_start_walking_plays_walk(st: FpState)
    requires
        !st.attacking,
        !st.walking,
        st.anim.names.len() <= usize::MAX,
    ensures
        ({
            let r = spec_update(st, true);
            let item_walk = spec_walk_animation(st.held);
            &&& r.walking
            &&& !r.attacking
            &&& r.anim.looping
            &&& r.anim.names == st.anim.names
            &&& r.held == st.held
            &&& st.anim.names.contains(item_walk) ==> r.anim.playing
                && (r.anim.current matches Some(i) && i < st.anim.names.len() && st.anim.names[i as int] == item_walk)
            &&& !st.anim.names.contains(item_walk) && st.anim.names.contains("walk"@) ==> r.anim.playing
                && (r.anim.current matches Some(i) && i < st.anim.names.len() && st.anim.names[i as int] == "walk"@)
            &&& !st.anim.names.contains(item_walk) && !st.anim.names.contains("walk"@) ==> r.anim.current
                == st.anim.current && r.anim.playing == st.anim.playing
        }),
{
    let item_walk = spec_walk_animation(st.held);
    lemma_play_by_name(st.anim, item_walk);
    lemma_play_by_name(st.anim, "walk"@);
}
} // verus!

//! UI state: screens, UI messages, settings enums and brush shapes.

use vstd::prelude::*;

verus! {

/// Screens of the user interface.
#[derive(Debug, Clone, Copy, PartialEq, Eq, Structural)]
pub enum UiScreen {
    MainMenu,
    MapSelect,
    Matchmaking,
    DevTools,
    WorldSelect,
    Settings,
    InGame,
    PauseMenu,
    Editor,
    EditorPause,
    Loading,
}

impl Default for UiScreen {
    fn default() -> (r: Self)
        ensures
            r == UiScreen::MainMenu,
    {
        UiScreen::MainMenu
    }
}

/// Messages produced by UI widgets.
#[derive(Debug, Clone)]
pub enum UiMessage {
    OpenMapSelect,
    SelectMap(String),
    FindMatch,
    CancelMatchmaking,
    Settings,
    Exit,
    Back,
    Resume,
    QuitToMenu,
    // Editor
    EditorQuitToMenu,
    OpenDevTools,
    // World select
    OpenWorldSelect,
    PlayWorld(String),
    EditWorld(String),
    CreateNewMap(String),
    // Save
    SaveBigWorld,
}

/// A world that can be played, as listed on the map select screen.
#[derive(Debug, Clone)]
pub struct PlayableWorld {
    pub name: String,
    pub path: String,
}

/// State of the map select screen.
#[derive(Debug, Clone)]
pub struct MapSelectState {
    pub worlds: Vec<PlayableWorld>,
}

impl Default for MapSelectState {
    fn default() -> (r: Self)
        ensures
            r.worlds@.len() == 0,
    {
        MapSelectState { worlds: Vec::new() }
    }
}

#[derive(Debug, Clone, Copy, PartialEq, Eq, Structural)]
pub enum LightingMode {
    Simple,
    PathTracing,
}

impl Default for LightingMode {
    fn default() -> (r: Self)
        ensures
            r == LightingMode::Simple,
    {
        LightingMode::Simple
    }
}

#[derive(Debug, Clone, Copy, PartialEq, Eq, Structural)]
pub enum PerformancePreset {
    Potato,
    Balanced,
    High,
}

impl Default for PerformancePreset {
    fn default() -> (r: Self)
        ensures
            r == PerformancePreset::Potato,
    {
        PerformancePreset::Potato
    }
}

impl PerformancePreset {
    /// Path tracing bounces the preset allows.
    pub fn max_bounces(&self) -> (n: u32)
        ensures
            n == match *self {
                PerformancePreset::Potato => 1u32,
                PerformancePreset::Balanced => 2u32,
                PerformancePreset::High => 4u32,
            },
    {
        match self {
            PerformancePreset::Potato => 1,
            PerformancePreset::Balanced => 2,
            PerformancePreset::High => 4,
        }
    }

    /// Render resolution in percent of the window.
    pub fn render_scale_percent(&self) -> (n: u32)
        ensures
            n == match *self {
                PerformancePreset::Potato => 50u32,
                PerformancePreset::Balanced => 75u32,
                PerformancePreset::High => 100u32,
            },
    {
        match self {
            PerformancePreset::Potato => 50,
            PerformancePreset::Balanced => 75,
            PerformancePreset::High => 100,
        }
    }

    /// Lighting the preset uses: the cheapest preset skips path tracing.
    pub fn lighting_mode(&self) -> (m: LightingMode)
        ensures
            m == (if *self == PerformancePreset::Potato { LightingMode::Simple } else { LightingMode::PathTracing }),
    {
        match self {
            PerformancePreset::Potato => LightingMode::Simple,
            _ => LightingMode::PathTracing,
        }
    }

    pub fn name(&self) -> (s: &'static str)
        ensures
            s@ == match *self {
                PerformancePreset::Potato => "Potato"@,
                PerformancePreset::Balanced => "Balanced"@,
                PerformancePreset::High => "High"@,
            },
    {
        match self {
            PerformancePreset::Potato => "Potato",
            PerformancePreset::Balanced => "Balanced",
            PerformancePreset::High => "High",
        }
    }
}

impl LightingMode {
    pub fn name(&self) -> (s: &'static str)
        ensures
            s@ == match *self {
                LightingMode::Simple => "Simple"@,
                LightingMode::PathTracing => "Path Tracing"@,
            },
    {
        match self {
            LightingMode::Simple => "Simple",
            LightingMode::PathTracing => "Path Tracing",
        }
    }
}

/// Brush shape for painting voxels
#[derive(Debug, Clone, Copy, PartialEq, Eq, Structural)]
pub enum BrushShape {
    Single,
    Sphere,
    Cube,
}

impl Default for BrushShape {
    fn default() -> (r: Self)
        ensures
            r == BrushShape::Single,
    {
        BrushShape::Single
    }
}

impl BrushShape {
    pub fn name(&self) -> (s: &'static str)
        ensures
            s@ == match *self {
                BrushShape::Single => "Single"@,
                BrushShape::Sphere => "Sphere"@,
                BrushShape::Cube => "Cube"@,
            },
    {
        match self {
            BrushShape::Single => "Single",
            BrushShape::Sphere => "Sphere",
            BrushShape::Cube => "Cube",
        }
    }

    /// All brush shapes, in menu order.
    pub fn all() -> (r: [BrushShape; 3])
        ensures
            r@ == seq![BrushShape::Single, BrushShape::Sphere, BrushShape::Cube],
    {
        [BrushShape::Single, BrushShape::Sphere, BrushShape::Cube]
    }
}


/// Editor settings that are not floating point: palette color, brush and
/// level name.
#[derive(Debug, Clone)]
pub struct EditorState {
    /// Selected palette color index (1-255, 0 is air)
    pub selected_color: u8,
    /// Brush shape
    pub brush_shape: BrushShape,
    /// Brush size (radius for sphere, half-size for cube)
    pub brush_size: u8,
    pub level_name: String,
}

impl Default for EditorState {
    fn default() -> (r: Self)
        ensures
            r.selected_color == 42,
            r.brush_shape == BrushShape::Single,
            r.brush_size == 2,
            r.level_name@ == "untitled"@,
    {
        EditorState {
            selected_color: 42,
            brush_shape: BrushShape::Single,
            brush_size: 2,
            level_name: "untitled".to_owned(),
        }
    }
}

/// `a` sorts before or equal to `b`, comparing characters in order (the
/// order of `str`, since UTF-8 preserves code point order).
pub open spec fn text_le(a: Seq<char>, b: Seq<char>) -> bool
    decreases a.len(),
{
    if a.len() == 0 {
        true
    } else if b.len() == 0 {
        false
    } else if (a[0] as u32) != (b[0] as u32) {
        (a[0] as u32) < (b[0] as u32)
    } else {
        text_le(a.drop_first(), b.drop_first())
    }
}

/// Insert `w` after the last world whose name sorts before or equal to it.
pub open spec fn insert_by_name(s: Seq<PlayableWorldView>, w: PlayableWorldView) -> Seq<PlayableWorldView>
    decreases s.len(),
{
    if s.len() == 0 {
        seq![w]
    } else if text_le(s.last().name, w.name) {
        s.push(w)
    } else {
        insert_by_name(s.drop_last(), w).push(s.last())
    }
}

/// Stable sort of worlds by name.
pub open spec fn sort_by_name(s: Seq<PlayableWorldView>) -> Seq<PlayableWorldView>
    decreases s.len(),
{
    if s.len() == 0 {
        s
    } else {
        insert_by_name(sort_by_name(s.drop_last()), s.last())
    }
}

pub struct PlayableWorldView {
    pub name: Seq<char>,
    pub path: Seq<char>,
}

impl View for PlayableWorld {
    type V = PlayableWorldView;

    open spec fn view(&self) -> PlayableWorldView {
        PlayableWorldView { name: self.name@, path: self.path@ }
    }
}

pub open spec fn world_views(s: Seq<PlayableWorld>) -> Seq<PlayableWorldView> {
    s.map_values(|w: PlayableWorld| w@)
}

fn text_le_exec(a: &Vec<char>, b: &Vec<char>) -> (r: bool)
    ensures
        r == text_le(a@, b@),
{
    let mut i: usize = 0;
    assert(a@.skip(0) =~= a@);
    assert(b@.skip(0) =~= b@);
    while i < a.len() && i < b.len()
        invariant
            i <= a@.len(),
            i <= b@.len(),
            text_le(a@, b@) == text_le(a@.skip(i as int), b@.skip(i as int)),
        decreases a@.len() - i,
    {
        let x: u32 = a[i] as u32;
        let y: u32 = b[i] as u32;
        if x != y {
            return x < y;
        }
        proof {
            assert(a@.skip(i as int).drop_first() =~= a@.skip(i + 1));
            assert(b@.skip(i as int).drop_first() =~= b@.skip(i + 1));
        }
        i = i + 1;
    }
    i == a.len()
}

fn chars_vec(s: &String) -> (r: Vec<char>)
    ensures
        r@ == s@,
{
    let t = s.as_str();
    let n = t.unicode_len();
    let mut r: Vec<char> = Vec::new();
    let mut i: usize = 0;
    while i < n
        invariant
            n == t@.len(),
            t@ == s@,
            i <= n,
            r@ == t@.subrange(0, i as int),
        decreases n - i,
    {
        r.push(t.get_char(i));
        i = i + 1;
    }
    r
}

proof fn lemma_insert_by_name_at(s: Seq<PlayableWorldView>, w: PlayableWorldView, k: int)
    requires
        0 <= k <= s.len(),
        forall|j: int| k <= j < s.len() ==> !text_le(#[trigger] s[j].name, w.name),
        k > 0 ==> text_le(s[k - 1].name, w.name),
    ensures
        insert_by_name(s, w) == s.insert(k, w),
    decreases s.len(),
{
    if s.len() == 0 {
        assert(s.insert(k, w) =~= seq![w]);
    } else if k == s.len() {
        assert(s.insert(k, w) =~= s.push(w));
    } else {
        lemma_insert_by_name_at(s.drop_last(), w, k);
        assert(s.drop_last().insert(k, w).push(s.last()) =~= s.insert(k, w));
    }
}

/// Sort worlds by name, keeping the order of worlds with equal names.
pub fn sort_worlds_by_name(worlds: Vec<PlayableWorld>) -> (r: Vec<PlayableWorld>)
    ensures
        world_views(r@) == sort_by_name(world_views(worlds@)),
{
    let ghost all = world_views(worlds@);
    let mut worlds = worlds;
    let mut r: Vec<PlayableWorld> = Vec::new();
    let mut names: Vec<Vec<char>> = Vec::new();
    let mut taken: usize = 0;
    let total = worlds.len();
    assert(all.take(0) =~= Seq::<PlayableWorldView>::empty());
    assert(world_views(worlds@) =~= all.skip(0));
    while worlds.len() > 0
        invariant
            world_views(worlds@) == all.skip(taken as int),
            total == all.len(),
            taken <= all.len(),
            world_views(r@) == sort_by_name(all.take(taken as int)),
            names@.len() == r@.len(),
            forall|j: int| 0 <= j < names@.len() ==> (#[trigger] names@[j])@ == r@[j].name@,
        decreases all.len() - taken,
    {
        let ghost before = worlds@;
        let w = worlds.remove(0);
        proof {
            assert(world_views(before)[0] == w@);
            assert(world_views(worlds@) =~= world_views(before).drop_first());
            assert(all.skip(taken as int).drop_first() =~= all.skip(taken + 1));
            assert(all.skip(taken as int)[0] == all[taken as int]);
        }
        let wn = chars_vec(&w.name);
        let mut k: usize = r.len();
        while k > 0 && !text_le_exec(&names[k - 1], &wn)
            invariant
                k <= r@.len(),
                names@.len() == r@.len(),
                forall|j: int| 0 <= j < names@.len() ==> (#[trigger] names@[j])@ == r@[j].name@,
                wn@ == w.name@,
                forall|j: int| k <= j < r@.len() ==> !text_le(#[trigger] world_views(r@)[j].name, w@.name),
            decreases k,
        {
            k = k - 1;
        }
        proof {
            let pre = all.take(taken as int);
            let post = all.take(taken + 1);
            assert(post.drop_last() =~= pre);
            assert(post.last() == w@);
            lemma_insert_by_name_at(world_views(r@), w@, k as int);
        }
        let ghost r_before = r@;
        r.insert(k, w);
        names.insert(k, wn);
        proof {
            assert(world_views(r@) =~= world_views(r_before).insert(k as int, w@));
        }
        taken = taken + 1;
    }
    assert(all.take(taken as int) =~= all);
    r
}


pub open spec fn sorted_by_name(s: Seq<PlayableWorldView>) -> bool {
    forall|i: int, j: int| 0 <= i < j < s.len() ==> text_le(#[trigger] s[i].name, #[trigger] s[j].name)
}

proof fn lemma_text_le_total(a: Seq<char>, b: Seq<char>)
    ensures
        text_le(a, b) || text_le(b, a),
    decreases a.len(),
{
    if a.len() > 0 && b.len() > 0 {
        if (a[0] as u32) == (b[0] as u32) {
            lemma_text_le_total(a.drop_first(), b.drop_first());
        }
    }
}

proof fn lemma_text_le_trans(a: Seq<char>, b: Seq<char>, c: Seq<char>)
    requires
        text_le(a, b),
        text_le(b, c),
    ensures
        text_le(a, c),
    decreases a.len(),
{
    if a.len() > 0 && b.len() > 0 && c.len() > 0 && (a[0] as u32) == (b[0] as u32) && (b[0] as u32) == (c[0] as u32) {
        lemma_text_le_trans(a.drop_first(), b.drop_first(), c.drop_first());
    }
}

proof fn lemma_insert_by_name_sorted(s: Seq<PlayableWorldView>, w: PlayableWorldView)
    requires
        sorted_by_name(s),
    ensures
        sorted_by_name(insert_by_name(s, w)),
        insert_by_name(s, w).to_multiset() == s.to_multiset().insert(w),
    decreases s.len(),
{
    broadcast use vstd::seq_lib::group_to_multiset_ensures;
    if s.len() == 0 {
        assert(seq![w] =~= Seq::<PlayableWorldView>::empty().push(w));
    } else if text_le(s.last().name, w.name) {
        let r = s.push(w);
        assert forall|i: int, j: int| 0 <= i < j < r.len() implies text_le(#[trigger] r[i].name, #[trigger] r[j].name) by {
            if j == s.len() {
                if i < s.len() - 1 {
                    lemma_text_le_trans(s[i].name, s.last().name, w.name);
                }
            }
        }
    } else {
        let t = s.drop_last();
        let last = s.last();
        lemma_text_le_total(last.name, w.name);
        lemma_insert_by_name_sorted(t, w);
        assert(s =~= t.push(last));
        let r = insert_by_name(t, w);
        assert forall|i: int| 0 <= i < r.len() implies text_le(#[trigger] r[i].name, last.name) by {
            assert(r.to_multiset().count(r[i]) > 0);
            if r[i] != w {
                assert(t.to_multiset().count(r[i]) > 0);
                assert(t.contains(r[i]));
                let j = choose|j: int| 0 <= j < t.len() && t[j] == r[i];
                assert(s[j] == t[j]);
            }
        }
        let rr = r.push(last);
        assert forall|i: int, j: int| 0 <= i < j < rr.len() implies text_le(#[trigger] rr[i].name, #[trigger] rr[j].name) by {
            if j == r.len() {
                assert(rr[i] == r[i]);
            }
        }
    }
}

/// Sorting worlds by name orders them by name and keeps every world.
pub proof fn law_sort_by_name(s: Seq<PlayableWorldView>)
    ensures
        sorted_by_name(sort_by_name(s)),
        sort_by_name(s).to_multiset() == s.to_multiset(),
    decreases s.len(),
{
    broadcast use vstd::seq_lib::group_to_multiset_ensures;
    if s.len() > 0 {
        law_sort_by_name(s.drop_last());
        lemma_insert_by_name_sorted(sort_by_name(s.drop_last()), s.last());
        assert(s =~= s.drop_last().push(s.last()));
    } else {
        assert(s.to_multiset() =~= vstd::multiset::Multiset::<PlayableWorldView>::empty());
    }
}

} // verus!

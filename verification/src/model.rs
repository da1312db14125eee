//! Model data: textures and their pixel conversion, the joint hierarchy of
//! skeletons, triangles of polygon meshes and the looping flag of clips.

use vstd::prelude::*;

use crate::first_person::{is_first_match, spec_find_clip, string_views};

verus! {

/// Interpolation method for keyframes
#[derive(Debug, Clone, Copy, PartialEq, Eq, Structural)]
pub enum Interpolation {
    Step,
    Linear,
    CubicSpline,
}

/// Texture format for loaded textures
#[derive(Debug, Clone, Copy, PartialEq, Eq, Structural)]
pub enum TextureFormat {
    Rgba8,
    Rgb8,
}

/// Pixel layouts an image can arrive in.
#[derive(Debug, Clone, Copy, PartialEq, Eq, Structural)]
pub enum PixelFormat {
    R8,
    R8G8,
    R8G8B8,
    R8G8B8A8,
    R16,
    R16G16,
    R16G16B16,
    R16G16B16A16,
    R32G32B32FLOAT,
    R32G32B32A32FLOAT,
}

/// A loaded texture from a GLB file
#[derive(Debug, Clone)]
pub struct LoadedTexture {
    pub data: Vec<u8>,
    pub width: u32,
    pub height: u32,
    pub format: TextureFormat,
}

/// Byte `j` of the RGBA8 version of pixels `p` laid out as `fmt`: grey
/// levels are spread over red, green and blue; a missing alpha is opaque.
pub open spec fn spec_rgba(fmt: PixelFormat, p: Seq<u8>) -> Seq<u8> {
    match fmt {
        PixelFormat::R8 => Seq::new(4 * p.len(), |j: int| if j % 4 == 3 { 255u8 } else { p[j / 4] }),
        PixelFormat::R8G8 => Seq::new(
            4 * ((p.len() + 1) / 2) as nat,
            |j: int|
                if j % 4 < 3 {
                    p[2 * (j / 4)]
                } else if 2 * (j / 4) + 1 < p.len() {
                    p[2 * (j / 4) + 1]
                } else {
                    255u8
                },
        ),
        PixelFormat::R8G8B8 => Seq::new(
            4 * (p.len() / 3),
            |j: int| if j % 4 == 3 { 255u8 } else { p[3 * (j / 4) + j % 4] },
        ),
        _ => p,
    }
}

/// Convert image data to RGBA8 format. Other layouts than 8-bit red, red
/// and green, and red, green and blue are passed through unchanged.
pub fn convert_to_rgba(fmt: PixelFormat, pixels: &Vec<u8>) -> (out: Vec<u8>)
    requires
        fmt == PixelFormat::R8G8B8 ==> pixels@.len() % 3 == 0,
        pixels@.len() <= usize::MAX / 4,
    ensures
        out@ == spec_rgba(fmt, pixels@),
{
    let n = pixels.len();
    match fmt {
        PixelFormat::R8 => {
            let mut out: Vec<u8> = Vec::new();
            let mut i: usize = 0;
            while i < n
                invariant
                    n == pixels@.len(),
                    n <= usize::MAX / 4,
                    i <= n,
                    out@.len() == 4 * i,
                    forall|j: int| 0 <= j < 4 * i ==> #[trigger] out@[j] == spec_rgba(fmt, pixels@)[j],
                    fmt == PixelFormat::R8,
                decreases n - i,
            {
                let r = pixels[i];
                out.push(r);
                out.push(r);
                out.push(r);
                out.push(255);
                i = i + 1;
            }
            assert(out@ =~= spec_rgba(fmt, pixels@));
            out
        },
        PixelFormat::R8G8 => {
            let mut out: Vec<u8> = Vec::new();
            let mut k: usize = 0;
            let m: usize = n / 2 + n % 2;
            while k < m
                invariant
                    n == pixels@.len(),
                    n <= usize::MAX / 4,
                    m == (n + 1) / 2,
                    k <= m,
                    out@.len() == 4 * k,
                    forall|j: int| 0 <= j < 4 * k ==> #[trigger] out@[j] == spec_rgba(fmt, pixels@)[j],
                    fmt == PixelFormat::R8G8,
                decreases m - k,
            {
                let r = pixels[2 * k];
                let a: u8 = if 2 * k + 1 < n { pixels[2 * k + 1] } else { 255 };
                out.push(r);
                out.push(r);
                out.push(r);
                out.push(a);
                k = k + 1;
            }
            assert(out@ =~= spec_rgba(fmt, pixels@));
            out
        },
        PixelFormat::R8G8B8 => {
            let mut out: Vec<u8> = Vec::new();
            let mut k: usize = 0;
            let m: usize = n / 3;
            while k < m
                invariant
                    n == pixels@.len(),
                    n <= usize::MAX / 4,
                    n % 3 == 0,
                    m == n / 3,
                    k <= m,
                    out@.len() == 4 * k,
                    forall|j: int| 0 <= j < 4 * k ==> #[trigger] out@[j] == spec_rgba(fmt, pixels@)[j],
                    fmt == PixelFormat::R8G8B8,
                decreases m - k,
            {
                out.push(pixels[3 * k]);
                out.push(pixels[3 * k + 1]);
                out.push(pixels[3 * k + 2]);
                out.push(255);
                k = k + 1;
            }
            assert(out@ =~= spec_rgba(fmt, pixels@));
            out
        },
        _ => {
            let mut out: Vec<u8> = Vec::new();
            let mut i: usize = 0;
            while i < n
                invariant
                    n == pixels@.len(),
                    i <= n,
                    out@ == pixels@.subrange(0, i as int),
                decreases n - i,
            {
                out.push(pixels[i]);
                assert(out@ =~= pixels@.subrange(0, i + 1));
                i = i + 1;
            }
            assert(out@ =~= pixels@);
            out
        },
    }
}

/// Turn decoded image data into a texture: RGBA8 and RGB8 pixels are kept
/// as they are, anything else is converted to RGBA8.
pub fn texture_from_image(fmt: PixelFormat, width: u32, height: u32, pixels: Vec<u8>) -> (t: LoadedTexture)
    requires
        pixels@.len() <= usize::MAX / 4,
    ensures
        t.width == width,
        t.height == height,
        fmt == PixelFormat::R8G8B8A8 ==> t.format == TextureFormat::Rgba8 && t.data@ == pixels@,
        fmt == PixelFormat::R8G8B8 ==> t.format == TextureFormat::Rgb8 && t.data@ == pixels@,
        fmt != PixelFormat::R8G8B8A8 && fmt != PixelFormat::R8G8B8 ==>
            t.format == TextureFormat::Rgba8 && t.data@ == spec_rgba(fmt, pixels@),
{
    match fmt {
        PixelFormat::R8G8B8A8 => LoadedTexture { data: pixels, width, height, format: TextureFormat::Rgba8 },
        PixelFormat::R8G8B8 => LoadedTexture { data: pixels, width, height, format: TextureFormat::Rgb8 },
        _ => {
            let rgba = convert_to_rgba(fmt, &pixels);
            LoadedTexture { data: rgba, width, height, format: TextureFormat::Rgba8 }
        },
    }
}


/// A joint of a skeleton: its name and place in the hierarchy (the pose
/// transforms are kept beside it, indexed the same way).
#[derive(Debug, Clone)]
pub struct Joint {
    pub name: String,
    pub parent_index: Option<usize>,
    pub children: Vec<usize>,
}

impl Joint {
    pub fn new(name: String, parent_index: Option<usize>) -> (j: Self)
        ensures
            j.name@ == name@,
            j.parent_index == parent_index,
            j.children@.len() == 0,
    {
        Joint { name, parent_index, children: Vec::new() }
    }
}

/// Abstract joint: name, parent, children.
pub struct JointView {
    pub name: Seq<char>,
    pub parent: Option<usize>,
    pub children: Seq<usize>,
}

/// Abstract skeleton: its joints in order and its root joints.
pub struct SkeletonView {
    pub joints: Seq<JointView>,
    pub roots: Seq<usize>,
}

impl View for Joint {
    type V = JointView;

    open spec fn view(&self) -> JointView {
        JointView { name: self.name@, parent: self.parent_index, children: self.children@ }
    }
}

pub open spec fn joint_views(s: Seq<Joint>) -> Seq<JointView> {
    s.map_values(|j: Joint| j@)
}

/// The skeleton hierarchy
#[derive(Debug, Clone)]
pub struct Skeleton {
    pub joints: Vec<Joint>,
    pub root_joints: Vec<usize>,
}

impl View for Skeleton {
    type V = SkeletonView;

    open spec fn view(&self) -> SkeletonView {
        SkeletonView { joints: joint_views(self.joints@), roots: self.root_joints@ }
    }
}

/// Adding joint `j` at the end: it becomes a child of its parent, or a
/// root when it has none.
pub open spec fn spec_add_joint(s: SkeletonView, j: JointView) -> SkeletonView {
    let index = s.joints.len() as usize;
    match j.parent {
        Some(p) => SkeletonView {
            joints: s.joints.update(p as int, JointView {
                children: s.joints[p as int].children.push(index),
                ..s.joints[p as int]
            }).push(j),
            roots: s.roots,
        },
        None => SkeletonView { joints: s.joints.push(j), roots: s.roots.push(index) },
    }
}

pub open spec fn strictly_increasing(s: Seq<usize>) -> bool {
    forall|a: int, b: int| 0 <= a < b < s.len() ==> s[a] < s[b]
}

/// A well-formed hierarchy: every parent comes before its child; each
/// joint's children are exactly the joints naming it as parent, in order;
/// the roots are exactly the joints without a parent, in order.
pub open spec fn skeleton_wf(s: SkeletonView) -> bool {
    &&& forall|i: int| 0 <= i < s.joints.len() ==>
        ((#[trigger] s.joints[i]).parent matches Some(p) ==> p < i)
    &&& forall|p: int| 0 <= p < s.joints.len() ==> strictly_increasing(#[trigger] s.joints[p].children)
    &&& forall|p: int, c: usize| 0 <= p < s.joints.len() ==>
        (#[trigger] s.joints[p].children.contains(c) <==> c < s.joints.len() && s.joints[c as int].parent == Some(p as usize))
    &&& strictly_increasing(s.roots)
    &&& forall|c: usize| #[trigger] s.roots.contains(c) <==> c < s.joints.len() && s.joints[c as int].parent.is_none()
}

impl Skeleton {
    pub fn new() -> (s: Self)
        ensures
            s@.joints.len() == 0,
            s@.roots.len() == 0,
    {
        Skeleton { joints: Vec::new(), root_joints: Vec::new() }
    }

    /// Add a joint to the skeleton; returns its index.
    pub fn add_joint(&mut self, joint: Joint) -> (index: usize)
        requires
            joint.parent_index matches Some(p) ==> p < old(self).joints@.len(),
        ensures
            index == old(self)@.joints.len(),
            final(self)@ == spec_add_joint(old(self)@, joint@),
    {
        let index = self.joints.len();
        let mut joint = joint;
        let ghost jv = joint@;
        match joint.parent_index {
            Some(parent_idx) => {
                let mut slot = Joint { name: String::new(), parent_index: None, children: Vec::new() };
                self.joints.set_and_swap(parent_idx, &mut slot);
                slot.children.push(index);
                self.joints.set_and_swap(parent_idx, &mut slot);
            },
            None => {
                self.root_joints.push(index);
            },
        }
        if joint.parent_index.is_some() && joint.parent_index.unwrap() >= self.joints.len() {
            joint.parent_index = None;
        }
        self.joints.push(joint);
        proof {
            assert(joint@ == jv);
            assert(joint_views(self.joints@) =~= spec_add_joint(old(self)@, jv).joints);
        }
        index
    }

    /// Find joint index by name
    pub fn find_joint(&self, name: &str) -> (r: Option<usize>)
        ensures
            match r {
                Some(i) => spec_find_clip(joint_names(self@), name@) == Some(i as int),
                None => spec_find_clip(joint_names(self@), name@).is_none(),
            },
    {
        let target = name.to_owned();
        let mut i: usize = 0;
        while i < self.joints.len()
            invariant
                0 <= i <= self.joints@.len(),
                target@ == name@,
                forall|j: int| 0 <= j < i ==> joint_names(self@)[j] != name@,
            decreases self.joints@.len() - i,
        {
            if self.joints[i].name == target {
                assert(is_first_match(joint_names(self@), name@, i as int));
                proof {
                    let k = choose|k: int| is_first_match(joint_names(self@), name@, k);
                    assert(k == i);
                }
                return Some(i);
            }
            i = i + 1;
        }
        None
    }
}

pub open spec fn joint_names(s: SkeletonView) -> Seq<Seq<char>> {
    s.joints.map_values(|j: JointView| j.name)
}

/// Adding a joint whose parent is already in a well-formed skeleton keeps
/// it well-formed.
pub proof fn lemma_add_joint_keeps_wf(s: SkeletonView, j: JointView)
    requires
        skeleton_wf(s),
        j.parent matches Some(p) ==> p < s.joints.len(),
        j.children.len() == 0,
        s.joints.len() <= usize::MAX,
    ensures
        skeleton_wf(spec_add_joint(s, j)),
{
    let t = spec_add_joint(s, j);
    let n = s.joints.len();
    assert(t.joints.len() == n + 1);
    assert forall|i: int| 0 <= i < t.joints.len() implies
        ((#[trigger] t.joints[i]).parent matches Some(p) ==> p < i) by {
        if i < n {
            assert(t.joints[i].parent == s.joints[i].parent);
        }
    }
    assert forall|p: int| 0 <= p < t.joints.len() implies strictly_increasing(#[trigger] t.joints[p].children) by {
        if p < n {
            if j.parent == Some(p as usize) {
                let ch = s.joints[p].children;
                assert(t.joints[p].children == ch.push(n as usize));
                assert forall|a: int| 0 <= a < ch.len() implies ch[a] < n by {
                    assert(ch.contains(ch[a]));
                }
            } else {
                assert(t.joints[p].children == s.joints[p].children);
            }
        } else {
            assert(t.joints[p].children == j.children);
        }
    }
    assert forall|p: int, c: usize| 0 <= p < t.joints.len() implies
        (#[trigger] t.joints[p].children.contains(c) <==> c < t.joints.len() && t.joints[c as int].parent == Some(p as usize)) by {
        if p < n {
            if c < n {
                assert(t.joints[c as int].parent == s.joints[c as int].parent);
            }
            if j.parent == Some(p as usize) {
                let ch = s.joints[p].children;
                assert(t.joints[p].children == ch.push(n as usize));
                if t.joints[p].children.contains(c) && c != n {
                    let k = choose|k: int| 0 <= k < ch.len() + 1 && #[trigger] ch.push(n as usize)[k] == c;
                    assert(ch[k] == c);
                    assert(ch.contains(c));
                }
                if c == n {
                    assert(ch.push(n as usize)[ch.len() as int] == c);
                }
                if ch.contains(c) {
                    let k = choose|k: int| 0 <= k < ch.len() && ch[k] == c;
                    assert(ch.push(n as usize)[k] == c);
                }
            } else {
                assert(t.joints[p].children == s.joints[p].children);
                if s.joints[p].children.contains(c) {
                    assert(c < n);
                }
            }
        } else {
            assert(t.joints[p].children == j.children);
            if c < t.joints.len() && t.joints[c as int].parent == Some(p as usize) {
                if c < n {
                    assert(s.joints[c as int].parent == Some(p as usize));
                    assert(p < c);
                }
            }
        }
    }
    match j.parent {
        Some(p) => {
            assert(t.roots == s.roots);
            assert forall|c: usize| #[trigger] t.roots.contains(c) implies c < n by {}
            assert forall|c: usize| c < t.joints.len() && t.joints[c as int].parent.is_none() implies #[trigger] t.roots.contains(c) by {
                if c < n {
                    assert(t.joints[c as int].parent == s.joints[c as int].parent);
                }
            }
            assert forall|c: usize| #[trigger] t.roots.contains(c) implies c < t.joints.len() && t.joints[c as int].parent.is_none() by {
                assert(t.joints[c as int].parent == s.joints[c as int].parent);
            }
        },
        None => {
            assert(t.roots == s.roots.push(n as usize));
            assert forall|a: int| 0 <= a < s.roots.len() implies s.roots[a] < n by {
                assert(s.roots.contains(s.roots[a]));
            }
            assert forall|c: usize| #[trigger] t.roots.contains(c) <==> c < t.joints.len() && t.joints[c as int].parent.is_none() by {
                if c < n {
                    assert(t.joints[c as int].parent == s.joints[c as int].parent);
                }
                if t.roots.contains(c) && c != n {
                    let k = choose|k: int| 0 <= k < s.roots.len() + 1 && #[trigger] s.roots.push(n as usize)[k] == c;
                    assert(s.roots[k] == c);
                    assert(s.roots.contains(c));
                }
                if c == n {
                    assert(s.roots.push(n as usize)[s.roots.len() as int] == c);
                }
                if s.roots.contains(c) {
                    let k = choose|k: int| 0 <= k < s.roots.len() && s.roots[k] == c;
                    assert(s.roots.push(n as usize)[k] == c);
                }
            }
        },
    }
}


/// A polygon mesh with vertices and optional material reference
#[derive(Debug, Clone)]
pub struct PolygonMesh<V> {
    pub vertices: Vec<V>,
    pub indices: Option<Vec<u32>>,
    pub material_index: Option<usize>,
    pub texture_index: Option<usize>,
    pub name: String,
}

/// Number of triangles: whole triples of indices when the mesh is indexed,
/// else whole triples of vertices.
pub open spec fn spec_triangle_count<V>(m: PolygonMesh<V>) -> int {
    match m.indices {
        Some(ix) => (ix@.len() / 3) as int,
        None => (m.vertices@.len() / 3) as int,
    }
}

/// Vertex indices of triangle `t`.
pub open spec fn spec_triangle<V>(m: PolygonMesh<V>, t: int) -> (usize, usize, usize) {
    match m.indices {
        Some(ix) => (ix@[3 * t] as usize, ix@[3 * t + 1] as usize, ix@[3 * t + 2] as usize),
        None => ((3 * t) as usize, (3 * t + 1) as usize, (3 * t + 2) as usize),
    }
}

impl<V> PolygonMesh<V> {
    pub fn new(name: String) -> (m: Self)
        ensures
            m.vertices@.len() == 0,
            m.indices.is_none(),
            m.material_index.is_none(),
            m.texture_index.is_none(),
            m.name@ == name@,
    {
        PolygonMesh { vertices: Vec::new(), indices: None, material_index: None, texture_index: None, name }
    }

    /// Get the number of triangles in this mesh
    pub fn triangle_count(&self) -> (n: usize)
        ensures
            n == spec_triangle_count(*self),
    {
        match &self.indices {
            Some(indices) => indices.len() / 3,
            None => self.vertices.len() / 3,
        }
    }

    /// The triangles of the mesh, each as the indices of its three vertices.
    pub fn triangle_indices(&self) -> (r: Vec<(usize, usize, usize)>)
        ensures
            r@.len() == spec_triangle_count(*self),
            forall|t: int| 0 <= t < r@.len() ==> #[trigger] r@[t] == spec_triangle(*self, t),
    {
        let n = self.triangle_count();
        let mut r: Vec<(usize, usize, usize)> = Vec::new();
        let mut t: usize = 0;
        while t < n
            invariant
                n == spec_triangle_count(*self),
                t <= n,
                r@.len() == t,
                forall|u: int| 0 <= u < t ==> #[trigger] r@[u] == spec_triangle(*self, u),
            decreases n - t,
        {
            let tri = match &self.indices {
                Some(ix) => {
                    let len = ix.len();
                    assert(3 * t + 2 < ix@.len()) by (nonlinear_arith)
                        requires t < ix@.len() / 3;
                    (ix[3 * t] as usize, ix[3 * t + 1] as usize, ix[3 * t + 2] as usize)
                },
                None => {
                    let len = self.vertices.len();
                    assert(3 * t + 2 < self.vertices@.len()) by (nonlinear_arith)
                        requires t < self.vertices@.len() / 3;
                    (3 * t, 3 * t + 1, 3 * t + 2)
                },
            };
            r.push(tri);
            t = t + 1;
        }
        r
    }
}

pub open spec fn sum_triangles<V>(ms: Seq<PolygonMesh<V>>) -> int
    decreases ms.len(),
{
    if ms.len() == 0 {
        0
    } else {
        sum_triangles(ms.drop_last()) + spec_triangle_count(ms.last())
    }
}

/// Total triangle count across meshes.
pub fn total_triangles<V>(meshes: &Vec<PolygonMesh<V>>) -> (n: usize)
    requires
        sum_triangles(meshes@) <= usize::MAX,
    ensures
        n == sum_triangles(meshes@),
{
    let mut total: usize = 0;
    let mut i: usize = 0;
    while i < meshes.len()
        invariant
            i <= meshes@.len(),
            sum_triangles(meshes@) <= usize::MAX,
            total == sum_triangles(meshes@.subrange(0, i as int)),
        decreases meshes@.len() - i,
    {
        proof {
            lemma_sum_triangles_prefix(meshes@, i as int + 1);
            assert(meshes@.subrange(0, i + 1).drop_last() =~= meshes@.subrange(0, i as int));
        }
        total = total + meshes[i].triangle_count();
        i = i + 1;
    }
    assert(meshes@.subrange(0, meshes@.len() as int) =~= meshes@);
    total
}

proof fn lemma_sum_triangles_prefix<V>(ms: Seq<PolygonMesh<V>>, k: int)
    requires
        0 <= k <= ms.len(),
    ensures
        sum_triangles(ms.subrange(0, k)) <= sum_triangles(ms),
    decreases ms.len(),
{
    if k < ms.len() {
        lemma_sum_triangles_prefix(ms.drop_last(), k);
        assert(ms.drop_last().subrange(0, k) =~= ms.subrange(0, k));
    } else {
        assert(ms.subrange(0, k) =~= ms);
    }
}

/// The "loop" member of an animation's extras, as a JSON parser reads it.
#[derive(Debug, Clone, PartialEq, Eq)]
pub enum LoopField {
    /// The extras are no JSON object with a "loop" member.
    Missing,
    Bool(bool),
    Text(String),
    /// A number, array, object or null.
    Other,
}

/// The "loop" member that `serde_json` reads in a JSON text.
pub uninterp spec fn json_loop_field(text: Seq<char>) -> LoopField;

/// Parse `text` with `serde_json::from_str` into a `serde_json::Value` and
/// look up its "loop" member with `Value::get`; the result names the
/// member's variant. What a JSON parser accepts is not restated here.
#[verifier::external_body]
fn read_loop_field(text: &str) -> (r: LoopField)
    ensures
        r == json_loop_field(text@),
{
    match serde_json::from_str::<serde_json::Value>(text) {
        Ok(json) => match json.get("loop") {
            Some(serde_json::Value::Bool(b)) => LoopField::Bool(*b),
            Some(serde_json::Value::String(s)) => LoopField::Text(s.clone()),
            Some(_) => LoopField::Other,
            None => LoopField::Missing,
        },
        Err(_) => LoopField::Missing,
    }
}

/// Whether a clip loops after reading its "loop" member: a boolean is
/// taken as is, the texts "loop" and "true" mean looping and other texts
/// not; anything else keeps `current`.
pub open spec fn spec_looping(field: LoopField, current: bool) -> bool {
    match field {
        LoopField::Bool(b) => b,
        LoopField::Text(s) => s@ == "loop"@ || s@ == "true"@,
        _ => current,
    }
}

pub fn looping_from_field(field: &LoopField, current: bool) -> (r: bool)
    ensures
        r == spec_looping(*field, current),
{
    match field {
        LoopField::Bool(b) => *b,
        LoopField::Text(s) => {
            let looped = "loop".to_owned();
            let truth = "true".to_owned();
            *s == looped || *s == truth
        },
        _ => current,
    }
}

/// Whether a clip loops, given the extras text of its animation (if any)
/// and the current setting.
pub fn clip_looping(extras: Option<&str>, current: bool) -> (r: bool)
    ensures
        match extras {
            Some(t) => r == spec_looping(json_loop_field(t@), current),
            None => r == current,
        },
{
    match extras {
        Some(text) => {
            let field = read_loop_field(text);
            looping_from_field(&field, current)
        },
        None => current,
    }
}


/// The joint a mesh of a node hierarchy binds to: the first joint named
/// like the node, else the first joint.
pub fn joint_index_or_root(skeleton: &Skeleton, node_name: &str) -> (i: usize)
    ensures
        i == match spec_find_clip(joint_names(skeleton@), node_name@) {
            Some(k) => k as usize,
            None => 0usize,
        },
{
    match skeleton.find_joint(node_name) {
        Some(k) => k,
        None => 0,
    }
}

/// Whether `s` starts with `prefix`.
pub open spec fn starts_with(s: Seq<char>, prefix: Seq<char>) -> bool {
    prefix.len() <= s.len() && s.subrange(0, prefix.len() as int) == prefix
}

/// Name shown for a mesh: a generated "mesh_..." name gives way to the
/// name of its node, when the node has one.
pub fn mesh_display_name(mesh_name: String, node_name: &str) -> (r: String)
    ensures
        r@ == (if starts_with(mesh_name@, "mesh_"@) && node_name@.len() > 0 { node_name@ } else { mesh_name@ }),
{
    let prefix = "mesh_";
    proof {
        reveal_strlit("mesh_");
    }
    let m = mesh_name.as_str();
    let plen = prefix.unicode_len();
    let mlen = m.unicode_len();
    let mut starts = plen <= mlen;
    let mut i: usize = 0;
    while starts && i < plen
        invariant
            plen == prefix@.len(),
            mlen == m@.len(),
            m@ == mesh_name@,
            i <= plen,
            starts ==> plen <= mlen && forall|j: int| 0 <= j < i ==> m@[j] == prefix@[j],
            !starts ==> !starts_with(mesh_name@, prefix@),
        decreases plen - i,
    {
        if m.get_char(i) != prefix.get_char(i) {
            starts = false;
        }
        i = i + 1;
    }
    if starts {
        assert(m@.subrange(0, plen as int) =~= prefix@);
    }
    if starts && node_name.unicode_len() > 0 {
        node_name.to_owned()
    } else {
        mesh_name
    }
}


/// Skeleton joint for a mesh's joint slot: the slot's entry in the skin's
/// joint map, or 0 when the map has no such entry.
pub fn remap_joint(joint_map: &Vec<usize>, slot: u16) -> (j: u32)
    ensures
        j == (if (slot as int) < joint_map@.len() { joint_map@[slot as int] as u32 } else { 0u32 }),
{
    let i = slot as usize;
    if i < joint_map.len() {
        joint_map[i] as u32
    } else {
        0
    }
}

/// A packed 4x4 float matrix takes 64 bytes.
pub const MATRIX_BYTES: usize = 64;

/// Reading matrices ran past the end of the buffer.
#[derive(Debug, Clone, Copy, PartialEq, Eq, Structural)]
pub struct BufferOverflow;

/// Distance between matrices: the view's stride, or 64 bytes.
pub open spec fn stride_or_packed(stride: Option<usize>) -> int {
    match stride {
        Some(s) => s as int,
        None => MATRIX_BYTES as int,
    }
}

/// Byte range of matrix `i` of an accessor.
pub open spec fn matrix_start(offset: int, stride: int, i: int) -> int {
    offset + i * stride
}

/// The byte ranges of `count` matrices starting at `offset`, `stride`
/// bytes apart (64 when the view gives no stride), or an error when one
/// ends past `buffer_len`.
pub fn matrix_byte_ranges(offset: usize, stride: Option<usize>, count: usize, buffer_len: usize)
    -> (r: Result<Vec<(usize, usize)>, BufferOverflow>)
    ensures
        match r {
            Ok(v) => v@.len() == count
                && (forall|i: int| 0 <= i < count ==> #[trigger] v@[i] == (
                    matrix_start(offset as int, stride_or_packed(stride), i) as usize,
                    (matrix_start(offset as int, stride_or_packed(stride), i) + MATRIX_BYTES) as usize))
                && forall|i: int| 0 <= i < count ==>
                    #[trigger] matrix_start(offset as int, stride_or_packed(stride), i) + MATRIX_BYTES <= buffer_len,
            Err(_) => exists|i: int| 0 <= i < count
                && #[trigger] matrix_start(offset as int, stride_or_packed(stride), i) + MATRIX_BYTES > buffer_len,
        },
{
    let st: usize = match stride {
        Some(s) => s,
        None => MATRIX_BYTES,
    };
    let mut v: Vec<(usize, usize)> = Vec::new();
    let mut i: usize = 0;
    while i < count
        invariant
            i <= count,
            st == stride_or_packed(stride),
            v@.len() == i,
            forall|j: int| 0 <= j < i ==> #[trigger] v@[j] == (matrix_start(offset as int, stride_or_packed(stride), j) as usize,
                (matrix_start(offset as int, stride_or_packed(stride), j) + MATRIX_BYTES) as usize),
            forall|j: int| 0 <= j < i ==>
                #[trigger] matrix_start(offset as int, stride_or_packed(stride), j) + MATRIX_BYTES <= buffer_len,
        decreases count - i,
    {
        let iw: u128 = i as u128;
        let sw: u128 = st as u128;
        proof {
            assert(iw * sw <= 0xFFFF_FFFF_FFFF_FFFFu128 * 0xFFFF_FFFF_FFFF_FFFFu128) by (nonlinear_arith)
                requires iw <= 0xFFFF_FFFF_FFFF_FFFFu128, sw <= 0xFFFF_FFFF_FFFF_FFFFu128;
        }
        let prod: u128 = iw * sw;
        let start: u128 = offset as u128 + prod;
        let end: u128 = start + MATRIX_BYTES as u128;
        if end > buffer_len as u128 {
            assert(matrix_start(offset as int, stride_or_packed(stride), i as int) + MATRIX_BYTES > buffer_len);
            return Err(BufferOverflow);
        }
        v.push((start as usize, end as usize));
        i = i + 1;
    }
    Ok(v)
}

/// First position of `x` in `s`, if any.
pub open spec fn first_index(s: Seq<usize>, x: usize) -> Option<int> {
    if exists|i: int| 0 <= i < s.len() && s[i] == x && forall|j: int| 0 <= j < i ==> s[j] != x {
        Some(choose|i: int| 0 <= i < s.len() && s[i] == x && forall|j: int| 0 <= j < i ==> s[j] != x)
    } else {
        None
    }
}

/// Joint `i` names joint `c` as one of its children: one of the nodes
/// under joint `i` is, at its first place in the joint list, joint `c`.
pub open spec fn claims_child(nodes: Seq<usize>, children: Seq<Seq<usize>>, i: int, c: int) -> bool {
    exists|k: int| 0 <= k < children[i].len() && #[trigger] first_index(nodes, children[i][k]) == Some(c)
}

/// The parent of each joint of a skin: the last joint, in list order, that
/// names it as a child; `None` for joints no joint names.
pub open spec fn is_skin_parent_map(nodes: Seq<usize>, children: Seq<Seq<usize>>, r: Seq<Option<usize>>) -> bool {
    &&& r.len() == nodes.len()
    &&& forall|c: int| 0 <= c < r.len() ==> match #[trigger] r[c] {
        Some(i) => i < nodes.len() && claims_child(nodes, children, i as int, c)
            && forall|j: int| i < j < nodes.len() ==> !claims_child(nodes, children, j, c),
        None => forall|j: int| 0 <= j < nodes.len() ==> !claims_child(nodes, children, j, c),
    }
}

fn position_of(s: &Vec<usize>, x: usize) -> (r: Option<usize>)
    ensures
        match r {
            Some(i) => first_index(s@, x) == Some(i as int),
            None => first_index(s@, x).is_none(),
        },
{
    let mut i: usize = 0;
    while i < s.len()
        invariant
            i <= s@.len(),
            forall|j: int| 0 <= j < i ==> s@[j] != x,
        decreases s@.len() - i,
    {
        if s[i] == x {
            proof {
                let w = choose|w: int| 0 <= w < s@.len() && s@[w] == x && forall|j: int| 0 <= j < w ==> s@[j] != x;
                if w < i {
                    assert(s@[w] != x);
                }
                if w > i {
                    assert(s@[i as int] != x);
                }
            }
            return Some(i);
        }
        i = i + 1;
    }
    None
}

/// Parents of the joints of a skin, from the node index of each joint and
/// the node indices of each joint node's children.
pub fn skin_parent_map(nodes: &Vec<usize>, children: &Vec<Vec<usize>>) -> (r: Vec<Option<usize>>)
    requires
        children@.len() == nodes@.len(),
    ensures
        is_skin_parent_map(nodes@, children@.map_values(|c: Vec<usize>| c@), r@),
{
    let ghost ch = children@.map_values(|c: Vec<usize>| c@);
    let n = nodes.len();
    let mut r: Vec<Option<usize>> = Vec::new();
    let mut c: usize = 0;
    while c < n
        invariant
            c <= n,
            n == nodes@.len(),
            r@.len() == c,
            forall|d: int| 0 <= d < c ==> r@[d].is_none(),
        decreases n - c,
    {
        r.push(None);
        c = c + 1;
    }
    let mut i: usize = 0;
    while i < n
        invariant
            i <= n,
            n == nodes@.len(),
            children@.len() == n,
            ch == children@.map_values(|c: Vec<usize>| c@),
            r@.len() == n,
            forall|d: int| 0 <= d < n ==> match #[trigger] r@[d] {
                Some(j) => j < i && claims_child(nodes@, ch, j as int, d)
                    && forall|j2: int| j < j2 < i ==> !claims_child(nodes@, ch, j2, d),
                None => forall|j2: int| 0 <= j2 < i ==> !claims_child(nodes@, ch, j2, d),
            },
        decreases n - i,
    {
        let kids = &children[i];
        assert(ch[i as int] == kids@);
        let mut k: usize = 0;
        while k < kids.len()
            invariant
                i < n,
                k <= kids@.len(),
                n == nodes@.len(),
                ch[i as int] == kids@,
                r@.len() == n,
                forall|d: int| 0 <= d < n ==> match #[trigger] r@[d] {
                    Some(j) => (j < i && claims_child(nodes@, ch, j as int, d)
                        && (forall|j2: int| j < j2 < i ==> !claims_child(nodes@, ch, j2, d))
                        && (forall|k2: int| 0 <= k2 < k ==> first_index(nodes@, kids@[k2]) != Some(d)))
                        || (j == i && exists|k2: int| 0 <= k2 < k && first_index(nodes@, kids@[k2]) == Some(d)),
                    None => (forall|j2: int| 0 <= j2 < i ==> !claims_child(nodes@, ch, j2, d))
                        && (forall|k2: int| 0 <= k2 < k ==> first_index(nodes@, kids@[k2]) != Some(d)),
                },
            decreases kids@.len() - k,
        {
            let child = kids[k];
            match position_of(nodes, child) {
                Some(ci) => {
                    proof {
                        let w = choose|w: int| 0 <= w < nodes@.len() && nodes@[w] == child
                            && forall|j: int| 0 <= j < w ==> nodes@[j] != child;
                        assert(w == ci);
                    }
                    r.set(ci, Some(i));
                },
                None => {},
            }
            k = k + 1;
        }
        proof {
            assert forall|d: int| 0 <= d < n implies match #[trigger] r@[d] {
                Some(j) => j < i + 1 && claims_child(nodes@, ch, j as int, d)
                    && forall|j2: int| j < j2 < i + 1 ==> !claims_child(nodes@, ch, j2, d),
                None => forall|j2: int| 0 <= j2 < i + 1 ==> !claims_child(nodes@, ch, j2, d),
            } by {
                match r@[d] {
                    Some(j) => {
                        if j == i {
                            let k2 = choose|k2: int| 0 <= k2 < kids@.len() && first_index(nodes@, kids@[k2]) == Some(d);
                            assert(first_index(nodes@, ch[i as int][k2]) == Some(d));
                        }
                    },
                    None => {},
                }
            }
        }
        i = i + 1;
    }
    r
}


/// Every child index of the node table names a node of the table.
pub open spec fn node_children_valid(children: Seq<Seq<usize>>) -> bool {
    forall|i: int, k: int| 0 <= i < children.len() && 0 <= k < children[i].len()
        ==> #[trigger] children[i][k] < children.len()
}

/// Some node of the table lists node `x` as a child.
pub open spec fn has_parent(children: Seq<Seq<usize>>, x: usize) -> bool {
    exists|i: int, k: int| 0 <= i < children.len() && 0 <= k < children[i].len() && #[trigger] children[i][k] == x
}

/// The roots among the first `k` nodes, in node order: the nodes that no
/// node lists as a child.
pub open spec fn root_nodes(children: Seq<Seq<usize>>, k: nat) -> Seq<usize>
    decreases k,
{
    if k == 0 {
        Seq::empty()
    } else {
        let prev = root_nodes(children, (k - 1) as nat);
        if has_parent(children, (k - 1) as usize) {
            prev
        } else {
            prev.push((k - 1) as usize)
        }
    }
}

/// Depth-first walk of the node tree in preorder: for each node of `list`
/// in turn, the node with the joint index of its parent, then the walk of
/// its children under it. The first entry becomes joint `base`; the walk
/// goes at most `depth` levels down.
pub open spec fn node_walk(
    children: Seq<Seq<usize>>,
    list: Seq<usize>,
    parent: Option<usize>,
    base: nat,
    depth: nat,
) -> Seq<(usize, Option<usize>)>
    decreases depth, list.len(),
{
    if list.len() == 0 || depth == 0 {
        Seq::empty()
    } else {
        let below = node_walk(children, children[list[0] as int], Some(base as usize), base + 1, (depth - 1) as nat);
        seq![(list[0], parent)] + below + node_walk(children, list.drop_first(), parent, base + 1 + below.len(), depth)
    }
}

/// The walk that builds a skeleton from the node table: from the roots,
/// as deep as there are nodes (deeper than any tree of the table can go).
pub open spec fn skeleton_walk(children: Seq<Seq<usize>>) -> Seq<(usize, Option<usize>)> {
    node_walk(children, root_nodes(children, children.len()), None, 0, children.len())
}

/// The joint a walk entry adds: the node's name and the parent joint.
pub open spec fn node_joint(names: Seq<Seq<char>>, e: (usize, Option<usize>)) -> JointView {
    JointView { name: names[e.0 as int], parent: e.1, children: Seq::empty() }
}

/// Adding the joints of the walk entries in order.
pub open spec fn add_walk(s: SkeletonView, names: Seq<Seq<char>>, entries: Seq<(usize, Option<usize>)>) -> SkeletonView
    decreases entries.len(),
{
    if entries.len() == 0 {
        s
    } else {
        add_walk(spec_add_joint(s, node_joint(names, entries[0])), names, entries.drop_first())
    }
}

/// The node of each walk entry.
pub open spec fn walk_nodes(entries: Seq<(usize, Option<usize>)>) -> Seq<usize> {
    entries.map_values(|e: (usize, Option<usize>)| e.0)
}

proof fn lemma_add_walk_append(s: SkeletonView, names: Seq<Seq<char>>, a: Seq<(usize, Option<usize>)>, b: Seq<(usize, Option<usize>)>)
    ensures
        add_walk(s, names, a + b) == add_walk(add_walk(s, names, a), names, b),
    decreases a.len(),
{
    if a.len() == 0 {
        assert(a + b =~= b);
    } else {
        assert((a + b).drop_first() =~= a.drop_first() + b);
        assert((a + b)[0] == a[0]);
        lemma_add_walk_append(spec_add_joint(s, node_joint(names, a[0])), names, a.drop_first(), b);
    }
}

proof fn lemma_node_walk_append(
    children: Seq<Seq<usize>>,
    a: Seq<usize>,
    b: Seq<usize>,
    parent: Option<usize>,
    base: nat,
    depth: nat,
)
    ensures
        node_walk(children, a + b, parent, base, depth) == node_walk(children, a, parent, base, depth)
            + node_walk(children, b, parent, base + node_walk(children, a, parent, base, depth).len(), depth),
    decreases a.len(),
{
    if depth == 0 {
    } else if a.len() == 0 {
        assert(a + b =~= b);
    } else {
        assert((a + b).drop_first() =~= a.drop_first() + b);
        assert((a + b)[0] == a[0]);
        let below = node_walk(children, children[a[0] as int], Some(base as usize), base + 1, (depth - 1) as nat);
        lemma_node_walk_append(children, a.drop_first(), b, parent, base + 1 + below.len(), depth);
        let rest_a = node_walk(children, a.drop_first(), parent, base + 1 + below.len(), depth);
        let rest_b = node_walk(children, b, parent, base + 1 + below.len() + rest_a.len(), depth);
        assert(seq![(a[0], parent)] + below + (rest_a + rest_b) =~= (seq![(a[0], parent)] + below + rest_a) + rest_b);
    }
}

/// Adds the joints of the walk from the nodes of `list`, each joint with
/// the node's name, and the node of each joint to `joint_nodes`.
fn add_node_walk(
    children: &Vec<Vec<usize>>,
    names: &Vec<String>,
    list: &Vec<usize>,
    parent: Option<usize>,
    depth: usize,
    skeleton: &mut Skeleton,
    joint_nodes: &mut Vec<usize>,
)
    requires
        names@.len() == children@.len(),
        node_children_valid(children@.map_values(|c: Vec<usize>| c@)),
        forall|k: int| 0 <= k < list@.len() ==> #[trigger] list@[k] < children@.len(),
        parent matches Some(p) ==> p < old(skeleton)@.joints.len(),
        skeleton_wf(old(skeleton)@),
    ensures
        skeleton_wf(final(skeleton)@),
        final(skeleton)@ == add_walk(old(skeleton)@, string_views(names@), node_walk(
            children@.map_values(|c: Vec<usize>| c@), list@, parent, old(skeleton)@.joints.len(), depth as nat)),
        final(skeleton)@.joints.len() == old(skeleton)@.joints.len() + node_walk(
            children@.map_values(|c: Vec<usize>| c@), list@, parent, old(skeleton)@.joints.len(), depth as nat).len(),
        final(joint_nodes)@ == old(joint_nodes)@ + walk_nodes(node_walk(
            children@.map_values(|c: Vec<usize>| c@), list@, parent, old(skeleton)@.joints.len(), depth as nat)),
    decreases depth,
{
    let ghost ch = children@.map_values(|c: Vec<usize>| c@);
    let ghost nv = string_views(names@);
    let ghost s0 = skeleton@;
    let ghost jn0 = joint_nodes@;
    let ghost base = s0.joints.len();
    if depth == 0 {
        assert(joint_nodes@ =~= jn0 + walk_nodes(node_walk(ch, list@, parent, base, 0)));
        return;
    }
    let mut i: usize = 0;
    assert(list@.take(0) =~= Seq::<usize>::empty());
    assert(jn0 + walk_nodes(Seq::<(usize, Option<usize>)>::empty()) =~= jn0);
    while i < list.len()
        invariant
            0 < depth,
            i <= list@.len(),
            names@.len() == children@.len(),
            ch == children@.map_values(|c: Vec<usize>| c@),
            nv == string_views(names@),
            node_children_valid(ch),
            forall|k: int| 0 <= k < list@.len() ==> #[trigger] list@[k] < children@.len(),
            parent matches Some(p) ==> p < base,
            base == s0.joints.len(),
            skeleton_wf(skeleton@),
            skeleton@ == add_walk(s0, nv, node_walk(ch, list@.take(i as int), parent, base, depth as nat)),
            skeleton@.joints.len() == base + node_walk(ch, list@.take(i as int), parent, base, depth as nat).len(),
            joint_nodes@ == jn0 + walk_nodes(node_walk(ch, list@.take(i as int), parent, base, depth as nat)),
        decreases list@.len() - i,
    {
        let node = list[i];
        let ghost before = node_walk(ch, list@.take(i as int), parent, base, depth as nat);
        let ghost s_before = skeleton@;
        let ghost jn_before = joint_nodes@;
        let joint = Joint::new(names[node].clone(), parent);
        assert(joint@ == node_joint(nv, (node, parent))) by {
            assert(joint@.children =~= Seq::<usize>::empty());
        }
        let idx = skeleton.add_joint(joint);
        proof {
            lemma_add_joint_keeps_wf(s_before, joint@);
        }
        joint_nodes.push(node);
        let kids = &children[node];
        assert(ch[node as int] == kids@);
        assert forall|k: int| 0 <= k < kids@.len() implies #[trigger] kids@[k] < children@.len() by {
            assert(ch[node as int][k] < ch.len());
        }
        let ghost s_mid = skeleton@;
        let ghost jn_mid = joint_nodes@;
        add_node_walk(children, names, kids, Some(idx), depth - 1, skeleton, joint_nodes);
        proof {
            let b = base + before.len();
            let below = node_walk(ch, ch[node as int], Some(b as usize), b + 1, (depth - 1) as nat);
            let one = node_walk(ch, seq![node], parent, b, depth as nat);
            assert(seq![node].drop_first() =~= Seq::<usize>::empty());
            assert(seq![node][0] == node);
            assert(node_walk(ch, Seq::<usize>::empty(), parent, b + 1 + below.len(), depth as nat) =~= Seq::<(usize, Option<usize>)>::empty());
            assert(one =~= seq![(node, parent)] + below);
            assert(list@.take(i as int + 1) =~= list@.take(i as int) + seq![node]);
            lemma_node_walk_append(ch, list@.take(i as int), seq![node], parent, base, depth as nat);
            let after = node_walk(ch, list@.take(i as int + 1), parent, base, depth as nat);
            assert(after == before + one);
            lemma_add_walk_append(s0, nv, before, one);
            lemma_add_walk_append(s_before, nv, seq![(node, parent)], below);
            assert(seq![(node, parent)].drop_first() =~= Seq::<(usize, Option<usize>)>::empty());
            assert(seq![(node, parent)][0] == (node, parent));
            assert(add_walk(s_mid, nv, Seq::<(usize, Option<usize>)>::empty()) == s_mid);
            assert(add_walk(s_before, nv, seq![(node, parent)]) == s_mid);
            assert(walk_nodes(after) =~= walk_nodes(before) + seq![node] + walk_nodes(below));
            assert(joint_nodes@ =~= jn0 + walk_nodes(after));
        }
        i = i + 1;
    }
    assert(list@.take(list@.len() as int) =~= list@);
}

/// The roots of the node table, in node order.
fn root_node_list(children: &Vec<Vec<usize>>) -> (roots: Vec<usize>)
    requires
        node_children_valid(children@.map_values(|c: Vec<usize>| c@)),
    ensures
        roots@ == root_nodes(children@.map_values(|c: Vec<usize>| c@), children@.len()),
        forall|k: int| 0 <= k < roots@.len() ==> #[trigger] roots@[k] < children@.len(),
{
    let ghost ch = children@.map_values(|c: Vec<usize>| c@);
    let n = children.len();
    let mut claimed: Vec<bool> = Vec::new();
    let mut x: usize = 0;
    while x < n
        invariant
            x <= n,
            claimed@.len() == x,
            forall|y: int| 0 <= y < x ==> !claimed@[y],
        decreases n - x,
    {
        claimed.push(false);
        x = x + 1;
    }
    let mut i: usize = 0;
    while i < n
        invariant
            i <= n,
            n == children@.len(),
            ch == children@.map_values(|c: Vec<usize>| c@),
            node_children_valid(ch),
            claimed@.len() == n,
            forall|y: int| 0 <= y < n ==> (#[trigger] claimed@[y] <==> exists|a: int, k: int|
                0 <= a < i && 0 <= k < ch[a].len() && ch[a][k] == y),
        decreases n - i,
    {
        let kids = &children[i];
        assert(ch[i as int] == kids@);
        let mut k: usize = 0;
        while k < kids.len()
            invariant
                i < n,
                k <= kids@.len(),
                n == children@.len(),
                ch[i as int] == kids@,
                node_children_valid(ch),
                ch.len() == n,
                claimed@.len() == n,
                forall|y: int| 0 <= y < n ==> (#[trigger] claimed@[y] <==> (exists|a: int, k2: int|
                    0 <= a < i && 0 <= k2 < ch[a].len() && ch[a][k2] == y)
                    || exists|k2: int| 0 <= k2 < k && kids@[k2] == y),
            decreases kids@.len() - k,
        {
            let c = kids[k];
            assert(ch[i as int][k as int] < ch.len());
            claimed.set(c, true);
            k = k + 1;
        }
        assert forall|y: int| 0 <= y < n implies (#[trigger] claimed@[y] <==> exists|a: int, k2: int|
            0 <= a < i + 1 && 0 <= k2 < ch[a].len() && ch[a][k2] == y) by {
            if exists|k2: int| 0 <= k2 < kids@.len() && kids@[k2] == y {
                let k2 = choose|k2: int| 0 <= k2 < kids@.len() && kids@[k2] == y;
                assert(ch[i as int][k2] == y);
            }
            if exists|a: int, k2: int| 0 <= a < i + 1 && 0 <= k2 < ch[a].len() && ch[a][k2] == y {
                let (a, k2) = choose|a: int, k2: int| 0 <= a < i + 1 && 0 <= k2 < ch[a].len() && ch[a][k2] == y;
                if a == i {
                    assert(kids@[k2] == y);
                }
            }
        }
        i = i + 1;
    }
    let mut roots: Vec<usize> = Vec::new();
    let mut x: usize = 0;
    while x < n
        invariant
            x <= n,
            n == children@.len(),
            ch == children@.map_values(|c: Vec<usize>| c@),
            claimed@.len() == n,
            forall|y: int| 0 <= y < n ==> (#[trigger] claimed@[y] <==> exists|a: int, k: int|
                0 <= a < n && 0 <= k < ch[a].len() && ch[a][k] == y),
            roots@ == root_nodes(ch, x as nat),
            forall|k: int| 0 <= k < roots@.len() ==> #[trigger] roots@[k] < x,
        decreases n - x,
    {
        assert(claimed@[x as int] == has_parent(ch, x));
        if !claimed[x] {
            roots.push(x);
        }
        x = x + 1;
    }
    roots
}

/// A skeleton from the node tree of a file whose meshes carry no skin:
/// every node becomes a joint, depth first from the roots, so that each
/// parent comes before its children; joint names are the node names
/// (`names`, one per node) and `children` lists each node's child nodes.
/// Also returns the node of each joint. The walk goes no deeper than the
/// number of nodes, which no tree of the table reaches.
pub fn create_skeleton_from_nodes(names: &Vec<String>, children: &Vec<Vec<usize>>) -> (r: (Skeleton, Vec<usize>))
    requires
        names@.len() == children@.len(),
        node_children_valid(children@.map_values(|c: Vec<usize>| c@)),
    ensures
        r.0@ == add_walk(SkeletonView { joints: Seq::empty(), roots: Seq::empty() }, string_views(names@),
            skeleton_walk(children@.map_values(|c: Vec<usize>| c@))),
        skeleton_wf(r.0@),
        r.1@ == walk_nodes(skeleton_walk(children@.map_values(|c: Vec<usize>| c@))),
{
    let roots = root_node_list(children);
    let mut skeleton = Skeleton::new();
    let mut joint_nodes: Vec<usize> = Vec::new();
    assert(skeleton@.joints =~= Seq::<JointView>::empty());
    assert(skeleton@.roots =~= Seq::<usize>::empty());
    assert(skeleton@ == SkeletonView { joints: Seq::empty(), roots: Seq::empty() });
    add_node_walk(children, names, &roots, None, children.len(), &mut skeleton, &mut joint_nodes);
    assert(joint_nodes@ =~= walk_nodes(skeleton_walk(children@.map_values(|c: Vec<usize>| c@))));
    (skeleton, joint_nodes)
}

} // verus!

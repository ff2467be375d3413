use vstd::prelude::*;

use crate::texture::{CubemapTexture, FrameBufferTexture, PostProcessingTexture};

verus! {

/// Role of a node in the scene.
#[derive(Debug, Clone, Copy, PartialEq, Eq, Structural)]
pub enum NodeType {
    Root,
    Geometry,
    Light,
    Screen,
}

/// Why a scene-graph operation was refused.
#[derive(Debug, Clone, Copy, PartialEq, Eq, Structural)]
pub enum GraphError {
    /// No node has this index.
    NoSuchNode(usize),
}

/// Optional render bindings of a node; each is present or absent on its own.
#[derive(Debug, Clone, Copy)]
pub struct Bindings {
    /// Mesh to draw for the node, if any.
    pub vao: Option<u32>,
    pub texture: Option<FrameBufferTexture>,
    pub normal_map: Option<FrameBufferTexture>,
    pub reflection_map: Option<FrameBufferTexture>,
    pub roughness_map: Option<FrameBufferTexture>,
    pub opacity_map: Option<FrameBufferTexture>,
    pub cubemap_texture: Option<CubemapTexture>,
}

impl Bindings {
    pub open spec fn is_empty(&self) -> bool {
        &&& self.vao is None
        &&& self.texture is None
        &&& self.normal_map is None
        &&& self.reflection_map is None
        &&& self.roughness_map is None
        &&& self.opacity_map is None
        &&& self.cubemap_texture is None
    }

    /// No mesh and no textures.
    pub fn none() -> (r: Bindings)
        ensures
            r.is_empty(),
    {
        Bindings {
            vao: None,
            texture: None,
            normal_map: None,
            reflection_map: None,
            roughness_map: None,
            opacity_map: None,
            cubemap_texture: None,
        }
    }
}

/// A scene node: its place in the tree, its role, its render bindings and the
/// caller's local data (its transform, its emission color, ...).
pub struct Node<T> {
    parent: Option<usize>,
    children: Vec<usize>,
    kind: NodeType,
    pub bindings: Bindings,
    /// Local transform and other per-node values that the tree carries for its owner.
    pub local: T,
}

impl<T> Node<T> {
    pub closed spec fn spec_parent(&self) -> Option<usize> {
        self.parent
    }

    pub closed spec fn spec_children(&self) -> Seq<usize> {
        self.children@
    }

    pub closed spec fn spec_kind(&self) -> NodeType {
        self.kind
    }

    pub closed spec fn spec_bindings(&self) -> Bindings {
        self.bindings
    }

    pub closed spec fn spec_local(&self) -> T {
        self.local
    }

    /// A detached node of the given role, with no bindings.
    pub fn new(kind: NodeType, local: T) -> (r: Node<T>)
        ensures
            r.spec_kind() == kind,
            r.spec_parent() is None,
            r.spec_children() == Seq::<usize>::empty(),
            r.spec_bindings().is_empty(),
            r.spec_local() == local,
    {
        Node {
            parent: None,
            children: Vec::new(),
            kind,
            bindings: Bindings::none(),
            local,
        }
    }

    /// Appends `index` to this node's children.
    pub fn add_child(&mut self, index: usize)
        ensures
            final(self).spec_children() == old(self).spec_children().push(index),
            final(self).spec_parent() == old(self).spec_parent(),
            final(self).spec_kind() == old(self).spec_kind(),
            final(self).spec_bindings() == old(self).spec_bindings(),
            final(self).spec_local() == old(self).spec_local(),
    {
        self.children.push(index);
    }

    /// Replaces the node's render bindings.
    pub fn set_bindings(&mut self, bindings: Bindings)
        ensures
            final(self).spec_bindings() == bindings,
            final(self).spec_local() == old(self).spec_local(),
            same_place(*final(self), *old(self)),
    {
        self.bindings = bindings;
    }

    /// Replaces the node's local value.
    pub fn set_local(&mut self, local: T)
        ensures
            final(self).spec_local() == local,
            final(self).spec_bindings() == old(self).spec_bindings(),
            same_place(*final(self), *old(self)),
    {
        self.local = local;
    }

    pub fn bindings(&self) -> (r: &Bindings)
        ensures
            *r == self.spec_bindings(),
    {
        &self.bindings
    }

    pub fn local(&self) -> (r: &T)
        ensures
            *r == self.spec_local(),
    {
        &self.local
    }

    pub fn kind(&self) -> (r: NodeType)
        ensures
            r == self.spec_kind(),
    {
        self.kind
    }

    pub fn parent(&self) -> (r: Option<usize>)
        ensures
            r == self.spec_parent(),
    {
        self.parent
    }

    pub fn children(&self) -> (r: &Vec<usize>)
        ensures
            r@ == self.spec_children(),
    {
        &self.children
    }
}

/// Indices `i` of `kinds` with `kinds[i] == k`, in increasing order.
pub open spec fn kind_indices(kinds: Seq<NodeType>, k: NodeType) -> Seq<usize>
    decreases kinds.len(),
{
    if kinds.len() == 0 {
        Seq::empty()
    } else {
        let before = kind_indices(kinds.drop_last(), k);
        if kinds.last() == k {
            before.push((kinds.len() - 1) as usize)
        } else {
            before
        }
    }
}

/// Roles of the nodes, by index.
pub open spec fn kinds_of<T>(nodes: Seq<Node<T>>) -> Seq<NodeType> {
    Seq::new(nodes.len(), |i: int| nodes[i].spec_kind())
}

/// `j` lies in the subtree rooted at `a`: it is `a`, or its parent does.
pub open spec fn descends<T>(nodes: Seq<Node<T>>, a: int, j: int) -> bool
    decreases j,
{
    if j == a {
        0 <= a < nodes.len()
    } else if j <= a || j >= nodes.len() {
        false
    } else {
        match nodes[j].spec_parent() {
            Some(p) => p < j && descends(nodes, a, p as int),
            None => false,
        }
    }
}

/// Depth-first pre-order of the subtree rooted at `i`: the node, then the subtree of
/// each child in insertion order.
pub open spec fn preorder<T>(nodes: Seq<Node<T>>, i: int) -> Seq<usize>
    decreases nodes.len() - i, nodes[i].spec_children().len() + 1,
{
    if 0 <= i < nodes.len() {
        seq![i as usize] + preorder_children(nodes, i, nodes[i].spec_children().len() as int)
    } else {
        Seq::empty()
    }
}

/// Concatenated pre-orders of the subtrees of the first `k` children of `i`.
pub open spec fn preorder_children<T>(nodes: Seq<Node<T>>, i: int, k: int) -> Seq<usize>
    decreases nodes.len() - i, k,
{
    if 0 <= i < nodes.len() && 0 < k <= nodes[i].spec_children().len() {
        let c = nodes[i].spec_children()[k - 1] as int;
        preorder_children(nodes, i, k - 1) + if i < c < nodes.len() {
            preorder(nodes, c)
        } else {
            Seq::empty()
        }
    } else {
        Seq::empty()
    }
}

/// GPU objects that a scene owns and releases once, in `teardown`.
pub struct Resources {
    /// Mesh handles.
    pub vaos: Vec<u32>,
    /// Program used for the final and the reflection passes.
    pub final_shader: Option<u32>,
    pub reflection_shader: Option<u32>,
    /// Screen-content programs, each with the target it renders into.
    pub screen_shaders: Vec<(u32, FrameBufferTexture)>,
}

/// World value of the parent of `j` in a pass over the subtree rooted at `a`: the
/// value handed in for the subtree (`so_far`) at `a` itself.
pub open spec fn parent_world<T, W>(nodes: Seq<Node<T>>, a: int, so_far: W, worlds: Seq<W>, j: int) -> W {
    if j == a {
        so_far
    } else {
        worlds[nodes[j].spec_parent()->0 as int]
    }
}

/// Every node `j` of the subtree rooted at `a` holds in `worlds` a value that
/// `compose` returns for its parent's world value and its own local value.
pub open spec fn composed_over<T, W, F: Fn(&W, &T) -> W>(
    nodes: Seq<Node<T>>,
    a: int,
    so_far: W,
    compose: F,
    worlds: Seq<W>,
) -> bool {
    forall|j: int|
        #[trigger] descends(nodes, a, j) ==> call_ensures(
            compose,
            (&parent_world(nodes, a, so_far, worlds, j), &nodes[j].spec_local()),
            worlds[j],
        )
}

/// One draw call of the scene pass: the node, its mesh, and the texture bound to each
/// unit (0 base color, 1 reflection, 2 normal map, 3 roughness, 4 opacity, 5 cubemap
/// reflection). An absent texture leaves its unit as it was and clears its flag.
#[derive(Debug, Clone, Copy, PartialEq, Eq, Structural)]
pub struct DrawCall {
    pub node: usize,
    pub vao: u32,
    pub base: Option<u32>,
    pub reflection: Option<u32>,
    pub normal: Option<u32>,
    pub roughness: Option<u32>,
    pub opacity: Option<u32>,
    pub cubemap: Option<u32>,
}

pub open spec fn texture_of(t: Option<FrameBufferTexture>) -> Option<u32> {
    match t {
        Some(x) => Some(x.texture),
        None => None,
    }
}

/// The draw call for a node with bindings `b`, if it has a mesh. Every present texture
/// is bound; the planar reflection texture only when `with_reflection` holds.
pub open spec fn draw_call_of(b: Bindings, node: usize, with_reflection: bool) -> Option<DrawCall> {
    match b.vao {
        None => None,
        Some(vao) => Some(
            DrawCall {
                node,
                vao,
                base: texture_of(b.texture),
                reflection: if with_reflection {
                    texture_of(b.reflection_map)
                } else {
                    None
                },
                normal: texture_of(b.normal_map),
                roughness: texture_of(b.roughness_map),
                opacity: texture_of(b.opacity_map),
                cubemap: match b.cubemap_texture {
                    Some(c) => Some(c.texture),
                    None => None,
                },
            },
        ),
    }
}

/// Draw calls for the nodes of `order` that have a mesh, in that order.
pub open spec fn draws_of<T>(nodes: Seq<Node<T>>, order: Seq<usize>, with_reflection: bool) -> Seq<DrawCall>
    decreases order.len(),
{
    if order.len() == 0 {
        Seq::empty()
    } else {
        let before = draws_of(nodes, order.drop_last(), with_reflection);
        let j = order.last();
        match draw_call_of(nodes[j as int].spec_bindings(), j, with_reflection) {
            Some(d) => before.push(d),
            None => before,
        }
    }
}

pub proof fn lemma_draws_of_append<T>(nodes: Seq<Node<T>>, a: Seq<usize>, b: Seq<usize>, with_reflection: bool)
    ensures
        draws_of(nodes, a + b, with_reflection) == draws_of(nodes, a, with_reflection) + draws_of(
            nodes,
            b,
            with_reflection,
        ),
    decreases b.len(),
{
    if b.len() == 0 {
        assert(a + b =~= a);
        assert(draws_of(nodes, a, with_reflection) + draws_of(nodes, b, with_reflection) =~= draws_of(nodes, a, with_reflection));
    } else {
        lemma_draws_of_append(nodes, a, b.drop_last(), with_reflection);
        assert((a + b).drop_last() =~= a + b.drop_last());
        assert((a + b).last() == b.last());
        let before = draws_of(nodes, a, with_reflection) + draws_of(nodes, b.drop_last(), with_reflection);
        match draw_call_of(nodes[b.last() as int].spec_bindings(), b.last(), with_reflection) {
            Some(d) => {
                assert(before.push(d) =~= draws_of(nodes, a, with_reflection) + draws_of(nodes, b.drop_last(), with_reflection).push(d));
            },
            None => {},
        }
    }
}

/// The draw call for a node with bindings `b`, if it has a mesh.
pub fn draw_call(b: &Bindings, node: usize, with_reflection: bool) -> (r: Option<DrawCall>)
    ensures
        r == draw_call_of(*b, node, with_reflection),
{
    match b.vao {
        None => None,
        Some(vao) => {
            let base = match b.texture {
                Some(t) => Some(t.texture),
                None => None,
            };
            let reflection = if with_reflection {
                match b.reflection_map {
                    Some(t) => Some(t.texture),
                    None => None,
                }
            } else {
                None
            };
            let normal = match b.normal_map {
                Some(t) => Some(t.texture),
                None => None,
            };
            let roughness = match b.roughness_map {
                Some(t) => Some(t.texture),
                None => None,
            };
            let opacity = match b.opacity_map {
                Some(t) => Some(t.texture),
                None => None,
            };
            let cubemap = match b.cubemap_texture {
                Some(c) => Some(c.texture),
                None => None,
            };
            Some(DrawCall { node, vao, base, reflection, normal, roughness, opacity, cubemap })
        },
    }
}

/// Why a render pass could not be planned.
#[derive(Debug, Clone, Copy, PartialEq, Eq, Structural)]
pub enum RenderError {
    /// This probe node has no planar reflection target.
    MissingReflectionTarget(usize),
    /// This probe node has no cubemap target.
    MissingCubemapTarget(usize),
}

/// One screen-content pass: bind `framebuffer`, set the viewport to `width` x `height`,
/// clear, run `program` on a full-screen quad.
#[derive(Debug, Clone, Copy, PartialEq, Eq, Structural)]
pub struct ScreenPass {
    pub program: u32,
    pub framebuffer: Option<u32>,
    pub width: i32,
    pub height: i32,
}

/// One view rendered from a probe node into one of its targets: the planar reflection
/// target (`face` is `None`), or face `f` of its cubemap (`face` is `Some(f)`).
#[derive(Debug, Clone, Copy, PartialEq, Eq, Structural)]
pub struct ProbePass {
    pub node: usize,
    pub face: Option<usize>,
    pub framebuffer: Option<u32>,
    pub width: i32,
    pub height: i32,
}

pub open spec fn screen_pass_of(entry: (u32, FrameBufferTexture)) -> ScreenPass {
    ScreenPass {
        program: entry.0,
        framebuffer: entry.1.framebuffer,
        width: entry.1.width,
        height: entry.1.height,
    }
}

/// A probe with bindings `b` has no cubemap target (`cubemap`), or no planar
/// reflection target (otherwise).
pub open spec fn lacks_target(b: Bindings, cubemap: bool) -> bool {
    if cubemap {
        b.cubemap_texture is None
    } else {
        b.reflection_map is None
    }
}

/// First probe among `cameras[..k]` that lacks its target of the given kind.
pub open spec fn first_missing_target<T>(nodes: Seq<Node<T>>, cameras: Seq<usize>, k: int, cubemap: bool) -> Option<usize>
    decreases k,
{
    if k <= 0 || k > cameras.len() {
        None
    } else {
        match first_missing_target(nodes, cameras, k - 1, cubemap) {
            Some(j) => Some(j),
            None => if lacks_target(nodes[cameras[k - 1] as int].spec_bindings(), cubemap) {
                Some(cameras[k - 1])
            } else {
                None
            },
        }
    }
}

pub open spec fn planar_pass_of(node: usize, t: FrameBufferTexture) -> ProbePass {
    ProbePass { node, face: None, framebuffer: t.framebuffer, width: t.width, height: t.height }
}

/// The six face passes of a probe with a cubemap target, none for one without.
pub open spec fn cube_faces_of(node: usize, cube: Option<CubemapTexture>) -> Seq<ProbePass> {
    match cube {
        Some(c) => Seq::new(
            6,
            |f: int|
                ProbePass {
                    node,
                    face: Some(f as usize),
                    framebuffer: Some(c.framebuffers@[f]),
                    width: c.size,
                    height: c.size,
                },
        ),
        None => Seq::empty(),
    }
}

/// Face passes of the probes `cameras[..k]`, probe by probe.
pub open spec fn cube_passes<T>(nodes: Seq<Node<T>>, cameras: Seq<usize>, k: int) -> Seq<ProbePass>
    decreases k,
{
    if k <= 0 || k > cameras.len() {
        Seq::empty()
    } else {
        cube_passes(nodes, cameras, k - 1) + cube_faces_of(
            cameras[k - 1],
            nodes[cameras[k - 1] as int].spec_bindings().cubemap_texture,
        )
    }
}

/// Which reflections a frame renders before its final pass.
#[derive(Debug, Clone, Copy, PartialEq, Eq, Structural)]
pub enum ReflectionKind {
    Off,
    Planar,
    Cubemap,
}

/// One pass of a frame, in the order the frame runs them.
#[derive(Debug, Clone, Copy, PartialEq, Eq, Structural)]
pub enum Pass {
    /// Procedural content into a screen's target.
    Screen(ScreenPass),
    /// The scene from a probe, without reflections.
    Probe(ProbePass),
    /// The scene from the active camera, with reflections, into `framebuffer`
    /// (the window when `None`).
    Final { framebuffer: Option<u32> },
    /// The post-processing program over the final pass's color and depth.
    PostProcess,
}

pub open spec fn as_screen_passes(s: Seq<ScreenPass>) -> Seq<Pass> {
    s.map_values(|p: ScreenPass| Pass::Screen(p))
}

pub open spec fn as_probe_passes(s: Seq<ProbePass>) -> Seq<Pass> {
    s.map_values(|p: ProbePass| Pass::Probe(p))
}

/// The tree is well formed: the root has no parent, every other node's parent comes
/// before it and lists it among its children, every child link points forward to a
/// node whose parent is the linking node, and the light and camera lists hold exactly
/// the nodes of those roles, in order of index.
pub open spec fn tree_wf<T>(nodes: Seq<Node<T>>, light_sources: Seq<usize>, cameras: Seq<usize>) -> bool {
    &&& nodes.len() >= 1
    &&& nodes[0].spec_parent() is None
    &&& parent_links_ok(nodes)
    &&& child_links_ok(nodes)
    &&& light_sources == kind_indices(kinds_of(nodes), NodeType::Light)
    &&& cameras == kind_indices(kinds_of(nodes), NodeType::Screen)
}

/// GPU objects handed back by `teardown`, for deletion.
pub struct Released {
    pub vaos: Vec<u32>,
    pub programs: Vec<u32>,
    pub framebuffers: Vec<u32>,
    pub textures: Vec<u32>,
}

/// The render target `t` holds the handle `y`: a framebuffer (`framebuffer`) or a
/// texture (otherwise).
pub open spec fn target_holds(t: Option<FrameBufferTexture>, y: u32, framebuffer: bool) -> bool {
    match t {
        Some(x) => if framebuffer {
            x.framebuffer == Some(y)
        } else {
            x.texture == y
        },
        None => false,
    }
}

pub open spec fn cubemap_holds(c: Option<CubemapTexture>, y: u32, framebuffer: bool) -> bool {
    match c {
        Some(x) => if framebuffer {
            x.framebuffers@.contains(y)
        } else {
            x.texture == y
        },
        None => false,
    }
}

/// Some render target among the bindings `b` holds the handle `y`.
pub open spec fn binding_holds(b: Bindings, y: u32, framebuffer: bool) -> bool {
    ||| target_holds(b.texture, y, framebuffer)
    ||| target_holds(b.normal_map, y, framebuffer)
    ||| target_holds(b.reflection_map, y, framebuffer)
    ||| target_holds(b.roughness_map, y, framebuffer)
    ||| target_holds(b.opacity_map, y, framebuffer)
    ||| cubemap_holds(b.cubemap_texture, y, framebuffer)
}

/// One of the nodes `nodes[..k]` holds the handle `y` in its bindings.
pub open spec fn nodes_own<T>(nodes: Seq<Node<T>>, k: int, y: u32, framebuffer: bool) -> bool
    decreases k,
{
    if k <= 0 || k > nodes.len() {
        false
    } else {
        nodes_own(nodes, k - 1, y, framebuffer) || binding_holds(nodes[k - 1].spec_bindings(), y, framebuffer)
    }
}

/// One of the targets of `screens[..k]` holds the handle `y`.
pub open spec fn screens_own(screens: Seq<(u32, FrameBufferTexture)>, k: int, y: u32, framebuffer: bool) -> bool
    decreases k,
{
    if k <= 0 || k > screens.len() {
        false
    } else {
        screens_own(screens, k - 1, y, framebuffer) || target_holds(Some(screens[k - 1].1), y, framebuffer)
    }
}

fn contains_u32(v: &Vec<u32>, x: u32) -> (r: bool)
    ensures
        r == v@.contains(x),
{
    let mut i: usize = 0;
    while i < v.len()
        invariant
            i <= v@.len(),
            forall|j: int| 0 <= j < i ==> v@[j] != x,
        decreases v@.len() - i,
    {
        if v[i] == x {
            return true;
        }
        i = i + 1;
    }
    false
}

/// Appends `x` unless it is already there.
fn push_unique(out: &mut Vec<u32>, x: u32)
    requires
        old(out)@.no_duplicates(),
    ensures
        final(out)@.no_duplicates(),
        forall|y: u32| #[trigger] final(out)@.contains(y) <==> (old(out)@.contains(y) || y == x),
{
    if !contains_u32(out, x) {
        let ghost before = out@;
        out.push(x);
        proof {
            assert forall|y: u32| #[trigger] out@.contains(y) <==> (before.contains(y) || y == x) by {
                if before.contains(y) {
                    let j = choose|j: int| 0 <= j < before.len() && before[j] == y;
                    assert(out@[j] == y);
                }
                if y == x {
                    assert(out@[before.len() as int] == y);
                }
                if out@.contains(y) {
                    let j = choose|j: int| 0 <= j < out@.len() && out@[j] == y;
                    if j < before.len() {
                        assert(before[j] == y);
                    }
                }
            }
        }
    }
}

/// Adds the framebuffer or the texture of a render target, if any, without repeats.
fn add_target_handles(out: &mut Vec<u32>, t: &Option<FrameBufferTexture>, framebuffer: bool)
    requires
        old(out)@.no_duplicates(),
    ensures
        final(out)@.no_duplicates(),
        forall|y: u32| #[trigger] final(out)@.contains(y) <==> (old(out)@.contains(y) || target_holds(*t, y, framebuffer)),
{
    match t {
        Some(x) => {
            if framebuffer {
                match x.framebuffer {
                    Some(f) => push_unique(out, f),
                    None => {},
                }
            } else {
                push_unique(out, x.texture);
            }
        },
        None => {},
    }
}

/// Adds the handles of every render target among `b`, without repeats.
fn add_binding_handles(out: &mut Vec<u32>, b: &Bindings, framebuffer: bool)
    requires
        old(out)@.no_duplicates(),
    ensures
        final(out)@.no_duplicates(),
        forall|y: u32| #[trigger] final(out)@.contains(y) <==> (old(out)@.contains(y) || binding_holds(*b, y, framebuffer)),
{
    let ghost start = out@;
    add_target_handles(out, &b.texture, framebuffer);
    add_target_handles(out, &b.normal_map, framebuffer);
    add_target_handles(out, &b.reflection_map, framebuffer);
    add_target_handles(out, &b.roughness_map, framebuffer);
    add_target_handles(out, &b.opacity_map, framebuffer);
    let ghost before_cube = out@;
    match &b.cubemap_texture {
        Some(c) => {
            if framebuffer {
                let mut f: usize = 0;
                while f < 6
                    invariant
                        f <= 6,
                        out@.no_duplicates(),
                        forall|y: u32| #[trigger] out@.contains(y) <==> (before_cube.contains(y) || c.framebuffers@.take(f as int).contains(y)),
                    decreases 6 - f,
                {
                    let ghost prev = out@;
                    push_unique(out, c.framebuffers[f]);
                    proof {
                        let t1 = c.framebuffers@.take(f + 1);
                        let t0 = c.framebuffers@.take(f as int);
                        assert(t1 =~= t0.push(c.framebuffers@[f as int]));
                        assert forall|y: u32| #[trigger] out@.contains(y) <==> (before_cube.contains(y) || t1.contains(y)) by {
                            assert(prev.contains(y) <==> (before_cube.contains(y) || t0.contains(y)));
                            if t1.contains(y) && y != c.framebuffers@[f as int] {
                                let j = choose|j: int| 0 <= j < t1.len() && t1[j] == y;
                                assert(t0[j] == y);
                            }
                            if t0.contains(y) {
                                let j = choose|j: int| 0 <= j < t0.len() && t0[j] == y;
                                assert(t1[j] == y);
                            }
                            if y == c.framebuffers@[f as int] {
                                assert(t1[f as int] == y);
                            }
                        }
                    }
                    f = f + 1;
                }
                proof {
                    assert(c.framebuffers@.take(6) =~= c.framebuffers@);
                }
            } else {
                push_unique(out, c.texture);
            }
        },
        None => {},
    }
}

/// Scene graph: nodes live in one array and refer to each other by index; node 0 is
/// the root. Nodes are only ever appended, so a node's parent always has a smaller index.
pub struct SceneGraph<T> {
    nodes: Vec<Node<T>>,
    light_sources: Vec<usize>,
    cameras: Vec<usize>,
    pub resources: Resources,
}

impl<T> SceneGraph<T> {
    pub closed spec fn spec_nodes(&self) -> Seq<Node<T>> {
        self.nodes@
    }

    pub closed spec fn spec_light_sources(&self) -> Seq<usize> {
        self.light_sources@
    }

    pub closed spec fn spec_cameras(&self) -> Seq<usize> {
        self.cameras@
    }

    pub closed spec fn spec_resources(&self) -> Resources {
        self.resources
    }

    /// The tree is well formed (see `tree_wf`).
    pub open spec fn wf(&self) -> bool {
        tree_wf(self.spec_nodes(), self.spec_light_sources(), self.spec_cameras())
    }

    /// A scene holding only the root node.
    pub fn new(root: T) -> (r: SceneGraph<T>)
        ensures
            r.wf(),
            r.spec_nodes().len() == 1,
            r.spec_nodes()[0].spec_kind() == NodeType::Root,
            r.spec_nodes()[0].spec_local() == root,
            r.spec_nodes()[0].spec_children().len() == 0,
            r.spec_nodes()[0].spec_parent() is None,
            r.spec_nodes()[0].spec_bindings().is_empty(),
            r.spec_light_sources().len() == 0,
            r.spec_cameras().len() == 0,
            r.spec_resources().vaos@.len() == 0,
            r.spec_resources().final_shader is None,
            r.spec_resources().reflection_shader is None,
            r.spec_resources().screen_shaders@.len() == 0,
    {
        let mut nodes: Vec<Node<T>> = Vec::new();
        nodes.push(Node::new(NodeType::Root, root));
        let r = SceneGraph {
            nodes,
            light_sources: Vec::new(),
            cameras: Vec::new(),
            resources: Resources {
                vaos: Vec::new(),
                final_shader: None,
                reflection_shader: None,
                screen_shaders: Vec::new(),
            },
        };
        proof {
            let kinds = kinds_of(r.spec_nodes());
            assert(kinds[0] == NodeType::Root);
            assert(kinds.drop_last() =~= Seq::<NodeType>::empty());
            assert(kinds.last() == NodeType::Root);
            assert(kind_indices(kinds.drop_last(), NodeType::Light) == Seq::<usize>::empty());
            assert(kind_indices(kinds.drop_last(), NodeType::Screen) == Seq::<usize>::empty());
            assert(kind_indices(kinds, NodeType::Light) == Seq::<usize>::empty());
            assert(kind_indices(kinds, NodeType::Screen) == Seq::<usize>::empty());
        }
        r
    }

    /// Replaces the GPU objects the scene owns.
    pub fn set_resources(&mut self, resources: Resources)
        ensures
            final(self).spec_resources() == resources,
            final(self).spec_nodes() == old(self).spec_nodes(),
            final(self).spec_light_sources() == old(self).spec_light_sources(),
            final(self).spec_cameras() == old(self).spec_cameras(),
    {
        self.resources = resources;
    }

    /// Read access to the GPU objects the scene owns.
    pub fn resources(&self) -> (r: &Resources)
        ensures
            *r == self.spec_resources(),
    {
        &self.resources
    }

    /// Index of the root node.
    pub fn root(&self) -> (r: usize)
        ensures
            r == 0,
    {
        0
    }

    /// Number of nodes, the root included.
    pub fn len(&self) -> (r: usize)
        ensures
            r == self.spec_nodes().len(),
    {
        self.nodes.len()
    }

    /// Appends `child` to the arena under `parent_index`, records it as a light
    /// source or a camera probe by its role, and returns its index. Children or a
    /// parent that `child` carried are dropped: a node enters the tree as a leaf.
    pub fn add_child(&mut self, parent_index: usize, child: Node<T>) -> (r: Result<usize, GraphError>)
        requires
            old(self).wf(),
        ensures
            final(self).wf(),
            parent_index >= old(self).spec_nodes().len() ==> {
                &&& r == Err::<usize, GraphError>(GraphError::NoSuchNode(parent_index))
                &&& *final(self) == *old(self)
            },
            parent_index < old(self).spec_nodes().len() ==> {
                let n = old(self).spec_nodes().len();
                let added = final(self).spec_nodes()[n as int];
                &&& r == Ok::<usize, GraphError>(n as usize)
                &&& final(self).spec_nodes().len() == n + 1
                &&& added.spec_kind() == child.spec_kind()
                &&& added.spec_bindings() == child.spec_bindings()
                &&& added.spec_local() == child.spec_local()
                &&& added.spec_parent() == Some(parent_index)
                &&& added.spec_children().len() == 0
                &&& final(self).spec_nodes()[parent_index as int].spec_children()
                    == old(self).spec_nodes()[parent_index as int].spec_children().push(n as usize)
                &&& final(self).spec_nodes()[parent_index as int].spec_parent()
                    == old(self).spec_nodes()[parent_index as int].spec_parent()
                &&& final(self).spec_nodes()[parent_index as int].spec_kind()
                    == old(self).spec_nodes()[parent_index as int].spec_kind()
                &&& final(self).spec_nodes()[parent_index as int].spec_bindings()
                    == old(self).spec_nodes()[parent_index as int].spec_bindings()
                &&& final(self).spec_nodes()[parent_index as int].spec_local()
                    == old(self).spec_nodes()[parent_index as int].spec_local()
                &&& forall|j: int|
                    0 <= j < n && j != parent_index ==> #[trigger] final(self).spec_nodes()[j]
                        == old(self).spec_nodes()[j]
                &&& final(self).spec_light_sources() == if child.spec_kind() == NodeType::Light {
                    old(self).spec_light_sources().push(n as usize)
                } else {
                    old(self).spec_light_sources()
                }
                &&& final(self).spec_cameras() == if child.spec_kind() == NodeType::Screen {
                    old(self).spec_cameras().push(n as usize)
                } else {
                    old(self).spec_cameras()
                }
                &&& final(self).spec_resources() == old(self).spec_resources()
            },
    {
        if parent_index >= self.nodes.len() {
            return Err(GraphError::NoSuchNode(parent_index));
        }
        let child_index = self.nodes.len();
        let mut child = child;
        child.parent = Some(parent_index);
        child.children = Vec::new();
        match child.kind {
            NodeType::Light => self.light_sources.push(child_index),
            NodeType::Screen => self.cameras.push(child_index),
            _ => {},
        }
        let ghost old_nodes = self.nodes@;
        self.nodes.push(child);
        self.nodes[parent_index].add_child(child_index);
        proof {
            let nodes = self.nodes@;
            let kinds = kinds_of(nodes);
            assert(kinds.drop_last() =~= kinds_of(old_nodes));
            assert forall|j: int| 0 < j < nodes.len() implies {
                &&& (#[trigger] nodes[j].spec_parent()) is Some
                &&& nodes[j].spec_parent()->0 < j
                &&& nodes[nodes[j].spec_parent()->0 as int].spec_children().contains(j as usize)
            } by {
                if j < child_index {
                    let p = old_nodes[j].spec_parent()->0 as int;
                    assert(old_nodes[p].spec_children().contains(j as usize));
                    if p == parent_index {
                        let k = choose|k: int| 0 <= k < old_nodes[p].spec_children().len() && old_nodes[p].spec_children()[k] == j as usize;
                        assert(nodes[p].spec_children()[k] == j as usize);
                    }
                } else {
                    assert(nodes[parent_index as int].spec_children().last() == j as usize);
                }
            }
            assert forall|i: int, k: int|
                0 <= i < nodes.len() && 0 <= k < nodes[i].spec_children().len() implies {
                    let c = #[trigger] nodes[i].spec_children()[k];
                    &&& i < c < nodes.len()
                    &&& nodes[c as int].spec_parent() == Some(i as usize)
                } by {
                if i == parent_index && k == old_nodes[i].spec_children().len() {
                } else {
                    assert(nodes[i].spec_children()[k] == old_nodes[i].spec_children()[k]);
                }
            }
        }
        Ok(child_index)
    }

    /// One node.
    pub fn node(&self, node_index: usize) -> (r: &Node<T>)
        requires
            node_index < self.spec_nodes().len(),
        ensures
            *r == self.spec_nodes()[node_index as int],
    {
        &self.nodes[node_index]
    }

    /// Mutable access to one node. Its place in the tree and its role cannot be
    /// changed through it, so the tree stays well formed.
    pub fn get_node(&mut self, node_index: usize) -> (r: &mut Node<T>)
        requires
            node_index < old(self).spec_nodes().len(),
        ensures
            *r == old(self).spec_nodes()[node_index as int],
            final(self).spec_nodes() == old(self).spec_nodes().update(node_index as int, *final(r)),
            final(self).spec_light_sources() == old(self).spec_light_sources(),
            final(self).spec_cameras() == old(self).spec_cameras(),
            final(self).spec_resources() == old(self).spec_resources(),
            old(self).wf() && same_place(*final(r), old(self).spec_nodes()[node_index as int])
                ==> final(self).wf(),
    {
        proof {
            let nodes = self.spec_nodes();
            if self.wf() {
                assert forall|x: Node<T>| #[trigger] same_place(x, nodes[node_index as int]) implies tree_wf(
                    nodes.update(node_index as int, x),
                    self.spec_light_sources(),
                    self.spec_cameras(),
                ) by {
                    lemma_wf_after_update(nodes, self.spec_light_sources(), self.spec_cameras(), node_index as int, x);
                }
            }
        }
        &mut self.nodes[node_index]
    }
    /// Recomputes the world value of every node in the subtree rooted at
    /// `node_index`: a node's value is `compose(parent's world value, node's local
    /// value)`, with `transformation_so_far` as the parent's value for `node_index`
    /// itself. With matrices this is `parent_transform * local_matrix`; with Euler
    /// angles and addition it accumulates rotations down the tree. Values outside
    /// the subtree are left as they were.
    pub fn update_transformations<W: Copy, F: Fn(&W, &T) -> W>(
        &self,
        node_index: usize,
        transformation_so_far: &W,
        compose: &F,
        worlds: &mut Vec<W>,
    )
        requires
            self.wf(),
            node_index < self.spec_nodes().len(),
            old(worlds)@.len() == self.spec_nodes().len(),
            forall|w: &W, t: &T| compose.requires((w, t)),
        ensures
            final(worlds)@.len() == old(worlds)@.len(),
            composed_over(self.spec_nodes(), node_index as int, *transformation_so_far, *compose, final(worlds)@),
            forall|j: int|
                0 <= j < old(worlds)@.len() && !descends(self.spec_nodes(), node_index as int, j)
                    ==> #[trigger] final(worlds)@[j] == old(worlds)@[j],
    {
        let ghost nodes = self.spec_nodes();
        let ghost a = node_index as int;
        let n = self.nodes.len();
        let mut inside_subtree: Vec<bool> = Vec::new();
        let mut i: usize = node_index;
        while i < n
            invariant
                self.wf(),
                nodes == self.spec_nodes(),
                n == nodes.len(),
                a == node_index,
                node_index <= i <= n,
                worlds@.len() == n,
                forall|w: &W, t: &T| compose.requires((w, t)),
                inside_subtree@.len() == i - node_index,
                forall|k: int|
                    0 <= k < inside_subtree@.len() ==> #[trigger] inside_subtree@[k] == descends(
                        nodes,
                        a,
                        node_index + k,
                    ),
                forall|j: int|
                    node_index <= j < i && #[trigger] descends(nodes, a, j) ==> call_ensures(
                        *compose,
                        (&parent_world(nodes, a, *transformation_so_far, worlds@, j), &nodes[j].spec_local()),
                        worlds@[j],
                    ),
                forall|j: int|
                    0 <= j < n && (j < node_index || j >= i || !descends(nodes, a, j))
                        ==> #[trigger] worlds@[j] == old(worlds)@[j],
            decreases n - i,
        {
            proof {
                if i > node_index {
                    assert(nodes[i as int].spec_parent() is Some);
                }
            }
            let inside = if i == node_index {
                true
            } else {
                match self.nodes[i].parent {
                    Some(p) => p >= node_index && inside_subtree[p - node_index],
                    None => false,
                }
            };
            if inside {
                let w = if i == node_index {
                    compose(transformation_so_far, &self.nodes[i].local)
                } else {
                    let p = self.nodes[i].parent.unwrap();
                    compose(&worlds[p], &self.nodes[i].local)
                };
                worlds.set(i, w);
            }
            inside_subtree.push(inside);
            proof {
                if i > node_index {
                    let p = nodes[i as int].spec_parent()->0 as int;
                    if p >= node_index {
                        assert(inside_subtree@[p - node_index] == descends(nodes, a, p));
                    } else {
                        assert(!descends(nodes, a, p));
                    }
                }
                assert(inside == descends(nodes, a, i as int));
                assert(inside_subtree@[i - node_index] == inside);
            }
            i = i + 1;
        }
        proof {
            assert forall|j: int| #[trigger] descends(nodes, a, j) implies call_ensures(
                *compose,
                (&parent_world(nodes, a, *transformation_so_far, worlds@, j), &nodes[j].spec_local()),
                worlds@[j],
            ) by {
                lemma_descends_range(nodes, a, j);
            }
        }
    }

    /// The frame's update: the transform pass from the root with `root_transform` as
    /// the root's parent value, and the light sources given to the program's
    /// `light_slots` slots, slot `s` holding the `s`-th light source; lights beyond
    /// the last slot are left out.
    pub fn update<W: Copy, F: Fn(&W, &T) -> W>(&self, root_transform: &W, compose: &F, light_slots: usize) -> (r: (
        Vec<W>,
        Vec<usize>,
    ))
        requires
            self.wf(),
            forall|w: &W, t: &T| compose.requires((w, t)),
        ensures
            r.0@.len() == self.spec_nodes().len(),
            composed_over(self.spec_nodes(), 0, *root_transform, *compose, r.0@),
            r.1@ == self.spec_light_sources().take(
                if light_slots < self.spec_light_sources().len() {
                    light_slots as int
                } else {
                    self.spec_light_sources().len() as int
                },
            ),
    {
        let n = self.nodes.len();
        let mut worlds: Vec<W> = Vec::new();
        let mut i: usize = 0;
        while i < n
            invariant
                i <= n,
                worlds@.len() == i,
            decreases n - i,
        {
            worlds.push(*root_transform);
            i = i + 1;
        }
        self.update_transformations(0, root_transform, compose, &mut worlds);
        let mut lights: Vec<usize> = Vec::new();
        let mut k: usize = 0;
        while k < self.light_sources.len() && k < light_slots
            invariant
                k <= self.light_sources@.len(),
                k <= light_slots,
                lights@ == self.light_sources@.take(k as int),
            decreases light_slots - k,
        {
            lights.push(self.light_sources[k]);
            proof {
                assert(self.light_sources@.take(k + 1) =~= self.light_sources@.take(k as int).push(self.light_sources@[k as int]));
            }
            k = k + 1;
        }
        (worlds, lights)
    }

    /// The draw calls of one scene pass over the subtree rooted at `node_index`,
    /// appended to `out`: depth-first pre-order, a node before its children and
    /// siblings in insertion order, one call for each node that has a mesh.
    pub fn render(&self, node_index: usize, with_reflection: bool, out: &mut Vec<DrawCall>)
        requires
            self.wf(),
            node_index < self.spec_nodes().len(),
        ensures
            final(out)@ == old(out)@ + draws_of(
                self.spec_nodes(),
                preorder(self.spec_nodes(), node_index as int),
                with_reflection,
            ),
        decreases self.spec_nodes().len() - node_index,
    {
        let ghost nodes = self.spec_nodes();
        let ghost i = node_index as int;
        let node = &self.nodes[node_index];
        let d = draw_call(&node.bindings, node_index, with_reflection);
        let ghost dd = d;
        match d {
            Some(d) => out.push(d),
            None => {},
        }
        proof {
            let own = seq![node_index];
            assert(own + preorder_children(nodes, i, 0) =~= own);
            assert(own.drop_last() =~= Seq::<usize>::empty());
            assert(own.last() == node_index);
            assert(draws_of(nodes, Seq::<usize>::empty(), with_reflection) == Seq::<DrawCall>::empty());
            match dd {
                Some(x) => {
                    assert(draws_of(nodes, own, with_reflection) =~= seq![x]);
                    assert(out@ =~= old(out)@ + seq![x]);
                },
                None => {
                    assert(draws_of(nodes, own, with_reflection) =~= Seq::<DrawCall>::empty());
                    assert(out@ =~= old(out)@ + Seq::<DrawCall>::empty());
                },
            }
        }
        let mut k: usize = 0;
        while k < node.children.len()
            invariant
                self.wf(),
                nodes == self.spec_nodes(),
                i == node_index,
                i < nodes.len(),
                *node == nodes[i],
                k <= node.children@.len(),
                out@ == old(out)@ + draws_of(
                    nodes,
                    seq![node_index] + preorder_children(nodes, i, k as int),
                    with_reflection,
                ),
            decreases node.children@.len() - k,
        {
            let c = node.children[k];
            proof {
                assert(nodes[i].spec_children()[k as int] == c);
            }
            let ghost before = out@;
            self.render(c, with_reflection, out);
            proof {
                let head = seq![node_index] + preorder_children(nodes, i, k as int);
                assert(preorder_children(nodes, i, k + 1) == preorder_children(nodes, i, k as int) + preorder(nodes, c as int));
                assert(seq![node_index] + preorder_children(nodes, i, k + 1) =~= head + preorder(nodes, c as int));
                lemma_draws_of_append(nodes, head, preorder(nodes, c as int), with_reflection);
                assert(out@ =~= old(out)@ + draws_of(nodes, seq![node_index] + preorder_children(nodes, i, k + 1), with_reflection));
            }
            k = k + 1;
        }
    }

    /// The screen-content passes, one for each registered program, in order.
    pub fn render_screens(&self) -> (r: Vec<ScreenPass>)
        ensures
            r@.len() == self.spec_resources().screen_shaders@.len(),
            forall|k: int|
                0 <= k < r@.len() ==> #[trigger] r@[k] == screen_pass_of(
                    self.spec_resources().screen_shaders@[k],
                ),
    {
        let mut r: Vec<ScreenPass> = Vec::new();
        let mut k: usize = 0;
        while k < self.resources.screen_shaders.len()
            invariant
                k <= self.resources.screen_shaders@.len(),
                r@.len() == k,
                forall|m: int| 0 <= m < k ==> #[trigger] r@[m] == screen_pass_of(self.resources.screen_shaders@[m]),
            decreases self.resources.screen_shaders@.len() - k,
        {
            let (program, target) = self.resources.screen_shaders[k];
            r.push(ScreenPass { program, framebuffer: target.framebuffer, width: target.width, height: target.height });
            k = k + 1;
        }
        r
    }

    /// The planar reflection passes, one for each probe in order, into its reflection
    /// target. A probe without one is an error, reported for the first such probe.
    pub fn render_reflections(&self) -> (r: Result<Vec<ProbePass>, RenderError>)
        requires
            self.wf(),
        ensures
            ({
                let nodes = self.spec_nodes();
                let cams = self.spec_cameras();
                match first_missing_target(nodes, cams, cams.len() as int, false) {
                    Some(j) => r == Err::<Vec<ProbePass>, RenderError>(RenderError::MissingReflectionTarget(j)),
                    None => r matches Ok(v) && v@.len() == cams.len() && forall|k: int|
                        0 <= k < cams.len() ==> #[trigger] v@[k] == planar_pass_of(
                            cams[k],
                            nodes[cams[k] as int].spec_bindings().reflection_map->0,
                        ),
                }
            }),
    {
        let ghost nodes = self.spec_nodes();
        let ghost cams = self.spec_cameras();
        let mut r: Vec<ProbePass> = Vec::new();
        let n = self.nodes.len();
        let mut k: usize = 0;
        while k < self.cameras.len()
            invariant
                self.wf(),
                nodes == self.spec_nodes(),
                cams == self.spec_cameras(),
                n == nodes.len(),
                k <= cams.len(),
                first_missing_target(nodes, cams, k as int, false) is None,
                r@.len() == k,
                forall|m: int|
                    0 <= m < k ==> #[trigger] r@[m] == planar_pass_of(
                        cams[m],
                        nodes[cams[m] as int].spec_bindings().reflection_map->0,
                    ),
            decreases cams.len() - k,
        {
            let node_index = self.cameras[k];
            proof {
                lemma_kind_indices_bound(kinds_of(nodes), NodeType::Screen, k as int);
            }
            match self.nodes[node_index].bindings.reflection_map {
                Some(t) => {
                    r.push(ProbePass { node: node_index, face: None, framebuffer: t.framebuffer, width: t.width, height: t.height });
                },
                None => {
                    proof {
                        lemma_first_missing_stays(nodes, cams, k + 1, false);
                    }
                    return Err(RenderError::MissingReflectionTarget(node_index));
                },
            }
            k = k + 1;
        }
        proof {
            assert forall|k: int| 0 <= k < cams.len() implies #[trigger] r@[k] == planar_pass_of(
                cams[k],
                nodes[cams[k] as int].spec_bindings().reflection_map->0,
            ) by {}
        }
        Ok(r)
    }

    /// The cubemap reflection passes: for each probe in order, the six faces of its
    /// cubemap target in order (+X, -X, +Y, -Y, +Z, -Z). A probe without one is an
    /// error, reported for the first such probe.
    pub fn render_cubemap_reflections(&self) -> (r: Result<Vec<ProbePass>, RenderError>)
        requires
            self.wf(),
        ensures
            ({
                let nodes = self.spec_nodes();
                let cams = self.spec_cameras();
                match first_missing_target(nodes, cams, cams.len() as int, true) {
                    Some(j) => r == Err::<Vec<ProbePass>, RenderError>(RenderError::MissingCubemapTarget(j)),
                    None => r matches Ok(v) && v@ == cube_passes(nodes, cams, cams.len() as int),
                }
            }),
    {
        let ghost nodes = self.spec_nodes();
        let ghost cams = self.spec_cameras();
        let mut r: Vec<ProbePass> = Vec::new();
        let n = self.nodes.len();
        let mut k: usize = 0;
        while k < self.cameras.len()
            invariant
                self.wf(),
                nodes == self.spec_nodes(),
                cams == self.spec_cameras(),
                n == nodes.len(),
                k <= cams.len(),
                first_missing_target(nodes, cams, k as int, true) is None,
                r@ == cube_passes(nodes, cams, k as int),
            decreases cams.len() - k,
        {
            let node_index = self.cameras[k];
            proof {
                lemma_kind_indices_bound(kinds_of(nodes), NodeType::Screen, k as int);
            }
            let ghost before = r@;
            match self.nodes[node_index].bindings.cubemap_texture {
                Some(c) => {
                    let mut f: usize = 0;
                    while f < 6
                        invariant
                            f <= 6,
                            r@ == before + cube_faces_of(node_index, Some(c)).take(f as int),
                        decreases 6 - f,
                    {
                        r.push(ProbePass { node: node_index, face: Some(f), framebuffer: Some(c.framebuffers[f]), width: c.size, height: c.size });
                        proof {
                            assert(cube_faces_of(node_index, Some(c)).take(f + 1) =~= cube_faces_of(node_index, Some(c)).take(f as int).push(cube_faces_of(node_index, Some(c))[f as int]));
                        }
                        f = f + 1;
                    }
                    proof {
                        assert(cube_faces_of(node_index, Some(c)).take(6) =~= cube_faces_of(node_index, Some(c)));
                    }
                },
                None => {
                    proof {
                        lemma_first_missing_stays(nodes, cams, k + 1, true);
                    }
                    return Err(RenderError::MissingCubemapTarget(node_index));
                },
            }
            k = k + 1;
        }
        Ok(r)
    }

    /// Releases the scene and hands back its GPU objects, each once: the meshes, the
    /// programs (final, reflection, then the screen programs in order), and the
    /// framebuffers and textures of every render target that a node or a screen
    /// program holds, without repeats.
    pub fn teardown(self) -> (r: Released)
        requires
            self.wf(),
        ensures
            ({
                let res = self.spec_resources();
                let nodes = self.spec_nodes();
                let screens = res.screen_shaders@;
                &&& r.vaos@ == res.vaos@
                &&& r.programs@ == (match res.final_shader {
                    Some(p) => seq![p],
                    None => Seq::<u32>::empty(),
                }) + (match res.reflection_shader {
                    Some(p) => seq![p],
                    None => Seq::<u32>::empty(),
                }) + screens.map_values(|e: (u32, FrameBufferTexture)| e.0)
                &&& r.framebuffers@.no_duplicates()
                &&& r.textures@.no_duplicates()
                &&& forall|y: u32|
                    #[trigger] r.framebuffers@.contains(y) <==> (nodes_own(nodes, nodes.len() as int, y, true)
                        || screens_own(screens, screens.len() as int, y, true))
                &&& forall|y: u32|
                    #[trigger] r.textures@.contains(y) <==> (nodes_own(nodes, nodes.len() as int, y, false)
                        || screens_own(screens, screens.len() as int, y, false))
            }),
    {
        let ghost nodes = self.spec_nodes();
        let ghost screens_spec = self.resources.screen_shaders@;
        let mut programs: Vec<u32> = Vec::new();
        match self.resources.final_shader {
            Some(p) => programs.push(p),
            None => {},
        }
        match self.resources.reflection_shader {
            Some(p) => programs.push(p),
            None => {},
        }
        let ghost head = programs@;
        let screens = &self.resources.screen_shaders;
        let mut k: usize = 0;
        while k < screens.len()
            invariant
                k <= screens@.len(),
                programs@ == head + screens@.take(k as int).map_values(|e: (u32, FrameBufferTexture)| e.0),
            decreases screens@.len() - k,
        {
            programs.push(screens[k].0);
            proof {
                assert(screens@.take(k + 1) =~= screens@.take(k as int).push(screens@[k as int]));
                assert(screens@.take(k + 1).map_values(|e: (u32, FrameBufferTexture)| e.0) =~= screens@.take(k as int).map_values(|e: (u32, FrameBufferTexture)| e.0).push(screens@[k as int].0));
            }
            k = k + 1;
        }
        proof {
            assert(screens@.take(screens@.len() as int) =~= screens@);
        }
        let mut framebuffers: Vec<u32> = Vec::new();
        let mut textures: Vec<u32> = Vec::new();
        let mut i: usize = 0;
        while i < self.nodes.len()
            invariant
                nodes == self.spec_nodes(),
                i <= nodes.len(),
                framebuffers@.no_duplicates(),
                textures@.no_duplicates(),
                forall|y: u32| #[trigger] framebuffers@.contains(y) <==> nodes_own(nodes, i as int, y, true),
                forall|y: u32| #[trigger] textures@.contains(y) <==> nodes_own(nodes, i as int, y, false),
            decreases nodes.len() - i,
        {
            let b = &self.nodes[i].bindings;
            let ghost fb_before = framebuffers@;
            let ghost tex_before = textures@;
            add_binding_handles(&mut framebuffers, b, true);
            add_binding_handles(&mut textures, b, false);
            proof {
                assert forall|y: u32| #[trigger] framebuffers@.contains(y) <==> nodes_own(nodes, i + 1, y, true) by {
                    assert(fb_before.contains(y) <==> nodes_own(nodes, i as int, y, true));
                }
                assert forall|y: u32| #[trigger] textures@.contains(y) <==> nodes_own(nodes, i + 1, y, false) by {
                    assert(tex_before.contains(y) <==> nodes_own(nodes, i as int, y, false));
                }
            }
            i = i + 1;
        }
        let mut m: usize = 0;
        while m < screens.len()
            invariant
                screens@ == screens_spec,
                m <= screens@.len(),
                framebuffers@.no_duplicates(),
                textures@.no_duplicates(),
                forall|y: u32| #[trigger] framebuffers@.contains(y) <==> (nodes_own(nodes, nodes.len() as int, y, true)
                    || screens_own(screens_spec, m as int, y, true)),
                forall|y: u32| #[trigger] textures@.contains(y) <==> (nodes_own(nodes, nodes.len() as int, y, false)
                    || screens_own(screens_spec, m as int, y, false)),
            decreases screens@.len() - m,
        {
            let t = Some(screens[m].1);
            let ghost fb_before = framebuffers@;
            let ghost tex_before = textures@;
            add_target_handles(&mut framebuffers, &t, true);
            add_target_handles(&mut textures, &t, false);
            proof {
                assert forall|y: u32| #[trigger] framebuffers@.contains(y) <==> (nodes_own(nodes, nodes.len() as int, y, true)
                    || screens_own(screens_spec, m + 1, y, true)) by {
                    assert(fb_before.contains(y) <==> (nodes_own(nodes, nodes.len() as int, y, true)
                        || screens_own(screens_spec, m as int, y, true)));
                }
                assert forall|y: u32| #[trigger] textures@.contains(y) <==> (nodes_own(nodes, nodes.len() as int, y, false)
                    || screens_own(screens_spec, m + 1, y, false)) by {
                    assert(tex_before.contains(y) <==> (nodes_own(nodes, nodes.len() as int, y, false)
                        || screens_own(screens_spec, m as int, y, false)));
                }
            }
            m = m + 1;
        }
        let vaos = self.resources.vaos;
        Released { vaos, programs, framebuffers, textures }
    }

    /// The passes of one frame, in order: every screen-content pass, then the
    /// reflection passes of the chosen kind, then the final pass (into the
    /// post-processing target when there is one), then post-processing. Planar
    /// reflections fail as `render_reflections` does.
    pub fn frame_passes(&self, reflections: ReflectionKind, post: Option<PostProcessingTexture>) -> (r: Result<
        Vec<Pass>,
        RenderError,
    >)
        requires
            self.wf(),
        ensures
            ({
                let nodes = self.spec_nodes();
                let cams = self.spec_cameras();
                let screens = self.spec_resources().screen_shaders@.map_values(
                    |e: (u32, FrameBufferTexture)| screen_pass_of(e),
                );
                let probes = match reflections {
                    ReflectionKind::Off => Seq::<ProbePass>::empty(),
                    ReflectionKind::Planar => Seq::new(
                        cams.len(),
                        |k: int|
                            planar_pass_of(cams[k], nodes[cams[k] as int].spec_bindings().reflection_map->0),
                    ),
                    ReflectionKind::Cubemap => cube_passes(nodes, cams, cams.len() as int),
                };
                let last = match post {
                    Some(t) => seq![Pass::Final { framebuffer: Some(t.framebuffer) }, Pass::PostProcess],
                    None => seq![Pass::Final { framebuffer: None }],
                };
                let missing_planar = first_missing_target(nodes, cams, cams.len() as int, false);
                let missing_cube = first_missing_target(nodes, cams, cams.len() as int, true);
                if reflections == ReflectionKind::Planar && missing_planar is Some {
                    r == Err::<Vec<Pass>, RenderError>(RenderError::MissingReflectionTarget(missing_planar->0))
                } else if reflections == ReflectionKind::Cubemap && missing_cube is Some {
                    r == Err::<Vec<Pass>, RenderError>(RenderError::MissingCubemapTarget(missing_cube->0))
                } else {
                    r matches Ok(v) && v@ == as_screen_passes(screens) + as_probe_passes(probes) + last
                }
            }),
    {
        let screens = self.render_screens();
        let probes = match reflections {
            ReflectionKind::Off => Vec::new(),
            ReflectionKind::Planar => match self.render_reflections() {
                Ok(v) => v,
                Err(e) => {
                    return Err(e);
                },
            },
            ReflectionKind::Cubemap => match self.render_cubemap_reflections() {
                Ok(v) => v,
                Err(e) => {
                    return Err(e);
                },
            },
        };
        let ghost probes_spec = probes@;
        let mut passes: Vec<Pass> = Vec::new();
        let mut k: usize = 0;
        while k < screens.len()
            invariant
                k <= screens@.len(),
                passes@ == as_screen_passes(screens@.take(k as int)),
            decreases screens@.len() - k,
        {
            passes.push(Pass::Screen(screens[k]));
            proof {
                assert(screens@.take(k + 1) =~= screens@.take(k as int).push(screens@[k as int]));
                assert(as_screen_passes(screens@.take(k + 1)) =~= as_screen_passes(screens@.take(k as int)).push(Pass::Screen(screens@[k as int])));
            }
            k = k + 1;
        }
        proof {
            assert(screens@.take(screens@.len() as int) =~= screens@);
        }
        let ghost head = passes@;
        let mut m: usize = 0;
        while m < probes.len()
            invariant
                m <= probes@.len(),
                passes@ == head + as_probe_passes(probes@.take(m as int)),
            decreases probes@.len() - m,
        {
            passes.push(Pass::Probe(probes[m]));
            proof {
                assert(probes@.take(m + 1) =~= probes@.take(m as int).push(probes@[m as int]));
                assert(as_probe_passes(probes@.take(m + 1)) =~= as_probe_passes(probes@.take(m as int)).push(Pass::Probe(probes@[m as int])));
            }
            m = m + 1;
        }
        proof {
            assert(probes@.take(probes@.len() as int) =~= probes@);
        }
        let ghost body = passes@;
        match post {
            Some(t) => {
                passes.push(Pass::Final { framebuffer: Some(t.framebuffer) });
                passes.push(Pass::PostProcess);
            },
            None => {
                passes.push(Pass::Final { framebuffer: None });
            },
        }
        proof {
            let nodes = self.spec_nodes();
            let cams = self.spec_cameras();
            let screens_spec = self.spec_resources().screen_shaders@.map_values(
                |e: (u32, FrameBufferTexture)| screen_pass_of(e),
            );
            assert(screens@ =~= screens_spec);
            if reflections == ReflectionKind::Planar {
                assert(probes_spec =~= Seq::new(
                    cams.len(),
                    |k: int| planar_pass_of(cams[k], nodes[cams[k] as int].spec_bindings().reflection_map->0),
                ));
            }
            if reflections == ReflectionKind::Off {
                assert(probes_spec =~= Seq::<ProbePass>::empty());
            }
            match post {
                Some(t) => {
                    assert(passes@ =~= body + seq![Pass::Final { framebuffer: Some(t.framebuffer) }, Pass::PostProcess]);
                },
                None => {
                    assert(passes@ =~= body + seq![Pass::Final { framebuffer: None }]);
                },
            }
        }
        Ok(passes)
    }

    /// Indices of the light-source nodes, in order of insertion.
    pub fn light_sources(&self) -> (r: &Vec<usize>)
        ensures
            r@ == self.spec_light_sources(),
    {
        &self.light_sources
    }

    /// Indices of the nodes rendered from as reflection probes, in order of insertion.
    pub fn cameras(&self) -> (r: &Vec<usize>)
        ensures
            r@ == self.spec_cameras(),
    {
        &self.cameras
    }
}

/// Every node of a well-formed tree lies in the subtree of the root.
pub proof fn lemma_descends_from_root<T>(g: &SceneGraph<T>, j: int)
    requires
        g.wf(),
        0 <= j < g.spec_nodes().len(),
    ensures
        descends(g.spec_nodes(), 0, j),
    decreases j,
{
    if j > 0 {
        let nodes = g.spec_nodes();
        assert(nodes[j].spec_parent() is Some);
        lemma_descends_from_root(g, nodes[j].spec_parent()->0 as int);
    }
}

/// After a pass from the root, each node's world value is what `compose` gives for
/// its parent's world value and its own local value: with matrices, a child's model
/// matrix is its parent's model matrix times the child's local matrix.
pub proof fn lemma_child_world_composes<T, W, F: Fn(&W, &T) -> W>(
    g: &SceneGraph<T>,
    root_transform: W,
    compose: F,
    worlds: Seq<W>,
    child: int,
)
    requires
        g.wf(),
        worlds.len() == g.spec_nodes().len(),
        composed_over(g.spec_nodes(), 0, root_transform, compose, worlds),
        0 < child < g.spec_nodes().len(),
    ensures
        g.spec_nodes()[child].spec_parent() is Some,
        call_ensures(
            compose,
            (&worlds[g.spec_nodes()[child].spec_parent()->0 as int], &g.spec_nodes()[child].spec_local()),
            worlds[child],
        ),
{
    lemma_descends_from_root(g, child);
    assert(g.spec_nodes()[child].spec_parent() is Some);
}

/// `step` folded down the ancestor chain of `j`, from `a` on: `a`'s value is
/// `step(start, its local value)`, every node below it has `step(its parent's value,
/// its local value)`.
pub open spec fn path_fold<T, W>(nodes: Seq<Node<T>>, a: int, start: W, step: spec_fn(W, T) -> W, j: int) -> W
    decreases j,
{
    if a < j < nodes.len() && nodes[j].spec_parent() is Some && nodes[j].spec_parent()->0 < j {
        let p = nodes[j].spec_parent()->0 as int;
        step(path_fold(nodes, a, start, step, p), nodes[j].spec_local())
    } else {
        step(start, nodes[a].spec_local())
    }
}

/// Where `compose` computes `step`, a pass over the subtree rooted at `a`, started with
/// `so_far`, leaves at every node of it the fold of `step` along the chain from `a`
/// down to that node. With Euler angles summed component-wise, the total rotation of a
/// node is `so_far` plus the local rotations along that chain.
pub proof fn lemma_world_is_path_fold<T, W, F: Fn(&W, &T) -> W>(
    nodes: Seq<Node<T>>,
    a: int,
    so_far: W,
    compose: F,
    step: spec_fn(W, T) -> W,
    worlds: Seq<W>,
    j: int,
)
    requires
        worlds.len() == nodes.len(),
        composed_over(nodes, a, so_far, compose, worlds),
        forall|w: W, t: T, r: W| #[trigger] call_ensures(compose, (&w, &t), r) ==> r == step(w, t),
        descends(nodes, a, j),
    ensures
        worlds[j] == path_fold(nodes, a, so_far, step, j),
    decreases j,
{
    if j != a {
        let p = nodes[j].spec_parent()->0 as int;
        lemma_descends_range(nodes, a, p);
        lemma_world_is_path_fold(nodes, a, so_far, compose, step, worlds, p);
    }
}

/// Two nodes have the same parent, children and role.
pub open spec fn same_place<T>(a: Node<T>, b: Node<T>) -> bool {
    &&& a.spec_parent() == b.spec_parent()
    &&& a.spec_children() == b.spec_children()
    &&& a.spec_kind() == b.spec_kind()
}

/// Replacing a node by one in the same place keeps the tree well formed.
pub proof fn lemma_wf_after_update<T>(nodes: Seq<Node<T>>, light_sources: Seq<usize>, cameras: Seq<usize>, i: int, x: Node<T>)
    requires
        0 <= i < nodes.len(),
        tree_wf(nodes, light_sources, cameras),
        same_place(x, nodes[i]),
    ensures
        tree_wf(nodes.update(i, x), light_sources, cameras),
{
    let updated = nodes.update(i, x);
    assert(kinds_of(updated) =~= kinds_of(nodes));
    assert forall|j: int| 0 < j < updated.len() implies {
        &&& (#[trigger] updated[j].spec_parent()) is Some
        &&& updated[j].spec_parent()->0 < j
        &&& updated[updated[j].spec_parent()->0 as int].spec_children().contains(j as usize)
    } by {
        assert(nodes[j].spec_parent() is Some);
    }
    assert forall|a: int, k: int|
        0 <= a < updated.len() && 0 <= k < updated[a].spec_children().len() implies {
            let c = #[trigger] updated[a].spec_children()[k];
            &&& a < c < updated.len()
            &&& updated[c as int].spec_parent() == Some(a as usize)
        } by {
        assert(updated[a].spec_children() == nodes[a].spec_children());
        let c = nodes[a].spec_children()[k];
        assert(updated[c as int].spec_parent() == nodes[c as int].spec_parent());
    }
}

/// Every child link points forward to a node whose parent is the linking node.
pub open spec fn child_links_ok<T>(nodes: Seq<Node<T>>) -> bool {
    forall|i: int, k: int|
        0 <= i < nodes.len() && 0 <= k < nodes[i].spec_children().len() ==> {
            let c = #[trigger] nodes[i].spec_children()[k];
            &&& i < c < nodes.len()
            &&& nodes[c as int].spec_parent() == Some(i as usize)
        }
}

/// Every node but the root has an earlier parent that lists it among its children.
pub open spec fn parent_links_ok<T>(nodes: Seq<Node<T>>) -> bool {
    forall|j: int|
        0 < j < nodes.len() ==> {
            &&& (#[trigger] nodes[j].spec_parent()) is Some
            &&& nodes[j].spec_parent()->0 < j
            &&& nodes[nodes[j].spec_parent()->0 as int].spec_children().contains(j as usize)
        }
}

/// The subtree of a child of `a` lies in the subtree of `a`.
pub proof fn lemma_descends_through_child<T>(nodes: Seq<Node<T>>, a: int, c: int, x: int)
    requires
        nodes.len() <= usize::MAX,
        0 <= a < c < nodes.len(),
        nodes[c].spec_parent() == Some(a as usize),
        descends(nodes, c, x),
    ensures
        descends(nodes, a, x),
    decreases x,
{
    if x != c {
        lemma_descends_range(nodes, c, x);
        lemma_descends_through_child(nodes, a, c, nodes[x].spec_parent()->0 as int);
    } else {
        assert(descends(nodes, a, a));
    }
}

/// A node below `a` lies below one of the children of `a`.
pub proof fn lemma_descends_from_child<T>(nodes: Seq<Node<T>>, a: int, x: int) -> (k: int)
    requires
        nodes.len() <= usize::MAX,
        parent_links_ok(nodes),
        descends(nodes, a, x),
        x != a,
    ensures
        0 <= k < nodes[a].spec_children().len(),
        descends(nodes, nodes[a].spec_children()[k] as int, x),
    decreases x,
{
    lemma_descends_range(nodes, a, x);
    assert(nodes[x].spec_parent() is Some);
    let p = nodes[x].spec_parent()->0 as int;
    if p == a {
        let k = choose|k: int| 0 <= k < nodes[a].spec_children().len() && nodes[a].spec_children()[k] == x as usize;
        k
    } else {
        let k = lemma_descends_from_child(nodes, a, p);
        let c = nodes[a].spec_children()[k] as int;
        lemma_descends_range(nodes, c, p);
        k
    }
}

/// The pre-order of the subtree rooted at `i` holds only nodes of that subtree.
pub proof fn lemma_preorder_sound<T>(nodes: Seq<Node<T>>, i: int)
    requires
        nodes.len() <= usize::MAX,
        child_links_ok(nodes),
        0 <= i < nodes.len(),
    ensures
        forall|x: usize| #[trigger] preorder(nodes, i).contains(x) ==> descends(nodes, i, x as int),
    decreases nodes.len() - i, nodes[i].spec_children().len() + 1,
{
    let n = nodes[i].spec_children().len() as int;
    lemma_preorder_children_sound(nodes, i, n);
    assert forall|x: usize| #[trigger] preorder(nodes, i).contains(x) implies descends(nodes, i, x as int) by {
        let s = preorder(nodes, i);
        let m = choose|m: int| 0 <= m < s.len() && s[m] == x;
        if m > 0 {
            assert(preorder_children(nodes, i, n)[m - 1] == x);
            assert(preorder_children(nodes, i, n).contains(x));
        } else {
            assert(descends(nodes, i, i));
        }
    }
}

pub proof fn lemma_preorder_children_sound<T>(nodes: Seq<Node<T>>, i: int, k: int)
    requires
        nodes.len() <= usize::MAX,
        child_links_ok(nodes),
        0 <= i < nodes.len(),
        0 <= k <= nodes[i].spec_children().len(),
    ensures
        forall|x: usize| #[trigger] preorder_children(nodes, i, k).contains(x) ==> descends(nodes, i, x as int),
    decreases nodes.len() - i, k,
{
    if k > 0 {
        let c = nodes[i].spec_children()[k - 1] as int;
        lemma_preorder_children_sound(nodes, i, k - 1);
        lemma_preorder_sound(nodes, c);
        let before = preorder_children(nodes, i, k - 1);
        let sub = preorder(nodes, c);
        assert forall|x: usize| #[trigger] preorder_children(nodes, i, k).contains(x) implies descends(nodes, i, x as int) by {
            let s = preorder_children(nodes, i, k);
            assert(s == before + sub);
            let m = choose|m: int| 0 <= m < s.len() && s[m] == x;
            if m < before.len() {
                assert(before[m] == x);
                assert(before.contains(x));
            } else {
                assert(sub[m - before.len()] == x);
                assert(sub.contains(x));
                lemma_descends_through_child(nodes, i, c, x as int);
            }
        }
    }
}

/// The pre-order over the first `k` children holds the pre-order of each of them.
pub proof fn lemma_preorder_children_include<T>(nodes: Seq<Node<T>>, i: int, k: int, m: int, x: usize)
    requires
        nodes.len() <= usize::MAX,
        child_links_ok(nodes),
        0 <= i < nodes.len(),
        0 <= m < k <= nodes[i].spec_children().len(),
        preorder(nodes, nodes[i].spec_children()[m] as int).contains(x),
    ensures
        preorder_children(nodes, i, k).contains(x),
    decreases k,
{
    let before = preorder_children(nodes, i, k - 1);
    let c = nodes[i].spec_children()[k - 1] as int;
    let sub = preorder(nodes, c);
    assert(preorder_children(nodes, i, k) == before + sub);
    if m < k - 1 {
        lemma_preorder_children_include(nodes, i, k - 1, m, x);
        let p = choose|p: int| 0 <= p < before.len() && before[p] == x;
        assert((before + sub)[p] == x);
    } else {
        let p = choose|p: int| 0 <= p < sub.len() && sub[p] == x;
        assert((before + sub)[before.len() + p] == x);
    }
}

/// Every node of the subtree rooted at `i` appears in its pre-order.
pub proof fn lemma_preorder_complete<T>(nodes: Seq<Node<T>>, i: int, x: int)
    requires
        nodes.len() <= usize::MAX,
        child_links_ok(nodes),
        parent_links_ok(nodes),
        descends(nodes, i, x),
    ensures
        preorder(nodes, i).contains(x as usize),
    decreases nodes.len() - i,
{
    lemma_descends_range(nodes, i, x);
    let s = preorder(nodes, i);
    if x == i {
        assert(s[0] == x as usize);
    } else {
        let k = lemma_descends_from_child(nodes, i, x);
        let c = nodes[i].spec_children()[k] as int;
        lemma_preorder_complete(nodes, c, x);
        let n = nodes[i].spec_children().len() as int;
        lemma_preorder_children_include(nodes, i, n, k, x as usize);
        let rest = preorder_children(nodes, i, n);
        let p = choose|p: int| 0 <= p < rest.len() && rest[p] == x as usize;
        assert(s[p + 1] == x as usize);
    }
}

/// The scene is traversed exhaustively: the traversal from a node holds every node of
/// its subtree, and no node outside it.
pub proof fn lemma_traversal_visits_subtree<T>(g: &SceneGraph<T>, i: int, x: int)
    requires
        g.wf(),
        0 <= i < g.spec_nodes().len(),
    ensures
        preorder(g.spec_nodes(), i).contains(x as usize) && 0 <= x < g.spec_nodes().len()
            <==> descends(g.spec_nodes(), i, x),
{
    let nodes = g.spec_nodes();
    assert(g.nodes.len() == nodes.len());
    if descends(nodes, i, x) {
        lemma_descends_range(nodes, i, x);
        lemma_preorder_complete(nodes, i, x);
    }
    if preorder(nodes, i).contains(x as usize) && 0 <= x < nodes.len() {
        lemma_preorder_sound(nodes, i);
    }
}

/// Every index that `kind_indices` lists is in range and of that kind.
pub proof fn lemma_kind_indices_bound(kinds: Seq<NodeType>, k: NodeType, m: int)
    requires
        0 <= m < kind_indices(kinds, k).len(),
        kinds.len() <= usize::MAX,
    ensures
        kind_indices(kinds, k)[m] < kinds.len(),
        kinds[kind_indices(kinds, k)[m] as int] == k,
    decreases kinds.len(),
{
    let before = kind_indices(kinds.drop_last(), k);
    if m < before.len() {
        lemma_kind_indices_bound(kinds.drop_last(), k, m);
        assert(kinds.drop_last()[before[m] as int] == kinds[before[m] as int]);
    } else {
        assert(kind_indices(kinds, k)[m] == (kinds.len() - 1) as usize);
    }
}

/// Once a missing reflection target is found among the first `k` probes, it stays the
/// first one found for any longer prefix.
pub proof fn lemma_first_missing_stays<T>(nodes: Seq<Node<T>>, cameras: Seq<usize>, k: int, cubemap: bool)
    requires
        0 <= k <= cameras.len(),
    ensures
        first_missing_target(nodes, cameras, k, cubemap) is Some ==> first_missing_target(
            nodes,
            cameras,
            cameras.len() as int,
            cubemap,
        ) == first_missing_target(nodes, cameras, k, cubemap),
    decreases cameras.len() - k,
{
    if k < cameras.len() {
        lemma_first_missing_stays(nodes, cameras, k + 1, cubemap);
    }
}

/// A node of the subtree rooted at `a` is `a` or comes after it.
pub proof fn lemma_descends_range<T>(nodes: Seq<Node<T>>, a: int, j: int)
    requires
        descends(nodes, a, j),
    ensures
        a <= j < nodes.len(),
        0 <= a,
    decreases j,
{
    if j != a {
        lemma_descends_range(nodes, a, nodes[j].spec_parent()->0 as int);
    }
}

} // verus!
